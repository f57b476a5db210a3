//! The owner's profile: lines that give a field a value.
use crate::notes::is_text;
use crate::text::{
    chars_of, drop_spaces, find_in, first_match, line_at, line_break, line_stop, skip_spaces,
    string_of, trim_range,
};
use vstd::prelude::*;

verus! {

/// The names under which a profile gives the field `key`, longest first.
pub open spec fn profile_aliases(key: Seq<char>) -> Seq<Seq<char>> {
    if key == "name"@ {
        seq!["**Name:**"@, "**Name**"@, "name"@, "Name"@]
    } else if key == "what_to_call_them"@ {
        seq![
            "**What to call them:**"@,
            "**What to call them**"@,
            "what_to_call_them"@,
            "What to call them"@,
        ]
    } else if key == "pronouns"@ {
        seq!["**Pronouns:**"@, "**Pronouns**"@, "pronouns"@, "Pronouns"@]
    } else if key == "timezone"@ {
        seq!["**Timezone:**"@, "**Timezone**"@, "timezone"@, "Timezone"@]
    } else if key == "native_language"@ {
        seq![
            "native_language"@,
            "native_language"@,
            "**Language:**"@,
            "**Language**"@,
            "Language"@,
        ]
    } else if key == "github_username"@ {
        seq!["github_username"@, "github_handle"@]
    } else {
        seq![key]
    }
}

/// Executable form of [`profile_aliases`].
pub fn aliases_of(key: &str) -> (out: Vec<Vec<char>>)
    ensures
        out@.len() == profile_aliases(key@).len(),
        forall|i: int| 0 <= i < out@.len() ==> (#[trigger] out@[i])@ == profile_aliases(key@)[i],
{
    let k = chars_of(key);
    let n: usize = k.len();
    let mut out: Vec<Vec<char>> = Vec::new();
    assert(k@.subrange(0, n as int) =~= k@);
    if is_text(&k, 0, n, &chars_of("name")) {
        out.push(chars_of("**Name:**"));
        out.push(chars_of("**Name**"));
        out.push(chars_of("name"));
        out.push(chars_of("Name"));
    } else if is_text(&k, 0, n, &chars_of("what_to_call_them")) {
        out.push(chars_of("**What to call them:**"));
        out.push(chars_of("**What to call them**"));
        out.push(chars_of("what_to_call_them"));
        out.push(chars_of("What to call them"));
    } else if is_text(&k, 0, n, &chars_of("pronouns")) {
        out.push(chars_of("**Pronouns:**"));
        out.push(chars_of("**Pronouns**"));
        out.push(chars_of("pronouns"));
        out.push(chars_of("Pronouns"));
    } else if is_text(&k, 0, n, &chars_of("timezone")) {
        out.push(chars_of("**Timezone:**"));
        out.push(chars_of("**Timezone**"));
        out.push(chars_of("timezone"));
        out.push(chars_of("Timezone"));
    } else if is_text(&k, 0, n, &chars_of("native_language")) {
        out.push(chars_of("native_language"));
        out.push(chars_of("native_language"));
        out.push(chars_of("**Language:**"));
        out.push(chars_of("**Language**"));
        out.push(chars_of("Language"));
    } else if is_text(&k, 0, n, &chars_of("github_username")) {
        out.push(chars_of("github_username"));
        out.push(chars_of("github_handle"));
    } else {
        out.push(k);
    }
    out
}

/// The first position in `[from, to)` that holds no `*`, or `to`.
pub open spec fn skip_stars(s: Seq<char>, from: int, to: int) -> int
    decreases to - from,
{
    if from < to && 0 <= from < s.len() && s[from] == '*' {
        skip_stars(s, from + 1, to)
    } else {
        from
    }
}

/// The end of `[from, to)` once every `*` at its end is dropped.
pub open spec fn drop_stars(s: Seq<char>, from: int, to: int) -> int
    decreases to - from,
{
    if from < to && 0 < to <= s.len() && s[to - 1] == '*' {
        drop_stars(s, from, to - 1)
    } else {
        to
    }
}

/// The bounds of `[from, to)` without the `*` at either end.
pub fn strip_stars(v: &Vec<char>, from: usize, to: usize) -> (r: (usize, usize))
    requires
        from <= to <= v.len(),
    ensures
        r.0 == skip_stars(v@, from as int, to as int),
        r.1 == drop_stars(v@, r.0 as int, to as int),
        from <= r.0 <= r.1 <= to,
{
    let mut a: usize = from;
    while a < to && v[a] == '*'
        invariant
            from <= a <= to <= v.len(),
            skip_stars(v@, from as int, to as int) == skip_stars(v@, a as int, to as int),
        decreases to - a,
    {
        a = a + 1;
    }
    let mut b: usize = to;
    while a < b && v[b - 1] == '*'
        invariant
            a <= b <= to <= v.len(),
            drop_stars(v@, a as int, to as int) == drop_stars(v@, a as int, b as int),
        decreases b - a,
    {
        b = b - 1;
    }
    (a, b)
}

/// The bounds of the value that `[from, to)` holds once the marks of bold
/// type and the white space around it are taken off.
pub open spec fn cleaned(s: Seq<char>, from: int, to: int) -> (int, int) {
    let a = skip_stars(s, from, to);
    let b = drop_stars(s, a, to);
    let c = skip_spaces(s, a, b);
    (c, drop_spaces(s, c, b))
}

/// The bounds of the value that the trimmed line `[from, to)` of `s` gives
/// under the name `alias`: what follows the first occurrence of the name
/// and a colon, where the colon may be the end of the name itself. `None`
/// where the line does not hold the name, no colon follows, or no value.
pub open spec fn alias_value(s: Seq<char>, from: int, to: int, alias: Seq<char>) -> Option<(int, int)> {
    let at = first_match(s, from, to, alias);
    let a = skip_spaces(s, at + alias.len(), to);
    let b = drop_spaces(s, a, to);
    if at < 0 {
        None
    } else if a < b && s[a] == ':' {
        let c = skip_spaces(s, a + 1, b);
        nonempty(cleaned(s, c, drop_spaces(s, c, b)))
    } else if alias.len() > 0 && alias.last() == ':' && a < b {
        nonempty(cleaned(s, a, b))
    } else {
        None
    }
}

/// The range `r`, where it is not empty.
pub open spec fn nonempty(r: (int, int)) -> Option<(int, int)> {
    if r.0 < r.1 {
        Some(r)
    } else {
        None
    }
}

/// The bounds of the value that the trimmed line `[from, to)` gives under
/// the first of the names `aliases`, from number `k` on, that gives one.
pub open spec fn line_value(s: Seq<char>, from: int, to: int, aliases: Seq<Seq<char>>, k: int) -> Option<
    (int, int),
>
    decreases aliases.len() - k,
{
    if k < 0 || k >= aliases.len() {
        None
    } else if alias_value(s, from, to, aliases[k]) is Some {
        alias_value(s, from, to, aliases[k])
    } else {
        line_value(s, from, to, aliases, k + 1)
    }
}

/// The bounds of the value that the first line gives that gives one, among
/// the lines that start at `from` or later. Blank lines and headings give
/// none.
pub open spec fn value_from(s: Seq<char>, from: int, aliases: Seq<Seq<char>>) -> Option<(int, int)>
    decreases s.len() - from,
{
    let brk = line_break(s, from, s.len() as int);
    let stop = line_stop(s, from, brk, s.len() as int);
    let a = skip_spaces(s, from, stop);
    let b = drop_spaces(s, a, stop);
    if from < 0 || from >= s.len() {
        None
    } else if a < b && s[a] != '#' && line_value(s, a, b, aliases, 0) is Some {
        line_value(s, a, b, aliases, 0)
    } else if from <= brk && brk < s.len() {
        value_from(s, brk + 1, aliases)
    } else {
        None
    }
}

/// The value of the field `key` in the profile `content`.
pub open spec fn profile_value(content: Seq<char>, key: Seq<char>) -> Option<Seq<char>> {
    match value_from(content, 0, profile_aliases(key)) {
        Some(r) => Some(content.subrange(r.0, r.1)),
        None => None,
    }
}

/// The value that the trimmed line `[from, to)` gives under `alias`.
fn value_by_alias(v: &Vec<char>, from: usize, to: usize, alias: &Vec<char>) -> (r: Option<
    (usize, usize),
>)
    requires
        from <= to <= v.len(),
    ensures
        match r {
            Some(r) => alias_value(v@, from as int, to as int, alias@) == Some(
                (r.0 as int, r.1 as int),
            ) && from <= r.0 < r.1 <= to,
            None => alias_value(v@, from as int, to as int, alias@) is None,
        },
{
    let at: usize = match find_in(v, from, to, alias) {
        Some(at) => at,
        None => {
            return None;
        },
    };
    let (a, b) = trim_range(v, at + alias.len(), to);
    let (lo, hi) = if a < b && v[a] == ':' {
        let (c, d) = trim_range(v, a + 1, b);
        (c, d)
    } else if alias.len() > 0 && alias[alias.len() - 1] == ':' && a < b {
        (a, b)
    } else {
        return None;
    };
    let (x, y) = strip_stars(v, lo, hi);
    let (p, q) = trim_range(v, x, y);
    if p < q {
        Some((p, q))
    } else {
        None
    }
}

/// Looks a field of the owner up in the profile: the value of the first
/// line that gives the field one, under its own name or another that the
/// profile uses for it.
pub fn owner_profile_value(content: &str, key: &str) -> (r: Option<String>)
    ensures
        match r {
            Some(value) => profile_value(content@, key@) == Some(value@),
            None => profile_value(content@, key@) is None,
        },
{
    let aliases = aliases_of(key);
    let v = chars_of(content);
    let n: usize = v.len();
    let ghost names = profile_aliases(key@);
    let mut from: usize = 0;
    while from < n
        invariant
            n == v.len(),
            from <= n,
            v@ == content@,
            names == profile_aliases(key@),
            aliases@.len() == names.len(),
            forall|i: int| 0 <= i < aliases@.len() ==> (#[trigger] aliases@[i])@ == names[i],
            value_from(v@, 0, names) == value_from(v@, from as int, names),
        decreases n - from,
    {
        let (stop, brk) = line_at(&v, from, n);
        let (a, b) = trim_range(&v, from, stop);
        if a < b && v[a] != '#' {
            let mut k: usize = 0;
            while k < aliases.len()
                invariant
                    k <= aliases.len(),
                    a < b <= v.len(),
                    n == v.len(),
                    from < n,
                    v@ == content@,
                    names == profile_aliases(key@),
                    value_from(v@, 0, names) == value_from(v@, from as int, names),
                    brk == line_break(v@, from as int, n as int),
                    stop == line_stop(v@, from as int, brk as int, n as int),
                    a == skip_spaces(v@, from as int, stop as int),
                    b == drop_spaces(v@, a as int, stop as int),
                    v@[a as int] != '#',
                    aliases@.len() == names.len(),
                    forall|i: int| 0 <= i < aliases@.len() ==> (#[trigger] aliases@[i])@ == names[i],
                    line_value(v@, a as int, b as int, names, 0) == line_value(
                        v@,
                        a as int,
                        b as int,
                        names,
                        k as int,
                    ),
                decreases aliases.len() - k,
            {
                match value_by_alias(&v, a, b, &aliases[k]) {
                    Some(found) => {
                        return Some(string_of(&v, found.0, found.1));
                    },
                    None => {},
                }
                k = k + 1;
            }
        }
        if brk >= n {
            return None;
        }
        from = brk + 1;
    }
    None
}

} // verus!
