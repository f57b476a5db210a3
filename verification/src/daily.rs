//! Daily files: a front matter with a summary, and a body of entries.
use crate::chunks::{normalize_newlines, normalized};
use crate::notes::{
    bullet_summary, collapse_range, collapsed, extract_summary_text_from_bullet_line, is_text,
};
use crate::period::DayStamp;
use crate::text::{
    chars_of, drop_spaces, find_char, index_of, line_at, line_break, line_stop, skip_spaces,
    string_from_chars, string_of, trim_range, trimmed,
};
use crate::tokens::{holds_text, texts};
use vstd::prelude::*;

verus! {

/// What the scalar value `c` stands for after a backslash.
pub open spec fn unescape(c: char) -> char {
    if c == 'n' {
        '\n'
    } else if c == 't' {
        '\t'
    } else {
        c
    }
}

/// The positions `[from, to)` of `s` with every backslash taken as the start
/// of an escape: `\n` and `\t` stand for a line feed and a tab, any other
/// escaped scalar value for itself; a backslash at the very end stays.
pub open spec fn unescaped_from(s: Seq<char>, from: int, to: int) -> Seq<char>
    decreases to - from,
{
    if from < 0 || from >= to || to > s.len() {
        Seq::empty()
    } else if s[from] != '\\' {
        seq![s[from]] + unescaped_from(s, from + 1, to)
    } else if from + 1 < to {
        seq![unescape(s[from + 1])] + unescaped_from(s, from + 2, to)
    } else {
        seq!['\\']
    }
}

/// The positions `[from, to)` of `s` with every pair of single quotes
/// written as one.
pub open spec fn unquoted_from(s: Seq<char>, from: int, to: int) -> Seq<char>
    decreases to - from,
{
    if from < 0 || from >= to || to > s.len() {
        Seq::empty()
    } else if s[from] == '\'' && from + 1 < to && s[from + 1] == '\'' {
        seq!['\''] + unquoted_from(s, from + 2, to)
    } else {
        seq![s[from]] + unquoted_from(s, from + 1, to)
    }
}

/// The value of the scalar written at `[from, to)` of `s`: trimmed; where it
/// stands in single quotes, what is between them with doubled quotes
/// undone; where it stands in double quotes, what is between them with the
/// escapes undone; else as it is.
pub open spec fn scalar_in(s: Seq<char>, from: int, to: int) -> Seq<char> {
    let a = skip_spaces(s, from, to);
    let b = drop_spaces(s, a, to);
    if b - a >= 2 && s[a] == '\'' && s[b - 1] == '\'' {
        unquoted_from(s, a + 1, b - 1)
    } else if b - a >= 2 && s[a] == '"' && s[b - 1] == '"' {
        unescaped_from(s, a + 1, b - 1)
    } else {
        s.subrange(a, b)
    }
}

/// The value of the scalar `raw`.
pub open spec fn yaml_scalar(raw: Seq<char>) -> Seq<char> {
    scalar_in(raw, 0, raw.len() as int)
}

/// Executable form of [`unescape`].
pub fn unescape_char(c: char) -> (r: char)
    ensures
        r == unescape(c),
{
    if c == 'n' {
        '\n'
    } else if c == 't' {
        '\t'
    } else {
        c
    }
}

/// The value of the scalar written at `[from, to)` of `v`.
pub fn parse_scalar_in(v: &Vec<char>, from: usize, to: usize) -> (out: Vec<char>)
    requires
        from <= to <= v.len(),
    ensures
        out@ == scalar_in(v@, from as int, to as int),
{
    let (a, b) = trim_range(v, from, to);
    let mut out: Vec<char> = Vec::new();
    if b - a >= 2 && v[a] == '\'' && v[b - 1] == '\'' {
        let end: usize = b - 1;
        let mut i: usize = a + 1;
        assert(out@ + unquoted_from(v@, i as int, end as int) =~= unquoted_from(
            v@,
            a + 1,
            end as int,
        ));
        while i < end
            invariant
                a + 1 <= i <= end < v.len(),
                unquoted_from(v@, a + 1, end as int) == out@ + unquoted_from(
                    v@,
                    i as int,
                    end as int,
                ),
            decreases end - i,
        {
            let ghost before = out@;
            if v[i] == '\'' && end - i > 1 && v[i + 1] == '\'' {
                out.push('\'');
                assert(out@ + unquoted_from(v@, i + 2, end as int) =~= before + (seq!['\'']
                    + unquoted_from(v@, i + 2, end as int)));
                i = i + 2;
            } else {
                out.push(v[i]);
                assert(out@ + unquoted_from(v@, i + 1, end as int) =~= before + (seq![v@[i as int]]
                    + unquoted_from(v@, i + 1, end as int)));
                i = i + 1;
            }
        }
        assert(out@ + Seq::<char>::empty() =~= out@);
        out
    } else if b - a >= 2 && v[a] == '"' && v[b - 1] == '"' {
        let end: usize = b - 1;
        let mut i: usize = a + 1;
        assert(out@ + unescaped_from(v@, i as int, end as int) =~= unescaped_from(
            v@,
            a + 1,
            end as int,
        ));
        while i < end
            invariant
                a + 1 <= i <= end < v.len(),
                unescaped_from(v@, a + 1, end as int) == out@ + unescaped_from(
                    v@,
                    i as int,
                    end as int,
                ),
            decreases end - i,
        {
            let ghost before = out@;
            if v[i] != '\\' {
                out.push(v[i]);
                assert(out@ + unescaped_from(v@, i + 1, end as int) =~= before + (seq![v@[i as int]]
                    + unescaped_from(v@, i + 1, end as int)));
                i = i + 1;
            } else if end - i > 1 {
                out.push(unescape_char(v[i + 1]));
                assert(out@ + unescaped_from(v@, i + 2, end as int) =~= before + (seq![
                    unescape(v@[i + 1]),
                ] + unescaped_from(v@, i + 2, end as int)));
                i = i + 2;
            } else {
                out.push('\\');
                assert(unescaped_from(v@, i + 1, end as int) =~= Seq::<char>::empty());
                assert(out@ + unescaped_from(v@, i + 1, end as int) =~= before + seq!['\\']);
                i = i + 1;
            }
        }
        assert(out@ + Seq::<char>::empty() =~= out@);
        out
    } else {
        crate::text::chars_between(v, a, b)
    }
}

/// Reads a scalar as the front matter writes it: plain, or in single or
/// double quotes.
pub fn parse_simple_yaml_scalar(raw: &str) -> (out: String)
    ensures
        out@ == yaml_scalar(raw@),
{
    let v = chars_of(raw);
    let out = parse_scalar_in(&v, 0, v.len());
    string_from_chars(&out)
}

/// The first `n` scalar values of `s` with a backslash before every
/// backslash and every double quote.
pub open spec fn escaped_upto(s: Seq<char>, n: int) -> Seq<char>
    decreases n,
{
    if n <= 0 {
        Seq::empty()
    } else if s[n - 1] == '\\' || s[n - 1] == '"' {
        escaped_upto(s, n - 1).push('\\').push(s[n - 1])
    } else {
        escaped_upto(s, n - 1).push(s[n - 1])
    }
}

/// A daily file with the summary `summary` and the body `body`: the front
/// matter with the summary on one line in double quotes, then the body,
/// closed by a line feed where it has none.
pub open spec fn daily_markdown(summary: Seq<char>, body: Seq<char>) -> Seq<char> {
    "---\nsummary: \""@ + escaped_upto(collapsed(summary), collapsed(summary).len() as int)
        + "\"\n---\n"@ + body + (if body.len() > 0 && body.last() != '\n' {
        seq!['\n']
    } else {
        Seq::empty()
    })
}

/// Writes a daily file: front matter and body.
pub fn render_daily_markdown_with_frontmatter(summary: &str, body: &str) -> (out: String)
    ensures
        out@ == daily_markdown(summary@, body@),
{
    let raw = chars_of(summary);
    let words = collapse_range(&raw, 0, raw.len());
    assert(raw@.subrange(0, raw@.len() as int) =~= raw@);
    let mut encoded: Vec<char> = Vec::new();
    let mut i: usize = 0;
    while i < words.len()
        invariant
            i <= words.len(),
            encoded@ == escaped_upto(words@, i as int),
        decreases words.len() - i,
    {
        let c: char = words[i];
        if c == '\\' || c == '"' {
            encoded.push('\\');
        }
        encoded.push(c);
        i = i + 1;
    }
    let mut out = String::from_str("---\nsummary: \"");
    out.append(string_from_chars(&encoded).as_str());
    out.append("\"\n---\n");
    out.append(body);
    let b = chars_of(body);
    if b.len() > 0 && b[b.len() - 1] != '\n' {
        proof {
            reveal_strlit("\n");
            assert("\n"@ =~= seq!['\n']);
        }
        out.append("\n");
    } else {
        assert(out@ + Seq::<char>::empty() =~= out@);
    }
    out
}

/// Whether the normalized text `t` opens a front matter: its first line is
/// `---`.
pub open spec fn opens_frontmatter(t: Seq<char>) -> bool {
    t.len() >= 3 && t[0] == '-' && t[1] == '-' && t[2] == '-' && (t.len() == 3 || t[3] == '\n')
}

/// Whether the line `[from, brk)` of `t` is `---`.
pub open spec fn is_fence(t: Seq<char>, from: int, brk: int) -> bool {
    brk - from == 3 && t[from] == '-' && t[from + 1] == '-' && t[from + 2] == '-'
}

/// The summary known after the line `[from, brk)` of `t`: the scalar that
/// follows `summary:` where the trimmed line starts with that, else the
/// summary known before.
pub open spec fn summary_after(t: Seq<char>, from: int, brk: int, summary: Option<Seq<char>>) -> Option<
    Seq<char>,
> {
    let a = skip_spaces(t, from, brk);
    let b = drop_spaces(t, a, brk);
    if b - a >= 8 && t.subrange(a, a + 8) == "summary:"@ {
        Some(scalar_in(t, a + 8, b))
    } else {
        summary
    }
}

/// Reads the front matter of `t` from the line that starts at `from` on,
/// with the summary `summary` known so far: the last summary before the
/// closing `---`, and the body after it; `None` where the front matter is
/// never closed.
pub open spec fn frontmatter_from(t: Seq<char>, from: int, summary: Option<Seq<char>>) -> Option<
    (Option<Seq<char>>, Seq<char>),
>
    decreases t.len() - from,
{
    let brk = index_of(t, from, t.len() as int, '\n');
    if from < 0 || from > t.len() {
        None
    } else if is_fence(t, from, brk) {
        Some(
            (
                summary,
                if brk < t.len() {
                    t.subrange(brk + 1, t.len() as int)
                } else {
                    Seq::empty()
                },
            ),
        )
    } else if from <= brk && brk < t.len() {
        frontmatter_from(t, brk + 1, summary_after(t, from, brk, summary))
    } else {
        None
    }
}

/// The summary and the body of a daily file with the content `content`. A
/// file without a front matter, or with one that is never closed, is all
/// body and has no summary.
pub open spec fn frontmatter_and_body(content: Seq<char>) -> (Option<Seq<char>>, Seq<char>) {
    let t = normalized(content);
    if opens_frontmatter(t) && frontmatter_from(t, 4, None) is Some {
        frontmatter_from(t, 4, None)->0
    } else {
        (None, t)
    }
}

/// Splits a daily file into the summary of its front matter and its body.
pub fn parse_daily_frontmatter_and_body(content: &str) -> (r: (Option<String>, String))
    ensures
        r.1@ == frontmatter_and_body(content@).1,
        match r.0 {
            Some(s) => frontmatter_and_body(content@).0 == Some(s@),
            None => frontmatter_and_body(content@).0 is None,
        },
{
    let raw = chars_of(content);
    let t = normalize_newlines(&raw);
    let n: usize = t.len();
    let opens: bool = n >= 3 && t[0] == '-' && t[1] == '-' && t[2] == '-' && (n == 3 || t[3]
        == '\n');
    if !opens || n < 4 {
        return (None, string_from_chars(&t));
    }
    let key = chars_of("summary:");
    proof {
        reveal_strlit("summary:");
    }
    let mut summary: Option<String> = None;
    let mut from: usize = 4;
    let ghost mut known: Option<Seq<char>> = None;
    loop
        invariant
            n == t.len(),
            4 <= from <= n,
            t@ == normalized(content@),
            opens_frontmatter(t@),
            key@ == "summary:"@,
            key@.len() == 8,
            frontmatter_from(t@, 4, None) == frontmatter_from(t@, from as int, known),
            match summary {
                Some(s) => known == Some(s@),
                None => known is None,
            },
        decreases n - from,
    {
        let brk: usize = find_char(&t, from, n, '\n');
        if brk - from == 3 && t[from] == '-' && t[from + 1] == '-' && t[from + 2] == '-' {
            let body = if brk < n {
                string_of(&t, brk + 1, n)
            } else {
                String::new()
            };
            return (summary, body);
        }
        if brk >= n {
            return (None, string_from_chars(&t));
        }
        let (a, b) = trim_range(&t, from, brk);
        if b - a >= 8 && is_text(&t, a, a + 8, &key) {
            let value = parse_scalar_in(&t, a + 8, b);
            summary = Some(string_from_chars(&value));
            proof {
                known = Some(value@);
            }
        }
        from = brk + 1;
    }
}

/// The texts that a summary is made of: those of the bullet lines of `s`
/// from the line that starts at `from` on, each once, until there are three;
/// `parts` holds what the lines before gave.
pub open spec fn summary_parts_from(s: Seq<char>, from: int, parts: Seq<Seq<char>>) -> Seq<Seq<char>>
    decreases s.len() - from,
{
    let brk = line_break(s, from, s.len() as int);
    let stop = line_stop(s, from, brk, s.len() as int);
    if from < 0 || from >= s.len() || parts.len() >= 3 {
        parts
    } else if from <= brk && brk < s.len() {
        summary_parts_from(s, brk + 1, with_part(parts, bullet_summary(s.subrange(from, stop))))
    } else {
        with_part(parts, bullet_summary(s.subrange(from, stop)))
    }
}

/// `parts` with the text `part` added, where there is one that `parts` does
/// not hold yet.
pub open spec fn with_part(parts: Seq<Seq<char>>, part: Option<Seq<char>>) -> Seq<Seq<char>> {
    if part is Some && !parts.contains(part->0) {
        parts.push(part->0)
    } else {
        parts
    }
}

/// The parts of a summary in one line: the first two with ` / ` between
/// them, and a mark that there is more where there is a third.
pub open spec fn joined_summary(parts: Seq<Seq<char>>) -> Seq<char> {
    if parts.len() == 0 {
        Seq::empty()
    } else if parts.len() == 1 {
        parts[0]
    } else if parts.len() == 2 {
        parts[0] + " / "@ + parts[1]
    } else {
        parts[0] + " / "@ + parts[1] + " など"@
    }
}

/// `s`, or its first 87 scalar values and three dots where it has more than
/// 90.
pub open spec fn clipped(s: Seq<char>) -> Seq<char> {
    if s.len() > 90 {
        s.subrange(0, 87) + "..."@
    } else {
        s
    }
}

/// The summary that stands for a day whose file has none: made of the first
/// bullet lines of its body.
pub open spec fn derived_summary(body: Seq<char>) -> Seq<char> {
    clipped(joined_summary(summary_parts_from(body, 0, Seq::empty())))
}

/// Makes a summary of the first bullet lines of a day's body.
pub fn derive_summary_from_body(body: &str) -> (out: String)
    ensures
        out@ == derived_summary(body@),
{
    let v = chars_of(body);
    let n: usize = v.len();
    let mut parts: Vec<String> = Vec::new();
    let mut from: usize = 0;
    let mut more: bool = true;
    assert(texts(parts@) =~= Seq::<Seq<char>>::empty());
    while more && from < n && parts.len() < 3
        invariant
            n == v.len(),
            from <= n,
            more ==> summary_parts_from(v@, 0, Seq::empty()) == summary_parts_from(
                v@,
                from as int,
                texts(parts@),
            ),
            !more ==> summary_parts_from(v@, 0, Seq::empty()) == texts(parts@),
        decreases n - from + (if more { 1int } else { 0int }),
    {
        let (stop, brk) = line_at(&v, from, n);
        let line = string_of(&v, from, stop);
        let ghost before = texts(parts@);
        match extract_summary_text_from_bullet_line(line.as_str()) {
            Some(text) => {
                if !holds_text(&parts, &text) {
                    parts.push(text);
                    assert(texts(parts@) =~= before.push(text@));
                }
            },
            None => {},
        }
        if brk < n {
            from = brk + 1;
        } else {
            more = false;
        }
    }
    let ghost all = texts(parts@);
    assert(parts.len() > 0 ==> all[0] == parts@[0]@);
    assert(parts.len() > 1 ==> all[1] == parts@[1]@);
    let mut summary = String::new();
    if parts.len() >= 1 {
        summary.append(parts[0].as_str());
        assert(summary@ =~= all[0]);
    }
    if parts.len() >= 2 {
        summary.append(" / ");
        summary.append(parts[1].as_str());
    }
    if parts.len() >= 3 {
        summary.append(" など");
    }
    assert(summary@ =~= joined_summary(all));
    let chars = chars_of(summary.as_str());
    if chars.len() > 90 {
        let mut clipped = string_of(&chars, 0, 87);
        clipped.append("...");
        clipped
    } else {
        summary
    }
}

/// The summary of a day: the one that its file gives, trimmed, where that is
/// not empty; else, for a day before `today`, one made of its body; else
/// none.
pub open spec fn daily_summary(
    given: Option<Seq<char>>,
    body: Seq<char>,
    date: DayStamp,
    today: DayStamp,
) -> Seq<char> {
    if given is Some && trimmed(given->0).len() > 0 {
        trimmed(given->0)
    } else if date.days < today.days {
        derived_summary(body)
    } else {
        Seq::empty()
    }
}

/// Settles the summary of the day `date`, seen from the day `today`.
pub fn resolve_daily_summary(
    frontmatter_summary: Option<&str>,
    body: &str,
    date: DayStamp,
    today: DayStamp,
) -> (out: String)
    ensures
        out@ == daily_summary(
            match frontmatter_summary {
                Some(s) => Some(s@),
                None => None,
            },
            body@,
            date,
            today,
        ),
{
    match frontmatter_summary {
        Some(given) => {
            let v = chars_of(given);
            let (a, b) = trim_range(&v, 0, v.len());
            if a < b {
                return string_of(&v, a, b);
            }
        },
        None => {},
    }
    if date.days < today.days {
        derive_summary_from_body(body)
    } else {
        String::new()
    }
}

} // verus!
