//! Files of settings: lines of the form `NAME=value`.
use crate::notes::is_text;
use crate::text::{
    chars_of, drop_spaces, find_char, index_of, line_at, line_break, line_stop, skip_spaces,
    string_of, trim_range,
};
use vstd::prelude::*;

verus! {

/// Where the setting of the trimmed line `[a, b)` of `s` starts: after the
/// word `export` and a space, where the line starts with them.
pub open spec fn setting_start(s: Seq<char>, a: int, b: int) -> int {
    if a + 7 <= b && s.subrange(a, a + 7) == "export "@ {
        a + 7
    } else {
        a
    }
}

/// The bounds of the value written at `[from, to)`: trimmed, taken out of
/// the double or single quotes that stand around it, and trimmed again.
pub open spec fn setting_value(s: Seq<char>, from: int, to: int) -> (int, int) {
    let a = skip_spaces(s, from, to);
    let b = drop_spaces(s, a, to);
    if b - a >= 2 && ((s[a] == '"' && s[b - 1] == '"') || (s[a] == '\'' && s[b - 1] == '\'')) {
        (skip_spaces(s, a + 1, b - 1), drop_spaces(s, skip_spaces(s, a + 1, b - 1), b - 1))
    } else {
        (a, b)
    }
}

/// What the lines of `s` that start at `from` or later say of the setting
/// `key`: the bounds of the value of the first line that sets it to a value
/// that is not empty. Blank lines and lines that start with `#` are passed
/// over; a line without `=` ends the search.
pub open spec fn setting_from(s: Seq<char>, key: Seq<char>, from: int) -> Option<(int, int)>
    decreases s.len() - from,
{
    let brk = line_break(s, from, s.len() as int);
    let stop = line_stop(s, from, brk, s.len() as int);
    let a = skip_spaces(s, from, stop);
    let b = drop_spaces(s, a, stop);
    let start = setting_start(s, a, b);
    let eq = index_of(s, start, b, '=');
    if from < 0 || from >= s.len() {
        None
    } else if a < b && s[a] != '#' && eq >= b {
        None
    } else if a < b && s[a] != '#' && names_key(s, start, eq, key) && setting_value(s, eq + 1, b).0
        < setting_value(s, eq + 1, b).1 {
        Some(setting_value(s, eq + 1, b))
    } else if from <= brk && brk < s.len() {
        setting_from(s, key, brk + 1)
    } else {
        None
    }
}

/// Whether `[from, to)`, trimmed, is the name `key`.
pub open spec fn names_key(s: Seq<char>, from: int, to: int, key: Seq<char>) -> bool {
    s.subrange(skip_spaces(s, from, to), drop_spaces(s, skip_spaces(s, from, to), to)) == key
}

/// The value that the file with the content `content` gives the setting
/// `key`.
pub open spec fn setting_of(content: Seq<char>, key: Seq<char>) -> Option<Seq<char>> {
    match setting_from(content, key, 0) {
        Some(r) => Some(content.subrange(r.0, r.1)),
        None => None,
    }
}

/// Reads a setting from the content of a file of settings.
pub fn env_file_value(content: &str, key: &str) -> (r: Option<String>)
    ensures
        match r {
            Some(value) => setting_of(content@, key@) == Some(value@),
            None => setting_of(content@, key@) is None,
        },
{
    let v = chars_of(content);
    let k = chars_of(key);
    let export = chars_of("export ");
    proof {
        reveal_strlit("export ");
    }
    let n: usize = v.len();
    let mut from: usize = 0;
    while from < n
        invariant
            n == v.len(),
            from <= n,
            v@ == content@,
            k@ == key@,
            export@ == "export "@,
            export@.len() == 7,
            setting_from(v@, k@, 0) == setting_from(v@, k@, from as int),
        decreases n - from,
    {
        let (stop, brk) = line_at(&v, from, n);
        let (a, b) = trim_range(&v, from, stop);
        if a < b && v[a] != '#' {
            let start: usize = if b - a >= 7 && is_text(&v, a, a + 7, &export) {
                a + 7
            } else {
                a
            };
            let eq: usize = find_char(&v, start, b, '=');
            if eq >= b {
                return None;
            }
            let (ka, kb) = trim_range(&v, start, eq);
            if is_text(&v, ka, kb, &k) {
                let (x, y) = trim_range(&v, eq + 1, b);
                let (lo, hi) = if y - x >= 2 && ((v[x] == '"' && v[y - 1] == '"') || (v[x] == '\''
                    && v[y - 1] == '\'')) {
                    trim_range(&v, x + 1, y - 1)
                } else {
                    (x, y)
                };
                if lo < hi {
                    return Some(string_of(&v, lo, hi));
                }
            }
        }
        if brk >= n {
            return None;
        }
        from = brk + 1;
    }
    None
}

} // verus!
