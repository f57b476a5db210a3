//! Rules for the lines of notes, journals and task logs.
use crate::text::{
    blank_range, chars_between, chars_of, drop_spaces, find_char, index_of, is_space,
    is_whitespace, line_at, line_break, line_trimmed, skip_spaces, string_from_chars, string_of,
    trim_range, trimmed, trimmed_range,
};
use crate::corpus::name_start;
use crate::index::{content_digest, sha256_hex};
use crate::tokens::texts;
use vstd::prelude::*;

verus! {

/// The code point of `c`, with the upper-case ASCII letters mapped to their
/// lower-case ones.
pub open spec fn fold_ascii(c: char) -> int {
    if 'A' <= c <= 'Z' {
        c as int + 32
    } else {
        c as int
    }
}

/// Executable form of [`fold_ascii`].
pub fn fold_case(c: char) -> (n: u32)
    ensures
        n == fold_ascii(c),
{
    let n: u32 = c as u32;
    if 65 <= n && n <= 90 {
        n + 32
    } else {
        n
    }
}

/// Whether `a` and `b` are the same text but for the case of ASCII letters.
pub open spec fn same_ignoring_case(a: Seq<char>, b: Seq<char>) -> bool {
    a.len() == b.len() && forall|i: int| 0 <= i < a.len() ==> fold_ascii(a[i]) == fold_ascii(b[i])
}

/// Whether the positions `[from, to)` of `v` hold the text `word`, but for
/// the case of ASCII letters.
pub fn is_word(v: &Vec<char>, from: usize, to: usize, word: &str) -> (b: bool)
    requires
        from <= to <= v.len(),
    ensures
        b == same_ignoring_case(v@.subrange(from as int, to as int), word@),
{
    let w = chars_of(word);
    if to - from != w.len() {
        return false;
    }
    let mut i: usize = 0;
    while i < w.len()
        invariant
            from <= to <= v.len(),
            to - from == w.len(),
            i <= w.len(),
            w@ == word@,
            forall|j: int| 0 <= j < i ==> fold_ascii(v@[from + j]) == fold_ascii(w@[j]),
        decreases w.len() - i,
    {
        if fold_case(v[from + i]) != fold_case(w[i]) {
            assert(v@.subrange(from as int, to as int)[i as int] == v@[from + i]);
            assert(fold_ascii(v@.subrange(from as int, to as int)[i as int]) != fold_ascii(
                word@[i as int],
            ));
            return false;
        }
        i = i + 1;
    }
    assert forall|j: int| 0 <= j < w.len() implies fold_ascii(
        v@.subrange(from as int, to as int)[j],
    ) == fold_ascii(w@[j]) by {
        assert(v@.subrange(from as int, to as int)[j] == v@[from + j]);
    }
    true
}

/// Whether the positions `[from, to)` of `v` hold exactly the text `word`.
pub fn is_text(v: &Vec<char>, from: usize, to: usize, word: &Vec<char>) -> (b: bool)
    requires
        from <= to <= v.len(),
    ensures
        b == (v@.subrange(from as int, to as int) == word@),
{
    if to - from != word.len() {
        return false;
    }
    let mut i: usize = 0;
    while i < word.len()
        invariant
            from <= to <= v.len(),
            to - from == word.len(),
            i <= word.len(),
            forall|j: int| 0 <= j < i ==> v@[from + j] == word@[j],
        decreases word.len() - i,
    {
        if v[from + i] != word[i] {
            assert(v@.subrange(from as int, to as int)[i as int] == v@[from + i]);
            return false;
        }
        i = i + 1;
    }
    assert(v@.subrange(from as int, to as int) =~= word@);
    true
}

/// How many day summaries a report shows by default: 31 for the period
/// `month`, 7 for any other.
pub fn default_summary_limit_for_period(period_raw: &str) -> (limit: usize)
    ensures
        limit == if same_ignoring_case(trimmed(period_raw@), "month"@) {
            31usize
        } else {
            7usize
        },
{
    let v = chars_of(period_raw);
    let (a, b) = trim_range(&v, 0, v.len());
    if is_word(&v, a, b, "month") {
        31
    } else {
        7
    }
}

/// A priority that is none of `P0` to `P3`.
#[derive(Debug, Clone)]
pub struct InvalidPriority {
    /// The text that was given.
    pub raw: String,
}

impl InvalidPriority {
    /// Puts the fields together.
    pub fn new(raw: String) -> (e: InvalidPriority)
        ensures
            e.raw == raw,
    {
        InvalidPriority { raw }
    }

    /// What to tell the user.
    pub fn message(&self) -> (m: String)
        ensures
            m@ == "invalid priority: "@ + self.raw@ + ". use P0, P1, P2, or P3"@,
    {
        let mut m = String::from_str("invalid priority: ");
        m.append(self.raw.as_str());
        m.append(". use P0, P1, P2, or P3");
        m
    }
}

/// The level that `raw` names: 0 to 3 where, trimmed, it is the letter `p`
/// in either case and one of the digits 0 to 3; -1 otherwise.
pub open spec fn priority_level(raw: Seq<char>) -> int {
    let t = trimmed(raw);
    if t.len() == 2 && (t[0] == 'p' || t[0] == 'P') && '0' <= t[1] <= '3' {
        t[1] as int - '0' as int
    } else {
        -1
    }
}

/// The canonical name of a priority level.
pub open spec fn priority_name(level: int) -> Seq<char> {
    if level == 0 {
        "P0"@
    } else if level == 1 {
        "P1"@
    } else if level == 2 {
        "P2"@
    } else {
        "P3"@
    }
}

/// The canonical name of the priority that `raw` names.
pub fn normalize_priority(raw: &str) -> (r: Result<&'static str, InvalidPriority>)
    ensures
        match r {
            Ok(name) => priority_level(raw@) >= 0 && name@ == priority_name(priority_level(raw@)),
            Err(e) => priority_level(raw@) < 0 && e.raw@ == raw@,
        },
{
    let v = chars_of(raw);
    let (a, b) = trim_range(&v, 0, v.len());
    if b - a == 2 && (v[a] == 'p' || v[a] == 'P') {
        let d: char = v[a + 1];
        assert(trimmed(raw@)[0] == v@[a as int] && trimmed(raw@)[1] == d);
        if d == '0' {
            return Ok("P0");
        } else if d == '1' {
            return Ok("P1");
        } else if d == '2' {
            return Ok("P2");
        } else if d == '3' {
            return Ok("P3");
        }
    }
    Err(InvalidPriority::new(String::from_str(raw)))
}

/// Whether `c` is one of the digits 0 to 9.
pub open spec fn is_digit(c: char) -> bool {
    '0' <= c <= '9'
}

/// Whether `s` is a time of day written as two digits, a colon and two
/// digits.
pub open spec fn is_hhmm_text(s: Seq<char>) -> bool {
    s.len() == 5 && is_digit(s[0]) && is_digit(s[1]) && s[2] == ':' && is_digit(s[3]) && is_digit(
        s[4],
    )
}

/// Executable form of [`is_digit`].
pub fn is_ascii_digit(c: char) -> (b: bool)
    ensures
        b == is_digit(c),
{
    let n: u32 = c as u32;
    48 <= n && n <= 57
}

/// Whether the five positions from `from` on hold a time of day.
pub fn is_hhmm_at(v: &Vec<char>, from: usize) -> (b: bool)
    requires
        from + 5 <= v.len(),
    ensures
        b == is_hhmm_text(v@.subrange(from as int, from + 5)),
{
    let ghost s = v@.subrange(from as int, from + 5);
    assert(s[0] == v@[from + 0] && s[1] == v@[from + 1] && s[2] == v@[from + 2] && s[3] == v@[from
        + 3] && s[4] == v@[from + 4]);
    is_ascii_digit(v[from]) && is_ascii_digit(v[from + 1]) && v[from + 2] == ':' && is_ascii_digit(
        v[from + 3],
    ) && is_ascii_digit(v[from + 4])
}

/// Whether `raw` is a time of day written as `HH:MM`.
pub fn is_hhmm(raw: &str) -> (b: bool)
    ensures
        b == is_hhmm_text(raw@),
{
    let v = chars_of(raw);
    if v.len() != 5 {
        return false;
    }
    assert(v@.subrange(0, 5) =~= v@);
    is_hhmm_at(&v, 0)
}

/// `s` itself, or `(none)` where `s` is blank.
pub fn empty_as_na(s: &str) -> (r: String)
    ensures
        r@ == if blank_range(s@, 0, s@.len() as int) {
            "(none)"@
        } else {
            s@
        },
{
    let v = chars_of(s);
    let (a, b) = trim_range(&v, 0, v.len());
    proof {
        crate::text::lemma_trimmed_range(v@, 0, v@.len() as int);
    }
    if a == b {
        String::from_str("(none)")
    } else {
        String::from_str(s)
    }
}

/// Whether the line of `s` that starts at `from` says something: trimmed, it
/// is not empty, no heading, and no lone list marker.
pub open spec fn line_is_meaningful(s: Seq<char>, from: int) -> bool {
    let t = line_trimmed(s, from);
    t.len() > 0 && t[0] != '#' && !(t.len() == 1 && (t[0] == '-' || t[0] == '*'))
}

/// Whether a line that starts at `from` or later says something.
pub open spec fn meaningful_from(s: Seq<char>, from: int) -> bool
    decreases s.len() - from,
{
    let brk = line_break(s, from, s.len() as int);
    if from < 0 || from >= s.len() {
        false
    } else if line_is_meaningful(s, from) {
        true
    } else if from <= brk && brk < s.len() {
        meaningful_from(s, brk + 1)
    } else {
        false
    }
}

/// Whether the owner's preferences hold more than headings, blank lines and
/// empty list items.
pub fn has_meaningful_owner_preferences(content: &str) -> (b: bool)
    ensures
        b == meaningful_from(content@, 0),
{
    let v = chars_of(content);
    let n: usize = v.len();
    let mut from: usize = 0;
    while from < n
        invariant
            n == v.len(),
            from <= n,
            v@ == content@,
            meaningful_from(v@, 0) == meaningful_from(v@, from as int),
        decreases n - from,
    {
        let (stop, brk) = line_at(&v, from, n);
        let (a, b) = trim_range(&v, from, stop);
        let ghost t = line_trimmed(v@, from as int);
        assert(t == v@.subrange(a as int, b as int));
        assert(t.len() == b - a);
        assert(a < b ==> t[0] == v@[a as int]);
        if a < b && v[a] != '#' && !(b - a == 1 && (v[a] == '-' || v[a] == '*')) {
            assert(line_is_meaningful(v@, from as int));
            return true;
        }
        assert(!line_is_meaningful(v@, from as int));
        if brk >= n {
            return false;
        }
        from = brk + 1;
    }
    false
}

/// Where the token in brackets at the start of `s` ends: the position of the
/// first `]` after the `[` that follows the leading white space; -1 where
/// `s` does not start so.
pub open spec fn bracket_end(s: Seq<char>) -> int {
    let open = skip_spaces(s, 0, s.len() as int);
    if 0 <= open < s.len() && s[open] == '[' && index_of(s, open + 1, s.len() as int, ']')
        < s.len() {
        index_of(s, open + 1, s.len() as int, ']')
    } else {
        -1
    }
}

/// Takes a token in brackets off the start of `input`: the trimmed text
/// between `[` and the next `]`, and what follows the `]` without its leading
/// white space.
pub fn take_bracket_token(input: &str) -> (r: Option<(String, String)>)
    ensures
        r is Some == (bracket_end(input@) >= 0),
        r is Some ==> (r->0).0@ == trimmed_range(
            input@,
            skip_spaces(input@, 0, input@.len() as int) + 1,
            bracket_end(input@),
        ) && (r->0).1@ == input@.subrange(
            skip_spaces(input@, bracket_end(input@) + 1, input@.len() as int),
            input@.len() as int,
        ),
{
    let v = chars_of(input);
    let n: usize = v.len();
    let (open, _) = trim_range(&v, 0, n);
    if open >= n || v[open] != '[' {
        return None;
    }
    let end: usize = find_char(&v, open + 1, n, ']');
    if end >= n {
        return None;
    }
    let (a, b) = trim_range(&v, open + 1, end);
    let token = string_of(&v, a, b);
    let (rest_from, _) = trim_range(&v, end + 1, n);
    let rest = string_of(&v, rest_from, n);
    Some((token, rest))
}

/// A line of a task log.
#[derive(Debug, Clone)]
pub struct TaskEntry {
    pub status: String,
    pub timestamp: Option<String>,
    /// Short hash of the task's text, in lower-case hexadecimal.
    pub hash: Option<String>,
    pub text: String,
    pub raw_line: String,
    pub line_index: usize,
    pub source_path: String,
}

/// Whether `c` is a hexadecimal digit.
pub open spec fn is_hex_digit(c: char) -> bool {
    ('0' <= c <= '9') || ('a' <= c <= 'f') || ('A' <= c <= 'F')
}

/// Whether every scalar value of `s` is a hexadecimal digit.
pub open spec fn all_hex(s: Seq<char>) -> bool {
    forall|i: int| 0 <= i < s.len() ==> is_hex_digit(#[trigger] s[i])
}

/// Whether `s` starts with `prefix`.
pub open spec fn starts_with(s: Seq<char>, prefix: Seq<char>) -> bool {
    prefix.len() <= s.len() && s.subrange(0, prefix.len() as int) == prefix
}

/// Whether a task with the hash `hash` and the text `text` is the one that
/// `selector` asks for: a selector of up to seven hexadecimal digits selects
/// by the start of the hash, any other by the whole text; a blank one
/// selects nothing.
pub open spec fn selects(hash: Option<Seq<char>>, text: Seq<char>, selector: Seq<char>) -> bool {
    let q = trimmed(selector);
    if q.len() == 0 {
        false
    } else if all_hex(q) && q.len() <= 7 {
        hash is Some && starts_with(hash->0, q)
    } else {
        text == q
    }
}

/// Executable form of [`is_hex_digit`].
pub fn is_ascii_hexdigit(c: char) -> (b: bool)
    ensures
        b == is_hex_digit(c),
{
    let n: u32 = c as u32;
    (48 <= n && n <= 57) || (97 <= n && n <= 102) || (65 <= n && n <= 70)
}

/// Whether `selector` selects the task `entry`.
pub fn task_selector_matches(entry: &TaskEntry, selector: &str) -> (b: bool)
    ensures
        b == selects(
            match entry.hash {
                Some(h) => Some(h@),
                None => None,
            },
            entry.text@,
            selector@,
        ),
{
    let v = chars_of(selector);
    let (a, b) = trim_range(&v, 0, v.len());
    if a == b {
        return false;
    }
    let ghost q = trimmed(selector@);
    let mut hex: bool = true;
    let mut i: usize = a;
    while i < b
        invariant
            a <= i <= b <= v.len(),
            q == v@.subrange(a as int, b as int),
            hex == (forall|j: int| 0 <= j < i - a ==> is_hex_digit(#[trigger] q[j])),
        decreases b - i,
    {
        if !is_ascii_hexdigit(v[i]) {
            assert(q[i - a] == v@[i as int]);
            hex = false;
        }
        assert(q[i - a] == v@[i as int]);
        i = i + 1;
    }
    if hex && b - a <= 7 {
        match &entry.hash {
            Some(h) => {
                let hv = chars_of(h.as_str());
                if hv.len() < b - a {
                    return false;
                }
                let word = chars_between(&v, a, b);
                is_text(&hv, 0, b - a, &word)
            },
            None => false,
        }
    } else {
        let tv = chars_of(entry.text.as_str());
        let word = chars_between(&v, a, b);
        let same = is_text(&tv, 0, tv.len(), &word);
        assert(tv@.subrange(0, tv@.len() as int) =~= tv@);
        same
    }
}

/// The first `n` scalar values of `s` with every run of white space between
/// two words written as one space, and none before the first word.
pub open spec fn collapsed_upto(s: Seq<char>, n: int) -> Seq<char>
    decreases n,
{
    if n <= 0 {
        Seq::empty()
    } else if is_space(s[n - 1]) {
        collapsed_upto(s, n - 1)
    } else if n >= 2 && is_space(s[n - 2]) && collapsed_upto(s, n - 1).len() > 0 {
        collapsed_upto(s, n - 1).push(' ').push(s[n - 1])
    } else {
        collapsed_upto(s, n - 1).push(s[n - 1])
    }
}

/// The words of `s`, with one space between each two.
pub open spec fn collapsed(s: Seq<char>) -> Seq<char> {
    collapsed_upto(s, s.len() as int)
}

/// The words of the positions `[from, to)` of `v`, with one space between
/// each two.
pub fn collapse_range(v: &Vec<char>, from: usize, to: usize) -> (out: Vec<char>)
    requires
        from <= to <= v.len(),
    ensures
        out@ == collapsed(v@.subrange(from as int, to as int)),
{
    let ghost s = v@.subrange(from as int, to as int);
    let mut out: Vec<char> = Vec::new();
    let mut i: usize = from;
    while i < to
        invariant
            from <= i <= to <= v.len(),
            s == v@.subrange(from as int, to as int),
            out@ == collapsed_upto(s, i - from),
        decreases to - i,
    {
        let c: char = v[i];
        assert(s[i - from] == c);
        if !is_whitespace(c) {
            if i > from && is_whitespace(v[i - 1]) && out.len() > 0 {
                assert(s[i - from - 1] == v@[i - 1]);
                out.push(' ');
            } else if i > from {
                assert(s[i - from - 1] == v@[i - 1]);
            }
            out.push(c);
        }
        i = i + 1;
    }
    out
}

/// Writes every run of white space inside `raw` as one space, and drops the
/// white space around it.
pub fn collapse_inline_whitespace(raw: &str) -> (out: String)
    ensures
        out@ == collapsed(raw@),
{
    let v = chars_of(raw);
    let out = collapse_range(&v, 0, v.len());
    assert(v@.subrange(0, v@.len() as int) =~= v@);
    string_from_chars(&out)
}

/// Where the text of a bullet line starts and ends, after its marker `- `,
/// a leading time of day and a leading token in brackets; `None` where the
/// line is no bullet line.
pub open spec fn bullet_text_range(s: Seq<char>) -> Option<(int, int)> {
    let a = skip_spaces(s, 0, s.len() as int);
    let b = drop_spaces(s, a, s.len() as int);
    if a + 2 <= b && s[a] == '-' && s[a + 1] == ' ' {
        let c = skip_spaces(s, a + 2, b);
        let timed = if c + 5 <= b && crate::notes::is_hhmm_text(s.subrange(c, c + 5)) {
            skip_spaces(s, c + 5, b)
        } else {
            c
        };
        let close = index_of(s, timed + 1, b, ']');
        if timed < b && s[timed] == '[' && close < b {
            Some((skip_spaces(s, close + 1, b), b))
        } else {
            Some((timed, b))
        }
    } else {
        None
    }
}

/// The text that a summary takes from a bullet line: `None` where the line
/// is no bullet line or has no text.
pub open spec fn bullet_summary(s: Seq<char>) -> Option<Seq<char>> {
    match bullet_text_range(s) {
        Some(r) => if collapsed(s.subrange(r.0, r.1)).len() > 0 {
            Some(collapsed(s.subrange(r.0, r.1)))
        } else {
            None
        },
        None => None,
    }
}

/// The text of a bullet line for a summary: the line without its marker, a
/// leading time of day and a leading token in brackets, with its white space
/// collapsed.
pub fn extract_summary_text_from_bullet_line(line: &str) -> (r: Option<String>)
    ensures
        match r {
            Some(text) => bullet_summary(line@) == Some(text@),
            None => bullet_summary(line@) is None,
        },
{
    let v = chars_of(line);
    let n: usize = v.len();
    let (a, b) = trim_range(&v, 0, n);
    if b - a < 2 || v[a] != '-' || v[a + 1] != ' ' {
        return None;
    }
    let (c, _) = trim_range(&v, a + 2, b);
    let mut start: usize = c;
    if b - c >= 5 && is_hhmm_at(&v, c) {
        let (after_time, _) = trim_range(&v, c + 5, b);
        start = after_time;
    }
    if start < b && v[start] == '[' {
        let close: usize = find_char(&v, start + 1, b, ']');
        if close < b {
            let (after_tag, _) = trim_range(&v, close + 1, b);
            start = after_tag;
        }
    }
    let text = collapse_range(&v, start, b);
    if text.len() == 0 {
        None
    } else {
        Some(string_from_chars(&text))
    }
}

/// The notes of one day, as a snapshot shows them.
#[derive(Debug, Clone)]
pub struct RecentDailySection {
    pub date: String,
    pub paths: Vec<String>,
    pub content: String,
}

/// The paths of the first `n` sections, section after section.
pub open spec fn section_paths(entries: Seq<RecentDailySection>, n: int) -> Seq<Seq<char>>
    decreases n,
{
    if n <= 0 {
        Seq::empty()
    } else {
        section_paths(entries, n - 1) + texts(entries[n - 1].paths@)
    }
}

/// The paths of all sections in one list.
pub fn flatten_recent_section_paths(entries: &Vec<RecentDailySection>) -> (out: Vec<String>)
    ensures
        texts(out@) == section_paths(entries@, entries.len() as int),
{
    let mut out: Vec<String> = Vec::new();
    let mut i: usize = 0;
    assert(texts(out@) =~= section_paths(entries@, 0));
    while i < entries.len()
        invariant
            i <= entries.len(),
            texts(out@) == section_paths(entries@, i as int),
        decreases entries.len() - i,
    {
        let ghost done = texts(out@);
        let ghost these = texts(entries@[i as int].paths@);
        let mut k: usize = 0;
        assert(texts(out@) =~= done + these.take(0));
        while k < entries[i].paths.len()
            invariant
                i < entries.len(),
                k <= entries@[i as int].paths.len(),
                these == texts(entries@[i as int].paths@),
                texts(out@) == done + these.take(k as int),
            decreases entries@[i as int].paths.len() - k,
        {
            let ghost before = texts(out@);
            out.push(entries[i].paths[k].clone());
            assert(texts(out@) =~= before.push(these[k as int]));
            assert(done + these.take(k + 1) =~= (done + these.take(k as int)).push(
                these[k as int],
            ));
            k = k + 1;
        }
        assert(these.take(these.len() as int) =~= these);
        i = i + 1;
    }
    out
}

/// The session that a shared transcript at `path` belongs to: what stands
/// between `copilot-session-` and `.md` in its file name, where the name is
/// so made and something stands there.
pub open spec fn shared_session_id(path: Seq<char>) -> Option<Seq<char>> {
    let n = path.len() as int;
    let start = name_start(path, n);
    if n - start > 19 && path.subrange(start, start + 16) == "copilot-session-"@ && path.subrange(
        n - 3,
        n,
    ) == ".md"@ {
        Some(path.subrange(start + 16, n - 3))
    } else {
        None
    }
}

/// The session of a shared transcript, read off its path.
pub fn extract_copilot_session_id_from_share_path(path: &str) -> (r: Option<String>)
    ensures
        match r {
            Some(id) => shared_session_id(path@) == Some(id@),
            None => shared_session_id(path@) is None,
        },
{
    let v = chars_of(path);
    let n: usize = v.len();
    let mut start: usize = n;
    while start > 0 && v[start - 1] != '/'
        invariant
            start <= n,
            n == v.len(),
            name_start(v@, n as int) == name_start(v@, start as int),
        decreases start,
    {
        start = start - 1;
    }
    let prefix = chars_of("copilot-session-");
    let suffix = chars_of(".md");
    proof {
        reveal_strlit("copilot-session-");
        reveal_strlit(".md");
    }
    if n - start > 19 && is_text(&v, start, start + 16, &prefix) && is_text(&v, n - 3, n, &suffix) {
        Some(string_of(&v, start + 16, n - 3))
    } else {
        None
    }
}

/// `s` in lower case, as Unicode maps each of its scalar values.
pub uninterp spec fn lowercase_of(s: Seq<char>) -> Seq<char>;

/// `str::to_lowercase`: the lower-case form of `s`. The contract only names
/// the result.
#[verifier::external_body]
pub(crate) fn to_lowercase(s: &str) -> (lowered: String)
    ensures
        lowered@ == lowercase_of(s@),
{
    s.to_lowercase()
}

/// The field of the owner's profile that the lower-case name `key` stands
/// for: the field's own name, or one of its short forms.
pub open spec fn owner_key_of(key: Seq<char>) -> Option<Seq<char>> {
    if key == "name"@ {
        Some("name"@)
    } else if key == "what_to_call_them"@ || key == "call"@ || key == "nickname"@ {
        Some("what_to_call_them"@)
    } else if key == "pronouns"@ {
        Some("pronouns"@)
    } else if key == "timezone"@ || key == "tz"@ {
        Some("timezone"@)
    } else if key == "language"@ || key == "native_language"@ || key == "lang"@ {
        Some("native_language"@)
    } else if key == "github_username"@ || key == "github"@ || key == "github_handle"@ {
        Some("github_username"@)
    } else if key == "email"@ {
        Some("email"@)
    } else if key == "location"@ {
        Some("location"@)
    } else if key == "occupation"@ || key == "job"@ {
        Some("occupation"@)
    } else if key == "birthday"@ {
        Some("birthday"@)
    } else {
        None
    }
}

/// Whether the text `key` is the word `word`.
fn is_key(key: &Vec<char>, word: &str) -> (b: bool)
    ensures
        b == (key@ == word@),
{
    let w = chars_of(word);
    let same = is_text(key, 0, key.len(), &w);
    assert(key@.subrange(0, key@.len() as int) =~= key@);
    same
}

/// The field of the owner's profile that the lower-case name `key` stands
/// for.
pub fn owner_key_for(key: &str) -> (r: Option<&'static str>)
    ensures
        match r {
            Some(field) => owner_key_of(key@) == Some(field@),
            None => owner_key_of(key@) is None,
        },
{
    let k = chars_of(key);
    if is_key(&k, "name") {
        Some("name")
    } else if is_key(&k, "what_to_call_them") || is_key(&k, "call") || is_key(&k, "nickname") {
        Some("what_to_call_them")
    } else if is_key(&k, "pronouns") {
        Some("pronouns")
    } else if is_key(&k, "timezone") || is_key(&k, "tz") {
        Some("timezone")
    } else if is_key(&k, "language") || is_key(&k, "native_language") || is_key(&k, "lang") {
        Some("native_language")
    } else if is_key(&k, "github_username") || is_key(&k, "github") || is_key(
        &k,
        "github_handle",
    ) {
        Some("github_username")
    } else if is_key(&k, "email") {
        Some("email")
    } else if is_key(&k, "location") {
        Some("location")
    } else if is_key(&k, "occupation") || is_key(&k, "job") {
        Some("occupation")
    } else if is_key(&k, "birthday") {
        Some("birthday")
    } else {
        None
    }
}

/// The field of the owner's profile that `raw` names: trimmed and in lower
/// case, a field's name or one of its short forms.
pub fn canonical_owner_key(raw: &str) -> (r: Option<&'static str>)
    ensures
        match r {
            Some(field) => owner_key_of(lowercase_of(trimmed(raw@))) == Some(field@),
            None => owner_key_of(lowercase_of(trimmed(raw@))) is None,
        },
{
    let v = chars_of(raw);
    let (a, b) = trim_range(&v, 0, v.len());
    let trimmed_raw = string_of(&v, a, b);
    let lowered = to_lowercase(trimmed_raw.as_str());
    owner_key_for(lowered.as_str())
}

/// The short hash by which a task is told from others: the first seven
/// digits of the digest of its text.
pub fn short_task_hash(text: &str) -> (hash: String)
    ensures
        hash@ == sha256_hex(text@).subrange(0, 7),
{
    let digest = content_digest(text);
    let digits = chars_of(digest.as_str());
    string_of(&digits, 0, 7)
}

} // verus!
