//! Character-level text primitives.
//!
//! Every function here works on Unicode scalar values. A text is viewed as a
//! `Seq<char>`; a piece of a text is a half-open range `[from, to)` of
//! positions in it.
use vstd::prelude::*;
use vstd::std_specs::iter::IteratorSpec;

verus! {

/// Whether `c` carries the Unicode property `White_Space`.
pub open spec fn is_space(c: char) -> bool {
    let n = c as u32;
    (0x09 <= n <= 0x0D) || n == 0x20 || n == 0x85 || n == 0xA0 || n == 0x1680 || (0x2000 <= n
        <= 0x200A) || n == 0x2028 || n == 0x2029 || n == 0x202F || n == 0x205F || n == 0x3000
}

/// Executable form of [`is_space`].
pub fn is_whitespace(c: char) -> (b: bool)
    ensures
        b == is_space(c),
{
    let n: u32 = c as u32;
    (0x09 <= n && n <= 0x0D) || n == 0x20 || n == 0x85 || n == 0xA0 || n == 0x1680 || (0x2000
        <= n && n <= 0x200A) || n == 0x2028 || n == 0x2029 || n == 0x202F || n == 0x205F || n
        == 0x3000
}

/// The scalar values of `s`, in order.
pub fn chars_of(s: &str) -> (v: Vec<char>)
    ensures
        v@ == s@,
{
    let n: usize = s.unicode_len();
    let mut v: Vec<char> = Vec::new();
    let mut it = s.chars();
    let ghost all = s@;
    proof {
        vstd::string::axiom_spec_iter(s);
    }
    let mut i: usize = 0;
    while i < n
        invariant
            n == all.len(),
            i <= n,
            v@ == all.subrange(0, i as int),
            it.remaining() == all.subrange(i as int, n as int),
        decreases n - i,
    {
        let ghost before = it;
        let next = it.next();
        proof {
            vstd::string::next_postcondition(&before, &it, next);
            assert(before.remaining()[0] == all[i as int]);
            assert(it.remaining() =~= all.subrange(i + 1, n as int));
        }
        match next {
            Some(c) => {
                v.push(c);
            },
            None => {},
        }
        i = i + 1;
        assert(v@ =~= all.subrange(0, i as int));
    }
    assert(v@ =~= all);
    v
}

/// `String::push`: appends the one scalar value `c` to `s`.
#[verifier::external_body]
fn push_char(s: &mut String, c: char)
    ensures
        final(s)@ == old(s)@.push(c),
{
    s.push(c);
}

/// The string that holds the positions `[from, to)` of `v`.
pub fn string_of(v: &Vec<char>, from: usize, to: usize) -> (s: String)
    requires
        from <= to <= v.len(),
    ensures
        s@ == v@.subrange(from as int, to as int),
{
    let mut s = String::new();
    let mut i: usize = from;
    while i < to
        invariant
            from <= i <= to <= v.len(),
            s@ == v@.subrange(from as int, i as int),
        decreases to - i,
    {
        push_char(&mut s, v[i]);
        i = i + 1;
        assert(s@ =~= v@.subrange(from as int, i as int));
    }
    s
}

/// The scalar values at the positions `[from, to)` of `v`.
pub fn chars_between(v: &Vec<char>, from: usize, to: usize) -> (out: Vec<char>)
    requires
        from <= to <= v.len(),
    ensures
        out@ == v@.subrange(from as int, to as int),
{
    let mut out: Vec<char> = Vec::new();
    let mut i: usize = from;
    while i < to
        invariant
            from <= i <= to <= v.len(),
            out@ == v@.subrange(from as int, i as int),
        decreases to - i,
    {
        out.push(v[i]);
        i = i + 1;
        assert(out@ =~= v@.subrange(from as int, i as int));
    }
    out
}

/// The string that holds all of `v`.
pub fn string_from_chars(v: &Vec<char>) -> (s: String)
    ensures
        s@ == v@,
{
    let s = string_of(v, 0, v.len());
    assert(v@.subrange(0, v.len() as int) =~= v@);
    s
}

/// The first position in `[from, to)` that holds no white space, or `to`.
pub open spec fn skip_spaces(s: Seq<char>, from: int, to: int) -> int
    decreases to - from,
{
    if from < to && 0 <= from < s.len() && is_space(s[from]) {
        skip_spaces(s, from + 1, to)
    } else {
        from
    }
}

/// The end of `[from, to)` once the white space at its end is dropped.
pub open spec fn drop_spaces(s: Seq<char>, from: int, to: int) -> int
    decreases to - from,
{
    if from < to && 0 < to <= s.len() && is_space(s[to - 1]) {
        drop_spaces(s, from, to - 1)
    } else {
        to
    }
}

/// The range `[from, to)` of `s` without leading and trailing white space.
pub open spec fn trimmed_range(s: Seq<char>, from: int, to: int) -> Seq<char> {
    let a = skip_spaces(s, from, to);
    s.subrange(a, drop_spaces(s, a, to))
}

/// `s` without leading and trailing white space.
pub open spec fn trimmed(s: Seq<char>) -> Seq<char> {
    trimmed_range(s, 0, s.len() as int)
}

/// Whether every position of `[from, to)` holds white space.
pub open spec fn blank_range(s: Seq<char>, from: int, to: int) -> bool {
    forall|i: int| from <= i < to ==> is_space(#[trigger] s[i])
}

/// What is skipped is white space, and what follows, if anything, is none.
pub proof fn lemma_skip_spaces(s: Seq<char>, from: int, to: int)
    requires
        0 <= from <= to <= s.len(),
    ensures
        from <= skip_spaces(s, from, to) <= to,
        blank_range(s, from, skip_spaces(s, from, to)),
        skip_spaces(s, from, to) < to ==> !is_space(s[skip_spaces(s, from, to)]),
    decreases to - from,
{
    if from < to && is_space(s[from]) {
        lemma_skip_spaces(s, from + 1, to);
    }
}

/// What is dropped is white space, and what stands before it, if anything,
/// is none.
pub proof fn lemma_drop_spaces(s: Seq<char>, from: int, to: int)
    requires
        0 <= from <= to <= s.len(),
    ensures
        from <= drop_spaces(s, from, to) <= to,
        blank_range(s, drop_spaces(s, from, to), to),
        from < drop_spaces(s, from, to) ==> !is_space(s[drop_spaces(s, from, to) - 1]),
    decreases to - from,
{
    if from < to && is_space(s[to - 1]) {
        lemma_drop_spaces(s, from, to - 1);
    }
}

/// Trimming keeps nothing exactly when the range is blank; what it keeps
/// begins and ends with a scalar value that is no white space.
pub proof fn lemma_trimmed_range(s: Seq<char>, from: int, to: int)
    requires
        0 <= from <= to <= s.len(),
    ensures
        trimmed_range(s, from, to).len() == 0 <==> blank_range(s, from, to),
        trimmed_range(s, from, to).len() > 0 ==> !is_space(trimmed_range(s, from, to).first())
            && !is_space(trimmed_range(s, from, to).last()),
{
    let a = skip_spaces(s, from, to);
    lemma_skip_spaces(s, from, to);
    lemma_drop_spaces(s, a, to);
    let b = drop_spaces(s, a, to);
    if a < to {
        assert(!is_space(s[a]));
        if b == a {
            assert(is_space(s[a]));
        }
        assert(a < b);
        assert(trimmed_range(s, from, to).first() == s[a]);
        assert(trimmed_range(s, from, to).last() == s[b - 1]);
    }
}

/// The bounds of `[from, to)` without leading and trailing white space.
pub fn trim_range(v: &Vec<char>, from: usize, to: usize) -> (r: (usize, usize))
    requires
        from <= to <= v.len(),
    ensures
        r.0 == skip_spaces(v@, from as int, to as int),
        r.1 == drop_spaces(v@, r.0 as int, to as int),
        from <= r.0 <= r.1 <= to,
        v@.subrange(r.0 as int, r.1 as int) == trimmed_range(v@, from as int, to as int),
{
    let mut a: usize = from;
    while a < to && is_whitespace(v[a])
        invariant
            from <= a <= to <= v.len(),
            skip_spaces(v@, from as int, to as int) == skip_spaces(v@, a as int, to as int),
        decreases to - a,
    {
        a = a + 1;
    }
    let mut b: usize = to;
    while a < b && is_whitespace(v[b - 1])
        invariant
            a <= b <= to <= v.len(),
            drop_spaces(v@, a as int, to as int) == drop_spaces(v@, a as int, b as int),
        decreases b - a,
    {
        b = b - 1;
    }
    (a, b)
}

/// Whether `needle` stands in `hay` at position `at`.
pub open spec fn matches_at(hay: Seq<char>, needle: Seq<char>, at: int) -> bool {
    0 <= at && at + needle.len() <= hay.len() && hay.subrange(at, at + needle.len()) == needle
}

/// Whether `needle` stands somewhere wholly inside `[from, to)` of `hay`.
pub open spec fn occurs_in(hay: Seq<char>, from: int, to: int, needle: Seq<char>) -> bool {
    exists|at: int| from <= at && at + needle.len() <= to && #[trigger] matches_at(hay, needle, at)
}

/// Whether `needle` is a substring of `hay`.
pub open spec fn contains(hay: Seq<char>, needle: Seq<char>) -> bool {
    occurs_in(hay, 0, hay.len() as int, needle)
}

/// The first position at or after `from` at which `needle` stands wholly
/// inside `[from, to)` of `hay`; -1 where there is none.
pub open spec fn first_match(hay: Seq<char>, from: int, to: int, needle: Seq<char>) -> int
    decreases to - from + 1,
{
    if from < 0 || from + needle.len() > to {
        -1
    } else if matches_at(hay, needle, from) {
        from
    } else {
        first_match(hay, from + 1, to, needle)
    }
}

/// Tests whether `needle` stands in `hay` at `at`.
pub fn check_at(hay: &Vec<char>, needle: &Vec<char>, at: usize) -> (b: bool)
    requires
        at + needle.len() <= hay.len(),
    ensures
        b == matches_at(hay@, needle@, at as int),
{
    let n: usize = needle.len();
    let mut k: usize = 0;
    while k < n
        invariant
            n == needle.len(),
            k <= n,
            at + n <= hay.len(),
            forall|j: int| 0 <= j < k ==> hay@[at + j] == needle@[j],
        decreases n - k,
    {
        if hay[at + k] != needle[k] {
            proof {
                assert(hay@.subrange(at as int, at + n)[k as int] == hay@[at + k]);
            }
            return false;
        }
        k = k + 1;
    }
    assert(hay@.subrange(at as int, at + n) =~= needle@);
    true
}

/// The first position in `[from, to)` at which `needle` stands wholly inside
/// the range.
pub fn find_in(hay: &Vec<char>, from: usize, to: usize, needle: &Vec<char>) -> (r: Option<usize>)
    requires
        from <= to <= hay.len(),
    ensures
        r is Some == occurs_in(hay@, from as int, to as int, needle@),
        r is Some ==> from <= r->0 && r->0 + needle.len() <= to && matches_at(
            hay@,
            needle@,
            r->0 as int,
        ) && !occurs_in(hay@, from as int, r->0 + needle.len() - 1, needle@),
        match r {
            Some(at) => at == first_match(hay@, from as int, to as int, needle@),
            None => first_match(hay@, from as int, to as int, needle@) == -1,
        },
{
    let n: usize = needle.len();
    if n == 0 {
        assert(hay@.subrange(from as int, from + 0) =~= needle@);
        assert(matches_at(hay@, needle@, from as int));
        return Some(from);
    }
    let mut i: usize = from;
    while to - i >= n
        invariant
            n == needle.len(),
            n > 0,
            from <= i <= to <= hay.len(),
            forall|at: int| from <= at < i ==> !matches_at(hay@, needle@, at),
            first_match(hay@, from as int, to as int, needle@) == first_match(
                hay@,
                i as int,
                to as int,
                needle@,
            ),
        decreases to - i,
    {
        if check_at(hay, needle, i) {
            return Some(i);
        }
        i = i + 1;
    }
    None
}

/// The first position in `[from, to)` that holds `c`, or `to`.
pub open spec fn index_of(s: Seq<char>, from: int, to: int, c: char) -> int
    decreases to - from,
{
    if from < to && 0 <= from < s.len() && s[from] != c {
        index_of(s, from + 1, to, c)
    } else {
        from
    }
}

/// The position found holds `c`, where it lies in the range, and no
/// position before it does.
pub proof fn lemma_index_of(s: Seq<char>, from: int, to: int, c: char)
    requires
        0 <= from <= to <= s.len(),
    ensures
        from <= index_of(s, from, to, c) <= to,
        index_of(s, from, to, c) < to ==> s[index_of(s, from, to, c)] == c,
        forall|i: int| from <= i < index_of(s, from, to, c) ==> s[i] != c,
    decreases to - from,
{
    if from < to && s[from] != c {
        lemma_index_of(s, from + 1, to, c);
    }
}

/// Executable form of [`index_of`].
pub fn find_char(v: &Vec<char>, from: usize, to: usize, c: char) -> (r: usize)
    requires
        from <= to <= v.len(),
    ensures
        r == index_of(v@, from as int, to as int, c),
        from <= r <= to,
{
    let mut i: usize = from;
    while i < to && v[i] != c
        invariant
            from <= i <= to <= v.len(),
            index_of(v@, from as int, to as int, c) == index_of(v@, i as int, to as int, c),
        decreases to - i,
    {
        i = i + 1;
    }
    i
}

/// Where the line that starts at `from` stops: at the next line feed, or at
/// `to` where none follows.
pub open spec fn line_break(s: Seq<char>, from: int, to: int) -> int {
    index_of(s, from, to, '\n')
}

/// The end of the text of the line `[from, brk)`: a carriage return just
/// before the line feed at `brk` belongs to the line ending.
pub open spec fn line_stop(s: Seq<char>, from: int, brk: int, to: int) -> int {
    if brk < to && from < brk && 0 < brk <= s.len() && s[brk - 1] == '\r' {
        brk - 1
    } else {
        brk
    }
}

/// The bounds of the line that starts at `from`, and where the next line
/// starts.
pub fn line_at(v: &Vec<char>, from: usize, to: usize) -> (r: (usize, usize))
    requires
        from < to <= v.len(),
    ensures
        from <= r.0 <= r.1 <= to,
        r.1 == line_break(v@, from as int, to as int),
        r.0 == line_stop(v@, from as int, r.1 as int, to as int),
{
    let brk: usize = find_char(v, from, to, '\n');
    let stop: usize = if brk < to && from < brk && v[brk - 1] == '\r' {
        brk - 1
    } else {
        brk
    };
    (stop, brk)
}

/// The first line of `s` without the white space around it; empty where `s`
/// is empty.
pub open spec fn first_line_trimmed(s: Seq<char>) -> Seq<char> {
    line_trimmed(s, 0)
}

/// The line of `s` that starts at `from`, without its line ending and
/// without the white space around it.
pub open spec fn line_trimmed(s: Seq<char>, from: int) -> Seq<char> {
    let brk = line_break(s, from, s.len() as int);
    trimmed_range(s, from, line_stop(s, from, brk, s.len() as int))
}

/// Whether the line of `s` that starts at `from` contains `q`.
pub open spec fn line_contains(s: Seq<char>, q: Seq<char>, from: int) -> bool {
    let brk = line_break(s, from, s.len() as int);
    occurs_in(s, from, line_stop(s, from, brk, s.len() as int), q)
}

/// Where the first line starts that contains `q`, among the lines that start
/// at `from` or later; -1 where no line contains it. `from` is the start of
/// a line.
pub open spec fn matching_line(s: Seq<char>, q: Seq<char>, from: int) -> int
    decreases s.len() - from,
{
    let brk = line_break(s, from, s.len() as int);
    if from < 0 || from >= s.len() {
        -1
    } else if line_contains(s, q, from) {
        from
    } else if from <= brk && brk < s.len() {
        matching_line(s, q, brk + 1)
    } else {
        -1
    }
}

/// Executable form of [`matching_line`] from the start of the text.
pub fn find_matching_line(v: &Vec<char>, q: &Vec<char>) -> (r: Option<usize>)
    ensures
        r is Some == (matching_line(v@, q@, 0) >= 0),
        r is Some ==> r->0 == matching_line(v@, q@, 0) && r->0 < v.len(),
{
    let n: usize = v.len();
    let mut from: usize = 0;
    while from < n
        invariant
            n == v.len(),
            from <= n,
            matching_line(v@, q@, 0) == matching_line(v@, q@, from as int),
        decreases n - from,
    {
        let (stop, brk) = line_at(v, from, n);
        if find_in(v, from, stop, q).is_some() {
            return Some(from);
        }
        if brk >= n {
            return None;
        }
        from = brk + 1;
    }
    None
}

/// The text of the line of `v` that starts at `from`, trimmed.
pub fn trimmed_line(v: &Vec<char>, from: usize) -> (s: String)
    requires
        from <= v.len(),
    ensures
        s@ == line_trimmed(v@, from as int),
{
    let n: usize = v.len();
    if from >= n {
        proof {
            lemma_skip_spaces(v@, n as int, n as int);
        }
        let (a, b) = trim_range(v, n, n);
        return string_of(v, a, b);
    }
    let (stop, brk) = line_at(v, from, n);
    let (a, b) = trim_range(v, from, stop);
    string_of(v, a, b)
}

/// A trimmed line holds no line feed, and no white space at either end.
pub proof fn lemma_line_trimmed(s: Seq<char>, from: int)
    requires
        0 <= from <= s.len(),
    ensures
        !line_trimmed(s, from).contains('\n'),
        line_trimmed(s, from).len() > 0 ==> !is_space(line_trimmed(s, from).first()) && !is_space(
            line_trimmed(s, from).last(),
        ),
        from < s.len() && !is_space(s[from]) ==> line_trimmed(s, from).len() > 0,
{
    let n = s.len() as int;
    let brk = line_break(s, from, n);
    lemma_index_of(s, from, n, '\n');
    let stop = line_stop(s, from, brk, n);
    lemma_trimmed_range(s, from, stop);
    let a = skip_spaces(s, from, stop);
    lemma_skip_spaces(s, from, stop);
    lemma_drop_spaces(s, a, stop);
    let line = line_trimmed(s, from);
    if line.contains('\n') {
        let k = choose|k: int| 0 <= k < line.len() && line[k] == '\n';
        assert(s[a + k] == '\n');
    }
    if from < n && !is_space(s[from]) {
        assert(from < brk);
        assert(from < stop);
        assert(!blank_range(s, from, stop));
    }
}

/// Whether `s` is fit to be shown as one line: it holds no line feed, and
/// no white space at either end.
pub open spec fn is_trimmed_line(s: Seq<char>) -> bool {
    !s.contains('\n') && (s.len() > 0 ==> !is_space(s.first()) && !is_space(s.last()))
}

/// Whether `s` is fit to be a snippet: one trimmed line that is not empty.
pub open spec fn is_snippet(s: Seq<char>) -> bool {
    s.len() > 0 && is_trimmed_line(s)
}

/// Where a line is found that contains `q`, it is a line of `s` indeed.
pub proof fn lemma_matching_line(s: Seq<char>, q: Seq<char>, from: int)
    requires
        0 <= from <= s.len(),
    ensures
        matching_line(s, q, from) >= 0 ==> from <= matching_line(s, q, from) < s.len()
            && line_contains(s, q, matching_line(s, q, from)),
    decreases s.len() - from,
{
    let brk = line_break(s, from, s.len() as int);
    lemma_index_of(s, from, s.len() as int, '\n');
    if from < s.len() && !line_contains(s, q, from) && brk < s.len() {
        lemma_matching_line(s, q, brk + 1);
    }
}

/// A line that contains a text with a scalar value that is no white space
/// makes a snippet.
pub proof fn lemma_line_with_query_is_snippet(s: Seq<char>, q: Seq<char>, from: int, k: int)
    requires
        0 <= from <= s.len(),
        line_contains(s, q, from),
        0 <= k < q.len(),
        !is_space(q[k]),
    ensures
        is_snippet(line_trimmed(s, from)),
{
    let n = s.len() as int;
    let brk = line_break(s, from, n);
    lemma_index_of(s, from, n, '\n');
    let stop = line_stop(s, from, brk, n);
    let at = choose|at: int| from <= at && at + q.len() <= stop && #[trigger] matches_at(s, q, at);
    assert(s.subrange(at, at + q.len())[k] == q[k]);
    assert(!is_space(s[at + k]));
    lemma_trimmed_range(s, from, stop);
    lemma_line_trimmed(s, from);
}

/// Lexicographic order on texts, scalar value by scalar value: whether `a`
/// comes strictly before `b`.
pub open spec fn lex_less(a: Seq<char>, b: Seq<char>) -> bool
    decreases a.len(),
{
    if b.len() == 0 {
        false
    } else if a.len() == 0 {
        true
    } else if a[0] != b[0] {
        (a[0] as int) < (b[0] as int)
    } else {
        lex_less(a.drop_first(), b.drop_first())
    }
}

/// No text comes before itself, and of two texts at most one comes before
/// the other.
pub proof fn lemma_lex_less_asymmetric(a: Seq<char>, b: Seq<char>)
    ensures
        !(lex_less(a, b) && lex_less(b, a)),
    decreases a.len(),
{
    if a.len() > 0 && b.len() > 0 && a[0] == b[0] {
        lemma_lex_less_asymmetric(a.drop_first(), b.drop_first());
    }
}

/// Two different texts are ordered one way or the other.
pub proof fn lemma_lex_less_total(a: Seq<char>, b: Seq<char>)
    ensures
        a == b || lex_less(a, b) || lex_less(b, a),
    decreases a.len(),
{
    if a.len() > 0 && b.len() > 0 && a[0] == b[0] {
        lemma_lex_less_total(a.drop_first(), b.drop_first());
        if a.drop_first() == b.drop_first() {
            assert(a =~= seq![a[0]] + a.drop_first());
            assert(b =~= seq![b[0]] + b.drop_first());
        }
    } else if a.len() == 0 && b.len() == 0 {
        assert(a =~= b);
    }
}

/// The order is transitive.
pub proof fn lemma_lex_less_transitive(a: Seq<char>, b: Seq<char>, c: Seq<char>)
    requires
        lex_less(a, b),
        lex_less(b, c),
    ensures
        lex_less(a, c),
    decreases a.len(),
{
    if a.len() > 0 && b.len() > 0 && c.len() > 0 && a[0] == b[0] && b[0] == c[0] {
        lemma_lex_less_transitive(a.drop_first(), b.drop_first(), c.drop_first());
    }
}

/// The code point of `c`.
pub fn code_of(c: char) -> (n: u32)
    ensures
        n as int == c as int,
{
    c as u32
}

/// Executable form of [`lex_less`].
pub fn text_less(a: &Vec<char>, b: &Vec<char>) -> (r: bool)
    ensures
        r == lex_less(a@, b@),
{
    let mut i: usize = 0;
    assert(a@.skip(0) =~= a@ && b@.skip(0) =~= b@);
    while i < a.len() && i < b.len() && a[i] == b[i]
        invariant
            i <= a.len(),
            i <= b.len(),
            lex_less(a@, b@) == lex_less(a@.skip(i as int), b@.skip(i as int)),
        decreases a.len() - i,
    {
        proof {
            assert(a@.skip(i as int).drop_first() =~= a@.skip(i + 1));
            assert(b@.skip(i as int).drop_first() =~= b@.skip(i + 1));
        }
        i = i + 1;
    }
    if i >= b.len() {
        false
    } else if i >= a.len() {
        true
    } else {
        let x: char = a[i];
        let y: char = b[i];
        assert(a@.skip(i as int)[0] == x && b@.skip(i as int)[0] == y);
        code_of(x) < code_of(y)
    }
}

} // verus!
