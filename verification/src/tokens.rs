//! Tokens: every scalar value that is no white space is a token of its own.
use crate::text::{chars_of, is_space, is_whitespace, string_of};
use vstd::prelude::*;

verus! {

/// The distinct tokens among the first `n` scalar values of `s`, each at the
/// place of its first occurrence.
pub open spec fn tokens_upto(s: Seq<char>, n: int) -> Seq<char>
    decreases n,
{
    if n <= 0 {
        Seq::empty()
    } else {
        let prev = tokens_upto(s, n - 1);
        if is_space(s[n - 1]) || prev.contains(s[n - 1]) {
            prev
        } else {
            prev.push(s[n - 1])
        }
    }
}

/// The distinct tokens of `s`, in the order of their first occurrence.
pub open spec fn tokens_of(s: Seq<char>) -> Seq<char> {
    tokens_upto(s, s.len() as int)
}

/// How often `c` occurs among the first `n` scalar values of `s`.
pub open spec fn count_upto(s: Seq<char>, c: char, n: int) -> nat
    decreases n,
{
    if n <= 0 {
        0
    } else if s[n - 1] == c {
        count_upto(s, c, n - 1) + 1
    } else {
        count_upto(s, c, n - 1)
    }
}

/// How often `c` occurs in `s`.
pub open spec fn count_of(s: Seq<char>, c: char) -> nat {
    count_upto(s, c, s.len() as int)
}

/// Whether `c` occurs among the first `n` scalar values of `s`.
pub open spec fn occurs_upto(s: Seq<char>, c: char, n: int) -> bool {
    exists|i: int| 0 <= i < n && s[i] == c
}

/// The tokens are exactly the scalar values that occur and are no white
/// space, and none is listed twice.
pub proof fn lemma_tokens_upto(s: Seq<char>, n: int)
    requires
        0 <= n <= s.len(),
    ensures
        tokens_upto(s, n).no_duplicates(),
        tokens_upto(s, n).len() <= n,
        forall|c: char| #[trigger]
            tokens_upto(s, n).contains(c) <==> !is_space(c) && occurs_upto(s, c, n),
    decreases n,
{
    if n > 0 {
        lemma_tokens_upto(s, n - 1);
        let prev = tokens_upto(s, n - 1);
        let cur = tokens_upto(s, n);
        let last = s[n - 1];
        assert forall|c: char| #[trigger] cur.contains(c) <==> !is_space(c) && occurs_upto(s, c, n) by {
            if cur.contains(c) {
                let j = choose|j: int| 0 <= j < cur.len() && cur[j] == c;
                if j < prev.len() {
                    assert(prev[j] == c);
                    assert(prev.contains(c));
                    let i = choose|i: int| 0 <= i < n - 1 && s[i] == c;
                    assert(0 <= i < n && s[i] == c);
                } else {
                    assert(c == last);
                    assert(0 <= n - 1 < n && s[n - 1] == c);
                }
            }
            if !is_space(c) && occurs_upto(s, c, n) {
                let i = choose|i: int| 0 <= i < n && s[i] == c;
                if i < n - 1 {
                    assert(occurs_upto(s, c, n - 1));
                    assert(prev.contains(c));
                    let j = choose|j: int| 0 <= j < prev.len() && prev[j] == c;
                    assert(cur[j] == c);
                } else if !prev.contains(c) {
                    assert(cur[prev.len() as int] == c);
                } else {
                    let j = choose|j: int| 0 <= j < prev.len() && prev[j] == c;
                    assert(cur[j] == c);
                }
            }
        }
    }
}

/// A scalar value that occurs is counted at least once, one that does not
/// occur is counted zero times, and nothing is counted more often than there
/// are positions.
pub proof fn lemma_count_upto(s: Seq<char>, c: char, n: int)
    requires
        0 <= n <= s.len(),
    ensures
        count_upto(s, c, n) <= n,
        count_upto(s, c, n) >= 1 <==> occurs_upto(s, c, n),
    decreases n,
{
    if n > 0 {
        lemma_count_upto(s, c, n - 1);
        if occurs_upto(s, c, n - 1) {
            let i = choose|i: int| 0 <= i < n - 1 && s[i] == c;
            assert(0 <= i < n && s[i] == c);
        }
        if s[n - 1] == c {
            assert(0 <= n - 1 < n && s[n - 1] == c);
        }
        if occurs_upto(s, c, n) {
            let i = choose|i: int| 0 <= i < n && s[i] == c;
            if i < n - 1 {
                assert(occurs_upto(s, c, n - 1));
            }
        }
    }
}

/// Counting over two texts in a row adds up.
pub proof fn lemma_count_concat(a: Seq<char>, b: Seq<char>, c: char, n: int)
    requires
        0 <= n <= b.len(),
    ensures
        count_upto(a + b, c, a.len() + n) == count_of(a, c) + count_upto(b, c, n),
    decreases n,
{
    if n > 0 {
        lemma_count_concat(a, b, c, n - 1);
        assert((a + b)[a.len() + n - 1] == b[n - 1]);
    } else {
        lemma_count_prefix(a, a + b, c, a.len() as int);
    }
}

/// Counting depends on the positions counted alone.
pub proof fn lemma_count_prefix(a: Seq<char>, b: Seq<char>, c: char, n: int)
    requires
        0 <= n <= a.len(),
        n <= b.len(),
        forall|i: int| 0 <= i < n ==> a[i] == b[i],
    ensures
        count_upto(a, c, n) == count_upto(b, c, n),
    decreases n,
{
    if n > 0 {
        lemma_count_prefix(a, b, c, n - 1);
    }
}

/// In a list without duplicates an item is counted once.
pub proof fn lemma_count_distinct(s: Seq<char>, c: char, n: int)
    requires
        0 <= n <= s.len(),
        s.no_duplicates(),
    ensures
        count_upto(s, c, n) == (if occurs_upto(s, c, n) { 1nat } else { 0nat }),
    decreases n,
{
    if n > 0 {
        lemma_count_distinct(s, c, n - 1);
        if occurs_upto(s, c, n - 1) {
            let i = choose|i: int| 0 <= i < n - 1 && s[i] == c;
            assert(0 <= i < n && s[i] == c);
            assert(s[n - 1] != c);
        } else if s[n - 1] == c {
            assert(0 <= n - 1 < n && s[n - 1] == c);
        } else if occurs_upto(s, c, n) {
            let i = choose|i: int| 0 <= i < n && s[i] == c;
            assert(0 <= i < n - 1 && s[i] == c);
        }
    }
}

/// Whether `c` is an item of `v`, and where.
pub fn position_of(v: &Vec<char>, c: char) -> (r: Option<usize>)
    ensures
        r is Some == v@.contains(c),
        r is Some ==> r->0 < v.len() && v@[r->0 as int] == c,
{
    let mut i: usize = 0;
    while i < v.len()
        invariant
            i <= v.len(),
            forall|j: int| 0 <= j < i ==> v@[j] != c,
        decreases v.len() - i,
    {
        if v[i] == c {
            return Some(i);
        }
        i = i + 1;
    }
    None
}

/// The distinct tokens of the scalar values `chars`, in the order of their
/// first occurrence.
pub fn distinct_tokens(chars: &Vec<char>) -> (out: Vec<char>)
    ensures
        out@ == tokens_of(chars@),
        out@.no_duplicates(),
        forall|c: char| #[trigger] out@.contains(c) <==> !is_space(c) && chars@.contains(c),
{
    let mut out: Vec<char> = Vec::new();
    let mut i: usize = 0;
    while i < chars.len()
        invariant
            i <= chars.len(),
            out@ == tokens_upto(chars@, i as int),
        decreases chars.len() - i,
    {
        let c: char = chars[i];
        if !is_whitespace(c) && position_of(&out, c).is_none() {
            out.push(c);
        }
        i = i + 1;
    }
    proof {
        lemma_tokens_upto(chars@, chars@.len() as int);
        assert forall|c: char| occurs_upto(chars@, c, chars@.len() as int) == chars@.contains(
            c,
        ) by {
            if chars@.contains(c) {
                let j = choose|j: int| 0 <= j < chars@.len() && chars@[j] == c;
                assert(0 <= j < chars@.len() && chars@[j] == c);
            }
        }
    }
    out
}

/// The ordered, de-duplicated tokens of a query.
pub fn query_chars(query: &str) -> (out: Vec<char>)
    ensures
        out@ == tokens_of(query@),
        out@.no_duplicates(),
        forall|c: char| #[trigger] out@.contains(c) <==> !is_space(c) && query@.contains(c),
{
    let chars = chars_of(query);
    distinct_tokens(&chars)
}

/// The ordered, de-duplicated tokens of a query, each as a string of one
/// scalar value.
pub fn query_tokens(query: &str) -> (out: Vec<String>)
    ensures
        out.len() == tokens_of(query@).len(),
        forall|i: int| 0 <= i < out.len() ==> (#[trigger] out[i])@ == seq![tokens_of(query@)[i]],
{
    let toks = query_chars(query);
    let mut out: Vec<String> = Vec::new();
    let mut i: usize = 0;
    while i < toks.len()
        invariant
            i <= toks.len(),
            out.len() == i,
            forall|j: int| 0 <= j < i ==> (#[trigger] out[j])@ == seq![toks@[j]],
        decreases toks.len() - i,
    {
        let s = string_of(&toks, i, i + 1);
        assert(toks@.subrange(i as int, i + 1) =~= seq![toks@[i as int]]);
        out.push(s);
        i = i + 1;
    }
    out
}

/// A token with the number of its occurrences.
#[derive(Debug, Clone, Copy, PartialEq, Eq)]
pub struct TokenCount {
    pub token: char,
    pub count: u64,
}

impl TokenCount {
    /// The entry for `token` with `count` occurrences.
    pub fn new(token: char, count: u64) -> (entry: TokenCount)
        ensures
            entry.token == token,
            entry.count == count,
    {
        TokenCount { token, count }
    }
}

/// What [`unigram_freqs`] returns for the text `s`: one entry for each
/// distinct token, in the order of first occurrence, with the number of times
/// the token occurs in `s`.
pub open spec fn is_freqs_of(freqs: Seq<TokenCount>, s: Seq<char>) -> bool {
    &&& freqs.len() == tokens_of(s).len()
    &&& forall|i: int|
        0 <= i < freqs.len() ==> (#[trigger] freqs[i]).token == tokens_of(s)[i] && freqs[i].count
            == count_of(s, tokens_of(s)[i])
}

/// Term frequencies of the scalar values `chars`.
pub fn token_counts(chars: &Vec<char>) -> (out: Vec<TokenCount>)
    ensures
        is_freqs_of(out@, chars@),
        forall|i: int| 0 <= i < out.len() ==> (#[trigger] out[i]).count >= 1,
{
    let mut toks: Vec<char> = Vec::new();
    let mut counts: Vec<u64> = Vec::new();
    let mut i: usize = 0;
    while i < chars.len()
        invariant
            i <= chars.len(),
            toks@ == tokens_upto(chars@, i as int),
            counts.len() == toks.len(),
            forall|j: int|
                0 <= j < counts.len() ==> (#[trigger] counts[j]) == count_upto(
                    chars@,
                    toks@[j],
                    i as int,
                ),
        decreases chars.len() - i,
    {
        let c: char = chars[i];
        proof {
            lemma_tokens_upto(chars@, i as int);
            lemma_count_upto(chars@, c, i as int);
        }
        let ghost old_toks = toks@;
        let ghost old_counts = counts@;
        if !is_whitespace(c) {
            match position_of(&toks, c) {
                Some(p) => {
                    let old_count: u64 = counts[p];
                    counts.set(p, old_count + 1);
                },
                None => {
                    toks.push(c);
                    counts.push(1);
                },
            }
        }
        i = i + 1;
        proof {
            assert forall|j: int| 0 <= j < counts.len() implies (#[trigger] counts[j])
                == count_upto(chars@, toks@[j], i as int) by {
                if j < old_toks.len() {
                    assert(old_toks.contains(old_toks[j]));
                    assert(old_counts[j] == count_upto(chars@, old_toks[j], i - 1));
                }
            }
        }
    }
    let mut freqs: Vec<TokenCount> = Vec::new();
    let mut k: usize = 0;
    while k < toks.len()
        invariant
            k <= toks.len(),
            counts.len() == toks.len(),
            freqs@.len() == k,
            forall|j: int|
                0 <= j < k ==> (#[trigger] freqs@[j]).token == toks@[j] && freqs@[j].count
                    == counts@[j],
        decreases toks.len() - k,
    {
        let token: char = toks[k];
        let count: u64 = counts[k];
        freqs.push(TokenCount::new(token, count));
        k = k + 1;
    }
    proof {
        lemma_tokens_upto(chars@, chars@.len() as int);
        assert forall|j: int| 0 <= j < freqs@.len() implies (#[trigger] freqs@[j]).count >= 1 by {
            lemma_count_upto(chars@, toks@[j], chars@.len() as int);
            assert(toks@.contains(toks@[j]));
        }
    }
    freqs
}

/// Term frequencies of a text: for each distinct token, how often it occurs.
pub fn unigram_freqs(text: &str) -> (out: Vec<TokenCount>)
    ensures
        is_freqs_of(out@, text@),
        forall|i: int| 0 <= i < out.len() ==> (#[trigger] out[i]).count >= 1,
{
    let chars = chars_of(text);
    token_counts(&chars)
}

/// The texts of a list of strings.
pub open spec fn texts(v: Seq<String>) -> Seq<Seq<char>> {
    Seq::new(v.len(), |i: int| v[i]@)
}

/// The distinct texts among the first `n` of `s`, each at the place of its
/// first occurrence.
pub open spec fn distinct_upto(s: Seq<Seq<char>>, n: int) -> Seq<Seq<char>>
    decreases n,
{
    if n <= 0 {
        Seq::empty()
    } else {
        let prev = distinct_upto(s, n - 1);
        if prev.contains(s[n - 1]) {
            prev
        } else {
            prev.push(s[n - 1])
        }
    }
}

/// Whether some string of `v` holds the text of `s`.
pub fn holds_text(v: &Vec<String>, s: &String) -> (b: bool)
    ensures
        b == texts(v@).contains(s@),
{
    let mut i: usize = 0;
    while i < v.len()
        invariant
            i <= v.len(),
            forall|j: int| 0 <= j < i ==> texts(v@)[j] != s@,
        decreases v.len() - i,
    {
        if v[i] == *s {
            assert(texts(v@)[i as int] == s@);
            return true;
        }
        i = i + 1;
    }
    false
}

/// Drops every line that occurred before, and keeps the order of the rest.
pub fn dedup_keep_order(lines: Vec<String>) -> (out: Vec<String>)
    ensures
        texts(out@) == distinct_upto(texts(lines@), lines.len() as int),
        texts(out@).no_duplicates(),
{
    let mut out: Vec<String> = Vec::new();
    let mut i: usize = 0;
    assert(texts(out@) =~= Seq::<Seq<char>>::empty());
    while i < lines.len()
        invariant
            i <= lines.len(),
            texts(out@) == distinct_upto(texts(lines@), i as int),
            texts(out@).no_duplicates(),
        decreases lines.len() - i,
    {
        let ghost before = texts(out@);
        if !holds_text(&out, &lines[i]) {
            out.push(lines[i].clone());
            assert(texts(out@) =~= before.push(lines@[i as int]@));
        }
        i = i + 1;
    }
    out
}

} // verus!
