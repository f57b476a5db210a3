//! Splitting a document into chunks: the paragraphs between blank lines.
use crate::text::{
    blank_range, chars_of, is_space, lemma_trimmed_range, string_of, trim_range, trimmed_range,
};
use crate::tokens::texts;
use vstd::prelude::*;

verus! {

/// The text of `s` from `from` on, with every carriage return that is
/// followed by a line feed left out.
pub open spec fn normalized_from(s: Seq<char>, from: int) -> Seq<char>
    decreases s.len() - from,
{
    if from < 0 || from >= s.len() {
        Seq::empty()
    } else if s[from] == '\r' && from + 1 < s.len() && s[from + 1] == '\n' {
        seq!['\n'] + normalized_from(s, from + 2)
    } else {
        seq![s[from]] + normalized_from(s, from + 1)
    }
}

/// `s` with every line ending `\r\n` written as `\n`.
pub open spec fn normalized(s: Seq<char>) -> Seq<char> {
    normalized_from(s, 0)
}

/// Writes every line ending `\r\n` of `v` as `\n`.
pub fn normalize_newlines(v: &Vec<char>) -> (out: Vec<char>)
    ensures
        out@ == normalized(v@),
{
    let mut out: Vec<char> = Vec::new();
    let mut i: usize = 0;
    let n: usize = v.len();
    assert(Seq::<char>::empty() + normalized_from(v@, 0) =~= normalized(v@));
    while i < n
        invariant
            n == v.len(),
            i <= n,
            normalized(v@) == out@ + normalized_from(v@, i as int),
        decreases n - i,
    {
        let ghost before = out@;
        if v[i] == '\r' && n - i > 1 && v[i + 1] == '\n' {
            out.push('\n');
            assert(out@ + normalized_from(v@, i + 2) =~= before + (seq!['\n'] + normalized_from(
                v@,
                i + 2,
            )));
            i = i + 2;
        } else {
            out.push(v[i]);
            assert(out@ + normalized_from(v@, i + 1) =~= before + (seq![v@[i as int]]
                + normalized_from(v@, i + 1)));
            i = i + 1;
        }
    }
    assert(out@ + Seq::<char>::empty() =~= out@);
    out
}

/// The first position at or after `from` where two line feeds stand side by
/// side, or the length of `t` where there is none.
pub open spec fn gap_from(t: Seq<char>, from: int) -> int
    decreases t.len() - from,
{
    if from < 0 || from + 1 >= t.len() {
        t.len() as int
    } else if t[from] == '\n' && t[from + 1] == '\n' {
        from
    } else {
        gap_from(t, from + 1)
    }
}

/// A gap lies at or after the position it is looked for from, and leaves
/// room for its two line feeds.
pub proof fn lemma_gap_from(t: Seq<char>, from: int)
    requires
        0 <= from <= t.len(),
    ensures
        from <= gap_from(t, from) <= t.len(),
        gap_from(t, from) < t.len() ==> gap_from(t, from) + 2 <= t.len(),
    decreases t.len() - from,
{
    if from + 1 < t.len() && !(t[from] == '\n' && t[from + 1] == '\n') {
        lemma_gap_from(t, from + 1);
    }
}

/// Executable form of [`gap_from`].
pub fn find_gap(t: &Vec<char>, from: usize) -> (g: usize)
    requires
        from <= t.len(),
    ensures
        g == gap_from(t@, from as int),
        from <= g <= t.len(),
        g < t.len() ==> g + 2 <= t.len(),
{
    let n: usize = t.len();
    let mut i: usize = from;
    while n - i > 1 && !(t[i] == '\n' && t[i + 1] == '\n')
        invariant
            n == t.len(),
            from <= i <= n,
            gap_from(t@, from as int) == gap_from(t@, i as int),
        decreases n - i,
    {
        i = i + 1;
    }
    if n - i > 1 {
        i
    } else {
        n
    }
}

/// The paragraphs of the normalized text `t` from `from` on: the pieces
/// between pairs of line feeds, each without the white space around it,
/// blank pieces left out.
pub open spec fn paragraphs_from(t: Seq<char>, from: int) -> Seq<Seq<char>>
    decreases t.len() - from,
{
    if 0 <= from && from <= gap_from(t, from) && gap_from(t, from) + 2 <= t.len() {
        piece_at(t, from, gap_from(t, from)) + paragraphs_from(t, gap_from(t, from) + 2)
    } else {
        piece_at(t, from, gap_from(t, from))
    }
}

/// The piece `[from, to)` of `t` as a list of paragraphs: its text without
/// the white space around it, or nothing where the piece is blank.
pub open spec fn piece_at(t: Seq<char>, from: int, to: int) -> Seq<Seq<char>> {
    if trimmed_range(t, from, to).len() == 0 {
        Seq::empty()
    } else {
        seq![trimmed_range(t, from, to)]
    }
}

/// The chunk texts of a document with the content `s`.
pub open spec fn paragraphs(s: Seq<char>) -> Seq<Seq<char>> {
    paragraphs_from(normalized(s), 0)
}

/// Whether `p` is fit to be a chunk: not empty, with no white space at
/// either end.
pub open spec fn is_paragraph(p: Seq<char>) -> bool {
    p.len() > 0 && !is_space(p.first()) && !is_space(p.last())
}

/// Every paragraph is fit to be a chunk.
pub proof fn lemma_paragraphs_from(t: Seq<char>, from: int)
    requires
        0 <= from <= t.len(),
    ensures
        forall|k: int|
            0 <= k < paragraphs_from(t, from).len() ==> is_paragraph(
                #[trigger] paragraphs_from(t, from)[k],
            ),
    decreases t.len() - from,
{
    let g = gap_from(t, from);
    lemma_gap_from(t, from);
    lemma_trimmed_range(t, from, g);
    let head = piece_at(t, from, g);
    if g < t.len() {
        lemma_paragraphs_from(t, g + 2);
    }
    assert forall|k: int| 0 <= k < paragraphs_from(t, from).len() implies is_paragraph(
        #[trigger] paragraphs_from(t, from)[k],
    ) by {
        if k < head.len() {
            assert(paragraphs_from(t, from)[k] == trimmed_range(t, from, g));
        } else {
            assert(paragraphs_from(t, from)[k] == paragraphs_from(t, g + 2)[k - head.len()]);
        }
    }
}

/// A blank document has no paragraph.
pub proof fn lemma_blank_has_no_paragraph(t: Seq<char>, from: int)
    requires
        0 <= from <= t.len(),
        blank_range(t, from, t.len() as int),
    ensures
        paragraphs_from(t, from).len() == 0,
    decreases t.len() - from,
{
    let g = gap_from(t, from);
    lemma_gap_from(t, from);
    lemma_trimmed_range(t, from, g);
    if g < t.len() {
        lemma_blank_has_no_paragraph(t, g + 2);
    }
}

/// Splits a document's content into its chunk texts.
pub fn split_paragraphs(content: &str) -> (out: Vec<String>)
    ensures
        texts(out@) == paragraphs(content@),
        forall|k: int| 0 <= k < out.len() ==> is_paragraph(#[trigger] texts(out@)[k]),
{
    let raw = chars_of(content);
    let t = normalize_newlines(&raw);
    let mut out: Vec<String> = Vec::new();
    let mut from: usize = 0;
    let mut more: bool = true;
    assert(texts(out@) + paragraphs_from(t@, 0) =~= paragraphs_from(t@, 0));
    while more
        invariant
            from <= t.len(),
            more ==> paragraphs_from(t@, 0) == texts(out@) + paragraphs_from(t@, from as int),
            !more ==> paragraphs_from(t@, 0) == texts(out@),
        decreases t.len() - from + (if more { 1int } else { 0int }),
    {
        let g: usize = find_gap(&t, from);
        let (a, b) = trim_range(&t, from, g);
        let ghost before = texts(out@);
        let ghost rest = if g < t.len() {
            paragraphs_from(t@, g + 2)
        } else {
            Seq::<Seq<char>>::empty()
        };
        if a < b {
            let piece = string_of(&t, a, b);
            out.push(piece);
            assert(texts(out@) =~= before.push(t@.subrange(a as int, b as int)));
            assert(texts(out@) + rest =~= before + (seq![t@.subrange(a as int, b as int)] + rest));
        } else {
            assert(texts(out@) + rest =~= before + (Seq::<Seq<char>>::empty() + rest));
        }
        if g >= t.len() {
            more = false;
            assert(texts(out@) + rest =~= texts(out@));
        } else {
            from = g + 2;
        }
    }
    proof {
        lemma_paragraphs_from(t@, 0);
    }
    out
}

} // verus!
