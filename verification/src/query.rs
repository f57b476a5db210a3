//! Queries: what each document contributes to its score, by the index and
//! by a direct scan of the corpus.
//!
//! A candidate lists, for a document, the pairs of term frequency and
//! document frequency that its score is summed from, whether the document is
//! owed the bonus for holding the query word for word, and its snippet.
use crate::chunks::is_paragraph;
use crate::index::{views, LexicalIndex, SourceDocument, TermStat};
use crate::text::{
    chars_of, contains, find_in, find_matching_line, first_line_trimmed, is_snippet,
    is_trimmed_line, lemma_line_trimmed, lemma_line_with_query_is_snippet, lemma_matching_line,
    line_trimmed, matching_line, trimmed_line,
};
use crate::tokens::{
    count_of, count_upto, distinct_tokens, holds_text, lemma_tokens_upto, position_of, texts,
    tokens_of,
};
use vstd::prelude::*;

verus! {

/// One summand of a score: a token occurs `tf` times in a unit that is one of
/// `df` units holding it.
#[derive(Debug, Clone, Copy, PartialEq, Eq)]
pub struct TermWeight {
    pub tf: u64,
    pub df: u64,
}

impl View for TermWeight {
    type V = (int, int);

    /// Term frequency and document frequency.
    open spec fn view(&self) -> Self::V {
        (self.tf as int, self.df as int)
    }
}

impl TermWeight {
    /// Puts the fields together.
    pub fn new(tf: u64, df: u64) -> (w: TermWeight)
        ensures
            w.tf == tf,
            w.df == df,
    {
        TermWeight { tf, df }
    }
}

/// A document that matches a query, before its score is summed up.
#[derive(Debug, Clone)]
pub struct Candidate {
    pub path: String,
    /// The summands of the score, in the order in which they were met.
    pub weights: Vec<TermWeight>,
    /// Whether the document holds the query word for word.
    pub exact: bool,
    pub snippet: String,
}

impl View for Candidate {
    type V = (Seq<char>, Seq<(int, int)>, bool, Seq<char>);

    /// Path, weights, exactness and snippet.
    open spec fn view(&self) -> Self::V {
        (self.path@, views(self.weights@), self.exact, self.snippet@)
    }
}

impl Candidate {
    /// Puts the fields together.
    pub fn new(path: String, weights: Vec<TermWeight>, exact: bool, snippet: String) -> (c: Candidate)
        ensures
            c.path == path,
            c.weights == weights,
            c.exact == exact,
            c.snippet == snippet,
    {
        Candidate { path, weights, exact, snippet }
    }
}

/// The candidates of a query, with the number of units that document
/// frequencies are counted against.
#[derive(Debug, Clone)]
pub struct CandidateSet {
    /// Chunks in the index, or documents in the scanned corpus (at least 1
    /// there).
    pub total: usize,
    pub candidates: Vec<Candidate>,
}

/// The document frequency that `stats` records for `token` at or after
/// position `from`: that of the first entry for it, or 0.
pub open spec fn df_from(stats: Seq<TermStat>, token: char, from: int) -> int
    decreases stats.len() - from,
{
    if from < 0 || from >= stats.len() {
        0
    } else if stats[from].token == token {
        stats[from].df as int
    } else {
        df_from(stats, token, from + 1)
    }
}

/// The document frequency that `stats` records for `token`, or 0.
pub open spec fn df_of(stats: Seq<TermStat>, token: char) -> int {
    df_from(stats, token, 0)
}

/// Executable form of [`df_of`].
pub fn lookup_df(stats: &Vec<TermStat>, token: char) -> (df: u64)
    ensures
        df == df_of(stats@, token),
{
    let mut i: usize = 0;
    while i < stats.len()
        invariant
            i <= stats.len(),
            df_of(stats@, token) == df_from(stats@, token, i as int),
        decreases stats.len() - i,
    {
        if stats[i].token == token {
            return stats[i].df;
        }
        i = i + 1;
    }
    0
}

/// Whether `stats` has an entry for one of `tokens`.
pub open spec fn any_known(stats: Seq<TermStat>, tokens: Seq<char>) -> bool {
    exists|i: int| 0 <= i < stats.len() && tokens.contains(#[trigger] stats[i].token)
}

/// Executable form of [`any_known`].
pub fn has_known_token(stats: &Vec<TermStat>, tokens: &Vec<char>) -> (b: bool)
    ensures
        b == any_known(stats@, tokens@),
{
    let mut i: usize = 0;
    while i < stats.len()
        invariant
            i <= stats.len(),
            forall|j: int| 0 <= j < i ==> !tokens@.contains(#[trigger] stats@[j].token),
        decreases stats.len() - i,
    {
        if position_of(tokens, stats[i].token).is_some() {
            return true;
        }
        i = i + 1;
    }
    false
}

/// Whether the posting number `k` of `index` answers the query with the
/// tokens `tokens`: it holds one of them, and its chunk exists.
pub open spec fn is_row(index: LexicalIndex, tokens: Seq<char>, k: int) -> bool {
    0 <= k < index.postings.len() && tokens.contains(index.postings[k].token)
        && index.postings[k].chunk < index.chunks.len()
}

/// The path of the document that holds the chunk of posting number `k`.
pub open spec fn row_path(index: LexicalIndex, k: int) -> Seq<char> {
    index.chunks[index.postings[k].chunk as int].path@
}

/// The text of the chunk of posting number `k`.
pub open spec fn row_text(index: LexicalIndex, k: int) -> Seq<char> {
    index.chunks[index.postings[k].chunk as int].text@
}

/// The paths of the documents with a row among the first `n` postings, each
/// at the place of its first row.
pub open spec fn matched_paths(index: LexicalIndex, tokens: Seq<char>, n: int) -> Seq<Seq<char>>
    decreases n,
{
    if n <= 0 {
        Seq::empty()
    } else {
        let prev = matched_paths(index, tokens, n - 1);
        if is_row(index, tokens, n - 1) && !prev.contains(row_path(index, n - 1)) {
            prev.push(row_path(index, n - 1))
        } else {
            prev
        }
    }
}

/// What a row adds to what is known of its document: a weight; a first
/// snippet, the first line of the row's chunk, where there was none; and, the
/// first time that the chunk holds the query `q` word for word, the bonus and
/// the first line with `q` in it as the snippet.
pub open spec fn absorb(
    state: (Seq<(int, int)>, bool, Seq<char>),
    weight: (int, int),
    text: Seq<char>,
    q: Seq<char>,
) -> (Seq<(int, int)>, bool, Seq<char>) {
    let weights = state.0.push(weight);
    let snippet = if state.2.len() == 0 {
        first_line_trimmed(text)
    } else {
        state.2
    };
    if !state.1 && contains(text, q) {
        (
            weights,
            true,
            if matching_line(text, q, 0) >= 0 {
                line_trimmed(text, matching_line(text, q, 0))
            } else {
                snippet
            },
        )
    } else {
        (weights, state.1, snippet)
    }
}

/// Weights, exactness and snippet of the document `path` after the first `n`
/// postings of `index`, for the query `q`.
pub open spec fn doc_state(index: LexicalIndex, q: Seq<char>, path: Seq<char>, n: int) -> (
    Seq<(int, int)>,
    bool,
    Seq<char>,
)
    decreases n,
{
    if n <= 0 {
        (Seq::empty(), false, Seq::empty())
    } else {
        let prev = doc_state(index, q, path, n - 1);
        if is_row(index, tokens_of(q), n - 1) && row_path(index, n - 1) == path {
            absorb(
                prev,
                (
                    index.postings[n - 1].tf as int,
                    df_of(index.term_stats@, index.postings[n - 1].token),
                ),
                row_text(index, n - 1),
                q,
            )
        } else {
            prev
        }
    }
}

/// Whether a query has no answer in `index` whatever the documents hold: it
/// has no token, the index has no chunk, or the index knows none of its
/// tokens.
pub open spec fn answers_nothing(index: LexicalIndex, q: Seq<char>) -> bool {
    tokens_of(q).len() == 0 || index.chunks.len() == 0 || !any_known(
        index.term_stats@,
        tokens_of(q),
    )
}

/// Whether `found` is the answer of `index` to the query `q`: one candidate
/// for each document with a row, in the order of their first rows, each with
/// what all its rows add up to.
pub open spec fn is_index_answer(found: CandidateSet, index: LexicalIndex, q: Seq<char>) -> bool {
    let n = index.postings.len() as int;
    let paths = matched_paths(index, tokens_of(q), n);
    &&& found.total == index.chunks.len()
    &&& answers_nothing(index, q) ==> found.candidates.len() == 0
    &&& !answers_nothing(index, q) ==> found.candidates.len() == paths.len() && forall|i: int|
        0 <= i < paths.len() ==> (#[trigger] found.candidates[i])@ == (
            paths[i],
            doc_state(index, q, paths[i], n).0,
            doc_state(index, q, paths[i], n).1,
            doc_state(index, q, paths[i], n).2,
        )
}

/// Whether every chunk of `index` is a paragraph, as the chunks of a built
/// index are.
pub open spec fn chunks_are_paragraphs(index: LexicalIndex) -> bool {
    forall|i: int| 0 <= i < index.chunks.len() ==> is_paragraph((#[trigger] index.chunks[i]).text@)
}

/// The snippet of a scanned document is one trimmed line.
pub proof fn lemma_scan_snippet(content: Seq<char>, q: Seq<char>)
    ensures
        is_trimmed_line(scan_snippet(content, q)),
{
    lemma_matching_line(content, q, 0);
    if matching_line(content, q, 0) >= 0 {
        lemma_line_trimmed(content, matching_line(content, q, 0));
    } else {
        lemma_line_trimmed(content, 0);
    }
}

/// Where the chunks are paragraphs and the query has a token, a row leaves
/// its document with a snippet.
pub proof fn lemma_absorb_keeps_snippet(
    state: (Seq<(int, int)>, bool, Seq<char>),
    weight: (int, int),
    text: Seq<char>,
    q: Seq<char>,
)
    requires
        is_paragraph(text),
        tokens_of(q).len() > 0,
        state.2.len() > 0 ==> is_snippet(state.2),
    ensures
        is_snippet(absorb(state, weight, text, q).2),
        absorb(state, weight, text, q).0.len() > 0,
{
    lemma_line_trimmed(text, 0);
    lemma_matching_line(text, q, 0);
    lemma_tokens_upto(q, q.len() as int);
    let c = tokens_of(q)[0];
    assert(tokens_of(q).contains(c));
    let k = choose|k: int| 0 <= k < q.len() && q[k] == c;
    if matching_line(text, q, 0) >= 0 {
        lemma_line_with_query_is_snippet(text, q, matching_line(text, q, 0), k);
    }
}

/// Where the chunks are paragraphs and the query has a token, a document
/// with a row has a snippet, and a document without one has no weight.
pub proof fn lemma_doc_state(index: LexicalIndex, q: Seq<char>, path: Seq<char>, n: int)
    requires
        0 <= n <= index.postings.len(),
        chunks_are_paragraphs(index),
        tokens_of(q).len() > 0,
    ensures
        doc_state(index, q, path, n).0.len() > 0 ==> is_snippet(doc_state(index, q, path, n).2),
        doc_state(index, q, path, n).0.len() == 0 ==> doc_state(index, q, path, n).2.len() == 0,
        matched_paths(index, tokens_of(q), n).contains(path) ==> doc_state(index, q, path, n).0.len()
            > 0,
    decreases n,
{
    if n > 0 {
        lemma_doc_state(index, q, path, n - 1);
        let prev = doc_state(index, q, path, n - 1);
        let before = matched_paths(index, tokens_of(q), n - 1);
        if is_row(index, tokens_of(q), n - 1) && row_path(index, n - 1) == path {
            lemma_absorb_keeps_snippet(
                prev,
                (
                    index.postings[n - 1].tf as int,
                    df_of(index.term_stats@, index.postings[n - 1].token),
                ),
                row_text(index, n - 1),
                q,
            );
        } else if matched_paths(index, tokens_of(q), n).contains(path) {
            let cur = matched_paths(index, tokens_of(q), n);
            let j = choose|j: int| 0 <= j < cur.len() && cur[j] == path;
            if j < before.len() {
                assert(before[j] == path);
            }
            assert(before.contains(path));
        }
    }
}

/// Whether the document `path` has a row among the first `n` postings.
pub open spec fn has_row(index: LexicalIndex, tokens: Seq<char>, path: Seq<char>, n: int) -> bool {
    exists|k: int| 0 <= k < n && is_row(index, tokens, k) && #[trigger] row_path(index, k) == path
}

/// The matched documents are those with a row, each listed once.
pub proof fn lemma_matched_paths(index: LexicalIndex, tokens: Seq<char>, n: int)
    requires
        0 <= n <= index.postings.len(),
    ensures
        matched_paths(index, tokens, n).no_duplicates(),
        forall|path: Seq<char>| #[trigger]
            matched_paths(index, tokens, n).contains(path) <==> has_row(index, tokens, path, n),
    decreases n,
{
    if n > 0 {
        lemma_matched_paths(index, tokens, n - 1);
        let prev = matched_paths(index, tokens, n - 1);
        let cur = matched_paths(index, tokens, n);
        assert forall|path: Seq<char>| #[trigger] cur.contains(path) <==> has_row(
            index,
            tokens,
            path,
            n,
        ) by {
            if cur.contains(path) {
                let j = choose|j: int| 0 <= j < cur.len() && cur[j] == path;
                if j < prev.len() {
                    assert(prev[j] == path);
                    assert(prev.contains(path));
                    let k = choose|k: int|
                        0 <= k < n - 1 && is_row(index, tokens, k) && #[trigger] row_path(index, k)
                            == path;
                    assert(0 <= k < n && is_row(index, tokens, k) && row_path(index, k) == path);
                } else {
                    assert(is_row(index, tokens, n - 1) && row_path(index, n - 1) == path);
                }
            }
            if has_row(index, tokens, path, n) {
                let k = choose|k: int|
                    0 <= k < n && is_row(index, tokens, k) && #[trigger] row_path(index, k) == path;
                if k < n - 1 {
                    assert(has_row(index, tokens, path, n - 1));
                    assert(prev.contains(path));
                    let j = choose|j: int| 0 <= j < prev.len() && prev[j] == path;
                    assert(cur[j] == path);
                } else if prev.contains(path) {
                    let j = choose|j: int| 0 <= j < prev.len() && prev[j] == path;
                    assert(cur[j] == path);
                } else {
                    assert(cur[prev.len() as int] == path);
                }
            }
        }
    }
}

/// A document is owed the bonus exactly when the chunk of one of its rows
/// holds the query word for word.
pub proof fn lemma_doc_exact(index: LexicalIndex, q: Seq<char>, path: Seq<char>, n: int)
    requires
        0 <= n <= index.postings.len(),
    ensures
        doc_state(index, q, path, n).1 <==> exists|k: int|
            0 <= k < n && is_row(index, tokens_of(q), k) && row_path(index, k) == path && contains(
                #[trigger] row_text(index, k),
                q,
            ),
    decreases n,
{
    if n > 0 {
        lemma_doc_exact(index, q, path, n - 1);
        if doc_state(index, q, path, n - 1).1 {
            let k = choose|k: int|
                0 <= k < n - 1 && is_row(index, tokens_of(q), k) && row_path(index, k) == path
                    && contains(#[trigger] row_text(index, k), q);
            assert(0 <= k < n && contains(row_text(index, k), q));
        }
    }
}

/// What the rows of `index` for the document `path` add up to.
fn collect_rows(index: &LexicalIndex, q: &Vec<char>, tokens: &Vec<char>, path: &String) -> (c:
    Candidate)
    requires
        tokens@ == tokens_of(q@),
    ensures
        c@ == (
            path@,
            doc_state(*index, q@, path@, index.postings.len() as int).0,
            doc_state(*index, q@, path@, index.postings.len() as int).1,
            doc_state(*index, q@, path@, index.postings.len() as int).2,
        ),
{
    let mut weights: Vec<TermWeight> = Vec::new();
    let mut exact: bool = false;
    let mut snippet: String = String::new();
    let mut k: usize = 0;
    assert(views(weights@) =~= Seq::<(int, int)>::empty());
    while k < index.postings.len()
        invariant
            k <= index.postings.len(),
            tokens@ == tokens_of(q@),
            (views(weights@), exact, snippet@) == doc_state(*index, q@, path@, k as int),
        decreases index.postings.len() - k,
    {
        let p = index.postings[k];
        if position_of(tokens, p.token).is_some() && p.chunk < index.chunks.len() {
            if index.chunks[p.chunk].path == *path {
                let text = chars_of(index.chunks[p.chunk].text.as_str());
                let ghost before = views(weights@);
                weights.push(TermWeight::new(p.tf, lookup_df(&index.term_stats, p.token)));
                assert(views(weights@) =~= before.push(
                    (p.tf as int, df_of(index.term_stats@, p.token)),
                ));
                if snippet.as_str().is_empty() {
                    snippet = trimmed_line(&text, 0);
                }
                if !exact && find_in(&text, 0, text.len(), q).is_some() {
                    exact = true;
                    match find_matching_line(&text, q) {
                        Some(start) => {
                            snippet = trimmed_line(&text, start);
                        },
                        None => {},
                    }
                }
            }
        }
        k = k + 1;
    }
    Candidate::new(path.clone(), weights, exact, snippet)
}

/// The paths of the documents with a row in `index`, in the order of their
/// first rows.
fn collect_paths(index: &LexicalIndex, tokens: &Vec<char>) -> (paths: Vec<String>)
    ensures
        texts(paths@) == matched_paths(*index, tokens@, index.postings.len() as int),
{
    let mut paths: Vec<String> = Vec::new();
    let mut k: usize = 0;
    assert(texts(paths@) =~= Seq::<Seq<char>>::empty());
    while k < index.postings.len()
        invariant
            k <= index.postings.len(),
            texts(paths@) == matched_paths(*index, tokens@, k as int),
        decreases index.postings.len() - k,
    {
        let p = index.postings[k];
        if position_of(tokens, p.token).is_some() && p.chunk < index.chunks.len() {
            if !holds_text(&paths, &index.chunks[p.chunk].path) {
                let ghost before = texts(paths@);
                paths.push(index.chunks[p.chunk].path.clone());
                assert(texts(paths@) =~= before.push(row_path(*index, k as int)));
            }
        }
        k = k + 1;
    }
    paths
}

/// Answers a query from the index. The rows of the answer are the postings
/// that hold a token of the query and belong to a chunk, in the order of the
/// index; each adds its weight to its document.
pub fn index_candidates(index: &LexicalIndex, query: &str) -> (found: CandidateSet)
    ensures
        is_index_answer(found, *index, query@),
        tokens_of(query@).len() == 0 ==> found.candidates.len() == 0,
        chunks_are_paragraphs(*index) ==> forall|i: int|
            0 <= i < found.candidates.len() ==> is_snippet((#[trigger] found.candidates[i]).snippet@)
                && found.candidates[i].weights.len() > 0,
{
    let q = chars_of(query);
    let tokens = distinct_tokens(&q);
    let mut candidates: Vec<Candidate> = Vec::new();
    let total: usize = index.chunks.len();
    if tokens.len() == 0 || total == 0 || !has_known_token(&index.term_stats, &tokens) {
        return CandidateSet { total, candidates };
    }
    let paths = collect_paths(index, &tokens);
    let ghost n = index.postings.len() as int;
    let mut i: usize = 0;
    while i < paths.len()
        invariant
            i <= paths.len(),
            n == index.postings.len(),
            tokens@ == tokens_of(q@),
            candidates@.len() == i,
            forall|j: int|
                0 <= j < i ==> (#[trigger] candidates@[j])@ == (
                    texts(paths@)[j],
                    doc_state(*index, q@, texts(paths@)[j], n).0,
                    doc_state(*index, q@, texts(paths@)[j], n).1,
                    doc_state(*index, q@, texts(paths@)[j], n).2,
                ),
        decreases paths.len() - i,
    {
        let c = collect_rows(index, &q, &tokens, &paths[i]);
        candidates.push(c);
        i = i + 1;
    }
    proof {
        if chunks_are_paragraphs(*index) {
            assert forall|j: int| 0 <= j < candidates.len() implies is_snippet(
                (#[trigger] candidates[j]).snippet@,
            ) && candidates[j].weights.len() > 0 by {
                let path = texts(paths@)[j];
                assert(matched_paths(*index, tokens_of(q@), n).contains(path));
                lemma_doc_state(*index, q@, path, n);
                assert(views(candidates[j].weights@).len() == candidates[j].weights.len());
            }
        }
    }
    CandidateSet { total, candidates }
}

/// In how many of the first `n` documents the token `c` occurs.
pub open spec fn doc_freq(docs: Seq<SourceDocument>, c: char, n: int) -> int
    decreases n,
{
    if n <= 0 {
        0
    } else if docs[n - 1].content@.contains(c) {
        doc_freq(docs, c, n - 1) + 1
    } else {
        doc_freq(docs, c, n - 1)
    }
}

/// The weights of a document with the text `content` for the first `m` of
/// the tokens `tokens`: one for each token that occurs in it, with the
/// number of its occurrences and the number of documents that hold it.
pub open spec fn scan_weights(
    docs: Seq<SourceDocument>,
    content: Seq<char>,
    tokens: Seq<char>,
    m: int,
) -> Seq<(int, int)>
    decreases m,
{
    if m <= 0 {
        Seq::empty()
    } else if count_of(content, tokens[m - 1]) > 0 {
        scan_weights(docs, content, tokens, m - 1).push(
            (
                count_of(content, tokens[m - 1]) as int,
                doc_freq(docs, tokens[m - 1], docs.len() as int),
            ),
        )
    } else {
        scan_weights(docs, content, tokens, m - 1)
    }
}

/// The snippet of a scanned document: the first line that holds the query
/// `q`, or else the first line; trimmed.
pub open spec fn scan_snippet(content: Seq<char>, q: Seq<char>) -> Seq<char> {
    if matching_line(content, q, 0) >= 0 {
        line_trimmed(content, matching_line(content, q, 0))
    } else {
        first_line_trimmed(content)
    }
}

/// The candidates among the first `n` documents for the query `q`: every
/// document in which a token of the query occurs, in the order of the corpus.
pub open spec fn scanned(docs: Seq<SourceDocument>, q: Seq<char>, n: int) -> Seq<
    (Seq<char>, Seq<(int, int)>, bool, Seq<char>),
>
    decreases n,
{
    if n <= 0 {
        Seq::empty()
    } else {
        let content = docs[n - 1].content@;
        let weights = scan_weights(docs, content, tokens_of(q), tokens_of(q).len() as int);
        if weights.len() > 0 {
            scanned(docs, q, n - 1).push(
                (docs[n - 1].path@, weights, contains(content, q), scan_snippet(content, q)),
            )
        } else {
            scanned(docs, q, n - 1)
        }
    }
}

/// A scanned document has a weight exactly when one of the tokens occurs in
/// it, and each weight stands for at least one occurrence.
pub proof fn lemma_scan_weights(docs: Seq<SourceDocument>, content: Seq<char>, tokens: Seq<char>, m: int)
    requires
        0 <= m <= tokens.len(),
    ensures
        scan_weights(docs, content, tokens, m).len() > 0 <==> exists|k: int|
            0 <= k < m && count_of(content, #[trigger] tokens[k]) > 0,
        forall|j: int|
            0 <= j < scan_weights(docs, content, tokens, m).len() ==> (#[trigger] scan_weights(
                docs,
                content,
                tokens,
                m,
            )[j]).0 >= 1,
    decreases m,
{
    if m > 0 {
        lemma_scan_weights(docs, content, tokens, m - 1);
        let prev = scan_weights(docs, content, tokens, m - 1);
        if prev.len() > 0 {
            let k = choose|k: int| 0 <= k < m - 1 && count_of(content, #[trigger] tokens[k]) > 0;
            assert(0 <= k < m && count_of(content, tokens[k]) > 0);
        }
        if count_of(content, tokens[m - 1]) > 0 {
            assert(0 <= m - 1 < m && count_of(content, tokens[m - 1]) > 0);
        }
        let cur = scan_weights(docs, content, tokens, m);
        assert forall|j: int| 0 <= j < cur.len() implies (#[trigger] cur[j]).0 >= 1 by {
            if j < prev.len() {
                assert(cur[j] == prev[j]);
            }
        }
    }
}

/// Two documents in which every token of the query occurs equally often
/// have the same weights: their scores can differ by the bonus alone.
pub proof fn lemma_equal_counts_give_equal_weights(
    docs: Seq<SourceDocument>,
    first: Seq<char>,
    second: Seq<char>,
    tokens: Seq<char>,
    m: int,
)
    requires
        0 <= m <= tokens.len(),
        forall|k: int| 0 <= k < m ==> count_of(first, tokens[k]) == count_of(second, tokens[k]),
    ensures
        scan_weights(docs, first, tokens, m) == scan_weights(docs, second, tokens, m),
    decreases m,
{
    if m > 0 {
        lemma_equal_counts_give_equal_weights(docs, first, second, tokens, m - 1);
    }
}

/// How often `c` occurs in `v`.
pub fn count_char(v: &Vec<char>, c: char) -> (n: usize)
    ensures
        n == count_of(v@, c),
{
    let mut n: usize = 0;
    let mut i: usize = 0;
    while i < v.len()
        invariant
            i <= v.len(),
            n == count_upto(v@, c, i as int),
            n <= i,
        decreases v.len() - i,
    {
        if v[i] == c {
            n = n + 1;
        }
        i = i + 1;
    }
    n
}

/// Answers a query by reading every document of the corpus. Frequencies are
/// counted over whole documents: a token's weight in a document is the
/// number of its occurrences there, against the number of documents that
/// hold the token.
pub fn scan_candidates(docs: &Vec<SourceDocument>, query: &str) -> (found: CandidateSet)
    ensures
        found.total == if docs.len() == 0 { 1 } else { docs.len() as int },
        views(found.candidates@) == scanned(docs@, query@, docs.len() as int),
        tokens_of(query@).len() == 0 ==> found.candidates.len() == 0,
        forall|i: int|
            0 <= i < found.candidates.len() ==> is_trimmed_line(
                (#[trigger] found.candidates[i]).snippet@,
            ) && found.candidates[i].weights.len() > 0,
{
    let q = chars_of(query);
    let tokens = distinct_tokens(&q);
    let total: usize = if docs.len() == 0 { 1 } else { docs.len() };
    // The scalar values of every document, read once.
    let mut contents: Vec<Vec<char>> = Vec::new();
    let mut d: usize = 0;
    while d < docs.len()
        invariant
            d <= docs.len(),
            contents@.len() == d,
            forall|j: int| 0 <= j < d ==> (#[trigger] contents@[j])@ == docs@[j].content@,
        decreases docs.len() - d,
    {
        contents.push(chars_of(docs[d].content.as_str()));
        d = d + 1;
    }
    // The document frequency of every token of the query.
    let mut dfs: Vec<u64> = Vec::new();
    let mut t: usize = 0;
    while t < tokens.len()
        invariant
            t <= tokens.len(),
            contents@.len() == docs.len(),
            forall|j: int| 0 <= j < docs.len() ==> (#[trigger] contents@[j])@ == docs@[j].content@,
            dfs@.len() == t,
            forall|j: int|
                0 <= j < t ==> (#[trigger] dfs@[j]) == doc_freq(
                    docs@,
                    tokens@[j],
                    docs.len() as int,
                ),
        decreases tokens.len() - t,
    {
        let mut df: u64 = 0;
        let mut e: usize = 0;
        while e < docs.len()
            invariant
                e <= docs.len(),
                t < tokens.len(),
                contents@.len() == docs.len(),
                forall|j: int|
                    0 <= j < docs.len() ==> (#[trigger] contents@[j])@ == docs@[j].content@,
                df == doc_freq(docs@, tokens@[t as int], e as int),
                df <= e,
            decreases docs.len() - e,
        {
            if position_of(&contents[e], tokens[t]).is_some() {
                df = df + 1;
            }
            e = e + 1;
        }
        dfs.push(df);
        t = t + 1;
    }
    let mut candidates: Vec<Candidate> = Vec::new();
    let mut i: usize = 0;
    assert(views(candidates@) =~= scanned(docs@, q@, 0));
    while i < docs.len()
        invariant
            i <= docs.len(),
            tokens@ == tokens_of(q@),
            contents@.len() == docs.len(),
            forall|j: int| 0 <= j < docs.len() ==> (#[trigger] contents@[j])@ == docs@[j].content@,
            dfs@.len() == tokens.len(),
            forall|j: int|
                0 <= j < tokens.len() ==> (#[trigger] dfs@[j]) == doc_freq(
                    docs@,
                    tokens@[j],
                    docs.len() as int,
                ),
            views(candidates@) == scanned(docs@, q@, i as int),
            tokens.len() == 0 ==> candidates.len() == 0,
            forall|j: int|
                0 <= j < candidates.len() ==> is_trimmed_line((#[trigger] candidates[j]).snippet@)
                    && candidates[j].weights.len() > 0,
        decreases docs.len() - i,
    {
        let content = &contents[i];
        let mut weights: Vec<TermWeight> = Vec::new();
        let mut m: usize = 0;
        assert(views(weights@) =~= Seq::<(int, int)>::empty());
        while m < tokens.len()
            invariant
                m <= tokens.len(),
                dfs@.len() == tokens.len(),
                forall|j: int|
                    0 <= j < tokens.len() ==> (#[trigger] dfs@[j]) == doc_freq(
                        docs@,
                        tokens@[j],
                        docs.len() as int,
                    ),
                views(weights@) == scan_weights(docs@, content@, tokens@, m as int),
            decreases tokens.len() - m,
        {
            let tf: usize = count_char(content, tokens[m]);
            if tf > 0 {
                let ghost before = views(weights@);
                weights.push(TermWeight::new(tf as u64, dfs[m]));
                assert(views(weights@) =~= before.push(
                    (tf as int, doc_freq(docs@, tokens@[m as int], docs.len() as int)),
                ));
            }
            m = m + 1;
        }
        if weights.len() > 0 {
            let exact: bool = find_in(content, 0, content.len(), &q).is_some();
            let snippet = match find_matching_line(content, &q) {
                Some(start) => trimmed_line(content, start),
                None => trimmed_line(content, 0),
            };
            let ghost before = views(candidates@);
            proof {
                lemma_scan_snippet(content@, q@);
            }
            let c = Candidate::new(docs[i].path.clone(), weights, exact, snippet);
            candidates.push(c);
            assert(views(candidates@) =~= before.push(c@));
        }
        i = i + 1;
    }
    CandidateSet { total, candidates }
}

} // verus!
