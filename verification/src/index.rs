//! The inverted index and its full rebuild from a corpus.
use crate::chunks::{is_paragraph, paragraphs, split_paragraphs};
use crate::text::is_space;
use crate::tokens::{
    count_of, is_freqs_of, lemma_count_concat, lemma_count_distinct, lemma_count_upto,
    lemma_tokens_upto, occurs_upto, texts, token_counts, tokens_of, unigram_freqs, TokenCount,
};
use sha2::{Digest, Sha256};
use vstd::prelude::*;

verus! {

/// The views of the items of `s`.
pub open spec fn views<T: View>(s: Seq<T>) -> Seq<T::V> {
    Seq::new(s.len(), |i: int| s[i]@)
}

/// A document of the corpus, as the collector read it.
#[derive(Debug, Clone)]
pub struct SourceDocument {
    /// Path relative to the corpus root.
    pub path: String,
    /// The document's text.
    pub content: String,
    /// Time of the last change, in seconds since the epoch.
    pub modified_at: i64,
}

impl SourceDocument {
    /// Puts the fields together.
    pub fn new(path: String, content: String, modified_at: i64) -> (doc: SourceDocument)
        ensures
            doc.path == path,
            doc.content == content,
            doc.modified_at == modified_at,
    {
        SourceDocument { path, content, modified_at }
    }
}

/// What the index records of a document.
#[derive(Debug, Clone)]
pub struct DocumentRow {
    pub path: String,
    /// SHA-256 of the content, in lower-case hexadecimal.
    pub content_hash: String,
    pub modified_at: i64,
}

impl DocumentRow {
    /// Puts the fields together.
    pub fn new(path: String, content_hash: String, modified_at: i64) -> (row: DocumentRow)
        ensures
            row.path == path,
            row.content_hash == content_hash,
            row.modified_at == modified_at,
    {
        DocumentRow { path, content_hash, modified_at }
    }
}

/// A paragraph of a document: the unit that is indexed.
#[derive(Debug, Clone)]
pub struct Chunk {
    /// Path of the document that the chunk belongs to.
    pub path: String,
    /// Place of the chunk within its document, counted from 1.
    pub ordinal: u64,
    pub text: String,
}

impl View for Chunk {
    type V = (Seq<char>, int, Seq<char>);

    /// Path, ordinal and text.
    open spec fn view(&self) -> Self::V {
        (self.path@, self.ordinal as int, self.text@)
    }
}

impl Chunk {
    /// Puts the fields together.
    pub fn new(path: String, ordinal: u64, text: String) -> (chunk: Chunk)
        ensures
            chunk.path == path,
            chunk.ordinal == ordinal,
            chunk.text == text,
    {
        Chunk { path, ordinal, text }
    }
}

/// A token's occurrences in one chunk.
#[derive(Debug, Clone, Copy, PartialEq, Eq)]
pub struct Posting {
    pub token: char,
    /// Position of the chunk in the index's list of chunks.
    pub chunk: usize,
    /// How often the token occurs in the chunk.
    pub tf: u64,
}

impl View for Posting {
    type V = (char, int, int);

    /// Token, chunk and term frequency.
    open spec fn view(&self) -> Self::V {
        (self.token, self.chunk as int, self.tf as int)
    }
}

impl Posting {
    /// Puts the fields together.
    pub fn new(token: char, chunk: usize, tf: u64) -> (posting: Posting)
        ensures
            posting.token == token,
            posting.chunk == chunk,
            posting.tf == tf,
    {
        Posting { token, chunk, tf }
    }
}

/// In how many chunks a token occurs.
#[derive(Debug, Clone, Copy, PartialEq, Eq)]
pub struct TermStat {
    pub token: char,
    pub df: u64,
}

impl TermStat {
    /// Puts the fields together.
    pub fn new(token: char, df: u64) -> (stat: TermStat)
        ensures
            stat.token == token,
            stat.df == df,
    {
        TermStat { token, df }
    }
}

/// The whole index: every table of it.
#[derive(Debug, Clone)]
pub struct LexicalIndex {
    pub documents: Vec<DocumentRow>,
    pub chunks: Vec<Chunk>,
    pub postings: Vec<Posting>,
    pub term_stats: Vec<TermStat>,
}

/// The SHA-256 digest of the UTF-8 encoding of `content`, written as 64
/// lower-case hexadecimal digits.
pub uninterp spec fn sha256_hex(content: Seq<char>) -> Seq<char>;

/// `Sha256` of the crate sha2, fed the bytes of `content` through
/// `Digest::update` and closed with `Digest::finalize`; the digest is
/// formatted with `{:x}`. The contract names the result, and says that the
/// 32 bytes of the digest make 64 digits.
#[verifier::external_body]
pub(crate) fn content_digest(content: &str) -> (hex: String)
    ensures
        hex@ == sha256_hex(content@),
        hex@.len() == 64,
{
    let mut hasher = Sha256::new();
    hasher.update(content.as_bytes());
    format!("{:x}", hasher.finalize())
}

/// Whether `row` is what the index records of `doc`, given the digest
/// `hash` of its content.
pub open spec fn is_row_of(row: DocumentRow, doc: SourceDocument, hash: Seq<char>) -> bool {
    row.path@ == doc.path@ && row.content_hash@ == hash && row.modified_at == doc.modified_at
}

/// The row for `doc`, whose content has the digest `hash`.
pub fn document_row(doc: &SourceDocument, hash: String) -> (row: DocumentRow)
    ensures
        is_row_of(row, *doc, hash@),
{
    DocumentRow::new(doc.path.clone(), hash, doc.modified_at)
}

/// Whether `rows` holds one row for each document of `docs`, in order.
pub open spec fn is_rows_of(rows: Seq<DocumentRow>, docs: Seq<SourceDocument>) -> bool {
    rows.len() == docs.len() && forall|i: int|
        0 <= i < docs.len() ==> is_row_of(#[trigger] rows[i], docs[i], sha256_hex(docs[i].content@))
}

/// One row for each document, in order.
pub fn document_rows(docs: &Vec<SourceDocument>) -> (rows: Vec<DocumentRow>)
    ensures
        is_rows_of(rows@, docs@),
{
    let mut rows: Vec<DocumentRow> = Vec::new();
    let mut i: usize = 0;
    while i < docs.len()
        invariant
            i <= docs.len(),
            rows@.len() == i,
            forall|j: int|
                0 <= j < i ==> is_row_of(#[trigger] rows@[j], docs@[j], sha256_hex(docs@[j].content@)),
        decreases docs.len() - i,
    {
        let hash = content_digest(docs[i].content.as_str());
        rows.push(document_row(&docs[i], hash));
        i = i + 1;
    }
    rows
}

/// The chunks of one document: its paragraphs, numbered from 1.
pub open spec fn doc_chunks(path: Seq<char>, content: Seq<char>) -> Seq<(Seq<char>, int, Seq<char>)> {
    Seq::new(paragraphs(content).len(), |k: int| (path, k + 1, paragraphs(content)[k]))
}

/// The chunks of the first `n` documents, document after document.
pub open spec fn corpus_chunks(docs: Seq<SourceDocument>, n: int) -> Seq<(Seq<char>, int, Seq<char>)>
    decreases n,
{
    if n <= 0 {
        Seq::empty()
    } else {
        corpus_chunks(docs, n - 1) + doc_chunks(docs[n - 1].path@, docs[n - 1].content@)
    }
}

/// Every chunk of a corpus is a paragraph with an ordinal of at least 1.
pub proof fn lemma_corpus_chunks(docs: Seq<SourceDocument>, n: int)
    requires
        0 <= n <= docs.len(),
    ensures
        forall|i: int|
            0 <= i < corpus_chunks(docs, n).len() ==> is_paragraph(
                (#[trigger] corpus_chunks(docs, n)[i]).2,
            ) && corpus_chunks(docs, n)[i].1 >= 1,
    decreases n,
{
    if n > 0 {
        lemma_corpus_chunks(docs, n - 1);
        let prev = corpus_chunks(docs, n - 1);
        let content = docs[n - 1].content@;
        crate::chunks::lemma_paragraphs_from(crate::chunks::normalized(content), 0);
        assert forall|i: int| 0 <= i < corpus_chunks(docs, n).len() implies is_paragraph(
            (#[trigger] corpus_chunks(docs, n)[i]).2,
        ) && corpus_chunks(docs, n)[i].1 >= 1 by {
            if i >= prev.len() {
                assert(corpus_chunks(docs, n)[i].2 == paragraphs(content)[i - prev.len()]);
            } else {
                assert(corpus_chunks(docs, n)[i] == prev[i]);
            }
        }
    }
}

/// Splits every document into its chunks: the paragraphs between blank
/// lines, with ordinals that start at 1 in each document.
pub fn chunk_documents(docs: &Vec<SourceDocument>) -> (chunks: Vec<Chunk>)
    ensures
        views(chunks@) == corpus_chunks(docs@, docs.len() as int),
        forall|i: int|
            0 <= i < chunks.len() ==> is_paragraph((#[trigger] chunks[i]).text@) && chunks[i].ordinal
                >= 1,
{
    let mut chunks: Vec<Chunk> = Vec::new();
    let mut i: usize = 0;
    assert(views(chunks@) =~= corpus_chunks(docs@, 0));
    while i < docs.len()
        invariant
            i <= docs.len(),
            views(chunks@) == corpus_chunks(docs@, i as int),
        decreases docs.len() - i,
    {
        let pieces = split_paragraphs(docs[i].content.as_str());
        let ghost done = corpus_chunks(docs@, i as int);
        let ghost these = doc_chunks(docs@[i as int].path@, docs@[i as int].content@);
        let mut k: usize = 0;
        assert(views(chunks@) =~= done + these.take(0));
        while k < pieces.len()
            invariant
                i < docs.len(),
                k <= pieces.len(),
                texts(pieces@) == paragraphs(docs@[i as int].content@),
                these == doc_chunks(docs@[i as int].path@, docs@[i as int].content@),
                views(chunks@) == done + these.take(k as int),
            decreases pieces.len() - k,
        {
            let ghost before = views(chunks@);
            assert(texts(pieces@)[k as int] == pieces@[k as int]@);
            chunks.push(Chunk::new(docs[i].path.clone(), (k + 1) as u64, pieces[k].clone()));
            assert(views(chunks@) =~= before.push(these[k as int]));
            assert(done + these.take(k + 1) =~= (done + these.take(k as int)).push(
                these[k as int],
            ));
            k = k + 1;
        }
        assert(these.take(pieces.len() as int) =~= these);
        i = i + 1;
    }
    proof {
        lemma_corpus_chunks(docs@, docs.len() as int);
        assert forall|i: int| 0 <= i < chunks.len() implies is_paragraph(
            (#[trigger] chunks[i]).text@,
        ) && chunks[i].ordinal >= 1 by {
            assert(views(chunks@)[i] == chunks[i]@);
        }
    }
    chunks
}

/// The postings of the chunk number `id` with the text `text`: one for each
/// distinct token, in the order of first occurrence, with its frequency.
pub open spec fn chunk_postings(id: int, text: Seq<char>) -> Seq<(char, int, int)> {
    Seq::new(
        tokens_of(text).len(),
        |j: int| (tokens_of(text)[j], id, count_of(text, tokens_of(text)[j]) as int),
    )
}

/// The postings of the first `n` chunks, chunk after chunk.
pub open spec fn corpus_postings(chunks: Seq<Chunk>, n: int) -> Seq<(char, int, int)>
    decreases n,
{
    if n <= 0 {
        Seq::empty()
    } else {
        corpus_postings(chunks, n - 1) + chunk_postings(n - 1, chunks[n - 1].text@)
    }
}

/// What holds of every posting of a sound index: its token is no white
/// space, it stands for at least one occurrence, and its chunk exists.
pub open spec fn posting_ok(p: Posting, n_chunks: int) -> bool {
    !is_space(p.token) && p.tf >= 1 && 0 <= p.chunk < n_chunks
}

/// The postings of every chunk: one for each distinct token of the chunk.
pub fn index_postings(chunks: &Vec<Chunk>) -> (postings: Vec<Posting>)
    ensures
        views(postings@) == corpus_postings(chunks@, chunks.len() as int),
        forall|i: int| 0 <= i < postings.len() ==> posting_ok(#[trigger] postings[i], chunks.len() as int),
{
    let mut postings: Vec<Posting> = Vec::new();
    let mut i: usize = 0;
    assert(views(postings@) =~= corpus_postings(chunks@, 0));
    while i < chunks.len()
        invariant
            i <= chunks.len(),
            views(postings@) == corpus_postings(chunks@, i as int),
            forall|j: int|
                0 <= j < postings.len() ==> posting_ok(#[trigger] postings[j], chunks.len() as int),
        decreases chunks.len() - i,
    {
        let freqs = unigram_freqs(chunks[i].text.as_str());
        let ghost text = chunks@[i as int].text@;
        let ghost done = corpus_postings(chunks@, i as int);
        let ghost these = chunk_postings(i as int, text);
        let mut j: usize = 0;
        assert(views(postings@) =~= done + these.take(0));
        proof {
            lemma_tokens_upto(text, text.len() as int);
        }
        while j < freqs.len()
            invariant
                i < chunks.len(),
                j <= freqs.len(),
                is_freqs_of(freqs@, text),
                forall|k: int| 0 <= k < freqs.len() ==> (#[trigger] freqs[k]).count >= 1,
                forall|c: char| #[trigger] tokens_of(text).contains(c) ==> !is_space(c),
                these == chunk_postings(i as int, text),
                views(postings@) == done + these.take(j as int),
                forall|k: int|
                    0 <= k < postings.len() ==> posting_ok(
                        #[trigger] postings[k],
                        chunks.len() as int,
                    ),
            decreases freqs.len() - j,
        {
            let ghost before = views(postings@);
            let entry: TokenCount = freqs[j];
            assert(tokens_of(text).contains(tokens_of(text)[j as int]));
            postings.push(Posting::new(entry.token, i, entry.count));
            assert(views(postings@) =~= before.push(these[j as int]));
            assert(done + these.take(j + 1) =~= (done + these.take(j as int)).push(
                these[j as int],
            ));
            j = j + 1;
        }
        assert(these.take(freqs.len() as int) =~= these);
        i = i + 1;
    }
    postings
}

/// The tokens of a list of postings, in order.
pub open spec fn posting_tokens(postings: Seq<Posting>) -> Seq<char> {
    Seq::new(postings.len(), |i: int| postings[i].token)
}

/// Whether `stats` holds, for each distinct token of `postings` in the order
/// of first occurrence, the number of postings with that token.
pub open spec fn is_stats_of(stats: Seq<TermStat>, postings: Seq<Posting>) -> bool {
    &&& stats.len() == tokens_of(posting_tokens(postings)).len()
    &&& forall|i: int|
        0 <= i < stats.len() ==> (#[trigger] stats[i]).token == tokens_of(
            posting_tokens(postings),
        )[i] && stats[i].df == count_of(posting_tokens(postings), stats[i].token)
}

/// Document frequencies, in one pass over all postings: for each token the
/// number of postings that hold it.
pub fn term_statistics(postings: &Vec<Posting>) -> (stats: Vec<TermStat>)
    ensures
        is_stats_of(stats@, postings@),
        forall|i: int| 0 <= i < stats.len() ==> (#[trigger] stats[i]).df >= 1,
{
    let mut toks: Vec<char> = Vec::new();
    let mut i: usize = 0;
    while i < postings.len()
        invariant
            i <= postings.len(),
            toks@ == posting_tokens(postings@).take(i as int),
        decreases postings.len() - i,
    {
        toks.push(postings[i].token);
        assert(toks@ =~= posting_tokens(postings@).take(i + 1));
        i = i + 1;
    }
    assert(toks@ =~= posting_tokens(postings@));
    let freqs = token_counts(&toks);
    let mut stats: Vec<TermStat> = Vec::new();
    let mut k: usize = 0;
    while k < freqs.len()
        invariant
            k <= freqs.len(),
            stats@.len() == k,
            forall|j: int|
                0 <= j < k ==> (#[trigger] stats@[j]).token == freqs@[j].token && stats@[j].df
                    == freqs@[j].count,
        decreases freqs.len() - k,
    {
        let entry: TokenCount = freqs[k];
        stats.push(TermStat::new(entry.token, entry.count));
        k = k + 1;
    }
    stats
}

/// The tokens of a list of postings given by their views, in order.
pub open spec fn tokens_in(postings: Seq<(char, int, int)>) -> Seq<char> {
    Seq::new(postings.len(), |i: int| postings[i].0)
}

/// In how many of the first `n` chunks the token `t` occurs.
pub open spec fn chunk_freq(chunks: Seq<Chunk>, t: char, n: int) -> int
    decreases n,
{
    if n <= 0 {
        0
    } else if chunks[n - 1].text@.contains(t) {
        chunk_freq(chunks, t, n - 1) + 1
    } else {
        chunk_freq(chunks, t, n - 1)
    }
}

/// Every posting of the first `n` chunks belongs to one of them, holds a
/// token that is no white space and stands for at least one occurrence; and
/// no chunk has two postings for one token.
pub proof fn lemma_corpus_postings(chunks: Seq<Chunk>, n: int)
    requires
        0 <= n <= chunks.len(),
    ensures
        forall|i: int|
            0 <= i < corpus_postings(chunks, n).len() ==> 0 <= (#[trigger] corpus_postings(
                chunks,
                n,
            )[i]).1 < n && corpus_postings(chunks, n)[i].2 >= 1 && !is_space(
                corpus_postings(chunks, n)[i].0,
            ),
        forall|i: int, j: int|
            0 <= i < j < corpus_postings(chunks, n).len() ==> !((#[trigger] corpus_postings(
                chunks,
                n,
            )[i]).0 == (#[trigger] corpus_postings(chunks, n)[j]).0 && corpus_postings(chunks, n)[i].1
                == corpus_postings(chunks, n)[j].1),
    decreases n,
{
    if n > 0 {
        lemma_corpus_postings(chunks, n - 1);
        let prev = corpus_postings(chunks, n - 1);
        let text = chunks[n - 1].text@;
        let these = chunk_postings(n - 1, text);
        let cur = corpus_postings(chunks, n);
        lemma_tokens_upto(text, text.len() as int);
        assert forall|i: int| 0 <= i < cur.len() implies 0 <= (#[trigger] cur[i]).1 < n && cur[i].2
            >= 1 && !is_space(cur[i].0) by {
            if i >= prev.len() {
                let t = tokens_of(text)[i - prev.len()];
                assert(cur[i] == these[i - prev.len()]);
                assert(tokens_of(text).contains(t));
                lemma_count_upto(text, t, text.len() as int);
            } else {
                assert(cur[i] == prev[i]);
            }
        }
        assert forall|i: int, j: int| 0 <= i < j < cur.len() implies !((#[trigger] cur[i]).0 == (
        #[trigger] cur[j]).0 && cur[i].1 == cur[j].1) by {
            if i >= prev.len() {
                assert(cur[i] == these[i - prev.len()] && cur[j] == these[j - prev.len()]);
            } else if j >= prev.len() {
                assert(cur[i] == prev[i] && cur[j] == these[j - prev.len()]);
            } else {
                assert(cur[i] == prev[i] && cur[j] == prev[j]);
            }
        }
    }
}

/// A token is held by as many postings as there are chunks in which it
/// occurs.
pub proof fn lemma_postings_count_chunks(chunks: Seq<Chunk>, t: char, n: int)
    requires
        0 <= n <= chunks.len(),
        !is_space(t),
    ensures
        count_of(tokens_in(corpus_postings(chunks, n)), t) == chunk_freq(chunks, t, n),
    decreases n,
{
    if n > 0 {
        lemma_postings_count_chunks(chunks, t, n - 1);
        let prev = tokens_in(corpus_postings(chunks, n - 1));
        let text = chunks[n - 1].text@;
        let these = tokens_of(text);
        assert(tokens_in(corpus_postings(chunks, n)) =~= prev + these);
        lemma_count_concat(prev, these, t, these.len() as int);
        lemma_tokens_upto(text, text.len() as int);
        lemma_count_distinct(these, t, these.len() as int);
        if these.contains(t) {
            let j = choose|j: int| 0 <= j < these.len() && these[j] == t;
            assert(0 <= j < these.len() && these[j] == t);
            let i = choose|i: int| 0 <= i < text.len() && text[i] == t;
            assert(text.contains(t));
        } else if text.contains(t) {
            let i = choose|i: int| 0 <= i < text.len() && text[i] == t;
            assert(occurs_upto(text, t, text.len() as int));
        } else if occurs_upto(these, t, these.len() as int) {
            let j = choose|j: int| 0 <= j < these.len() && these[j] == t;
            assert(these.contains(t));
        }
    } else {
        assert(tokens_in(corpus_postings(chunks, n)) =~= Seq::<char>::empty());
    }
}

/// In a built index the document frequency of a token is the number of
/// chunks in which the token occurs.
pub proof fn lemma_df_counts_chunks(index: LexicalIndex, docs: Seq<SourceDocument>, i: int)
    requires
        is_index_of(index, docs),
        0 <= i < index.term_stats.len(),
    ensures
        index.term_stats[i].df == chunk_freq(
            index.chunks@,
            index.term_stats[i].token,
            index.chunks.len() as int,
        ),
{
    let toks = posting_tokens(index.postings@);
    let t = index.term_stats[i].token;
    lemma_tokens_upto(toks, toks.len() as int);
    assert(tokens_of(toks).contains(tokens_of(toks)[i]));
    assert(toks =~= tokens_in(views(index.postings@)));
    lemma_postings_count_chunks(index.chunks@, t, index.chunks.len() as int);
}

/// Whether `index` is the index of the corpus `docs`.
pub open spec fn is_index_of(index: LexicalIndex, docs: Seq<SourceDocument>) -> bool {
    &&& is_rows_of(index.documents@, docs)
    &&& views(index.chunks@) == corpus_chunks(docs, docs.len() as int)
    &&& views(index.postings@) == corpus_postings(index.chunks@, index.chunks.len() as int)
    &&& is_stats_of(index.term_stats@, index.postings@)
}

/// Builds the index of a corpus from nothing: a row for each document, its
/// chunks, the postings of each chunk, and the document frequency of each
/// token.
pub fn build_index(docs: &Vec<SourceDocument>) -> (index: LexicalIndex)
    ensures
        is_index_of(index, docs@),
        forall|i: int|
            0 <= i < index.chunks.len() ==> is_paragraph((#[trigger] index.chunks[i]).text@)
                && index.chunks[i].ordinal >= 1,
        forall|i: int|
            0 <= i < index.postings.len() ==> posting_ok(
                #[trigger] index.postings[i],
                index.chunks.len() as int,
            ),
        forall|i: int| 0 <= i < index.term_stats.len() ==> (#[trigger] index.term_stats[i]).df >= 1,
{
    let documents = document_rows(docs);
    let chunks = chunk_documents(docs);
    let postings = index_postings(&chunks);
    let term_stats = term_statistics(&postings);
    LexicalIndex { documents, chunks, postings, term_stats }
}

} // verus!
