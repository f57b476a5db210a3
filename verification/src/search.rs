//! A query from end to end: the index where there is one, a scan of the
//! corpus where there is none, and the ranking of what either found.
use crate::index::{is_index_of, views, LexicalIndex, SourceDocument};
use crate::query::{
    index_candidates, is_index_answer, scan_candidates, scanned, Candidate, CandidateSet,
};
use crate::rank::{is_ranked, rank_hits, ranking, SearchHit};
use crate::text::{blank_range, is_space};
use crate::tokens::{lemma_tokens_upto, tokens_of};
use vstd::prelude::*;

verus! {

/// A blank query has no token.
pub proof fn lemma_blank_query_has_no_token(q: Seq<char>)
    requires
        blank_range(q, 0, q.len() as int),
    ensures
        tokens_of(q).len() == 0,
{
    lemma_tokens_upto(q, q.len() as int);
    if tokens_of(q).len() > 0 {
        let c = tokens_of(q)[0];
        assert(tokens_of(q).contains(c));
        let i = choose|i: int| 0 <= i < q.len() && q[i] == c;
        assert(is_space(q[i]));
    }
}

/// Finds the candidates of a query: in the index where `index` holds one,
/// else by a scan of `docs`. A query without a token finds nothing, either
/// way.
pub fn search_candidates(
    index: Option<&LexicalIndex>,
    docs: &Vec<SourceDocument>,
    query: &str,
) -> (found: CandidateSet)
    ensures
        match index {
            Some(ix) => is_index_answer(found, *ix, query@),
            None => found.total == (if docs.len() == 0 {
                1
            } else {
                docs.len() as int
            }) && views(found.candidates@) == scanned(docs@, query@, docs.len() as int),
        },
        blank_range(query@, 0, query@.len() as int) ==> found.candidates.len() == 0,
{
    proof {
        if blank_range(query@, 0, query@.len() as int) {
            lemma_blank_query_has_no_token(query@);
        }
    }
    match index {
        Some(ix) => index_candidates(ix, query),
        None => scan_candidates(docs, query),
    }
}

/// The hits that the first `n` candidates make with the scores `bits`.
pub open spec fn scored_upto(
    candidates: Seq<Candidate>,
    bits: Seq<u64>,
    n: int,
) -> Seq<(Seq<char>, int, Seq<char>)> {
    Seq::new(n as nat, |i: int| (candidates[i].path@, bits[i] as int, candidates[i].snippet@))
}

/// Ranks the candidates of a query by their scores: `score_bits` holds, for
/// each candidate in order, the bits of its score. Candidates with a zero
/// score are dropped, and at most `top_k` hits are returned. `None` where
/// the two lists differ in length.
pub fn ranked_hits(candidates: &Vec<Candidate>, score_bits: &Vec<u64>, top_k: usize) -> (r: Option<
    Vec<SearchHit>,
>)
    ensures
        r is Some == (candidates.len() == score_bits.len()),
        r is Some ==> views((r->0)@) == ranking(
            scored_upto(candidates@, score_bits@, candidates.len() as int),
            top_k as int,
        ) && (r->0).len() <= top_k && (r->0).len() <= candidates.len() && is_ranked(views((r->0)@)),
{
    if candidates.len() != score_bits.len() {
        return None;
    }
    let mut hits: Vec<SearchHit> = Vec::new();
    let mut i: usize = 0;
    assert(views(hits@) =~= scored_upto(candidates@, score_bits@, 0));
    while i < candidates.len()
        invariant
            i <= candidates.len(),
            candidates.len() == score_bits.len(),
            views(hits@) == scored_upto(candidates@, score_bits@, i as int),
        decreases candidates.len() - i,
    {
        let hit = SearchHit::new(
            candidates[i].path.clone(),
            score_bits[i],
            candidates[i].snippet.clone(),
        );
        let ghost before = views(hits@);
        let ghost view = hit@;
        hits.push(hit);
        assert(views(hits@) =~= before.push(view));
        i = i + 1;
        assert(views(hits@) =~= scored_upto(candidates@, score_bits@, i as int));
    }
    Some(rank_hits(hits, top_k))
}

/// Two indexes of one corpus hold the same chunks, the same postings and the
/// same document frequencies: to rebuild the index of an unchanged corpus
/// changes nothing.
pub proof fn lemma_rebuild_is_idempotent(
    docs: Seq<SourceDocument>,
    first: LexicalIndex,
    second: LexicalIndex,
)
    requires
        is_index_of(first, docs),
        is_index_of(second, docs),
    ensures
        first.documents.len() == second.documents.len(),
        views(first.chunks@) == views(second.chunks@),
        first.postings@ == second.postings@,
        first.term_stats@ == second.term_stats@,
{
    let n = first.chunks.len() as int;
    assert(views(first.chunks@).len() == views(second.chunks@).len());
    assert forall|i: int| 0 <= i < n implies first.chunks@[i].text@ == second.chunks@[i].text@ by {
        assert(views(first.chunks@)[i] == views(second.chunks@)[i]);
    }
    lemma_postings_depend_on_texts(first.chunks@, second.chunks@, n);
    assert(views(first.postings@) == views(second.postings@));
    assert(views(first.postings@).len() == first.postings@.len());
    assert(views(second.postings@).len() == second.postings@.len());
    assert forall|i: int| 0 <= i < first.postings@.len() implies first.postings@[i]
        == second.postings@[i] by {
        assert(views(first.postings@)[i] == first.postings@[i]@);
        assert(views(second.postings@)[i] == second.postings@[i]@);
    }
    assert(first.postings@ =~= second.postings@);
    assert(first.term_stats@ =~= second.term_stats@);
}

/// The postings of a list of chunks depend on the texts of the chunks alone.
pub proof fn lemma_postings_depend_on_texts(
    a: Seq<crate::index::Chunk>,
    b: Seq<crate::index::Chunk>,
    n: int,
)
    requires
        0 <= n <= a.len(),
        n <= b.len(),
        forall|i: int| 0 <= i < n ==> a[i].text@ == b[i].text@,
    ensures
        crate::index::corpus_postings(a, n) == crate::index::corpus_postings(b, n),
    decreases n,
{
    if n > 0 {
        lemma_postings_depend_on_texts(a, b, n - 1);
    }
}

} // verus!
