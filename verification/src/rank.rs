//! Ranking: the last step of every query.
//!
//! A score reaches the ranking as the 64 bits of its binary encoding. Scores
//! are never negative, and for such numbers the order of the encodings, read
//! as integers, is the order of the numbers.
use crate::index::views;
use crate::text::{
    chars_of, lemma_lex_less_asymmetric, lemma_lex_less_total, lemma_lex_less_transitive,
    lex_less, text_less,
};
use vstd::multiset::Multiset;
use vstd::prelude::*;

verus! {

/// A document that answers a query.
#[derive(Debug, Clone)]
pub struct SearchHit {
    pub path: String,
    /// The bits of the score.
    pub score_bits: u64,
    pub snippet: String,
}

impl View for SearchHit {
    type V = (Seq<char>, int, Seq<char>);

    /// Path, score bits and snippet.
    open spec fn view(&self) -> Self::V {
        (self.path@, self.score_bits as int, self.snippet@)
    }
}

impl SearchHit {
    /// Puts the fields together.
    pub fn new(path: String, score_bits: u64, snippet: String) -> (hit: SearchHit)
        ensures
            hit.path == path,
            hit.score_bits == score_bits,
            hit.snippet == snippet,
    {
        SearchHit { path, score_bits, snippet }
    }
}

/// Whether the hit `a` is to stand before the hit `b`: it has the higher
/// score, or the same score and the path that comes first.
pub open spec fn ranks_before(a: (Seq<char>, int, Seq<char>), b: (Seq<char>, int, Seq<char>)) -> bool {
    a.1 > b.1 || (a.1 == b.1 && lex_less(a.0, b.0))
}

/// Whether no hit of `s` is to stand before one that precedes it.
pub open spec fn is_ranked(s: Seq<(Seq<char>, int, Seq<char>)>) -> bool {
    forall|i: int, j: int| 0 <= i < j < s.len() ==> !ranks_before(#[trigger] s[j], #[trigger] s[i])
}

/// The first position at or after `from` whose hit `h` is to stand before,
/// or the length of `sorted`.
pub open spec fn insert_at(
    sorted: Seq<(Seq<char>, int, Seq<char>)>,
    h: (Seq<char>, int, Seq<char>),
    from: int,
) -> int
    decreases sorted.len() - from,
{
    if from < 0 || from >= sorted.len() || ranks_before(h, sorted[from]) {
        from
    } else {
        insert_at(sorted, h, from + 1)
    }
}

/// The first `n` hits in ranked order, without those whose score is zero.
/// Of two hits with the same score and path the earlier one stays first.
pub open spec fn ranked_upto(hits: Seq<(Seq<char>, int, Seq<char>)>, n: int) -> Seq<
    (Seq<char>, int, Seq<char>),
>
    decreases n,
{
    if n <= 0 {
        Seq::empty()
    } else if hits[n - 1].1 <= 0 {
        ranked_upto(hits, n - 1)
    } else {
        ranked_upto(hits, n - 1).insert(insert_at(ranked_upto(hits, n - 1), hits[n - 1], 0), hits[n - 1])
    }
}

/// The answer to a query: the hits with a positive score in ranked order,
/// cut off after `top_k` of them.
pub open spec fn ranking(hits: Seq<(Seq<char>, int, Seq<char>)>, top_k: int) -> Seq<
    (Seq<char>, int, Seq<char>),
> {
    let all = ranked_upto(hits, hits.len() as int);
    if top_k < all.len() {
        all.take(top_k)
    } else {
        all
    }
}

/// The hits with a positive score among the first `n`, as a multiset.
pub open spec fn kept_upto(hits: Seq<(Seq<char>, int, Seq<char>)>, n: int) -> Multiset<
    (Seq<char>, int, Seq<char>),
>
    decreases n,
{
    if n <= 0 {
        Multiset::empty()
    } else if hits[n - 1].1 <= 0 {
        kept_upto(hits, n - 1)
    } else {
        kept_upto(hits, n - 1).insert(hits[n - 1])
    }
}

/// The place of a hit lies after every hit that it is not to stand before,
/// and at a hit that it is to stand before.
pub proof fn lemma_insert_at(
    sorted: Seq<(Seq<char>, int, Seq<char>)>,
    h: (Seq<char>, int, Seq<char>),
    from: int,
)
    requires
        0 <= from <= sorted.len(),
    ensures
        from <= insert_at(sorted, h, from) <= sorted.len(),
        forall|i: int| from <= i < insert_at(sorted, h, from) ==> !ranks_before(h, #[trigger] sorted[i]),
        insert_at(sorted, h, from) < sorted.len() ==> ranks_before(
            h,
            sorted[insert_at(sorted, h, from)],
        ),
    decreases sorted.len() - from,
{
    if from < sorted.len() && !ranks_before(h, sorted[from]) {
        lemma_insert_at(sorted, h, from + 1);
    }
}

/// Standing before is transitive, and no two hits stand before each other.
pub proof fn lemma_ranks_before_order(
    a: (Seq<char>, int, Seq<char>),
    b: (Seq<char>, int, Seq<char>),
    c: (Seq<char>, int, Seq<char>),
)
    ensures
        !(ranks_before(a, b) && ranks_before(b, a)),
        ranks_before(a, b) && ranks_before(b, c) ==> ranks_before(a, c),
{
    lemma_lex_less_asymmetric(a.0, b.0);
    if lex_less(a.0, b.0) && lex_less(b.0, c.0) {
        lemma_lex_less_transitive(a.0, b.0, c.0);
    }
}

/// Of two hits with different scores or different paths, one is to stand
/// before the other: only hits of one document with one score are left in
/// the order in which they came.
pub proof fn lemma_ranks_before_total(a: (Seq<char>, int, Seq<char>), b: (Seq<char>, int, Seq<char>))
    ensures
        (a.0 == b.0 && a.1 == b.1) || ranks_before(a, b) || ranks_before(b, a),
{
    lemma_lex_less_total(a.0, b.0);
}

/// The ranked order is descending by score, ascending by path among equal
/// scores; it holds every hit with a positive score as often as the input
/// does, and no other.
pub proof fn lemma_ranked_upto(hits: Seq<(Seq<char>, int, Seq<char>)>, n: int)
    requires
        0 <= n <= hits.len(),
    ensures
        is_ranked(ranked_upto(hits, n)),
        ranked_upto(hits, n).to_multiset() == kept_upto(hits, n),
        ranked_upto(hits, n).len() <= n,
        forall|i: int| 0 <= i < ranked_upto(hits, n).len() ==> (#[trigger] ranked_upto(hits, n)[i]).1 > 0,
    decreases n,
{
    if n <= 0 {
        assert(ranked_upto(hits, n).to_multiset() =~= Multiset::empty()) by {
            broadcast use vstd::seq_lib::to_multiset_len;

            assert(ranked_upto(hits, n).to_multiset().len() == 0);
        }
    } else {
        lemma_ranked_upto(hits, n - 1);
        let prev = ranked_upto(hits, n - 1);
        let h = hits[n - 1];
        if h.1 > 0 {
            let p = insert_at(prev, h, 0);
            lemma_insert_at(prev, h, 0);
            let cur = prev.insert(p, h);
            vstd::seq_lib::to_multiset_insert(prev, p, h);
            assert forall|i: int, j: int| 0 <= i < j < cur.len() implies !ranks_before(
                #[trigger] cur[j],
                #[trigger] cur[i],
            ) by {
                if j == p {
                    assert(cur[i] == prev[i]);
                } else if i == p {
                    assert(cur[j] == prev[j - 1]);
                    lemma_ranks_before_order(h, prev[p], prev[j - 1]);
                    lemma_ranks_before_order(prev[j - 1], h, prev[p]);
                    if j - 1 > p {
                        assert(!ranks_before(prev[j - 1], prev[p]));
                    }
                } else {
                    let i0 = if i < p { i } else { i - 1 };
                    let j0 = if j < p { j } else { j - 1 };
                    assert(cur[i] == prev[i0] && cur[j] == prev[j0]);
                }
            }
            assert forall|i: int| 0 <= i < cur.len() implies (#[trigger] cur[i]).1 > 0 by {
                if i < p {
                    assert(cur[i] == prev[i]);
                } else if i > p {
                    assert(cur[i] == prev[i - 1]);
                }
            }
        }
    }
}

/// Executable form of [`ranks_before`].
pub fn hit_ranks_before(a: &SearchHit, b: &SearchHit) -> (r: bool)
    ensures
        r == ranks_before(a@, b@),
{
    if a.score_bits > b.score_bits {
        true
    } else if a.score_bits < b.score_bits {
        false
    } else {
        let x = chars_of(a.path.as_str());
        let y = chars_of(b.path.as_str());
        text_less(&x, &y)
    }
}

/// Ranks the hits of a query: drops those with a zero score, orders the rest
/// by descending score and, among equal scores, by ascending path, and keeps
/// at most `top_k` from the top.
pub fn rank_hits(hits: Vec<SearchHit>, top_k: usize) -> (out: Vec<SearchHit>)
    ensures
        views(out@) == ranking(views(hits@), top_k as int),
        out.len() <= top_k,
        out.len() <= hits.len(),
        is_ranked(views(out@)),
        forall|i: int| 0 <= i < out.len() ==> (#[trigger] out[i]).score_bits > 0,
        views(out@).to_multiset().subset_of(kept_upto(views(hits@), hits.len() as int)),
        top_k >= hits.len() ==> views(out@).to_multiset() == kept_upto(
            views(hits@),
            hits.len() as int,
        ),
{
    let mut out: Vec<SearchHit> = Vec::new();
    let mut i: usize = 0;
    let ghost all = views(hits@);
    assert(views(out@) =~= ranked_upto(all, 0));
    while i < hits.len()
        invariant
            i <= hits.len(),
            all == views(hits@),
            views(out@) == ranked_upto(all, i as int),
        decreases hits.len() - i,
    {
        proof {
            lemma_ranked_upto(all, i as int);
        }
        if hits[i].score_bits > 0 {
            let ghost sorted = views(out@);
            let mut p: usize = 0;
            while p < out.len() && !hit_ranks_before(&hits[i], &out[p])
                invariant
                    i < hits.len(),
                    p <= out.len(),
                    sorted == views(out@),
                    insert_at(sorted, hits@[i as int]@, 0) == insert_at(
                        sorted,
                        hits@[i as int]@,
                        p as int,
                    ),
                decreases out.len() - p,
            {
                assert(sorted[p as int] == out@[p as int]@);
                p = p + 1;
            }
            assert(p < out.len() ==> sorted[p as int] == out@[p as int]@);
            let hit = SearchHit::new(hits[i].path.clone(), hits[i].score_bits, hits[i].snippet.clone());
            out.insert(p, hit);
            assert(views(out@) =~= sorted.insert(p as int, hits@[i as int]@));
        }
        i = i + 1;
    }
    proof {
        lemma_ranked_upto(all, hits.len() as int);
    }
    let ghost full = views(out@);
    out.truncate(top_k);
    proof {
        if top_k < full.len() {
            assert(views(out@) =~= full.take(top_k as int));
            lemma_take_of_ranked(full, top_k as int);
        } else {
            assert(views(out@) =~= full);
        }
        assert forall|k: int| 0 <= k < out.len() implies (#[trigger] out[k]).score_bits > 0 by {
            assert(views(out@)[k] == full[k]);
        }
    }
    out
}

/// The top of a ranked list is ranked, and holds nothing that the list does
/// not hold.
pub proof fn lemma_take_of_ranked(s: Seq<(Seq<char>, int, Seq<char>)>, k: int)
    requires
        0 <= k <= s.len(),
        is_ranked(s),
    ensures
        is_ranked(s.take(k)),
        s.take(k).to_multiset().subset_of(s.to_multiset()),
{
    assert forall|i: int, j: int| 0 <= i < j < s.take(k).len() implies !ranks_before(
        #[trigger] s.take(k)[j],
        #[trigger] s.take(k)[i],
    ) by {
        assert(s.take(k)[j] == s[j] && s.take(k)[i] == s[i]);
    }
    let rest = s.skip(k);
    assert(s =~= s.take(k) + rest);
    vstd::seq_lib::lemma_multiset_commutative(s.take(k), rest);
    assert forall|v: (Seq<char>, int, Seq<char>)|
        s.take(k).to_multiset().count(v) <= s.to_multiset().count(v) by {
        assert(s.to_multiset().count(v) == s.take(k).to_multiset().count(v)
            + rest.to_multiset().count(v));
    }
}

} // verus!
