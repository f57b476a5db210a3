//! The corpus: which files are documents, and in what order they are read.
use crate::index::{views, SourceDocument};
use crate::text::{
    chars_of, lemma_lex_less_asymmetric, lemma_lex_less_transitive, lex_less, text_less,
};
use vstd::multiset::Multiset;
use vstd::prelude::*;

verus! {

impl View for SourceDocument {
    type V = (Seq<char>, Seq<char>, int);

    /// Path, content and time of the last change.
    open spec fn view(&self) -> Self::V {
        (self.path@, self.content@, self.modified_at as int)
    }
}

/// Whether `path`, relative to the corpus root, lies in the subtree that is
/// kept for the index: its first component is `.index`.
pub open spec fn in_index_subtree(path: Seq<char>) -> bool {
    path.len() >= 7 && path.subrange(0, 7) == seq!['.', 'i', 'n', 'd', 'e', 'x', '/']
}

/// Where the file name of `path` starts: after its last `/`.
pub open spec fn name_start(path: Seq<char>, n: int) -> int
    decreases n,
{
    if n <= 0 {
        0
    } else if path[n - 1] == '/' {
        n
    } else {
        name_start(path, n - 1)
    }
}

/// Whether the file name of `path` has the extension `md`: it ends with
/// `.md`, and something stands before that.
pub open spec fn is_markdown(path: Seq<char>) -> bool {
    let n = path.len() as int;
    n - name_start(path, n) >= 4 && path[n - 3] == '.' && path[n - 2] == 'm' && path[n - 1] == 'd'
}

/// Whether the file at `path` is a document of the corpus.
pub open spec fn is_document_path(path: Seq<char>) -> bool {
    is_markdown(path) && !in_index_subtree(path)
}

/// Executable form of [`is_document_path`].
pub fn is_corpus_file(path: &str) -> (b: bool)
    ensures
        b == is_document_path(path@),
{
    let v = chars_of(path);
    let n: usize = v.len();
    let mut start: usize = n;
    while start > 0 && v[start - 1] != '/'
        invariant
            start <= n,
            n == v.len(),
            name_start(v@, n as int) == name_start(v@, start as int),
        decreases start,
    {
        start = start - 1;
    }
    let markdown: bool = n - start >= 4 && v[n - 3] == '.' && v[n - 2] == 'm' && v[n - 1] == 'd';
    if !markdown {
        return false;
    }
    let ghost head = v@.subrange(0, 7);
    let reserved: bool = n >= 7 && v[0] == '.' && v[1] == 'i' && v[2] == 'n' && v[3] == 'd' && v[4]
        == 'e' && v[5] == 'x' && v[6] == '/';
    proof {
        if n >= 7 {
            assert(head[0] == v@[0] && head[1] == v@[1] && head[2] == v@[2] && head[3] == v@[3]
                && head[4] == v@[4] && head[5] == v@[5] && head[6] == v@[6]);
            if reserved {
                assert(head =~= seq!['.', 'i', 'n', 'd', 'e', 'x', '/']);
            }
        }
    }
    !reserved
}

/// Whether the documents of `s` stand in the order of their paths.
pub open spec fn is_ordered(s: Seq<(Seq<char>, Seq<char>, int)>) -> bool {
    forall|i: int, j: int| 0 <= i < j < s.len() ==> !lex_less((#[trigger] s[j]).0, (#[trigger] s[i]).0)
}

/// Where a document with the path `path` goes into the ordered list
/// `sorted`: before the first document, at or after `from`, whose path comes
/// after `path`.
pub open spec fn place_of(sorted: Seq<(Seq<char>, Seq<char>, int)>, path: Seq<char>, from: int) -> int
    decreases sorted.len() - from,
{
    if from < 0 || from >= sorted.len() || lex_less(path, sorted[from].0) {
        from
    } else {
        place_of(sorted, path, from + 1)
    }
}

/// The documents among the first `n` files, in the order of their paths; of
/// two with the same path the earlier file stays first.
pub open spec fn corpus_upto(files: Seq<(Seq<char>, Seq<char>, int)>, n: int) -> Seq<
    (Seq<char>, Seq<char>, int),
>
    decreases n,
{
    if n <= 0 {
        Seq::empty()
    } else if !is_document_path(files[n - 1].0) {
        corpus_upto(files, n - 1)
    } else {
        corpus_upto(files, n - 1).insert(
            place_of(corpus_upto(files, n - 1), files[n - 1].0, 0),
            files[n - 1],
        )
    }
}

/// The documents among the first `n` files, as a multiset.
pub open spec fn documents_upto(files: Seq<(Seq<char>, Seq<char>, int)>, n: int) -> Multiset<
    (Seq<char>, Seq<char>, int),
>
    decreases n,
{
    if n <= 0 {
        Multiset::empty()
    } else if !is_document_path(files[n - 1].0) {
        documents_upto(files, n - 1)
    } else {
        documents_upto(files, n - 1).insert(files[n - 1])
    }
}

/// The place of a path lies after every document that the path does not
/// come before, and at a document that it comes before.
pub proof fn lemma_place_of(sorted: Seq<(Seq<char>, Seq<char>, int)>, path: Seq<char>, from: int)
    requires
        0 <= from <= sorted.len(),
    ensures
        from <= place_of(sorted, path, from) <= sorted.len(),
        forall|i: int|
            from <= i < place_of(sorted, path, from) ==> !lex_less(path, (#[trigger] sorted[i]).0),
        place_of(sorted, path, from) < sorted.len() ==> lex_less(
            path,
            sorted[place_of(sorted, path, from)].0,
        ),
    decreases sorted.len() - from,
{
    if from < sorted.len() && !lex_less(path, sorted[from].0) {
        lemma_place_of(sorted, path, from + 1);
    }
}

/// The corpus is ordered by path, holds every file that is a document as
/// often as the input does, and nothing else.
pub proof fn lemma_corpus_upto(files: Seq<(Seq<char>, Seq<char>, int)>, n: int)
    requires
        0 <= n <= files.len(),
    ensures
        is_ordered(corpus_upto(files, n)),
        corpus_upto(files, n).to_multiset() == documents_upto(files, n),
        corpus_upto(files, n).len() <= n,
        forall|i: int|
            0 <= i < corpus_upto(files, n).len() ==> is_document_path(
                (#[trigger] corpus_upto(files, n)[i]).0,
            ),
    decreases n,
{
    if n <= 0 {
        assert(corpus_upto(files, n).to_multiset() =~= Multiset::empty()) by {
            broadcast use vstd::seq_lib::to_multiset_len;

            assert(corpus_upto(files, n).to_multiset().len() == 0);
        }
    } else {
        lemma_corpus_upto(files, n - 1);
        let prev = corpus_upto(files, n - 1);
        let f = files[n - 1];
        if is_document_path(f.0) {
            let p = place_of(prev, f.0, 0);
            lemma_place_of(prev, f.0, 0);
            let cur = prev.insert(p, f);
            vstd::seq_lib::to_multiset_insert(prev, p, f);
            assert forall|i: int, j: int| 0 <= i < j < cur.len() implies !lex_less(
                (#[trigger] cur[j]).0,
                (#[trigger] cur[i]).0,
            ) by {
                if j == p {
                    assert(cur[i] == prev[i]);
                } else if i == p {
                    assert(cur[j] == prev[j - 1]);
                    lemma_lex_less_asymmetric(f.0, prev[p].0);
                    if lex_less(prev[j - 1].0, f.0) {
                        lemma_lex_less_transitive(prev[j - 1].0, f.0, prev[p].0);
                    }
                    if j - 1 > p {
                        assert(!lex_less(prev[j - 1].0, prev[p].0));
                    }
                } else {
                    let i0 = if i < p { i } else { i - 1 };
                    let j0 = if j < p { j } else { j - 1 };
                    assert(cur[i] == prev[i0] && cur[j] == prev[j0]);
                }
            }
            assert forall|i: int| 0 <= i < cur.len() implies is_document_path((#[trigger] cur[i]).0) by {
                if i < p {
                    assert(cur[i] == prev[i]);
                } else if i > p {
                    assert(cur[i] == prev[i - 1]);
                }
            }
        }
    }
}

/// Makes the corpus of the files that were read under the root: keeps the
/// markdown files outside the index's own subtree, in the order of their
/// paths.
pub fn collect_corpus(files: Vec<SourceDocument>) -> (docs: Vec<SourceDocument>)
    ensures
        views(docs@) == corpus_upto(views(files@), files.len() as int),
        is_ordered(views(docs@)),
        views(docs@).to_multiset() == documents_upto(views(files@), files.len() as int),
        forall|i: int| 0 <= i < docs.len() ==> is_document_path((#[trigger] docs[i]).path@),
{
    let mut docs: Vec<SourceDocument> = Vec::new();
    let ghost all = views(files@);
    let mut i: usize = 0;
    assert(views(docs@) =~= corpus_upto(all, 0));
    while i < files.len()
        invariant
            i <= files.len(),
            all == views(files@),
            views(docs@) == corpus_upto(all, i as int),
        decreases files.len() - i,
    {
        assert(all[i as int] == files@[i as int]@);
        if is_corpus_file(files[i].path.as_str()) {
            let ghost sorted = views(docs@);
            let path = chars_of(files[i].path.as_str());
            let mut p: usize = 0;
            while p < docs.len() && !path_comes_before(&path, &docs[p])
                invariant
                    p <= docs.len(),
                    sorted == views(docs@),
                    place_of(sorted, path@, 0) == place_of(sorted, path@, p as int),
                decreases docs.len() - p,
            {
                assert(sorted[p as int] == docs@[p as int]@);
                p = p + 1;
            }
            assert(p < docs.len() ==> sorted[p as int] == docs@[p as int]@);
            let doc = SourceDocument::new(
                files[i].path.clone(),
                files[i].content.clone(),
                files[i].modified_at,
            );
            let ghost view = doc@;
            docs.insert(p, doc);
            assert(views(docs@) =~= sorted.insert(p as int, view));
        }
        i = i + 1;
    }
    proof {
        lemma_corpus_upto(all, files.len() as int);
        assert forall|k: int| 0 <= k < docs.len() implies is_document_path(
            (#[trigger] docs[k]).path@,
        ) by {
            assert(views(docs@)[k] == docs[k]@);
        }
    }
    docs
}

/// Whether `path` comes before the path of `doc`.
fn path_comes_before(path: &Vec<char>, doc: &SourceDocument) -> (b: bool)
    ensures
        b == lex_less(path@, doc.path@),
{
    let other = chars_of(doc.path.as_str());
    text_less(path, &other)
}

} // verus!
