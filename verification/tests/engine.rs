use amem::index::{
    build_index, chunk_documents, index_postings, term_statistics, Chunk, LexicalIndex, Posting,
    SourceDocument, TermStat,
};
use amem::query::{index_candidates, scan_candidates, Candidate, CandidateSet};
use amem::rank::{rank_hits, SearchHit};
use amem::search::{ranked_hits, search_candidates};

fn doc(path: &str, content: &str) -> SourceDocument {
    SourceDocument::new(path.to_string(), content.to_string(), 0)
}

fn score(candidate: &Candidate, total: usize) -> f64 {
    let n = total as f64;
    let mut sum = 0.0f64;
    for w in &candidate.weights {
        let idf = ((n + 1.0) / (w.df as f64 + 1.0)).ln() + 1.0;
        sum += w.tf as f64 * idf;
    }
    if candidate.exact {
        sum += 5.0;
    }
    sum
}

fn answer(found: &CandidateSet, top_k: usize) -> Vec<SearchHit> {
    let bits: Vec<u64> = found.candidates.iter().map(|c| score(c, found.total).to_bits()).collect();
    ranked_hits(&found.candidates, &bits, top_k).unwrap()
}

fn hit(path: &str, score: f64, snippet: &str) -> SearchHit {
    SearchHit::new(path.to_string(), score.to_bits(), snippet.to_string())
}

#[test]
fn search_and_remember_work() {
    let docs = vec![
        doc("agent/activity/2026/02/2026-02-21.md", "東京で散歩した\n"),
        doc("agent/activity/2026/02/2026-02-20.md", "大阪で会議した\n"),
        doc("agent/memory/P1/tokyo.md", "東京のメモ\n"),
    ];
    let found = search_candidates(None, &docs, "東京");
    let hits = answer(&found, 1);
    assert_eq!(hits.len(), 1);
    assert!(hits[0].path.contains("2026-02-21.md"));
}

#[test]
fn search_uses_sqlite_index_after_indexing() {
    let docs = vec![doc("agent/activity/2026/02/2026-02-21.md", "東京で散歩した\n")];
    let index = build_index(&docs);
    let none: Vec<SourceDocument> = Vec::new();
    let found = search_candidates(Some(&index), &none, "東京");
    let hits = answer(&found, 1);
    assert_eq!(hits.len(), 1);
    assert!(hits[0].path.contains("2026-02-21.md"));
}

#[test]
fn indexed_query_finds_only_the_matching_document() {
    let docs = vec![doc("a.md", "東京で散歩した"), doc("b.md", "大阪で会議した")];
    let index = build_index(&docs);
    let found = index_candidates(&index, "東京");
    assert_eq!(found.total, 2);
    assert_eq!(found.candidates.len(), 1);
    let c = &found.candidates[0];
    assert_eq!(c.path, "a.md");
    assert_eq!(c.weights.len(), 2);
    assert_eq!((c.weights[0].tf, c.weights[0].df), (1, 1));
    assert_eq!((c.weights[1].tf, c.weights[1].df), (1, 1));
    assert!(c.exact);
    assert_eq!(c.snippet, "東京で散歩した");
    let s = score(c, found.total);
    assert!(s > 0.0);
    let expected = 2.0 * ((3.0f64 / 2.0).ln() + 1.0) + 5.0;
    assert!((s - expected).abs() < 1e-12);
    let hits = answer(&found, 8);
    assert_eq!(hits.len(), 1);
    assert_eq!(hits[0].path, "a.md");
    assert_eq!(f64::from_bits(hits[0].score_bits), s);
}

#[test]
fn index_holds_chunks_postings_and_frequencies() {
    let docs = vec![doc("a.md", "ab a\n\nb"), doc("b.md", "  \n\n")];
    let index = build_index(&docs);
    assert_eq!(index.documents.len(), 2);
    assert_eq!(index.documents[0].path, "a.md");
    assert_eq!(index.chunks.len(), 2);
    assert_eq!(index.chunks[0].text, "ab a");
    assert_eq!(index.chunks[0].ordinal, 1);
    assert_eq!(index.chunks[1].text, "b");
    assert_eq!(index.chunks[1].ordinal, 2);
    assert_eq!(
        index.postings,
        vec![Posting::new('a', 0, 2), Posting::new('b', 0, 1), Posting::new('b', 1, 1)]
    );
    assert_eq!(index.term_stats, vec![TermStat::new('a', 1), TermStat::new('b', 2)]);
}

#[test]
fn content_hash_is_sha256_in_hex() {
    let index = build_index(&vec![doc("a.md", "abc")]);
    assert_eq!(
        index.documents[0].content_hash,
        "ba7816bf8f01cfea414140de5dae2223b00361a396177a9cb410ff61f20015ad"
    );
}

#[test]
fn rebuild_of_unchanged_corpus_changes_nothing() {
    let docs = vec![doc("a.md", "one two\n\nthree"), doc("b.md", "two\r\n\r\nfour four")];
    let first = build_index(&docs);
    let second = build_index(&docs);
    assert_eq!(first.chunks.len(), 4);
    assert_eq!(first.chunks.len(), second.chunks.len());
    assert_eq!(first.postings.len(), second.postings.len());
    assert_eq!(first.postings, second.postings);
    assert_eq!(first.term_stats, second.term_stats);
}

#[test]
fn chunks_are_paragraphs_with_dense_ordinals() {
    let docs = vec![
        doc("a.md", "para one\nline two\n\n\n  para two  \r\n\r\npara three\n\n   \n\n"),
        doc("b.md", "only"),
    ];
    let chunks = chunk_documents(&docs);
    let got: Vec<(String, u64, String)> =
        chunks.iter().map(|c| (c.path.clone(), c.ordinal, c.text.clone())).collect();
    assert_eq!(
        got,
        vec![
            ("a.md".to_string(), 1, "para one\nline two".to_string()),
            ("a.md".to_string(), 2, "para two".to_string()),
            ("a.md".to_string(), 3, "para three".to_string()),
            ("b.md".to_string(), 1, "only".to_string()),
        ]
    );
}

#[test]
fn postings_count_each_token_once_per_chunk() {
    let chunks = vec![Chunk::new("a.md".to_string(), 1, "aab a".to_string())];
    let postings = index_postings(&chunks);
    assert_eq!(postings, vec![Posting::new('a', 0, 3), Posting::new('b', 0, 1)]);
    let stats = term_statistics(&postings);
    assert_eq!(stats, vec![TermStat::new('a', 1), TermStat::new('b', 1)]);
}

#[test]
fn top_k_one_returns_the_highest_scoring_hit() {
    let docs = vec![doc("a.md", "x"), doc("b.md", "x x x"), doc("c.md", "x x")];
    let index = build_index(&docs);
    let found = index_candidates(&index, "x");
    assert_eq!(found.candidates.len(), 3);
    let hits = answer(&found, 1);
    assert_eq!(hits.len(), 1);
    assert_eq!(hits[0].path, "b.md");
    let all = answer(&found, 10);
    let paths: Vec<&str> = all.iter().map(|h| h.path.as_str()).collect();
    assert_eq!(paths, vec!["b.md", "c.md", "a.md"]);
}

#[test]
fn blank_query_finds_nothing_on_either_path() {
    let docs = vec![doc("a.md", "some text  here"), doc("b.md", "more")];
    let index = build_index(&docs);
    for q in ["", " ", "  \t\n", "\u{3000}"] {
        let by_index = search_candidates(Some(&index), &docs, q);
        assert!(by_index.candidates.is_empty());
        assert!(answer(&by_index, 8).is_empty());
        let by_scan = search_candidates(None, &docs, q);
        assert!(by_scan.candidates.is_empty());
        assert!(answer(&by_scan, 8).is_empty());
    }
}

#[test]
fn empty_index_answers_with_no_hit() {
    let index = build_index(&Vec::new());
    let found = index_candidates(&index, "x");
    assert_eq!(found.total, 0);
    assert!(found.candidates.is_empty());
}

#[test]
fn scan_of_empty_corpus_counts_one_document() {
    let found = scan_candidates(&Vec::new(), "x");
    assert_eq!(found.total, 1);
    assert!(found.candidates.is_empty());
}

#[test]
fn document_frequency_differs_between_index_and_scan() {
    let docs = vec![doc("many.md", "a\n\na\n\na"), doc("one.md", "a")];
    let index = build_index(&docs);
    let by_index = index_candidates(&index, "a");
    assert_eq!(by_index.total, 4);
    assert_eq!(by_index.candidates.len(), 2);
    assert_eq!(by_index.candidates[0].path, "many.md");
    assert_eq!(by_index.candidates[0].weights.len(), 3);
    for w in &by_index.candidates[0].weights {
        assert_eq!((w.tf, w.df), (1, 4));
    }
    let by_scan = scan_candidates(&docs, "a");
    assert_eq!(by_scan.total, 2);
    assert_eq!(by_scan.candidates.len(), 2);
    assert_eq!(by_scan.candidates[0].weights.len(), 1);
    assert_eq!((by_scan.candidates[0].weights[0].tf, by_scan.candidates[0].weights[0].df), (3, 2));
    assert_eq!((by_scan.candidates[1].weights[0].tf, by_scan.candidates[1].weights[0].df), (1, 2));
}

#[test]
fn exact_match_scores_higher_by_the_bonus() {
    let docs = vec![doc("scattered.md", "ba"), doc("exact.md", "ab")];
    let index = build_index(&docs);
    for found in [index_candidates(&index, "ab"), scan_candidates(&docs, "ab")] {
        assert_eq!(found.candidates.len(), 2);
        let scattered = &found.candidates[0];
        let exact = &found.candidates[1];
        assert!(!scattered.exact);
        assert!(exact.exact);
        let gap = score(exact, found.total) - score(scattered, found.total);
        assert!((gap - 5.0).abs() < 1e-12);
        let hits = answer(&found, 8);
        assert_eq!(hits[0].path, "exact.md");
        assert_eq!(hits[1].path, "scattered.md");
    }
}

#[test]
fn scan_orders_by_score_then_path() {
    let docs = vec![
        doc("z.md", "cat"),
        doc("m.md", "cat cat"),
        doc("a.md", "cat"),
        doc("none.md", "dog"),
    ];
    let found = search_candidates(None, &docs, "cat");
    assert_eq!(found.total, 4);
    let hits = answer(&found, 8);
    let paths: Vec<&str> = hits.iter().map(|h| h.path.as_str()).collect();
    assert_eq!(paths, vec!["m.md", "a.md", "z.md"]);
    for pair in hits.windows(2) {
        let (x, y) = (f64::from_bits(pair[0].score_bits), f64::from_bits(pair[1].score_bits));
        assert!(x > y || (x == y && pair[0].path < pair[1].path));
    }
    for h in &hits {
        assert!(!h.snippet.is_empty());
        assert!(!h.snippet.contains('\n'));
        assert_eq!(h.snippet.trim(), h.snippet);
    }
}

#[test]
fn scan_weights_use_whole_documents() {
    let docs = vec![doc("a.md", "xy\n\nx"), doc("b.md", "y")];
    let found = scan_candidates(&docs, "x y");
    assert_eq!(found.candidates.len(), 2);
    let a = &found.candidates[0];
    assert_eq!(a.weights.len(), 2);
    assert_eq!((a.weights[0].tf, a.weights[0].df), (2, 1));
    assert_eq!((a.weights[1].tf, a.weights[1].df), (1, 2));
    assert!(!a.exact);
    assert_eq!(a.snippet, "xy");
    let expected = 2.0 * ((3.0f64 / 2.0).ln() + 1.0) + 1.0 * ((3.0f64 / 3.0).ln() + 1.0);
    assert!((score(a, found.total) - expected).abs() < 1e-12);
}

#[test]
fn snippet_prefers_the_line_with_the_query() {
    let docs = vec![doc("a.md", "  first line \r\nhas 東京 here  \nlast")];
    let index = build_index(&docs);
    let exact = index_candidates(&index, "東京");
    assert_eq!(exact.candidates[0].snippet, "has 東京 here");
    assert!(exact.candidates[0].exact);
    let loose = index_candidates(&index, "京東");
    assert_eq!(loose.candidates[0].snippet, "first line");
    assert!(!loose.candidates[0].exact);
    let by_scan = scan_candidates(&docs, "東京");
    assert_eq!(by_scan.candidates[0].snippet, "has 東京 here");
    let loose_scan = scan_candidates(&docs, "京東");
    assert_eq!(loose_scan.candidates[0].snippet, "first line");
}

#[test]
fn query_across_lines_gets_the_bonus_and_keeps_the_first_line() {
    let docs = vec![doc("a.md", "ab\ncd")];
    let index = build_index(&docs);
    let found = index_candidates(&index, "b\nc");
    assert!(found.candidates[0].exact);
    assert_eq!(found.candidates[0].snippet, "ab");
}

#[test]
fn bonus_is_given_once_for_each_document() {
    let docs = vec![doc("a.md", "ab\n\nab")];
    let index = build_index(&docs);
    let found = index_candidates(&index, "ab");
    assert_eq!(found.total, 2);
    let c = &found.candidates[0];
    assert_eq!(c.weights.len(), 4);
    let expected = 4.0 * ((3.0f64 / 3.0).ln() + 1.0) + 5.0;
    assert!((score(c, found.total) - expected).abs() < 1e-12);
}

#[test]
fn postings_without_a_chunk_are_no_rows() {
    let index = LexicalIndex {
        documents: Vec::new(),
        chunks: vec![Chunk::new("a.md".to_string(), 1, "x".to_string())],
        postings: vec![Posting::new('x', 7, 3), Posting::new('x', 0, 1)],
        term_stats: vec![TermStat::new('x', 1)],
    };
    let found = index_candidates(&index, "x");
    assert_eq!(found.candidates.len(), 1);
    assert_eq!(found.candidates[0].weights.len(), 1);
    assert_eq!(found.candidates[0].weights[0].tf, 1);
}

#[test]
fn unknown_tokens_find_nothing() {
    let index = build_index(&vec![doc("a.md", "abc")]);
    let found = index_candidates(&index, "xyz");
    assert_eq!(found.total, 1);
    assert!(found.candidates.is_empty());
}

#[test]
fn ranking_drops_zero_scores_and_breaks_ties_by_path() {
    let hits = vec![
        hit("b.md", 1.5, "b"),
        hit("zero.md", 0.0, "z"),
        hit("a.md", 1.5, "a"),
        hit("c.md", 7.25, "c"),
        hit("ab.md", 1.5, "ab"),
    ];
    let ranked = rank_hits(hits, 10);
    let paths: Vec<&str> = ranked.iter().map(|h| h.path.as_str()).collect();
    assert_eq!(paths, vec!["c.md", "a.md", "ab.md", "b.md"]);
    assert_eq!(ranked[0].snippet, "c");
    assert_eq!(f64::from_bits(ranked[0].score_bits), 7.25);
}

#[test]
fn ranking_keeps_at_most_top_k() {
    let hits = vec![hit("a.md", 1.0, "a"), hit("b.md", 2.0, "b"), hit("c.md", 3.0, "c")];
    assert_eq!(rank_hits(hits.clone(), 0).len(), 0);
    let two = rank_hits(hits.clone(), 2);
    assert_eq!(two.len(), 2);
    assert_eq!(two[0].path, "c.md");
    assert_eq!(two[1].path, "b.md");
    assert_eq!(rank_hits(hits, 3).len(), 3);
}

#[test]
fn ranked_hits_needs_one_score_for_each_candidate() {
    let found = scan_candidates(&vec![doc("a.md", "x")], "x");
    assert!(ranked_hits(&found.candidates, &Vec::new(), 3).is_none());
    let hits = ranked_hits(&found.candidates, &vec![1.0f64.to_bits()], 3).unwrap();
    assert_eq!(hits.len(), 1);
    assert_eq!(hits[0].snippet, "x");
}

#[test]
fn corpus_is_ordered_and_leaves_the_index_out() {
    let files = vec![
        doc("owner/profile.md", "p"),
        doc(".index/notes.md", "i"),
        doc("agent/tasks/open.md", "t"),
        doc("agent/tasks/open.txt", "x"),
        doc(".md", "hidden"),
        doc("dir.md/file", "f"),
        doc("agent/a.md", "a"),
        doc(".indexed/b.md", "b"),
    ];
    let docs = amem::corpus::collect_corpus(files);
    let paths: Vec<&str> = docs.iter().map(|d| d.path.as_str()).collect();
    assert_eq!(paths, vec![".indexed/b.md", "agent/a.md", "agent/tasks/open.md", "owner/profile.md"]);
    assert_eq!(docs[1].content, "a");
}

#[test]
fn corpus_files_are_markdown_files() {
    for path in ["a.md", "x/y.z.md", "..md", "agent/.index/a.md"] {
        assert!(amem::corpus::is_corpus_file(path), "{path}");
        assert_eq!(std::path::Path::new(path).extension().and_then(|e| e.to_str()), Some("md"));
    }
    for path in ["", "a", "a.MD", ".md", "x/.md", "a.md/", "a.mdx", ".index/a.md", "md"] {
        assert!(!amem::corpus::is_corpus_file(path), "{path}");
    }
}
