use omitfs::reranker::{
    corpus_stats, doc_stats, rank_by_score, rerank, tokenize, CorpusStats, DocStats, Row,
};

/// BM25 with a boost for words in the file name, as an integer that orders like the score.
fn bm25(corpus: &CorpusStats, doc: &DocStats) -> u64 {
    let n = corpus.docs as f64;
    let k1 = 1.5_f64;
    let b = 0.75_f64;
    let avg_dl = corpus.total_len as f64 / n;
    let dl = doc.len as f64;
    let mut score = 0.0_f64;
    for (tf, df) in doc.tf.iter().zip(&corpus.df) {
        let tf = *tf as f64;
        let df = *df as f64;
        let idf = ((n - df + 0.5) / (df + 0.5) + 1.0).ln().max(0.0);
        let denom = tf + k1 * (1.0 - b + b * dl / avg_dl.max(1.0));
        score += idf * (tf * (k1 + 1.0)) / denom.max(f64::EPSILON);
    }
    (score + doc.name_hits as f64 * 3.0).to_bits()
}

fn r(fname: &str, path: &str, text: &str) -> Row {
    (fname.into(), path.into(), text.into())
}

#[test]
fn test_empty_results_passthrough() {
    assert!(rerank("anything", vec![], bm25).is_empty());
}

#[test]
fn test_empty_query_passthrough() {
    let input = vec![r("a.txt", "/a", "hello world")];
    let out = rerank("", input.clone(), bm25);
    assert_eq!(out.len(), 1);
}

#[test]
fn test_relevant_doc_ranks_first() {
    let results = vec![
        r("noise.txt", "/noise", "completely unrelated content"),
        r("calculus.pdf", "/calc", "integral calculus derivative theorem"),
    ];
    let ranked = rerank("calculus integral", results, bm25);
    assert_eq!(ranked[0].0, "calculus.pdf");
}

#[test]
fn test_filename_boost() {
    // "budget" appears only in the filename of the second doc, not in its text.
    let results = vec![
        r("report.txt", "/r", "budget numbers quarterly figures"),
        r("budget.xlsx", "/b", "some unrelated text here"),
    ];
    let ranked = rerank("budget", results, bm25);
    // The filename match should push budget.xlsx up
    assert_eq!(ranked[0].0, "budget.xlsx");
}

#[test]
fn test_preserves_all_results() {
    let n = 20;
    let input: Vec<Row> =
        (0..n).map(|i| r(&format!("f{i}.txt"), &format!("/{i}"), "generic text")).collect();
    let out = rerank("generic", input, bm25);
    assert_eq!(out.len(), n);
}

#[test]
fn equal_scores_keep_their_order() {
    let input: Vec<Row> =
        (0..9).map(|i| r(&format!("f{i}.txt"), &format!("/{i}"), "generic text")).collect();
    assert_eq!(rerank("generic", input.clone(), bm25), input);
}

#[test]
fn a_query_without_words_changes_nothing() {
    let input = vec![r("b", "/b", "x y z"), r("a", "/a", "hello")];
    assert_eq!(rerank("a ! ?", input.clone(), bm25), input);
}

#[test]
fn every_result_is_kept_as_often_as_it_came() {
    let input = vec![
        r("a", "/a", "apple"),
        r("b", "/b", "banana apple"),
        r("a", "/a", "apple"),
        r("c", "/c", "cherry"),
    ];
    let mut out = rerank("cherry apple", input.clone(), bm25);
    let mut all = input;
    out.sort();
    all.sort();
    assert_eq!(out, all);
}

#[test]
fn higher_scores_go_first() {
    let rows = vec![r("a", "/a", ""), r("b", "/b", ""), r("c", "/c", ""), r("d", "/d", "")];
    let ranked = rank_by_score(&rows, &vec![2, 7, 2, 9]);
    let names: Vec<&str> = ranked.iter().map(|row| row.0.as_str()).collect();
    assert_eq!(names, ["d", "b", "a", "c"]);
}

#[test]
fn the_score_decides() {
    let rows = vec![r("one", "/1", "long enough text"), r("two", "/2", "text")];
    let by_length = |_: &CorpusStats, doc: &DocStats| doc.len as u64;
    let by_shortness = |_: &CorpusStats, doc: &DocStats| 100 - doc.len as u64;
    assert_eq!(rerank("text", rows.clone(), by_length)[0].0, "one");
    assert_eq!(rerank("text", rows, by_shortness)[0].0, "two");
}

#[test]
fn words_are_runs_of_letters_and_numbers_in_lower_case() {
    assert_eq!(tokenize("Hello, World-42! a é I"), ["hello", "world", "42", "é"]);
    assert_eq!(tokenize(" .,; x"), Vec::<String>::new());
    assert_eq!(tokenize("ÀÉ Straße"), ["àé", "straße"]);
}

#[test]
fn counts_over_all_candidates() {
    let rows = vec![r("a", "/a", "Apple apple pie"), r("b", "/b", "pineapple juice"), r("c", "/c", "")];
    let words = tokenize("apple pie");
    let stats = corpus_stats(&words, &rows);
    assert_eq!(stats.docs, 3);
    assert_eq!(stats.total_len, 5);
    // A word inside another counts for a candidate.
    assert_eq!(stats.df, [2, 1]);
}

#[test]
fn counts_of_one_candidate() {
    let words = tokenize("apple pie apple");
    let stats = doc_stats(&words, &r("My-APPLE.txt", "/a", "Apple pineapple APPLE pie x"));
    assert_eq!(stats.len, 4);
    // Only whole words count, and a repeated word of the query counts again.
    assert_eq!(stats.tf, [2, 1, 2]);
    assert_eq!(stats.name_hits, 2);
}

#[test]
fn queries_with_equal_words_rank_alike() {
    let rows = vec![
        r("a.txt", "/a", "integral of a sum"),
        r("calculus.md", "/b", "nothing here"),
        r("c.txt", "/c", "calculus calculus integral"),
    ];
    let ranked = rerank("calculus integral", rows.clone(), bm25);
    assert_eq!(rerank("Calculus, a INTEGRAL!", rows.clone(), bm25), ranked);
    assert_eq!(rerank("calculus integral", rows, bm25), ranked);
}

#[test]
fn ranking_again_changes_nothing() {
    let rows: Vec<Row> = (0..12)
        .map(|i| r(&format!("f{}.txt", i % 3), &format!("/{i}"), &"apple pie ".repeat(i % 4)))
        .collect();
    let once = rerank("pie apple f2", rows, bm25);
    assert_eq!(rerank("pie apple f2", once.clone(), bm25), once);
}
