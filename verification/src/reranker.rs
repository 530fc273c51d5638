//! Re-ranking of search results by keyword overlap.
//!
//! The vector search hands over candidates; here they are counted against the words of the query
//! and put into the order of their scores. The counts are exact. The score is a function of the
//! counts that the caller brings: how much a count weighs is no matter of this module.
use vstd::prelude::*;
use vstd::utf8::encode_utf8;

use crate::text::{
    alphanumeric, contains, has_text, law_letters_and_numbers_make_words, lowercase, occurs_at, runs,
    split_runs, texts, CharClass,
};

verus! {

/// A search result: file name, physical path, text of the matching chunk.
pub type Row = (String, String, String);

// ----------------------------------------------------------------------------------------------
// Words
// ----------------------------------------------------------------------------------------------

/// Whether a word takes at least two bytes.
pub open spec fn long_word(w: Seq<char>) -> bool {
    encode_utf8(w).len() >= 2
}

/// The words that count of a row of words, in lower case.
pub open spec fn counted_words(words: Seq<Seq<char>>) -> Seq<Seq<char>> {
    words.filter(|w: Seq<char>| long_word(w)).map_values(|w: Seq<char>| lowercase(w))
}

/// The words of a text: its runs of letters and numbers of two bytes or more, in lower case.
pub open spec fn tokens(text: Seq<char>) -> Seq<Seq<char>> {
    counted_words(runs(text, CharClass::Alphanumeric))
}

/// Splits a text into its words.
pub fn tokenize(text: &str) -> (r: Vec<String>)
    ensures
        texts(r@) == tokens(text@),
{
    let words: Vec<String> = split_runs(text, CharClass::Alphanumeric);
    let n: usize = words.len();
    let mut out: Vec<String> = Vec::new();
    let mut i: usize = 0;
    let ghost all = texts(words@);
    proof {
        reveal(Seq::filter);
    }
    assert(counted_words(all.take(0)) =~= Seq::<Seq<char>>::empty());
    while i < n
        invariant
            i <= n,
            n == words@.len(),
            all == texts(words@),
            texts(out@) =~= counted_words(all.take(i as int)),
        decreases n - i,
    {
        proof {
            reveal(Seq::filter);
        }
        let ghost before = texts(out@);
        assert(all.take(i + 1).drop_last() =~= all.take(i as int));
        assert(all.take(i + 1).last() == words@[i as int]@);
        if words[i].as_str().as_bytes().len() >= 2 {
            let w: String = words[i].as_str().to_lowercase();
            out.push(w);
            assert(texts(out@) =~= before.push(w@));
        }
        i = i + 1;
    }
    assert(all.take(n as int) =~= all);
    out
}

// ----------------------------------------------------------------------------------------------
// Counts
// ----------------------------------------------------------------------------------------------

/// How often a word occurs among words.
pub open spec fn occurrences(words: Seq<Seq<char>>, word: Seq<char>) -> nat
    decreases words.len(),
{
    if words.len() == 0 {
        0
    } else {
        occurrences(words.drop_last(), word) + if words.last() == word {
            1nat
        } else {
            0nat
        }
    }
}

/// In how many of the rows the chunk, in lower case, holds a word.
pub open spec fn rows_with(rows: Seq<Row>, word: Seq<char>) -> nat
    decreases rows.len(),
{
    if rows.len() == 0 {
        0
    } else {
        rows_with(rows.drop_last(), word) + if has_text(lowercase(rows.last().2@), word) {
            1nat
        } else {
            0nat
        }
    }
}

/// How many words there are in the chunks of the rows, all together.
pub open spec fn words_in(rows: Seq<Row>) -> nat
    decreases rows.len(),
{
    if rows.len() == 0 {
        0
    } else {
        words_in(rows.drop_last()) + tokens(rows.last().2@).len()
    }
}

/// How many of the words, counted with repetition, occur in a file name in lower case.
pub open spec fn words_in_name(words: Seq<Seq<char>>, name: Seq<char>) -> nat
    decreases words.len(),
{
    if words.len() == 0 {
        0
    } else {
        words_in_name(words.drop_last(), name) + if has_text(lowercase(name), words.last()) {
            1nat
        } else {
            0nat
        }
    }
}

/// What is counted over all candidates.
#[derive(Debug)]
pub struct CorpusStats {
    /// How many candidates there are.
    pub docs: usize,
    /// How many words their chunks have, all together.
    pub total_len: u128,
    /// For each word of the query, in how many candidates the chunk holds it.
    pub df: Vec<usize>,
}

/// What is counted of one candidate.
#[derive(Debug)]
pub struct DocStats {
    /// How many words its chunk has.
    pub len: usize,
    /// For each word of the query, how often it occurs among the words of the chunk.
    pub tf: Vec<usize>,
    /// How many words of the query occur in its file name.
    pub name_hits: usize,
}

impl CorpusStats {
    /// Whether these are the counts over the rows for the words of a query.
    pub open spec fn counts(self, words: Seq<Seq<char>>, rows: Seq<Row>) -> bool {
        &&& self.docs == rows.len()
        &&& self.total_len == words_in(rows)
        &&& self.df@.len() == words.len()
        &&& forall|j: int|
            0 <= j < words.len() ==> #[trigger] self.df@[j] == rows_with(rows, words[j])
    }
}

impl DocStats {
    /// Whether these are the counts of a row for the words of a query.
    pub open spec fn counts(self, words: Seq<Seq<char>>, row: Row) -> bool {
        &&& self.len == tokens(row.2@).len()
        &&& self.tf@.len() == words.len()
        &&& forall|j: int|
            0 <= j < words.len() ==> #[trigger] self.tf@[j] == occurrences(tokens(row.2@), words[j])
        &&& self.name_hits == words_in_name(words, row.0@)
    }
}

fn count_word(words: &Vec<String>, word: &String) -> (r: usize)
    ensures
        r == occurrences(texts(words@), word@),
{
    let n: usize = words.len();
    let mut count: usize = 0;
    let mut i: usize = 0;
    let ghost all = texts(words@);
    while i < n
        invariant
            i <= n,
            n == words@.len(),
            all == texts(words@),
            count <= i,
            count == occurrences(all.take(i as int), word@),
        decreases n - i,
    {
        assert(all.take(i + 1).drop_last() =~= all.take(i as int));
        assert(all.take(i + 1).last() == words@[i as int]@);
        if words[i] == *word {
            count = count + 1;
        }
        i = i + 1;
    }
    assert(all.take(n as int) =~= all);
    count
}

fn count_names(words: &Vec<String>, name: &str) -> (r: usize)
    ensures
        r == words_in_name(texts(words@), name@),
{
    let lower: String = name.to_lowercase();
    let n: usize = words.len();
    let mut count: usize = 0;
    let mut i: usize = 0;
    let ghost all = texts(words@);
    while i < n
        invariant
            i <= n,
            n == words@.len(),
            all == texts(words@),
            lower@ == lowercase(name@),
            count <= i,
            count == words_in_name(all.take(i as int), name@),
        decreases n - i,
    {
        assert(all.take(i + 1).drop_last() =~= all.take(i as int));
        assert(all.take(i + 1).last() == words@[i as int]@);
        if contains(lower.as_str(), words[i].as_str()) {
            count = count + 1;
        }
        i = i + 1;
    }
    assert(all.take(n as int) =~= all);
    count
}

fn count_rows(rows: &Vec<Row>, word: &String) -> (r: usize)
    ensures
        r == rows_with(rows@, word@),
{
    let n: usize = rows.len();
    let mut count: usize = 0;
    let mut i: usize = 0;
    while i < n
        invariant
            i <= n,
            n == rows@.len(),
            count <= i,
            count == rows_with(rows@.take(i as int), word@),
        decreases n - i,
    {
        assert(rows@.take(i + 1).drop_last() =~= rows@.take(i as int));
        if contains(rows[i].2.as_str().to_lowercase().as_str(), word.as_str()) {
            count = count + 1;
        }
        i = i + 1;
    }
    assert(rows@.take(n as int) =~= rows@);
    count
}

/// Counts over all candidates, for the words of a query.
pub fn corpus_stats(words: &Vec<String>, rows: &Vec<Row>) -> (r: CorpusStats)
    ensures
        r.counts(texts(words@), rows@),
{
    let docs: usize = rows.len();
    let mut total_len: u128 = 0;
    let mut i: usize = 0;
    while i < docs
        invariant
            i <= docs,
            docs == rows@.len(),
            total_len == words_in(rows@.take(i as int)),
            total_len <= i * usize::MAX,
        decreases docs - i,
    {
        assert(rows@.take(i + 1).drop_last() =~= rows@.take(i as int));
        let words_here: Vec<String> = tokenize(rows[i].2.as_str());
        assert(words_here@.len() == tokens(rows@[i as int].2@).len()) by {
            assert(texts(words_here@).len() == words_here@.len());
        }
        assert(i * usize::MAX + usize::MAX == (i + 1) * usize::MAX) by (nonlinear_arith);
        assert((i + 1) * usize::MAX <= usize::MAX * usize::MAX) by (nonlinear_arith)
            requires
                i + 1 <= usize::MAX,
        ;
        assert(usize::MAX * usize::MAX <= u128::MAX) by (nonlinear_arith)
            requires
                usize::MAX <= u64::MAX,
        ;
        total_len = total_len + words_here.len() as u128;
        i = i + 1;
    }
    assert(rows@.take(docs as int) =~= rows@);
    let terms: usize = words.len();
    let mut df: Vec<usize> = Vec::new();
    let mut j: usize = 0;
    while j < terms
        invariant
            j <= terms,
            terms == words@.len(),
            df@.len() == j,
            forall|k: int| 0 <= k < j ==> #[trigger] df@[k] == rows_with(rows@, texts(words@)[k]),
        decreases terms - j,
    {
        let count: usize = count_rows(rows, &words[j]);
        df.push(count);
        j = j + 1;
    }
    CorpusStats { docs, total_len, df }
}

/// Counts of one candidate, for the words of a query.
pub fn doc_stats(words: &Vec<String>, row: &Row) -> (r: DocStats)
    ensures
        r.counts(texts(words@), *row),
        r.name_hits == texts(words@).filter(
            |word: Seq<char>|
                exists|from: int, to: int|
                    0 <= from <= to <= lowercase(row.0@).len() && #[trigger] lowercase(
                        row.0@,
                    ).subrange(from, to) == word,
        ).len(),
        forall|j: int|
            0 <= j < words@.len() ==> #[trigger] r.tf@[j] == tokens(row.2@).filter(
                |w: Seq<char>| w == texts(words@)[j],
            ).len(),
{
    proof {
        law_names_are_searched_for_substrings(texts(words@), row.0@);
        assert forall|j: int| 0 <= j < words@.len() implies #[trigger] occurrences(
            tokens(row.2@),
            texts(words@)[j],
        ) == tokens(row.2@).filter(|w: Seq<char>| w == texts(words@)[j]).len() by {
            let word = texts(words@)[j];
            law_every_occurrence_counts(tokens(row.2@), word);
            assert((|w: Seq<char>| w == word) =~= (|w: Seq<char>| w == texts(words@)[j]));
        }
    }
    let found: Vec<String> = tokenize(row.2.as_str());
    assert(found@.len() == tokens(row.2@).len()) by {
        assert(texts(found@).len() == found@.len());
    }
    let terms: usize = words.len();
    let mut tf: Vec<usize> = Vec::new();
    let mut j: usize = 0;
    while j < terms
        invariant
            j <= terms,
            terms == words@.len(),
            texts(found@) == tokens(row.2@),
            tf@.len() == j,
            forall|k: int|
                0 <= k < j ==> #[trigger] tf@[k] == occurrences(tokens(row.2@), texts(words@)[k]),
        decreases terms - j,
    {
        let count: usize = count_word(&found, &words[j]);
        tf.push(count);
        j = j + 1;
    }
    DocStats { len: found.len(), tf, name_hits: count_names(words, row.0.as_str()) }
}

// ----------------------------------------------------------------------------------------------
// Ranking
// ----------------------------------------------------------------------------------------------

/// Whether one candidate goes before another: by its higher score or, where the scores are equal,
/// by its earlier place.
pub open spec fn goes_before(scores: Seq<u64>, a: int, b: int) -> bool {
    scores[a] > scores[b] || (scores[a] == scores[b] && a < b)
}

/// Whether a row of places is the ranking by the scores: it is as long as there are scores, names
/// places among them, and each goes before all that follow.
pub open spec fn is_ranking(order: Seq<int>, scores: Seq<u64>) -> bool {
    &&& order.len() == scores.len()
    &&& forall|i: int| 0 <= i < order.len() ==> 0 <= #[trigger] order[i] < scores.len()
    &&& forall|i: int, j: int|
        0 <= i < j < order.len() ==> goes_before(scores, #[trigger] order[i], #[trigger] order[j])
}

/// The rows in the order of the places.
pub open spec fn arranged(rows: Seq<Row>, order: Seq<int>) -> Seq<Row> {
    order.map_values(|k: int| rows[k])
}

/// The places in a vector of them.
spec fn places(order: Seq<usize>) -> Seq<int> {
    order.map_values(|k: usize| k as int)
}

fn order_by_score(scores: &Vec<u64>) -> (r: Vec<usize>)
    ensures
        is_ranking(places(r@), scores@),
{
    let n: usize = scores.len();
    let mut order: Vec<usize> = Vec::new();
    let mut i: usize = 0;
    while i < n
        invariant
            i <= n,
            n == scores@.len(),
            is_ranking(places(order@), scores@.take(i as int)),
        decreases n - i,
    {
        let ghost was = places(order@);
        let ghost known = scores@.take(i as int);
        assert forall|q: int| 0 <= q < order@.len() implies #[trigger] order@[q] < i by {
            assert(was[q] == order@[q]);
        }
        let mut p: usize = 0;
        while p < order.len() && scores[order[p]] >= scores[i]
            invariant
                p <= order@.len(),
                i < n,
                n == scores@.len(),
                was == places(order@),
                known == scores@.take(i as int),
                is_ranking(was, known),
                forall|q: int| 0 <= q < order@.len() ==> #[trigger] order@[q] < i,
                forall|q: int|
                    0 <= q < p ==> scores@[#[trigger] order@[q] as int] >= scores@[i as int],
            decreases order@.len() - p,
        {
            p = p + 1;
        }
        let ghost next = scores@.take(i + 1);
        let ghost now = was.insert(p as int, i as int);
        proof {
            assert forall|q: int| 0 <= q < was.len() implies 0 <= #[trigger] was[q] < i && next[was[q]]
                == known[was[q]] by {
                assert(was[q] == order@[q]);
            }
            assert forall|a: int, b: int| 0 <= a < b < now.len() implies goes_before(
                next,
                #[trigger] now[a],
                #[trigger] now[b],
            ) by {
                let x = if a < p { a } else { a - 1 };
                let y = if b < p { b } else { b - 1 };
                if a != p && b != p {
                    assert(now[a] == was[x] && now[b] == was[y]);
                    assert(goes_before(known, was[x], was[y]));
                } else if b == p {
                    assert(now[a] == was[a]);
                    assert(was[a] == order@[a]);
                } else {
                    assert(now[b] == was[y]);
                    assert(was[p as int] == order@[p as int]);
                    if y > p {
                        assert(goes_before(known, was[p as int], was[y]));
                    }
                }
            }
        }
        order.insert(p, i);
        assert(places(order@) =~= now);
        i = i + 1;
    }
    assert(scores@.take(n as int) =~= scores@);
    order
}

/// Puts the rows into the order of their scores, the highest first; rows of equal scores keep
/// their order.
pub fn rank_by_score(rows: &Vec<Row>, scores: &Vec<u64>) -> (r: Vec<Row>)
    requires
        rows@.len() == scores@.len(),
    ensures
        exists|order: Seq<int>|
            is_ranking(order, scores@) && r@ == #[trigger] arranged(rows@, order),
{
    let order: Vec<usize> = order_by_score(scores);
    let ghost o = places(order@);
    let n: usize = order.len();
    let mut out: Vec<Row> = Vec::new();
    let mut i: usize = 0;
    while i < n
        invariant
            i <= n,
            n == order@.len(),
            o == places(order@),
            is_ranking(o, scores@),
            rows@.len() == scores@.len(),
            out@ =~= arranged(rows@, o).take(i as int),
        decreases n - i,
    {
        let k: usize = order[i];
        assert(o[i as int] == k);
        let row: Row = (rows[k].0.clone(), rows[k].1.clone(), rows[k].2.clone());
        assert(row == rows@[k as int]);
        out.push(row);
        i = i + 1;
    }
    assert(out@ =~= arranged(rows@, o));
    out
}

/// Whether two counts over all candidates are the same.
pub open spec fn same_corpus(a: CorpusStats, b: CorpusStats) -> bool {
    a.docs == b.docs && a.total_len == b.total_len && a.df@ == b.df@
}

/// Whether two counts of a candidate are the same.
pub open spec fn same_doc(a: DocStats, b: DocStats) -> bool {
    a.len == b.len && a.tf@ == b.tf@ && a.name_hits == b.name_hits
}

/// Whether a function has one result for the same counts.
pub open spec fn by_counts<F: Fn(&CorpusStats, &DocStats) -> u64>(score: F) -> bool {
    forall|c1: CorpusStats, d1: DocStats, s1: u64, c2: CorpusStats, d2: DocStats, s2: u64|
        #![trigger call_ensures(score, (&c1, &d1), s1), call_ensures(score, (&c2, &d2), s2)]
        same_corpus(c1, c2) && same_doc(d1, d2) && call_ensures(score, (&c1, &d1), s1)
            && call_ensures(score, (&c2, &d2), s2) ==> s1 == s2
}

/// Whether a function is a score: it can be called on any counts, and has one result for the same
/// counts.
pub open spec fn is_score<F: Fn(&CorpusStats, &DocStats) -> u64>(score: F) -> bool {
    &&& forall|corpus: &CorpusStats, doc: &DocStats| call_requires(score, (corpus, doc))
    &&& by_counts(score)
}

/// Whether these scores are what a scoring function makes of the counts for a query.
pub open spec fn scored<F: Fn(&CorpusStats, &DocStats) -> u64>(
    query: Seq<char>,
    rows: Seq<Row>,
    score: F,
    scores: Seq<u64>,
) -> bool {
    &&& scores.len() == rows.len()
    &&& exists|corpus: CorpusStats, docs: Seq<DocStats>|
        {
            &&& corpus.counts(tokens(query), rows)
            &&& docs.len() == rows.len()
            &&& forall|i: int|
                0 <= i < rows.len() ==> (#[trigger] docs[i]).counts(tokens(query), rows[i])
                    && call_ensures(score, (&corpus, &docs[i]), scores[i])
        }
}

/// Whether these rows are the candidates in the order of their scores. A query without words
/// leaves the candidates as they are.
pub open spec fn reranked<F: Fn(&CorpusStats, &DocStats) -> u64>(
    query: Seq<char>,
    rows: Seq<Row>,
    score: F,
    out: Seq<Row>,
) -> bool {
    if tokens(query).len() == 0 {
        out == rows
    } else {
        exists|scores: Seq<u64>, order: Seq<int>|
            #![trigger scored(query, rows, score, scores), is_ranking(order, scores)]
            scored(query, rows, score, scores) && is_ranking(order, scores) && out == arranged(
                rows,
                order,
            )
    }
}

/// Re-ranks search results against a query, in descending order of the score that `score` gives
/// to the counts of each; results of equal scores keep their order. Another query with the same words
/// has the same outcome, and re-ranking the outcome for the query changes nothing.
pub fn rerank<F: Fn(&CorpusStats, &DocStats) -> u64>(
    query: &str,
    results: Vec<Row>,
    score: F,
) -> (r: Vec<Row>)
    requires
        is_score(score),
    ensures
        reranked(query@, results@, score, r@),
        forall|other: Seq<char>, out: Seq<Row>|
            tokens(other) == tokens(query@) && #[trigger] reranked(other, results@, score, out)
                ==> out == r@,
        forall|again: Seq<Row>| #[trigger] reranked(query@, r@, score, again) ==> again == r@,
{
    let r: Vec<Row> = ranked_by(query, results, score);
    proof {
        assert forall|other: Seq<char>, out: Seq<Row>|
            tokens(other) == tokens(query@) && #[trigger] reranked(
                other,
                results@,
                score,
                out,
            ) implies out == r@ by {
            law_equal_words_rank_alike(query@, other, results@, score, r@, out);
        }
        assert forall|again: Seq<Row>| #[trigger] reranked(query@, r@, score, again) implies again
            == r@ by {
            law_reranking_again_changes_nothing(query@, results@, score, r@, again);
        }
    }
    r
}

fn ranked_by<F: Fn(&CorpusStats, &DocStats) -> u64>(query: &str, results: Vec<Row>, score: F) -> (r:
    Vec<Row>)
    requires
        is_score(score),
    ensures
        reranked(query@, results@, score, r@),
{
    let words: Vec<String> = tokenize(query);
    assert(texts(words@).len() == words@.len());
    if words.len() == 0 {
        return results;
    }
    let corpus: CorpusStats = corpus_stats(&words, &results);
    let n: usize = results.len();
    let mut scores: Vec<u64> = Vec::new();
    let ghost mut docs: Seq<DocStats> = Seq::empty();
    let mut i: usize = 0;
    while i < n
        invariant
            i <= n,
            n == results@.len(),
            texts(words@) == tokens(query@),
            is_score(score),
            scores@.len() == i,
            docs.len() == i,
            forall|k: int|
                0 <= k < i ==> (#[trigger] docs[k]).counts(tokens(query@), results@[k])
                    && call_ensures(score, (&corpus, &docs[k]), scores@[k]),
        decreases n - i,
    {
        let doc: DocStats = doc_stats(&words, &results[i]);
        let s: u64 = score(&corpus, &doc);
        scores.push(s);
        proof {
            docs = docs.push(doc);
        }
        i = i + 1;
    }
    assert(scored(query@, results@, score, scores@));
    rank_by_score(&results, &scores)
}

// ----------------------------------------------------------------------------------------------
// What re-ranking promises
// ----------------------------------------------------------------------------------------------

/// A ranking names every place.
proof fn lemma_ranking_is_onto(order: Seq<int>, scores: Seq<u64>, k: int)
    requires
        is_ranking(order, scores),
        0 <= k < scores.len(),
    ensures
        exists|i: int| 0 <= i < order.len() && #[trigger] order[i] == k,
{
    if forall|i: int| 0 <= i < order.len() ==> #[trigger] order[i] != k {
        let n = scores.len() as int;
        let all = vstd::set_lib::set_int_range(0, n);
        vstd::set_lib::lemma_int_range(0, n);
        assert(order.no_duplicates()) by {
            assert forall|i: int, j: int|
                0 <= i < order.len() && 0 <= j < order.len() && i != j implies order[i]
                != order[j] by {
                if i < j {
                    assert(goes_before(scores, order[i], order[j]));
                } else {
                    assert(goes_before(scores, order[j], order[i]));
                }
            }
        }
        order.unique_seq_to_set();
        let rest = all.remove(k);
        assert(order.to_set().subset_of(rest)) by {
            assert forall|v: int| order.to_set().contains(v) implies rest.contains(v) by {
                let i = choose|i: int| 0 <= i < order.len() && order[i] == v;
                assert(order[i] != k);
            }
        }
        vstd::set_lib::lemma_len_subset(order.to_set(), rest);
    }
}

/// The scores leave no choice: there is no more than one ranking by them.
pub proof fn law_scores_determine_the_ranking(a: Seq<int>, b: Seq<int>, scores: Seq<u64>)
    requires
        is_ranking(a, scores),
        is_ranking(b, scores),
    ensures
        a == b,
{
    lemma_rankings_agree(a, b, scores, scores.len() as int);
    assert(a =~= b);
}

proof fn lemma_rankings_agree(a: Seq<int>, b: Seq<int>, scores: Seq<u64>, n: int)
    requires
        is_ranking(a, scores),
        is_ranking(b, scores),
        0 <= n <= scores.len(),
    ensures
        forall|i: int| 0 <= i < n ==> a[i] == b[i],
    decreases n,
{
    if n > 0 {
        lemma_rankings_agree(a, b, scores, n - 1);
        let m = n - 1;
        if a[m] != b[m] {
            lemma_ranking_is_onto(a, scores, b[m]);
            lemma_ranking_is_onto(b, scores, a[m]);
            let p = choose|p: int| 0 <= p < a.len() && #[trigger] a[p] == b[m];
            let q = choose|q: int| 0 <= q < b.len() && #[trigger] b[q] == a[m];
            if p < m {
                assert(b[p] == b[m]);
                assert(goes_before(scores, b[p], b[m]));
            }
            if q < m {
                assert(a[q] == a[m]);
                assert(goes_before(scores, a[q], a[m]));
            }
            assert(goes_before(scores, a[m], a[p]));
            assert(goes_before(scores, b[m], b[q]));
        }
    }
}

/// Re-ranking keeps every result, as often as it was there, and adds none.
pub proof fn law_reranking_keeps_all_results<F: Fn(&CorpusStats, &DocStats) -> u64>(
    query: Seq<char>,
    rows: Seq<Row>,
    score: F,
    out: Seq<Row>,
)
    requires
        reranked(query, rows, score, out),
    ensures
        out.to_multiset() == rows.to_multiset(),
        out.len() == rows.len(),
{
    if tokens(query).len() > 0 {
        let (scores, order) = choose|scores: Seq<u64>, order: Seq<int>|
            #![trigger scored(query, rows, score, scores), is_ranking(order, scores)]
            scored(query, rows, score, scores) && is_ranking(order, scores) && out == arranged(
                rows,
                order,
            );
        lemma_arranging_keeps_all(rows, order, scores);
    }
}

proof fn lemma_arranging_keeps_all(rows: Seq<Row>, order: Seq<int>, scores: Seq<u64>)
    requires
        is_ranking(order, scores),
        rows.len() == scores.len(),
    ensures
        arranged(rows, order).to_multiset() == rows.to_multiset(),
    decreases rows.len(),
{
    broadcast use vstd::seq_lib::group_to_multiset_ensures;

    let out = arranged(rows, order);
    if rows.len() == 0 {
        assert(out =~= rows);
    } else {
        let m = rows.len() - 1;
        lemma_ranking_is_onto(order, scores, m);
        let p = choose|p: int| 0 <= p < order.len() && #[trigger] order[p] == m;
        let fewer = order.remove(p);
        let less = scores.drop_last();
        assert forall|i: int| 0 <= i < fewer.len() implies 0 <= #[trigger] fewer[i] < m by {
            let x = if i < p { i } else { i + 1 };
            assert(fewer[i] == order[x]);
            if x < p {
                assert(goes_before(scores, order[x], order[p]));
            } else {
                assert(goes_before(scores, order[p], order[x]));
            }
        }
        assert forall|i: int, j: int| 0 <= i < j < fewer.len() implies goes_before(
            less,
            #[trigger] fewer[i],
            #[trigger] fewer[j],
        ) by {
            let x = if i < p { i } else { i + 1 };
            let y = if j < p { j } else { j + 1 };
            assert(fewer[i] == order[x] && fewer[j] == order[y]);
            assert(goes_before(scores, order[x], order[y]));
        }
        lemma_arranging_keeps_all(rows.drop_last(), fewer, less);
        assert(out.remove(p) =~= arranged(rows.drop_last(), fewer));
        assert(rows =~= rows.drop_last().push(rows.last()));
        assert(out =~= out.remove(p).insert(p, rows.last()));
        vstd::seq_lib::to_multiset_insert(out.remove(p), p, rows.last());
        assert(out.to_multiset() =~= rows.to_multiset());
    }
}

/// No candidates give no results, and a query without words leaves the candidates as they are.
pub proof fn law_nothing_to_rank_by<F: Fn(&CorpusStats, &DocStats) -> u64>(
    query: Seq<char>,
    rows: Seq<Row>,
    score: F,
    out: Seq<Row>,
)
    requires
        reranked(query, rows, score, out),
        rows.len() == 0 || tokens(query).len() == 0,
    ensures
        out == rows,
{
    law_reranking_keeps_all_results(query, rows, score, out);
    assert(rows.len() == 0 ==> out =~= rows);
}

/// Counts for the same words over as many rows that hold the same chunks are the same.
proof fn lemma_same_corpus(
    a: CorpusStats,
    b: CorpusStats,
    words: Seq<Seq<char>>,
    rows: Seq<Row>,
    others: Seq<Row>,
)
    requires
        a.counts(words, rows),
        b.counts(words, others),
        rows.to_multiset() == others.to_multiset(),
    ensures
        same_corpus(a, b),
{
    vstd::seq_lib::to_multiset_len(rows);
    vstd::seq_lib::to_multiset_len(others);
    lemma_words_in_any_order(rows, others);
    assert forall|j: int| 0 <= j < words.len() implies a.df@[j] == b.df@[j] by {
        lemma_rows_in_any_order(rows, others, words[j]);
    }
    assert(a.df@ =~= b.df@);
}

proof fn lemma_same_doc(a: DocStats, b: DocStats, words: Seq<Seq<char>>, row: Row)
    requires
        a.counts(words, row),
        b.counts(words, row),
    ensures
        same_doc(a, b),
{
    assert forall|j: int| 0 <= j < words.len() implies a.tf@[j] == b.tf@[j] by {}
    assert(a.tf@ =~= b.tf@);
}

proof fn lemma_rows_with_removed(rows: Seq<Row>, word: Seq<char>, p: int)
    requires
        0 <= p < rows.len(),
    ensures
        rows_with(rows, word) == rows_with(rows.remove(p), word) + if has_text(
            lowercase(rows[p].2@),
            word,
        ) {
            1nat
        } else {
            0nat
        },
    decreases rows.len(),
{
    let less = rows.remove(p);
    if p == rows.len() - 1 {
        assert(less =~= rows.drop_last());
    } else {
        lemma_rows_with_removed(rows.drop_last(), word, p);
        assert(less.drop_last() =~= rows.drop_last().remove(p));
        assert(less.last() == rows.last());
    }
}

proof fn lemma_words_in_removed(rows: Seq<Row>, p: int)
    requires
        0 <= p < rows.len(),
    ensures
        words_in(rows) == words_in(rows.remove(p)) + tokens(rows[p].2@).len(),
    decreases rows.len(),
{
    let less = rows.remove(p);
    if p == rows.len() - 1 {
        assert(less =~= rows.drop_last());
    } else {
        lemma_words_in_removed(rows.drop_last(), p);
        assert(less.drop_last() =~= rows.drop_last().remove(p));
        assert(less.last() == rows.last());
    }
}

/// The last of the others stands somewhere among the rows, and without it on either side the same
/// rows are left.
proof fn lemma_find_last(rows: Seq<Row>, others: Seq<Row>) -> (p: int)
    requires
        others.len() > 0,
        rows.to_multiset() == others.to_multiset(),
    ensures
        0 <= p < rows.len(),
        rows[p] == others.last(),
        rows.remove(p).to_multiset() == others.drop_last().to_multiset(),
{
    let last = others.last();
    assert(others[others.len() - 1] == last);
    vstd::seq_lib::to_multiset_contains(others, last);
    vstd::seq_lib::to_multiset_contains(rows, last);
    let p = choose|p: int| 0 <= p < rows.len() && rows[p] == last;
    assert(others.drop_last() =~= others.remove(others.len() - 1));
    vstd::seq_lib::to_multiset_remove(rows, p);
    vstd::seq_lib::to_multiset_remove(others, others.len() - 1);
    p
}

proof fn lemma_rows_in_any_order(rows: Seq<Row>, others: Seq<Row>, word: Seq<char>)
    requires
        rows.to_multiset() == others.to_multiset(),
    ensures
        rows_with(rows, word) == rows_with(others, word),
    decreases others.len(),
{
    vstd::seq_lib::to_multiset_len(rows);
    vstd::seq_lib::to_multiset_len(others);
    if others.len() > 0 {
        let p = lemma_find_last(rows, others);
        lemma_rows_with_removed(rows, word, p);
        lemma_rows_in_any_order(rows.remove(p), others.drop_last(), word);
    }
}

proof fn lemma_words_in_any_order(rows: Seq<Row>, others: Seq<Row>)
    requires
        rows.to_multiset() == others.to_multiset(),
    ensures
        words_in(rows) == words_in(others),
    decreases others.len(),
{
    vstd::seq_lib::to_multiset_len(rows);
    vstd::seq_lib::to_multiset_len(others);
    if others.len() > 0 {
        let p = lemma_find_last(rows, others);
        lemma_words_in_removed(rows, p);
        lemma_words_in_any_order(rows.remove(p), others.drop_last());
    }
}

/// Scores of the same words over the same rows in another order are the same scores in that order.
proof fn lemma_scores_follow_the_rows<F: Fn(&CorpusStats, &DocStats) -> u64>(
    query: Seq<char>,
    other_query: Seq<char>,
    rows: Seq<Row>,
    order: Seq<int>,
    score: F,
    scores: Seq<u64>,
    others: Seq<u64>,
)
    requires
        is_score(score),
        tokens(query) == tokens(other_query),
        scored(query, rows, score, scores),
        order.len() == rows.len(),
        forall|i: int| 0 <= i < order.len() ==> 0 <= #[trigger] order[i] < rows.len(),
        arranged(rows, order).to_multiset() == rows.to_multiset(),
        scored(other_query, arranged(rows, order), score, others),
    ensures
        others.len() == scores.len(),
        forall|i: int| 0 <= i < order.len() ==> others[i] == scores[#[trigger] order[i]],
{
    let words = tokens(query);
    let again = arranged(rows, order);
    let (c1, d1) = choose|corpus: CorpusStats, docs: Seq<DocStats>|
        {
            &&& corpus.counts(words, rows)
            &&& docs.len() == rows.len()
            &&& forall|i: int|
                0 <= i < rows.len() ==> (#[trigger] docs[i]).counts(words, rows[i])
                    && call_ensures(score, (&corpus, &docs[i]), scores[i])
        };
    let (c2, d2) = choose|corpus: CorpusStats, docs: Seq<DocStats>|
        {
            &&& corpus.counts(words, again)
            &&& docs.len() == again.len()
            &&& forall|i: int|
                0 <= i < again.len() ==> (#[trigger] docs[i]).counts(words, again[i])
                    && call_ensures(score, (&corpus, &docs[i]), others[i])
        };
    lemma_same_corpus(c1, c2, words, rows, again);
    assert forall|i: int| 0 <= i < order.len() implies others[i] == scores[#[trigger] order[i]] by {
        let k = order[i];
        assert(d1[k].counts(words, rows[k]));
        assert(d2[i].counts(words, again[i]));
        assert(again[i] == rows[k]);
        lemma_same_doc(d1[k], d2[i], words, rows[k]);
        assert(call_ensures(score, (&c1, &d1[k]), scores[k]));
        assert(call_ensures(score, (&c2, &d2[i]), others[i]));
    }
}

/// The places in their own order.
spec fn in_place(n: nat) -> Seq<int> {
    Seq::new(n, |i: int| i)
}

/// Queries with the same words rank alike: by any score, the same rows come out in the same order.
pub proof fn law_equal_words_rank_alike<F: Fn(&CorpusStats, &DocStats) -> u64>(
    query: Seq<char>,
    other_query: Seq<char>,
    rows: Seq<Row>,
    score: F,
    out: Seq<Row>,
    other_out: Seq<Row>,
)
    requires
        is_score(score),
        tokens(query) == tokens(other_query),
        reranked(query, rows, score, out),
        reranked(other_query, rows, score, other_out),
    ensures
        out == other_out,
{
    if tokens(query).len() > 0 {
        let (scores, order) = choose|scores: Seq<u64>, order: Seq<int>|
            #![trigger scored(query, rows, score, scores), is_ranking(order, scores)]
            scored(query, rows, score, scores) && is_ranking(order, scores) && out == arranged(
                rows,
                order,
            );
        let (others, other_order) = choose|scores: Seq<u64>, order: Seq<int>|
            #![trigger scored(other_query, rows, score, scores), is_ranking(order, scores)]
            scored(other_query, rows, score, scores) && is_ranking(order, scores) && other_out
                == arranged(rows, order);
        let same = in_place(rows.len());
        assert(arranged(rows, same) =~= rows);
        lemma_scores_follow_the_rows(query, other_query, rows, same, score, scores, others);
        assert forall|i: int| 0 <= i < scores.len() implies others[i] == scores[i] by {
            assert(same[i] == i);
        }
        assert(scores =~= others);
        law_scores_determine_the_ranking(order, other_order, scores);
    }
}

/// Ranking again changes nothing: by any score, results that were re-ranked stay as they are when
/// they are re-ranked for the same query.
pub proof fn law_reranking_again_changes_nothing<F: Fn(&CorpusStats, &DocStats) -> u64>(
    query: Seq<char>,
    rows: Seq<Row>,
    score: F,
    once: Seq<Row>,
    twice: Seq<Row>,
)
    requires
        is_score(score),
        reranked(query, rows, score, once),
        reranked(query, once, score, twice),
    ensures
        twice == once,
{
    if tokens(query).len() > 0 {
        let (scores, order) = choose|scores: Seq<u64>, order: Seq<int>|
            #![trigger scored(query, rows, score, scores), is_ranking(order, scores)]
            scored(query, rows, score, scores) && is_ranking(order, scores) && once == arranged(
                rows,
                order,
            );
        let (others, again) = choose|scores: Seq<u64>, order: Seq<int>|
            #![trigger scored(query, once, score, scores), is_ranking(order, scores)]
            scored(query, once, score, scores) && is_ranking(order, scores) && twice == arranged(
                once,
                order,
            );
        law_reranking_keeps_all_results(query, rows, score, once);
        lemma_scores_follow_the_rows(query, query, rows, order, score, scores, others);
        let same = in_place(once.len());
        assert forall|i: int, j: int| 0 <= i < j < same.len() implies goes_before(
            others,
            #[trigger] same[i],
            #[trigger] same[j],
        ) by {
            assert(goes_before(scores, order[i], order[j]));
            assert(others[i] == scores[order[i]]);
            assert(others[j] == scores[order[j]]);
        }
        assert(is_ranking(same, others));
        law_scores_determine_the_ranking(again, same, others);
        assert(arranged(once, same) =~= once);
    }
}

// ----------------------------------------------------------------------------------------------
// What the counts count
// ----------------------------------------------------------------------------------------------

/// The words of a text are, in order, the lower-case forms of its longest possible stretches of
/// letters and numbers, but for those that take a single byte. Each stretch stands in the text
/// between two places, behind another character or the start of the text and in front of another
/// character or its end, and no letter or number is outside them.
pub proof fn law_tokens_are_the_words_of_a_text(text: Seq<char>) -> (at: Seq<(int, int)>)
    ensures
        tokens(text) == at.map_values(|p: (int, int)| text.subrange(p.0, p.1)).filter(
            |w: Seq<char>| encode_utf8(w).len() >= 2,
        ).map_values(|w: Seq<char>| lowercase(w)),
        forall|i: int|
            #![trigger at[i]]
            0 <= i < at.len() ==> {
                &&& 0 <= at[i].0 < at[i].1 <= text.len()
                &&& at[i].0 == 0 || !alphanumeric(text[at[i].0 - 1])
                &&& at[i].1 == text.len() || !alphanumeric(text[at[i].1])
            },
        forall|i: int, k: int|
            #![trigger at[i], text[k]]
            0 <= i < at.len() && at[i].0 <= k < at[i].1 ==> alphanumeric(text[k]),
        forall|i: int, j: int| 0 <= i < j < at.len() ==> (#[trigger] at[i]).1 <= (#[trigger] at[j]).0,
        forall|k: int|
            0 <= k < text.len() && alphanumeric(#[trigger] text[k]) ==> exists|i: int|
                0 <= i < at.len() && (#[trigger] at[i]).0 <= k < at[i].1,
{
    let at = law_letters_and_numbers_make_words(text);
    assert(at.map_values(|p: (int, int)| text.subrange(p.0, p.1)) =~= runs(
        text,
        CharClass::Alphanumeric,
    ));
    assert((|w: Seq<char>| long_word(w)) =~= (|w: Seq<char>| encode_utf8(w).len() >= 2));
    at
}

/// A word occurs as often among words as there are places where it stands.
pub proof fn law_every_occurrence_counts(words: Seq<Seq<char>>, word: Seq<char>)
    ensures
        occurrences(words, word) == words.filter(|w: Seq<char>| w == word).len(),
    decreases words.len(),
{
    reveal(Seq::filter);
    if words.len() > 0 {
        law_every_occurrence_counts(words.drop_last(), word);
    }
}

proof fn lemma_found_between(text: Seq<char>, needle: Seq<char>)
    ensures
        has_text(text, needle) <==> exists|from: int, to: int|
            0 <= from <= to <= text.len() && #[trigger] text.subrange(from, to) == needle,
{
    if has_text(text, needle) {
        let at = choose|at: int| occurs_at(text, needle, at);
        assert(text.subrange(at, at + needle.len()) == needle);
    }
    if exists|from: int, to: int|
        0 <= from <= to <= text.len() && #[trigger] text.subrange(from, to) == needle {
        let (from, to) = choose|from: int, to: int|
            0 <= from <= to <= text.len() && #[trigger] text.subrange(from, to) == needle;
        assert(occurs_at(text, needle, from));
    }
}

/// A word counts for each row whose chunk, in lower case, holds it anywhere, be it inside a longer
/// word.
pub proof fn law_chunks_are_searched_for_substrings(rows: Seq<Row>, word: Seq<char>)
    ensures
        rows_with(rows, word) == rows.filter(
            |row: Row|
                exists|from: int, to: int|
                    0 <= from <= to <= lowercase(row.2@).len() && #[trigger] lowercase(
                        row.2@,
                    ).subrange(from, to) == word,
        ).len(),
    decreases rows.len(),
{
    reveal(Seq::filter);
    if rows.len() > 0 {
        lemma_found_between(lowercase(rows.last().2@), word);
        law_chunks_are_searched_for_substrings(rows.drop_last(), word);
    }
}

/// The chunks of all rows together have as many words as each of them has, added up.
pub proof fn law_lengths_add_up(rows: Seq<Row>)
    ensures
        words_in(rows) == rows.fold_left(
            0nat,
            |sum: nat, row: Row| (sum + tokens(row.2@).len()) as nat,
        ),
    decreases rows.len(),
{
    if rows.len() > 0 {
        law_lengths_add_up(rows.drop_last());
    }
}

/// The words that a file name is hit by are those, counted with repetition, that stand anywhere in
/// the name in lower case, be it inside a longer word.
pub proof fn law_names_are_searched_for_substrings(words: Seq<Seq<char>>, name: Seq<char>)
    ensures
        words_in_name(words, name) == words.filter(
            |word: Seq<char>|
                exists|from: int, to: int|
                    0 <= from <= to <= lowercase(name).len() && #[trigger] lowercase(name).subrange(
                        from,
                        to,
                    ) == word,
        ).len(),
    decreases words.len(),
{
    reveal(Seq::filter);
    if words.len() > 0 {
        lemma_found_between(lowercase(name), words.last());
        law_names_are_searched_for_substrings(words.drop_last(), name);
    }
}

/// A query of one word hits every file name that has this word in it, whatever stands before it and
/// behind it, and hits no other.
pub proof fn law_one_word_hits_names_around_it(name: Seq<char>, word: Seq<char>)
    ensures
        (exists|a: Seq<char>, b: Seq<char>| lowercase(name) == #[trigger] (a + word + b))
            ==> words_in_name(seq![word], name) == 1,
        !(exists|a: Seq<char>, b: Seq<char>| lowercase(name) == #[trigger] (a + word + b))
            ==> words_in_name(seq![word], name) == 0,
{
    let lower = lowercase(name);
    assert(seq![word].last() == word);
    assert(seq![word].drop_last() =~= Seq::<Seq<char>>::empty());
    assert(words_in_name(seq![word].drop_last(), name) == 0);
    if exists|a: Seq<char>, b: Seq<char>| lower == #[trigger] (a + word + b) {
        let (a, b) = choose|a: Seq<char>, b: Seq<char>| lower == #[trigger] (a + word + b);
        crate::text::law_texts_are_found_anywhere(a, word, b);
    } else if has_text(lower, word) {
        let around = crate::text::law_found_texts_are_there(lower, word);
        assert(lower == around.0 + word + around.1);
    }
}

/// Re-ranking by a query with words goes by one score for each result, made of what is counted
/// over all results and of that one, and puts a result before another where its score is higher or,
/// with equal scores, where it came earlier. The counts are given here one by one.
pub proof fn law_results_go_by_their_counts<F: Fn(&CorpusStats, &DocStats) -> u64>(
    query: Seq<char>,
    rows: Seq<Row>,
    score: F,
    out: Seq<Row>,
) -> (r: (CorpusStats, Seq<DocStats>, Seq<u64>, Seq<int>))
    requires
        reranked(query, rows, score, out),
        tokens(query).len() > 0,
    ensures
        r.0.docs == rows.len(),
        r.0.total_len == rows.fold_left(
            0nat,
            |sum: nat, row: Row| (sum + tokens(row.2@).len()) as nat,
        ),
        r.0.df@.len() == tokens(query).len(),
        forall|j: int|
            0 <= j < tokens(query).len() ==> #[trigger] r.0.df@[j] == rows.filter(
                |row: Row|
                    exists|from: int, to: int|
                        0 <= from <= to <= lowercase(row.2@).len() && #[trigger] lowercase(
                            row.2@,
                        ).subrange(from, to) == tokens(query)[j],
            ).len(),
        r.1.len() == rows.len(),
        r.2.len() == rows.len(),
        r.3.len() == rows.len(),
        out.len() == rows.len(),
        forall|i: int|
            #![trigger r.1[i]]
            0 <= i < rows.len() ==> {
                &&& r.1[i].len == tokens(rows[i].2@).len()
                &&& r.1[i].tf@.len() == tokens(query).len()
                &&& r.1[i].name_hits == tokens(query).filter(
                    |word: Seq<char>|
                        exists|from: int, to: int|
                            0 <= from <= to <= lowercase(rows[i].0@).len() && #[trigger] lowercase(
                                rows[i].0@,
                            ).subrange(from, to) == word,
                ).len()
                &&& call_ensures(score, (&r.0, &r.1[i]), r.2[i])
            },
        forall|i: int, j: int|
            #![trigger r.1[i].tf@[j]]
            0 <= i < rows.len() && 0 <= j < tokens(query).len() ==> r.1[i].tf@[j] == tokens(
                rows[i].2@,
            ).filter(|w: Seq<char>| w == tokens(query)[j]).len(),
        forall|i: int|
            0 <= i < rows.len() ==> 0 <= #[trigger] r.3[i] < rows.len() && out[i] == rows[r.3[i]],
        forall|i: int, j: int|
            #![trigger r.3[i], r.3[j]]
            0 <= i < j < rows.len() ==> r.2[r.3[i]] > r.2[r.3[j]] || (r.2[r.3[i]] == r.2[r.3[j]]
                && r.3[i] < r.3[j]),
{
    let words = tokens(query);
    let (scores, order) = choose|scores: Seq<u64>, order: Seq<int>|
        #![trigger scored(query, rows, score, scores), is_ranking(order, scores)]
        scored(query, rows, score, scores) && is_ranking(order, scores) && out == arranged(
            rows,
            order,
        );
    let (corpus, docs) = choose|corpus: CorpusStats, docs: Seq<DocStats>|
        {
            &&& corpus.counts(words, rows)
            &&& docs.len() == rows.len()
            &&& forall|i: int|
                0 <= i < rows.len() ==> (#[trigger] docs[i]).counts(words, rows[i])
                    && call_ensures(score, (&corpus, &docs[i]), scores[i])
        };
    lemma_corpus_counts(corpus, words, rows);
    assert forall|i: int| 0 <= i < rows.len() implies (#[trigger] docs[i]).counts(words, rows[i])
        && docs[i].name_hits == words.filter(
        |word: Seq<char>|
            exists|from: int, to: int|
                0 <= from <= to <= lowercase(rows[i].0@).len() && #[trigger] lowercase(
                    rows[i].0@,
                ).subrange(from, to) == word,
    ).len() by {
        law_names_are_searched_for_substrings(words, rows[i].0@);
    }
    assert forall|i: int, j: int|
        #![trigger docs[i].tf@[j]]
        0 <= i < rows.len() && 0 <= j < words.len() implies docs[i].tf@[j] == tokens(
        rows[i].2@,
    ).filter(|w: Seq<char>| w == words[j]).len() by {
        assert(docs[i].counts(words, rows[i]));
        let word = words[j];
        law_every_occurrence_counts(tokens(rows[i].2@), word);
        assert((|w: Seq<char>| w == word) =~= (|w: Seq<char>| w == words[j]));
    }
    assert forall|i: int, j: int|
        #![trigger order[i], order[j]]
        0 <= i < j < rows.len() implies scores[order[i]] > scores[order[j]] || (scores[order[i]]
        == scores[order[j]] && order[i] < order[j]) by {
        assert(goes_before(scores, order[i], order[j]));
    }
    (corpus, docs, scores, order)
}

proof fn lemma_corpus_counts(corpus: CorpusStats, words: Seq<Seq<char>>, rows: Seq<Row>)
    requires
        corpus.counts(words, rows),
    ensures
        corpus.total_len == rows.fold_left(
            0nat,
            |sum: nat, row: Row| (sum + tokens(row.2@).len()) as nat,
        ),
        forall|j: int|
            0 <= j < words.len() ==> #[trigger] corpus.df@[j] == rows.filter(
                |row: Row|
                    exists|from: int, to: int|
                        0 <= from <= to <= lowercase(row.2@).len() && #[trigger] lowercase(
                            row.2@,
                        ).subrange(from, to) == words[j],
            ).len(),
{
    law_lengths_add_up(rows);
    assert forall|j: int| 0 <= j < words.len() implies #[trigger] corpus.df@[j] == rows.filter(
        |row: Row|
            exists|from: int, to: int|
                0 <= from <= to <= lowercase(row.2@).len() && #[trigger] lowercase(
                    row.2@,
                ).subrange(from, to) == words[j],
    ).len() by {
        let word = words[j];
        law_chunks_are_searched_for_substrings(rows, word);
        assert((|row: Row|
            exists|from: int, to: int|
                0 <= from <= to <= lowercase(row.2@).len() && #[trigger] lowercase(
                    row.2@,
                ).subrange(from, to) == word) =~= (|row: Row|
            exists|from: int, to: int|
                0 <= from <= to <= lowercase(row.2@).len() && #[trigger] lowercase(
                    row.2@,
                ).subrange(from, to) == words[j]));
    }
}

/// Whatever can be called on all counts, and gives one number for counts that are the same one by
/// one, is a score.
pub proof fn law_functions_of_the_counts_are_scores<F: Fn(&CorpusStats, &DocStats) -> u64>(score: F)
    requires
        forall|corpus: &CorpusStats, doc: &DocStats| call_requires(score, (corpus, doc)),
        forall|c1: CorpusStats, d1: DocStats, s1: u64, c2: CorpusStats, d2: DocStats, s2: u64|
            #![trigger call_ensures(score, (&c1, &d1), s1), call_ensures(score, (&c2, &d2), s2)]
            c1.docs == c2.docs && c1.total_len == c2.total_len && c1.df@ == c2.df@ && d1.len
                == d2.len && d1.tf@ == d2.tf@ && d1.name_hits == d2.name_hits && call_ensures(
                score,
                (&c1, &d1),
                s1,
            ) && call_ensures(score, (&c2, &d2), s2) ==> s1 == s2,
    ensures
        is_score(score),
{
}

} // verus!
