//! What is promised of ranking: of words, counts, and the order of results.
use vstd::prelude::*;
use vstd::utf8::encode_utf8;

use crate::reranker::{
    arranged, corpus_stats, doc_stats, goes_before, is_ranking, law_chunks_are_searched_for_substrings,
    law_every_occurrence_counts, law_names_are_searched_for_substrings,
    law_results_go_by_their_counts, law_tokens_are_the_words_of_a_text, rank_by_score, rerank, tokenize,
    CorpusStats, DocStats, Row,
};
use crate::text::{alphanumeric, lowercase, texts};

verus! {

/// The words of a text are, in order, the lower-case forms of its longest stretches of letters and
/// numbers but for those of a single byte. Each stretch is bounded by another character or an end of
/// the text, and no letter or number is outside of them.
pub proof fn law_texts_are_split_into_words(text: &str, words: Vec<String>) -> (at: Seq<(int, int)>)
    requires
        call_ensures(tokenize, (text,), words),
    ensures
        words@.map_values(|w: String| w@) == at.map_values(
            |p: (int, int)| text@.subrange(p.0, p.1),
        ).filter(|w: Seq<char>| encode_utf8(w).len() >= 2).map_values(
            |w: Seq<char>| lowercase(w),
        ),
        forall|i: int|
            #![trigger at[i]]
            0 <= i < at.len() ==> {
                &&& 0 <= at[i].0 < at[i].1 <= text@.len()
                &&& at[i].0 == 0 || !alphanumeric(text@[at[i].0 - 1])
                &&& at[i].1 == text@.len() || !alphanumeric(text@[at[i].1])
            },
        forall|i: int, k: int|
            #![trigger at[i], text@[k]]
            0 <= i < at.len() && at[i].0 <= k < at[i].1 ==> alphanumeric(text@[k]),
        forall|i: int, j: int| 0 <= i < j < at.len() ==> (#[trigger] at[i]).1 <= (#[trigger] at[j]).0,
        forall|k: int|
            0 <= k < text@.len() && alphanumeric(#[trigger] text@[k]) ==> exists|i: int|
                0 <= i < at.len() && (#[trigger] at[i]).0 <= k < at[i].1,
{
    assert(words@.map_values(|w: String| w@) =~= texts(words@));
    law_tokens_are_the_words_of_a_text(text@)
}

/// What is counted of one candidate: how many words its chunk has, how many of these are each word
/// of the query, and how many words of the query stand anywhere in its name in lower case, be it
/// inside a longer word.
pub proof fn law_candidates_are_counted_in_full(
    words: &Vec<String>,
    row: &Row,
    r: DocStats,
    chunk: &str,
    found: Vec<String>,
)
    requires
        call_ensures(doc_stats, (words, row), r),
        chunk@ == row.2@,
        call_ensures(tokenize, (chunk,), found),
    ensures
        r.len == found@.len(),
        r.tf@.len() == words@.len(),
        forall|j: int|
            #![trigger r.tf@[j]]
            0 <= j < words@.len() ==> r.tf@[j] == found@.map_values(|w: String| w@).filter(
                |w: Seq<char>| w == words@[j]@,
            ).len(),
        r.name_hits == words@.map_values(|w: String| w@).filter(
            |word: Seq<char>|
                exists|from: int, to: int|
                    0 <= from <= to <= lowercase(row.0@).len() && #[trigger] lowercase(
                        row.0@,
                    ).subrange(from, to) == word,
        ).len(),
{
    assert(words@.map_values(|w: String| w@) =~= texts(words@));
    assert(found@.map_values(|w: String| w@) =~= texts(found@));
    law_names_are_searched_for_substrings(texts(words@), row.0@);
    assert forall|j: int|
        #![trigger r.tf@[j]]
        0 <= j < words@.len() implies r.tf@[j] == found@.map_values(|w: String| w@).filter(
        |w: Seq<char>| w == words@[j]@,
    ).len() by {
        let word = words@[j]@;
        assert(texts(words@)[j] == word);
        law_every_occurrence_counts(texts(found@), word);
        assert((|w: Seq<char>| w == word) =~= (|w: Seq<char>| w == words@[j]@));
    }
}

/// A query of one word hits a file name exactly where the name in lower case is that word with
/// anything before it and anything behind it.
pub proof fn law_names_are_hit_by_what_is_in_them(words: &Vec<String>, row: &Row, r: DocStats)
    requires
        call_ensures(doc_stats, (words, row), r),
        words@.len() == 1,
    ensures
        (exists|a: Seq<char>, b: Seq<char>| lowercase(row.0@) == #[trigger] (a + words@[0]@ + b))
            ==> r.name_hits == 1,
        !(exists|a: Seq<char>, b: Seq<char>| lowercase(row.0@) == #[trigger] (a + words@[0]@ + b))
            ==> r.name_hits == 0,
{
    assert(texts(words@) =~= seq![words@[0]@]);
    crate::reranker::law_one_word_hits_names_around_it(row.0@, words@[0]@);
}

/// What is counted over all candidates: how many they are, how many words their chunks have
/// together, and in how many of the chunks, in lower case, each word of the query stands anywhere.
pub proof fn law_all_candidates_are_counted_in_full(
    words: &Vec<String>,
    rows: &Vec<Row>,
    r: CorpusStats,
)
    requires
        call_ensures(corpus_stats, (words, rows), r),
    ensures
        r.docs == rows@.len(),
        r.df@.len() == words@.len(),
        forall|j: int|
            #![trigger r.df@[j]]
            0 <= j < words@.len() ==> r.df@[j] == rows@.filter(
                |row: Row|
                    exists|from: int, to: int|
                        0 <= from <= to <= lowercase(row.2@).len() && #[trigger] lowercase(
                            row.2@,
                        ).subrange(from, to) == words@[j]@,
            ).len(),
{
    assert(texts(words@).len() == words@.len());
    assert forall|j: int|
        #![trigger r.df@[j]]
        0 <= j < words@.len() implies r.df@[j] == rows@.filter(
        |row: Row|
            exists|from: int, to: int|
                0 <= from <= to <= lowercase(row.2@).len() && #[trigger] lowercase(
                    row.2@,
                ).subrange(from, to) == words@[j]@,
    ).len() by {
        let word = words@[j]@;
        assert(texts(words@)[j] == word);
        law_chunks_are_searched_for_substrings(rows@, word);
        assert((|row: Row|
            exists|from: int, to: int|
                0 <= from <= to <= lowercase(row.2@).len() && #[trigger] lowercase(
                    row.2@,
                ).subrange(from, to) == word) =~= (|row: Row|
            exists|from: int, to: int|
                0 <= from <= to <= lowercase(row.2@).len() && #[trigger] lowercase(
                    row.2@,
                ).subrange(from, to) == words@[j]@));
    }
}

/// The words of all chunks are added up: with one candidate more there are as many more as its chunk
/// has, and without candidates there are none.
pub proof fn law_lengths_are_added_up(
    words: &Vec<String>,
    rows: &Vec<Row>,
    r: CorpusStats,
    more: &Vec<Row>,
    s: CorpusStats,
    chunk: &str,
    found: Vec<String>,
)
    requires
        call_ensures(corpus_stats, (words, rows), r),
        call_ensures(corpus_stats, (words, more), s),
        more@.len() == rows@.len() + 1,
        more@.drop_last() == rows@,
        chunk@ == more@.last().2@,
        call_ensures(tokenize, (chunk,), found),
    ensures
        s.total_len == r.total_len + found@.len(),
        rows@.len() == 0 ==> r.total_len == 0,
{
    assert(texts(found@).len() == found@.len());
}

/// Ranking by scores puts each row where every row before it has a higher score, or the same one and
/// came earlier; it names every row once.
pub proof fn law_higher_scores_come_first(rows: &Vec<Row>, scores: &Vec<u64>, r: Vec<Row>) -> (order:
    Seq<int>)
    requires
        rows@.len() == scores@.len(),
        call_ensures(rank_by_score, (rows, scores), r),
    ensures
        order.len() == rows@.len(),
        r@.len() == rows@.len(),
        forall|i: int|
            0 <= i < r@.len() ==> 0 <= #[trigger] order[i] < rows@.len() && r@[i] == rows@[order[i]],
        forall|i: int, j: int|
            #![trigger order[i], order[j]]
            0 <= i < j < order.len() ==> scores@[order[i]] > scores@[order[j]] || (scores@[order[i]]
                == scores@[order[j]] && order[i] < order[j]),
{
    let order = choose|order: Seq<int>|
        is_ranking(order, scores@) && r@ == #[trigger] arranged(rows@, order);
    assert forall|i: int, j: int|
        #![trigger order[i], order[j]]
        0 <= i < j < order.len() implies scores@[order[i]] > scores@[order[j]] || (scores@[order[i]]
        == scores@[order[j]] && order[i] < order[j]) by {
        assert(goes_before(scores@, order[i], order[j]));
    }
    order
}

/// Re-ranking for a query without words leaves the results as they are.
pub proof fn law_queries_without_words_change_nothing<F: Fn(&CorpusStats, &DocStats) -> u64>(
    query: &str,
    words: Vec<String>,
    results: Vec<Row>,
    score: F,
    r: Vec<Row>,
)
    requires
        call_ensures(rerank::<F>, (query, results, score), r),
        call_ensures(tokenize, (query,), words),
        words@.len() == 0,
    ensures
        r@ == results@,
{
    assert(texts(words@).len() == words@.len());
}

/// Re-ranking for a query with words scores each result by what is counted for these words over all
/// results and over that one, and puts a result before another where its score is higher or, with
/// equal scores, where it came earlier.
pub proof fn law_results_are_reranked_by_their_scores<F: Fn(&CorpusStats, &DocStats) -> u64>(
    query: &str,
    words: Vec<String>,
    results: Vec<Row>,
    score: F,
    r: Vec<Row>,
) -> (by: (CorpusStats, Seq<DocStats>, Seq<u64>, Seq<int>))
    requires
        call_ensures(rerank::<F>, (query, results, score), r),
        call_ensures(tokenize, (query,), words),
        words@.len() > 0,
    ensures
        r@.len() == results@.len(),
        by.1.len() == results@.len(),
        by.2.len() == results@.len(),
        by.3.len() == results@.len(),
        by.0.docs == results@.len(),
        by.0.df@.len() == words@.len(),
        forall|j: int|
            #![trigger by.0.df@[j]]
            0 <= j < words@.len() ==> by.0.df@[j] == results@.filter(
                |row: Row|
                    exists|from: int, to: int|
                        0 <= from <= to <= lowercase(row.2@).len() && #[trigger] lowercase(
                            row.2@,
                        ).subrange(from, to) == texts(words@)[j],
            ).len(),
        forall|i: int|
            #![trigger by.1[i]]
            0 <= i < results@.len() ==> {
                &&& call_ensures(score, (&by.0, &by.1[i]), by.2[i])
                &&& by.1[i].tf@.len() == words@.len()
                &&& by.1[i].name_hits == words@.map_values(|w: String| w@).filter(
                    |word: Seq<char>|
                        exists|from: int, to: int|
                            0 <= from <= to <= lowercase(results@[i].0@).len()
                                && #[trigger] lowercase(results@[i].0@).subrange(from, to) == word,
                ).len()
            },
        forall|i: int|
            0 <= i < results@.len() ==> 0 <= #[trigger] by.3[i] < results@.len() && r@[i]
                == results@[by.3[i]],
        forall|i: int, j: int|
            #![trigger by.3[i], by.3[j]]
            0 <= i < j < results@.len() ==> by.2[by.3[i]] > by.2[by.3[j]] || (by.2[by.3[i]]
                == by.2[by.3[j]] && by.3[i] < by.3[j]),
{
    assert(texts(words@).len() == words@.len());
    assert(words@.map_values(|w: String| w@) =~= texts(words@));
    law_results_go_by_their_counts(query@, results@, score, r@)
}

} // verus!
