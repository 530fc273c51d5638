//! The local web server: its routes, and what each of them answers.
use vstd::prelude::*;

use crate::db::names_and_paths;
use crate::mcp::{AskOutcome, AskOutcomeView, SearchOutcome, SearchOutcomeView};
use crate::rag::{build_prompt, prompt_for, Asker};
use crate::reranker::{is_score, rerank, reranked, CorpusStats, DocStats, Row};
use crate::text::concat2;

verus! {

/// How a route is asked for.
#[derive(Clone, Copy, PartialEq, Eq, Structural, Debug)]
pub enum Method {
    Get,
    Post,
}

/// What a route leads to.
#[derive(Clone, Copy, PartialEq, Eq, Structural, Debug)]
pub enum Endpoint {
    /// The web page.
    Ui,
    /// A search, answered with the files that were found.
    Search,
    /// A question, answered piece by piece.
    Ask,
}

/// A route of the server.
#[derive(Clone, Copy, Debug)]
pub struct Route {
    pub path: &'static str,
    pub method: Method,
    pub endpoint: Endpoint,
}

/// The routes of the server.
pub fn routes() -> (r: Vec<Route>)
    ensures
        r@.len() == 3,
        r@[0].path@ == "/"@ && r@[0].method == Method::Get && r@[0].endpoint == Endpoint::Ui,
        r@[1].path@ == "/api/search"@ && r@[1].method == Method::Get && r@[1].endpoint
            == Endpoint::Search,
        r@[2].path@ == "/api/ask"@ && r@[2].method == Method::Post && r@[2].endpoint
            == Endpoint::Ask,
{
    let mut out: Vec<Route> = Vec::new();
    out.push(Route { path: "/", method: Method::Get, endpoint: Endpoint::Ui });
    out.push(Route { path: "/api/search", method: Method::Get, endpoint: Endpoint::Search });
    out.push(Route { path: "/api/ask", method: Method::Post, endpoint: Endpoint::Ask });
    out
}

/// The media type of the web page.
pub fn ui_content_type() -> (r: &'static str)
    ensures
        r@ == "text/html; charset=utf-8"@,
{
    "text/html; charset=utf-8"
}

/// A file that was found.
#[derive(Debug)]
pub struct SearchResult {
    pub filename: String,
    pub path: String,
}

/// The file names and paths of results.
pub open spec fn result_views(results: Seq<SearchResult>) -> Seq<(Seq<char>, Seq<char>)> {
    results.map_values(|r: SearchResult| (r.filename@, r.path@))
}

/// How many results a search has: as many as it asks for or, where it does not say, as the
/// settings allow.
pub fn search_limit(asked: Option<usize>, max_results: usize) -> (r: usize)
    ensures
        r == match asked {
            Some(n) => n,
            None => max_results,
        },
{
    match asked {
        Some(n) => n,
        None => max_results,
    }
}

/// Which model a question goes to: the one it names or, where it names none, the default.
pub fn ask_model(asked: Option<String>, default_model: &str) -> (r: String)
    ensures
        r@ == match asked {
            Some(m) => m@,
            None => default_model@,
        },
{
    match asked {
        Some(m) => m,
        None => default_model.to_owned(),
    }
}

/// Lists the rows as files that were found, in their order.
pub fn list_results(rows: &Vec<Row>) -> (r: Vec<SearchResult>)
    ensures
        result_views(r@) == names_and_paths(rows@),
        r@.len() == rows@.len(),
        forall|i: int|
            0 <= i < rows@.len() ==> (#[trigger] r@[i]).filename@ == rows@[i].0@ && r@[i].path@
                == rows@[i].1@,
{
    let n: usize = rows.len();
    let mut out: Vec<SearchResult> = Vec::new();
    let mut i: usize = 0;
    while i < n
        invariant
            i <= n,
            n == rows@.len(),
            result_views(out@) =~= names_and_paths(rows@).take(i as int),
        decreases n - i,
    {
        let ghost before = result_views(out@);
        let found: SearchResult = SearchResult {
            filename: rows[i].0.clone(),
            path: rows[i].1.clone(),
        };
        out.push(found);
        assert(result_views(out@) =~= before.push((found.filename@, found.path@)));
        i = i + 1;
    }
    assert(names_and_paths(rows@).take(n as int) =~= names_and_paths(rows@));
    assert(result_views(out@).len() == out@.len());
    assert forall|i: int| 0 <= i < rows@.len() implies (#[trigger] out@[i]).filename@
        == rows@[i].0@ && out@[i].path@ == rows@[i].1@ by {
        assert(result_views(out@)[i] == names_and_paths(rows@)[i]);
    }
    out
}

/// The files that a search found, re-ranked by `score` against the query.
pub fn search_results<F: Fn(&CorpusStats, &DocStats) -> u64>(
    query: &str,
    found: Vec<Row>,
    score: F,
) -> (r: Vec<SearchResult>)
    requires
        is_score(score),
    ensures
        exists|rows: Seq<Row>|
            #![trigger reranked(query@, found@, score, rows)]
            reranked(query@, found@, score, rows) && result_views(r@) == names_and_paths(rows),
{
    let rows: Vec<Row> = rerank(query, found, score);
    list_results(&rows)
}

/// The status of an answer to a request that failed inside.
pub const INTERNAL_ERROR: u16 = 500;

/// Answers a request that failed inside: with the cause as its text.
pub fn internal_error(cause: String) -> (r: (u16, String))
    ensures
        r == (INTERNAL_ERROR, cause),
        r.0 == 500,
{
    (INTERNAL_ERROR, cause)
}

/// Writes the prompt for a question over the chunks that were found.
pub fn ask_prompt(question: &str, chunks: &Vec<Row>) -> (r: String)
    ensures
        r@ == prompt_for(Asker::Web, question@, chunks@),
{
    build_prompt(Asker::Web, question, chunks)
}

/// What is streamed where Ollama could not be reached.
pub fn stream_error(cause: &str) -> (r: String)
    ensures
        r@ == "ERROR: "@ + cause@,
{
    concat2("ERROR: ", cause)
}

/// The next step of answering a search.
#[derive(Debug)]
pub enum WebSearch {
    /// Embed the query.
    Embed,
    /// Search for what was embedded.
    Search,
    /// Nothing more: these files were found.
    Done(Vec<SearchResult>),
    /// Nothing more: the request failed, with this status and text.
    Failed { status: u16, text: String },
}

/// The model of a [`WebSearch`].
pub enum WebSearchView {
    Embed,
    Search,
    Done(Seq<(Seq<char>, Seq<char>)>),
    Failed { status: u16, text: Seq<char> },
}

impl View for WebSearch {
    type V = WebSearchView;

    open spec fn view(&self) -> WebSearchView {
        match self {
            WebSearch::Embed => WebSearchView::Embed,
            WebSearch::Search => WebSearchView::Search,
            WebSearch::Done(results) => WebSearchView::Done(result_views(results@)),
            WebSearch::Failed { status, text } => WebSearchView::Failed {
                status: *status,
                text: text@,
            },
        }
    }
}

/// The step after a step of a search that went like this, where `ranked` are the rows that it gave
/// in the order of their ranking: the first failure ends it. What is no outcome of the step changes
/// nothing.
pub open spec fn web_search_after(
    now: WebSearchView,
    outcome: SearchOutcomeView,
    ranked: Seq<Row>,
) -> WebSearchView {
    match (now, outcome) {
        (WebSearchView::Embed, SearchOutcomeView::Embedded) => WebSearchView::Search,
        (WebSearchView::Search, SearchOutcomeView::Found(_)) => WebSearchView::Done(
            names_and_paths(ranked),
        ),
        (WebSearchView::Embed, SearchOutcomeView::Failed(cause)) => WebSearchView::Failed {
            status: INTERNAL_ERROR,
            text: cause,
        },
        (WebSearchView::Search, SearchOutcomeView::Failed(cause)) => WebSearchView::Failed {
            status: INTERNAL_ERROR,
            text: cause,
        },
        _ => now,
    }
}

/// Decides on the next step of a search, whose results are re-ranked by `score` against the query.
pub fn proceed_search<F: Fn(&CorpusStats, &DocStats) -> u64>(
    now: WebSearch,
    query: &str,
    outcome: SearchOutcome,
    score: F,
) -> (r: WebSearch)
    requires
        is_score(score),
    ensures
        exists|ranked: Seq<Row>|
            ((now is Search && outcome is Found) ==> reranked(
                query@,
                outcome@->Found_0,
                score,
                ranked,
            )) && r@ == #[trigger] web_search_after(now@, outcome@, ranked),
{
    let ghost now_view = now@;
    let ghost outcome_view = outcome@;
    match (now, outcome) {
        (WebSearch::Search, SearchOutcome::Found(found)) => {
            let ghost rows = found@;
            let results: Vec<SearchResult> = search_results(query, found, score);
            let r: WebSearch = WebSearch::Done(results);
            proof {
                let ranked = choose|ranked: Seq<Row>|
                    #![trigger reranked(query@, rows, score, ranked)]
                    reranked(query@, rows, score, ranked) && result_views(results@)
                        == names_and_paths(ranked);
                assert(r@ == web_search_after(now_view, outcome_view, ranked));
            }
            r
        },
        (WebSearch::Embed, SearchOutcome::Embedded) => {
            assert(WebSearchView::Search == web_search_after(
                now_view,
                outcome_view,
                Seq::empty(),
            ));
            WebSearch::Search
        },
        (WebSearch::Embed, SearchOutcome::Failed(cause)) | (
            WebSearch::Search,
            SearchOutcome::Failed(cause),
        ) => {
            let (status, text): (u16, String) = internal_error(cause);
            let r: WebSearch = WebSearch::Failed { status, text };
            assert(r@ == web_search_after(now_view, outcome_view, Seq::empty()));
            r
        },
        (step, _) => {
            assert(step@ == web_search_after(now_view, outcome_view, Seq::empty()));
            step
        },
    }
}

/// The next step of answering a question.
#[derive(Debug)]
pub enum WebAsk {
    /// Embed the question.
    Embed,
    /// Search for what was embedded.
    Search,
    /// Nothing more but to stream what Ollama replies to the prompt.
    Stream { prompt: String },
    /// Nothing more: the request failed, with this status and text.
    Failed { status: u16, text: String },
}

/// The model of a [`WebAsk`].
pub enum WebAskView {
    Embed,
    Search,
    Stream { prompt: Seq<char> },
    Failed { status: u16, text: Seq<char> },
}

impl View for WebAsk {
    type V = WebAskView;

    open spec fn view(&self) -> WebAskView {
        match self {
            WebAsk::Embed => WebAskView::Embed,
            WebAsk::Search => WebAskView::Search,
            WebAsk::Stream { prompt } => WebAskView::Stream { prompt: prompt@ },
            WebAsk::Failed { status, text } => WebAskView::Failed { status: *status, text: text@ },
        }
    }
}

/// The step after a step of answering a question that went like this: the first failure ends it.
/// What is no outcome of the step changes nothing.
pub open spec fn web_ask_after(
    now: WebAskView,
    question: Seq<char>,
    outcome: AskOutcomeView,
) -> WebAskView {
    match (now, outcome) {
        (WebAskView::Embed, AskOutcomeView::Succeeded) => WebAskView::Search,
        (WebAskView::Search, AskOutcomeView::Found(chunks)) => WebAskView::Stream {
            prompt: prompt_for(Asker::Web, question, chunks),
        },
        (WebAskView::Embed, AskOutcomeView::Failed(cause)) => WebAskView::Failed {
            status: INTERNAL_ERROR,
            text: cause,
        },
        (WebAskView::Search, AskOutcomeView::Failed(cause)) => WebAskView::Failed {
            status: INTERNAL_ERROR,
            text: cause,
        },
        _ => now,
    }
}

/// Decides on the next step of answering a question.
pub fn proceed_ask(now: WebAsk, question: &str, outcome: AskOutcome) -> (r: WebAsk)
    ensures
        r@ == web_ask_after(now@, question@, outcome@),
{
    match (now, outcome) {
        (WebAsk::Embed, AskOutcome::Succeeded) => WebAsk::Search,
        (WebAsk::Search, AskOutcome::Found(chunks)) => WebAsk::Stream {
            prompt: ask_prompt(question, &chunks),
        },
        (WebAsk::Embed, AskOutcome::Failed(cause)) | (
            WebAsk::Search,
            AskOutcome::Failed(cause),
        ) => {
            let (status, text): (u16, String) = internal_error(cause);
            WebAsk::Failed { status, text }
        },
        (step, _) => step,
    }
}

/// A request that fails, in whichever step, is answered with the cause and nothing else is done.
pub proof fn law_failures_end_requests(
    search: WebSearchView,
    ask: WebAskView,
    question: Seq<char>,
    cause: Seq<char>,
    ranked: Seq<Row>,
)
    ensures
        search is Embed || search is Search ==> web_search_after(
            search,
            SearchOutcomeView::Failed(cause),
            ranked,
        ) == (WebSearchView::Failed { status: INTERNAL_ERROR, text: cause }),
        ask is Embed || ask is Search ==> web_ask_after(
            ask,
            question,
            AskOutcomeView::Failed(cause),
        ) == (WebAskView::Failed { status: INTERNAL_ERROR, text: cause }),
{
}

/// A search embeds the query and then searches, and is answered with the name and the path of every
/// result in the order of the ranking. A question embeds it and then searches, and goes on with the
/// prompt of all that was found. A failure is answered with status 500 and its whole cause, and what
/// has ended stays as it is.
pub proof fn law_requests_go_in_order(
    question: Seq<char>,
    found: Seq<Row>,
    ranked: Seq<Row>,
    cause: Seq<char>,
    search: WebSearchView,
    search_outcome: SearchOutcomeView,
    ask: WebAskView,
    ask_outcome: AskOutcomeView,
)
    ensures
        web_search_after(WebSearchView::Embed, SearchOutcomeView::Embedded, ranked)
            == WebSearchView::Search,
        web_search_after(WebSearchView::Search, SearchOutcomeView::Found(found), ranked)
            == WebSearchView::Done(ranked.map_values(|row: Row| (row.0@, row.1@))),
        web_search_after(WebSearchView::Embed, SearchOutcomeView::Failed(cause), ranked) == (
        WebSearchView::Failed { status: 500, text: cause }),
        web_search_after(WebSearchView::Search, SearchOutcomeView::Failed(cause), ranked) == (
        WebSearchView::Failed { status: 500, text: cause }),
        search is Done || search is Failed ==> web_search_after(search, search_outcome, ranked)
            == search,
        web_ask_after(WebAskView::Embed, question, AskOutcomeView::Succeeded) == WebAskView::Search,
        web_ask_after(WebAskView::Search, question, AskOutcomeView::Found(found)) == (
        WebAskView::Stream { prompt: prompt_for(Asker::Web, question, found) }),
        web_ask_after(WebAskView::Embed, question, AskOutcomeView::Failed(cause)) == (
        WebAskView::Failed { status: 500, text: cause }),
        web_ask_after(WebAskView::Search, question, AskOutcomeView::Failed(cause)) == (
        WebAskView::Failed { status: 500, text: cause }),
        ask is Stream || ask is Failed ==> web_ask_after(ask, question, ask_outcome) == ask,
{
    assert(names_and_paths(ranked) =~= ranked.map_values(|row: Row| (row.0@, row.1@)));
}

/// The views of results are their names and paths, each in its place.
pub proof fn law_results_are_seen_whole(results: Seq<SearchResult>, i: int)
    ensures
        result_views(results).len() == results.len(),
        0 <= i < results.len() ==> result_views(results)[i] == (
            results[i].filename@,
            results[i].path@,
        ),
{
}

} // verus!
