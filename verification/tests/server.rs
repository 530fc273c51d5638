use omitfs::mcp::{AskOutcome, SearchOutcome};
use omitfs::reranker::{CorpusStats, DocStats, Row};
use omitfs::server::{
    ask_model, ask_prompt, internal_error, list_results, proceed_ask, proceed_search, routes,
    search_limit, search_results, stream_error, ui_content_type, Endpoint, Method, WebAsk,
    WebSearch,
};

fn row(name: &str, path: &str, chunk: &str) -> Row {
    (name.into(), path.into(), chunk.into())
}

#[test]
fn the_routes() {
    let all: Vec<(&str, Method, Endpoint)> =
        routes().iter().map(|r| (r.path, r.method, r.endpoint)).collect();
    assert_eq!(
        all,
        [
            ("/", Method::Get, Endpoint::Ui),
            ("/api/search", Method::Get, Endpoint::Search),
            ("/api/ask", Method::Post, Endpoint::Ask),
        ]
    );
    assert_eq!(ui_content_type(), "text/html; charset=utf-8");
}

#[test]
fn what_a_request_leaves_out_is_filled_in() {
    assert_eq!(search_limit(Some(3), 10), 3);
    assert_eq!(search_limit(Some(0), 10), 0);
    assert_eq!(search_limit(None, 10), 10);
    assert_eq!(ask_model(Some("phi".into()), "llama3"), "phi");
    assert_eq!(ask_model(None, "llama3"), "llama3");
}

#[test]
fn results_are_ranked_and_listed() {
    let found = vec![row("one", "/1", "short text"), row("two", "/2", "a longer text here")];
    let listed = list_results(&found);
    assert_eq!(listed[0].filename, "one");
    assert_eq!(listed[0].path, "/1");
    let by_length = |_: &CorpusStats, doc: &DocStats| doc.len as u64;
    let ranked = search_results("text", found.clone(), by_length);
    assert_eq!(ranked.len(), 2);
    assert_eq!(ranked[0].filename, "two");
    assert_eq!(ranked[1].path, "/1");
    let unranked = search_results("", found, by_length);
    assert_eq!(unranked[0].filename, "one");
}

#[test]
fn failures_are_answered() {
    assert_eq!(internal_error("boom".into()), (500, "boom".to_string()));
    assert_eq!(stream_error("refused"), "ERROR: refused");
}

#[test]
fn the_prompt_for_the_web_page() {
    assert_eq!(
        ask_prompt("q", &vec![row("n", "/n", "c")]),
        "You are a helpful assistant. Use ONLY the context below to answer.\n\n\
         CONTEXT:\n[Source 1] (n)\nc\n\nQUESTION: q\n\nANSWER:"
    );
}

#[test]
fn a_search_is_answered_step_by_step() {
    let by_length = |_: &CorpusStats, doc: &DocStats| doc.len as u64;
    let step = |now, outcome| proceed_search(now, "text", outcome, by_length);
    let now = step(WebSearch::Embed, SearchOutcome::Embedded);
    assert!(matches!(now, WebSearch::Search));
    let found = vec![row("one", "/1", "text"), row("two", "/2", "more text")];
    match step(now, SearchOutcome::Found(found)) {
        WebSearch::Done(results) => {
            assert_eq!(results.len(), 2);
            assert_eq!(results[0].filename, "two");
        }
        other => panic!("{other:?}"),
    }
    for now in [WebSearch::Embed, WebSearch::Search] {
        match step(now, SearchOutcome::Failed("boom".into())) {
            WebSearch::Failed { status, text } => assert_eq!((status, text.as_str()), (500, "boom")),
            other => panic!("{other:?}"),
        }
    }
}

#[test]
fn a_question_is_answered_step_by_step() {
    let now = proceed_ask(WebAsk::Embed, "q", AskOutcome::Succeeded);
    assert!(matches!(now, WebAsk::Search));
    let chunks = vec![row("n", "/n", "c")];
    match proceed_ask(now, "q", AskOutcome::Found(chunks.clone())) {
        WebAsk::Stream { prompt } => assert_eq!(prompt, ask_prompt("q", &chunks)),
        other => panic!("{other:?}"),
    }
    for now in [WebAsk::Embed, WebAsk::Search] {
        match proceed_ask(now, "q", AskOutcome::Failed("boom".into())) {
            WebAsk::Failed { status, text } => assert_eq!((status, text.as_str()), (500, "boom")),
            other => panic!("{other:?}"),
        }
    }
    assert!(matches!(proceed_ask(WebAsk::Search, "q", AskOutcome::Succeeded), WebAsk::Search));
}
