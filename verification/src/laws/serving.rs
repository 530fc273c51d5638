//! What is promised of the servers: of the requests of agents and of the web page, and what they are
//! answered.
use vstd::prelude::*;

use crate::db::names_and_paths;
use crate::json::{law_fields_are_found_by_name, Json, JsonView};
use crate::mcp::{
    as_line, err, found_reply, found_response, handle, law_a_given_limit_is_kept, law_a_given_model_is_kept,
    law_answers_are_given_whole, law_methods_are_told_apart, law_nameless_calls_are_refused,
    law_refused_calls_are_told_why, ok, parse_error, pretty_objects, proceed_ask, request_in,
    search_after, search_reply, text_reply, tool_failed, tools_list, AskCall, AskOutcome, AskStep, McpStep, ResponseView, RpcRequest,
    RpcResponse, SearchCall, SearchOutcome, SearchStep, StepView, ToolFailure,
};
use crate::rag::{build_prompt, Asker};
use crate::reranker::{
    is_score, law_equal_words_rank_alike, rerank, reranked, CorpusStats, DocStats, Row,
};
use crate::server::{
    ask_model, internal_error, list_results, result_views, routes, search_limit, search_results,
    stream_error, web_search_after, Endpoint, Method, Route, SearchResult, WebAsk, WebSearch,
};
use crate::text::white_space;

verus! {

// ----------------------------------------------------------------------------------------------
// JSON values
// ----------------------------------------------------------------------------------------------

/// A field of an object whose names are all different is found by its name.
proof fn lemma_field(fields: Seq<(Seq<char>, JsonView)>, i: int)
    requires
        0 <= i < fields.len(),
        forall|x: int, y: int|
            0 <= x < y < fields.len() ==> (#[trigger] fields[x]).0 != (#[trigger] fields[y]).0,
    ensures
        JsonView::Object(fields).field(fields[i].0) == Some(fields[i].1),
{
    law_fields_are_found_by_name(fields, fields[i].0, i);
}

/// The value of a field is that of the first field of this name, and there is none where no field has
/// the name.
pub proof fn law_values_are_got_by_name(
    fields: Vec<(String, Json)>,
    key: &str,
    r: Option<&Json>,
    i: int,
)
    requires
        call_ensures(Json::get, (&Json::Object(fields), key), r),
    ensures
        0 <= i < fields@.len() && fields@[i].0@ == key@ && (forall|j: int|
            0 <= j < i ==> (#[trigger] fields@[j]).0@ != key@) ==> r is Some && r->0@
            == fields@[i].1@,
        (forall|j: int| 0 <= j < fields@.len() ==> (#[trigger] fields@[j]).0@ != key@) ==> r is None,
{
    let seen = Json::Object(fields)@->Object_0;
    law_fields_are_found_by_name(seen, key@, i);
    assert(seen.len() == fields@.len());
    assert forall|j: int| 0 <= j < seen.len() implies (#[trigger] seen[j]).0 == fields@[j].0@ by {}
    if forall|j: int| 0 <= j < fields@.len() ==> (#[trigger] fields@[j]).0@ != key@ {
        assert forall|j: int| 0 <= j < seen.len() implies (#[trigger] seen[j]).0 != key@ by {
            assert(fields@[j].0@ != key@);
        }
    }
    if 0 <= i < fields@.len() && fields@[i].0@ == key@ && (forall|j: int|
        0 <= j < i ==> (#[trigger] fields@[j]).0@ != key@) {
        assert forall|j: int| 0 <= j < i implies (#[trigger] seen[j]).0 != key@ by {
            assert(fields@[j].0@ != key@);
        }
        assert(seen[i].1 == fields@[i].1@);
    }
}

/// A text is read as it is, and nothing else is read as a text; an integer that is not negative is
/// read as it is, and nothing else is read as a number.
pub proof fn law_texts_and_numbers_are_read(
    j: &Json,
    text: Option<&str>,
    number: Option<u64>,
    s: String,
    n: u64,
)
    requires
        call_ensures(Json::as_str, (j,), text),
        call_ensures(Json::as_u64, (j,), number),
    ensures
        *j == Json::Str(s) ==> text is Some && text->0@ == s@,
        *j == Json::UInt(n) ==> number == Some(n),
        text is Some ==> *j is Str,
        number is Some ==> *j is UInt,
{
}

// ----------------------------------------------------------------------------------------------
// Requests of agents
// ----------------------------------------------------------------------------------------------

/// A search has the limit that its call gives. Where the arguments of the call hold a text under
/// "query" and, under "limit", an integer that is not negative and can be a limit, the step is a
/// search for that text with exactly that limit. Only where no such integer stands there is the
/// limit ten.
pub proof fn law_searches_have_the_limit_they_are_given(
    req: RpcRequest,
    default_model: &str,
    version: &str,
    r: McpStep,
    params: Seq<(Seq<char>, JsonView)>,
    args: Seq<(Seq<char>, JsonView)>,
    i: int,
    j: int,
    k: int,
    query: Seq<char>,
    n: u64,
)
    requires
        call_ensures(handle, (req, default_model, version), r),
        req.method@ == "tools/call"@,
        req.params@ == JsonView::Object(params),
        forall|x: int, y: int|
            0 <= x < y < params.len() ==> (#[trigger] params[x]).0 != (#[trigger] params[y]).0,
        0 <= i < params.len() && params[i] == ("name"@, JsonView::Str("search"@)),
        0 <= j < params.len() && params[j] == ("arguments"@, JsonView::Object(args)),
        forall|x: int, y: int|
            0 <= x < y < args.len() ==> (#[trigger] args[x]).0 != (#[trigger] args[y]).0,
        0 <= k < args.len() && args[k] == ("query"@, JsonView::Str(query)),
    ensures
        r@ is Search,
        r@->Search_id == req.id@,
        r@->query == query,
        (exists|l: int|
            0 <= l < args.len() && #[trigger] args[l] == ("limit"@, JsonView::UInt(n))) && n
            <= usize::MAX ==> r@->limit == n,
        (forall|l: int|
            0 <= l < args.len() && (#[trigger] args[l]).0 == "limit"@ ==> args[l].1 !is UInt)
            ==> r@->limit == 10,
{
    let a = JsonView::Object(args);
    lemma_field(params, i);
    lemma_field(params, j);
    lemma_field(args, k);
    law_a_given_limit_is_kept(req.id@, req.params@, a, query, n, default_model@, version@);
    if exists|l: int|
        0 <= l < args.len() && #[trigger] args[l] == ("limit"@, JsonView::UInt(n)) {
        let l = choose|l: int|
            0 <= l < args.len() && #[trigger] args[l] == ("limit"@, JsonView::UInt(n));
        lemma_field(args, l);
    }
    if forall|l: int|
        0 <= l < args.len() && (#[trigger] args[l]).0 == "limit"@ ==> args[l].1 !is UInt {
        if exists|l: int| 0 <= l < args.len() && (#[trigger] args[l]).0 == "limit"@ {
            let l = choose|l: int| 0 <= l < args.len() && (#[trigger] args[l]).0 == "limit"@;
            lemma_field(args, l);
        } else {
            law_fields_are_found_by_name(args, "limit"@, 0);
        }
    }
}

/// A question goes to the model that its call gives. Where the arguments of the call hold a text
/// under "question" and one under "model", exactly that question goes to exactly that model; only
/// where no text stands under "model" does it go to the default model.
pub proof fn law_questions_go_to_the_model_they_are_given(
    req: RpcRequest,
    default_model: &str,
    version: &str,
    r: McpStep,
    params: Seq<(Seq<char>, JsonView)>,
    args: Seq<(Seq<char>, JsonView)>,
    i: int,
    j: int,
    k: int,
    question: Seq<char>,
    model: Seq<char>,
)
    requires
        call_ensures(handle, (req, default_model, version), r),
        req.method@ == "tools/call"@,
        req.params@ == JsonView::Object(params),
        forall|x: int, y: int|
            0 <= x < y < params.len() ==> (#[trigger] params[x]).0 != (#[trigger] params[y]).0,
        0 <= i < params.len() && params[i] == ("name"@, JsonView::Str("ask"@)),
        0 <= j < params.len() && params[j] == ("arguments"@, JsonView::Object(args)),
        forall|x: int, y: int|
            0 <= x < y < args.len() ==> (#[trigger] args[x]).0 != (#[trigger] args[y]).0,
        0 <= k < args.len() && args[k] == ("question"@, JsonView::Str(question)),
    ensures
        r@ is Ask,
        r@->Ask_id == req.id@,
        r@->question == question,
        (exists|l: int| 0 <= l < args.len() && #[trigger] args[l] == ("model"@, JsonView::Str(model)))
            ==> r@->model == model,
        (forall|l: int|
            0 <= l < args.len() && (#[trigger] args[l]).0 == "model"@ ==> args[l].1 !is Str)
            ==> r@->model == default_model@,
{
    let a = JsonView::Object(args);
    lemma_field(params, i);
    lemma_field(params, j);
    lemma_field(args, k);
    law_a_given_model_is_kept(req.id@, req.params@, a, question, model, default_model@, version@);
    if exists|l: int|
        0 <= l < args.len() && #[trigger] args[l] == ("model"@, JsonView::Str(model)) {
        let l = choose|l: int|
            0 <= l < args.len() && #[trigger] args[l] == ("model"@, JsonView::Str(model));
        lemma_field(args, l);
    }
    if forall|l: int|
        0 <= l < args.len() && (#[trigger] args[l]).0 == "model"@ ==> args[l].1 !is Str {
        if exists|l: int| 0 <= l < args.len() && (#[trigger] args[l]).0 == "model"@ {
            let l = choose|l: int| 0 <= l < args.len() && (#[trigger] args[l]).0 == "model"@;
            lemma_field(args, l);
        } else {
            law_fields_are_found_by_name(args, "model"@, 0);
        }
    }
}

/// A call without its one argument, or of a tool that there is not, is answered at once: with the
/// identifier of the request, the code, and what is wrong.
pub proof fn law_bad_calls_are_answered_at_once(
    req: RpcRequest,
    default_model: &str,
    version: &str,
    r: McpStep,
    name: Seq<char>,
)
    requires
        call_ensures(handle, (req, default_model, version), r),
        req.method@ == "tools/call"@,
        req.params@.field("name"@) == Some(JsonView::Str(name)),
    ensures
        name == "search"@ && !(req.params@.field("arguments"@) is Some && req.params@.field(
            "arguments"@,
        )->0.field("query"@) is Some && req.params@.field("arguments"@)->0.field("query"@)->0 is Str)
            ==> r@ == StepView::Reply(
            ResponseView {
                jsonrpc: "2.0"@,
                id: req.id@,
                result: None,
                error: Some(
                    JsonView::Object(
                        seq![
                            ("code"@, JsonView::Int((-32602) as i64)),
                            ("message"@, JsonView::Str("Missing 'query' argument"@)),
                        ],
                    ),
                ),
            },
        ),
        name == "ask"@ && !(req.params@.field("arguments"@) is Some && req.params@.field(
            "arguments"@,
        )->0.field("question"@) is Some && req.params@.field("arguments"@)->0.field(
            "question"@,
        )->0 is Str) ==> r@ == StepView::Reply(
            ResponseView {
                jsonrpc: "2.0"@,
                id: req.id@,
                result: None,
                error: Some(
                    JsonView::Object(
                        seq![
                            ("code"@, JsonView::Int((-32602) as i64)),
                            ("message"@, JsonView::Str("Missing 'question' argument"@)),
                        ],
                    ),
                ),
            },
        ),
        name != "search"@ && name != "ask"@ ==> r@ == StepView::Reply(
            ResponseView {
                jsonrpc: "2.0"@,
                id: req.id@,
                result: None,
                error: Some(
                    JsonView::Object(
                        seq![
                            ("code"@, JsonView::Int((-32601) as i64)),
                            ("message"@, JsonView::Str("Unknown tool: "@ + name)),
                        ],
                    ),
                ),
            },
        ),
{
    law_refused_calls_are_told_why(req.id@, req.params@, name, default_model@, version@);
}

/// A call that names no tool is refused as one of a tool without a name, and a request of any other
/// method than the four is refused by that method.
pub proof fn law_unknown_requests_are_refused(
    req: RpcRequest,
    default_model: &str,
    version: &str,
    r: McpStep,
)
    requires
        call_ensures(handle, (req, default_model, version), r),
    ensures
        req.method@ == "tools/call"@ && !(req.params@.field("name"@) is Some && req.params@.field(
            "name"@,
        )->0 is Str) ==> r@ == StepView::Reply(
            ResponseView {
                jsonrpc: "2.0"@,
                id: req.id@,
                result: None,
                error: Some(
                    JsonView::Object(
                        seq![
                            ("code"@, JsonView::Int((-32601) as i64)),
                            ("message"@, JsonView::Str("Unknown tool: "@)),
                        ],
                    ),
                ),
            },
        ),
        req.method@ != "initialize"@ && req.method@ != "tools/list"@ && req.method@ != "tools/call"@
            && req.method@ != "notifications/initialized"@ ==> r@ == StepView::Reply(
            ResponseView {
                jsonrpc: "2.0"@,
                id: req.id@,
                result: None,
                error: Some(
                    JsonView::Object(
                        seq![
                            ("code"@, JsonView::Int((-32601) as i64)),
                            ("message"@, JsonView::Str("Method not found: "@ + req.method@)),
                        ],
                    ),
                ),
            },
        ),
        req.method@ == "notifications/initialized"@ ==> r@ == StepView::Reply(
            ResponseView {
                jsonrpc: "2.0"@,
                id: req.id@,
                result: Some(JsonView::Null),
                error: None,
            },
        ),
        req.method@ == "initialize"@ || req.method@ == "tools/list"@ ==> r@ is Reply
            && r@->Reply_0.id == req.id@ && r@->Reply_0.error is None && r@->Reply_0.result is Some,
{
    law_methods_are_told_apart(req.id@, req.method@, req.params@, default_model@, version@);
    if req.method@ == "tools/call"@ && !(req.params@.field("name"@) is Some && req.params@.field(
        "name"@,
    )->0 is Str) {
        law_nameless_calls_are_refused(req.id@, req.params@, default_model@, version@);
    }
}

/// A line of input is a request without the whitespace around it, unless there is nothing else.
pub proof fn law_requests_are_read_line_by_line(
    line: &str,
    r: Option<String>,
    a: Seq<char>,
    text: Seq<char>,
    b: Seq<char>,
)
    requires
        call_ensures(request_in, (line,), r),
        line@ == a + text + b,
        forall|i: int| 0 <= i < a.len() ==> white_space(#[trigger] a[i]),
        forall|i: int| 0 <= i < b.len() ==> white_space(#[trigger] b[i]),
        text.len() > 0 ==> !white_space(text[0]) && !white_space(text.last()),
    ensures
        text.len() == 0 ==> r is None,
        text.len() > 0 ==> r is Some && r->0@ == text,
{
    crate::select::lemma_trimmed_between(a, text, b);
}

/// What could not be read, and what failed outside, is answered with its whole cause.
pub proof fn law_failures_are_answered_in_full(
    cause: &str,
    unread: RpcResponse,
    id: Json,
    e: String,
    embedding: RpcResponse,
    search: RpcResponse,
    client: RpcResponse,
    unreached: RpcResponse,
    response: RpcResponse,
)
    requires
        call_ensures(parse_error, (cause,), unread),
        call_ensures(tool_failed, (id, ToolFailure::Embedding(e)), embedding),
        call_ensures(tool_failed, (id, ToolFailure::Search(e)), search),
        call_ensures(tool_failed, (id, ToolFailure::HttpClient(e)), client),
        call_ensures(tool_failed, (id, ToolFailure::OllamaUnreachable(e)), unreached),
        call_ensures(tool_failed, (id, ToolFailure::OllamaResponse(e)), response),
    ensures
        ({
            let failed = |id: JsonView, code: int, message: Seq<char>|
                ResponseView {
                    jsonrpc: "2.0"@,
                    id,
                    result: None,
                    error: Some(
                        JsonView::Object(
                            seq![
                                ("code"@, JsonView::Int(code as i64)),
                                ("message"@, JsonView::Str(message)),
                            ],
                        ),
                    ),
                };
            &&& unread@ == failed(JsonView::Null, -32700, "Parse error: "@ + cause@)
            &&& embedding@ == failed(id@, -32000, "Embedding failed: "@ + e@)
            &&& search@ == failed(id@, -32000, "Search failed: "@ + e@)
            &&& client@ == failed(id@, -32000, "HTTP client error: "@ + e@)
            &&& unreached@ == failed(id@, -32000, "Ollama unreachable: "@ + e@)
            &&& response@ == failed(id@, -32000, "Ollama response parse error: "@ + e@)
        }),
{
}

/// A response is written as one line, and carries the result or the error that it was made of.
pub proof fn law_responses_are_what_they_are_made_of(
    id: Json,
    result: Json,
    good: RpcResponse,
    code: i64,
    message: &str,
    bad: RpcResponse,
    written: &str,
    line: String,
)
    requires
        call_ensures(ok, (id, result), good),
        call_ensures(err, (id, code, message), bad),
        call_ensures(as_line, (written,), line),
    ensures
        good@ == (ResponseView {
            jsonrpc: "2.0"@,
            id: id@,
            result: Some(result@),
            error: None,
        }),
        bad@.jsonrpc == "2.0"@ && bad@.id == id@ && bad@.result is None,
        bad@.error == Some(
            JsonView::Object(
                seq![
                    (
                        "code"@,
                        if code >= 0 {
                            JsonView::UInt(code as u64)
                        } else {
                            JsonView::Int(code)
                        },
                    ),
                    ("message"@, JsonView::Str(message@)),
                ],
            ),
        ),
        line@ == written@ + seq!['\n'],
{
}

/// A search is answered with the name and the path of every result, in order, and a question with the
/// whole answer, as the text of a single content.
pub proof fn law_agents_are_answered_in_full(
    id: Json,
    results: &Vec<Row>,
    found: RpcResponse,
    text: &str,
    answered: RpcResponse,
)
    requires
        call_ensures(found_reply, (id, results), found),
        call_ensures(text_reply, (id, text), answered),
    ensures
        ({
            let content = |text: Seq<char>|
                ResponseView {
                    jsonrpc: "2.0"@,
                    id: id@,
                    result: Some(
                        JsonView::Object(
                            seq![
                                (
                                    "content"@,
                                    JsonView::Array(
                                        seq![
                                            JsonView::Object(
                                                seq![
                                                    ("type"@, JsonView::Str("text"@)),
                                                    ("text"@, JsonView::Str(text)),
                                                ],
                                            ),
                                        ],
                                    ),
                                ),
                            ],
                        ),
                    ),
                    error: None,
                };
            &&& found@ == content(
                pretty_objects(
                    "filename"@,
                    "path"@,
                    results@.map_values(|row: Row| (row.0@, row.1@)),
                ),
            )
            &&& answered@ == content(text@)
        }),
{
    law_answers_are_given_whole(id@, results@, text@);
    assert(names_and_paths(results@) =~= results@.map_values(|row: Row| (row.0@, row.1@)));
}

/// A question is embedded, searched for, and sent in the prompt of all that was found; the answer is
/// given whole. What has ended stays as it is.
pub proof fn law_questions_go_on_step_by_step(
    call: &AskCall,
    searching: AskStep,
    found: Vec<Row>,
    question: &str,
    prompt: String,
    connecting: AskStep,
    text: String,
    ended: AskStep,
    outcome: AskOutcome,
    still: AskStep,
)
    requires
        call_ensures(proceed_ask, (AskStep::Embed, call, AskOutcome::Succeeded), searching),
        call_ensures(proceed_ask, (AskStep::Search, call, AskOutcome::Found(found)), connecting),
        question@ == call.question@,
        call_ensures(build_prompt, (Asker::Agent, question, &found), prompt),
        call_ensures(proceed_ask, (AskStep::Read, call, AskOutcome::Answered(text)), ended),
        call_ensures(proceed_ask, (ended, call, outcome), still),
    ensures
        searching is Search,
        connecting@ is Connect && connecting@->Connect_prompt == prompt@,
        ended@ is Done && ended@->Done_0.id == call.id@ && ended@->Done_0.error is None,
        still@ == ended@,
{
}

// ----------------------------------------------------------------------------------------------
// Requests of the web page
// ----------------------------------------------------------------------------------------------

/// A search of the web page has the limit it asks for, however large or small, and the one of the
/// settings where it asks for none; a question goes to the model it names, and to the default where
/// it names none.
pub proof fn law_the_web_page_gets_what_it_asks_for(
    asked: Option<usize>,
    max_results: usize,
    limit: usize,
    named: Option<String>,
    default_model: &str,
    model: String,
)
    requires
        call_ensures(search_limit, (asked, max_results), limit),
        call_ensures(ask_model, (named, default_model), model),
    ensures
        asked is Some ==> limit == asked->0,
        asked is None ==> limit == max_results,
        named is Some ==> model@ == named->0@,
        named is None ==> model@ == default_model@,
{
}

/// The web page is given the name and the path of every result, in order.
pub proof fn law_the_web_page_lists_every_result(rows: &Vec<Row>, r: Vec<SearchResult>)
    requires
        call_ensures(list_results, (rows,), r),
    ensures
        r@.len() == rows@.len(),
        forall|i: int|
            #![trigger r@[i]]
            0 <= i < r@.len() ==> r@[i].filename@ == rows@[i].0@ && r@[i].path@ == rows@[i].1@,
{
}

/// What failed inside is answered with status 500 and the cause, and what failed at Ollama is
/// streamed with the cause behind a mark.
pub proof fn law_the_web_page_is_told_the_cause(
    cause: String,
    r: (u16, String),
    reason: &str,
    streamed: String,
)
    requires
        call_ensures(internal_error, (cause,), r),
        call_ensures(stream_error, (reason,), streamed),
    ensures
        r.0 == 500,
        r.1@ == cause@,
        streamed@ == "ERROR: "@ + reason@,
{
}

/// There are three routes: the page and the search are got, and a question is posted.
pub proof fn law_there_are_three_routes(r: Vec<Route>)
    requires
        call_ensures(routes, (), r),
    ensures
        r@.len() == 3,
        r@[0].path@ == "/"@ && r@[0].method == Method::Get && r@[0].endpoint == Endpoint::Ui,
        r@[1].path@ == "/api/search"@ && r@[1].method == Method::Get && r@[1].endpoint
            == Endpoint::Search,
        r@[2].path@ == "/api/ask"@ && r@[2].method == Method::Post && r@[2].endpoint
            == Endpoint::Ask,
{
}

/// The handshake is answered with the version of the protocol, the name of the server and the version
/// that it was given.
pub proof fn law_the_handshake_names_the_server(
    req: RpcRequest,
    default_model: &str,
    version: &str,
    r: McpStep,
)
    requires
        call_ensures(handle, (req, default_model, version), r),
        req.method@ == "initialize"@,
    ensures
        r@ == StepView::Reply(
            ResponseView {
                jsonrpc: "2.0"@,
                id: req.id@,
                result: Some(
                    JsonView::Object(
                        seq![
                            ("protocolVersion"@, JsonView::Str("2024-11-05"@)),
                            (
                                "capabilities"@,
                                JsonView::Object(seq![("tools"@, JsonView::Object(Seq::empty()))]),
                            ),
                            (
                                "serverInfo"@,
                                JsonView::Object(
                                    seq![
                                        ("name"@, JsonView::Str("omitfs"@)),
                                        ("version"@, JsonView::Str(version@)),
                                    ],
                                ),
                            ),
                        ],
                    ),
                ),
                error: None,
            },
        ),
{
    law_methods_are_told_apart(req.id@, req.method@, req.params@, default_model@, version@);
}

/// The web page is given what re-ranking gives: the name and the path of each result, in that order.
pub proof fn law_the_web_page_lists_the_ranking<F: Fn(&CorpusStats, &DocStats) -> u64>(
    query: &str,
    found: Vec<Row>,
    score: F,
    ranked: Vec<Row>,
    r: Vec<SearchResult>,
)
    requires
        call_ensures(rerank::<F>, (query, found, score), ranked),
        call_ensures(search_results::<F>, (query, found, score), r),
    ensures
        r@.len() == ranked@.len(),
        forall|i: int|
            #![trigger r@[i]]
            0 <= i < r@.len() ==> r@[i].filename@ == ranked@[i].0@ && r@[i].path@ == ranked@[i].1@,
{
    let rows = choose|rows: Seq<Row>|
        #![trigger reranked(query@, found@, score, rows)]
        reranked(query@, found@, score, rows) && result_views(r@) == names_and_paths(rows);
    assert(rows == ranked@);
    assert(result_views(r@).len() == r@.len());
    assert forall|i: int|
        #![trigger r@[i]]
        0 <= i < r@.len() implies r@[i].filename@ == ranked@[i].0@ && r@[i].path@
        == ranked@[i].1@ by {
        assert(result_views(r@)[i] == names_and_paths(rows)[i]);
    }
}

/// An agent is answered with what re-ranking gives for its query, in that order.
pub proof fn law_agents_are_given_the_ranking<F: Fn(&CorpusStats, &DocStats) -> u64>(
    call: &SearchCall,
    query: &str,
    id: Json,
    found: Vec<Row>,
    score: F,
    ranked: Vec<Row>,
    listed: RpcResponse,
    r: RpcResponse,
)
    requires
        query@ == call.query@,
        id@ == call.id@,
        call_ensures(rerank::<F>, (query, found, score), ranked),
        call_ensures(found_reply, (id, &ranked), listed),
        call_ensures(search_reply::<F>, (call, found, score), r),
    ensures
        r@ == listed@,
{
    let rows = choose|rows: Seq<Row>|
        #![trigger reranked(call.query@, found@, score, rows)]
        reranked(call.query@, found@, score, rows) && r@ == found_response(call.id@, rows);
    assert(rows == ranked@);
}

/// A search for an agent is done once it was embedded and searched, with the answer to what was found;
/// where either fails, the answer names it with its whole cause.
pub proof fn law_agent_searches_go_on_step_by_step<F: Fn(&CorpusStats, &DocStats) -> u64>(
    call: &SearchCall,
    score: F,
    found: Vec<Row>,
    cause: String,
    searching: SearchStep,
    answered: RpcResponse,
    ended: SearchStep,
    unembedded: SearchStep,
    unsearched: SearchStep,
)
    requires
        is_score(score),
        call_ensures(
            crate::mcp::proceed_search::<F>,
            (SearchStep::Embed, call, SearchOutcome::Embedded, score),
            searching,
        ),
        call_ensures(search_reply::<F>, (call, found, score), answered),
        call_ensures(
            crate::mcp::proceed_search::<F>,
            (SearchStep::Search, call, SearchOutcome::Found(found), score),
            ended,
        ),
        call_ensures(
            crate::mcp::proceed_search::<F>,
            (SearchStep::Embed, call, SearchOutcome::Failed(cause), score),
            unembedded,
        ),
        call_ensures(
            crate::mcp::proceed_search::<F>,
            (SearchStep::Search, call, SearchOutcome::Failed(cause), score),
            unsearched,
        ),
    ensures
        searching@ is Search,
        ended@ is Done && ended@->Done_0 == answered@,
        unembedded@ is Done && unembedded@->Done_0 == (ResponseView {
            jsonrpc: "2.0"@,
            id: call.id@,
            result: None,
            error: Some(
                JsonView::Object(
                    seq![
                        ("code"@, JsonView::Int((-32000) as i64)),
                        ("message"@, JsonView::Str("Embedding failed: "@ + cause@)),
                    ],
                ),
            ),
        }),
        unsearched@ is Done && unsearched@->Done_0 == (ResponseView {
            jsonrpc: "2.0"@,
            id: call.id@,
            result: None,
            error: Some(
                JsonView::Object(
                    seq![
                        ("code"@, JsonView::Int((-32000) as i64)),
                        ("message"@, JsonView::Str("Search failed: "@ + cause@)),
                    ],
                ),
            ),
        }),
{
    let first = choose|rows: Seq<Row>|
        #![trigger reranked(call.query@, found@, score, rows)]
        reranked(call.query@, found@, score, rows) && answered@ == found_response(call.id@, rows);
    let second = choose|rows: Seq<Row>|
        ((SearchStep::Search is Search && SearchOutcome::Found(found) is Found) ==> reranked(
            call.query@,
            SearchOutcome::Found(found)@->Found_0,
            score,
            rows,
        )) && ended@ == #[trigger] search_after(
            SearchStep::Search@,
            call@,
            SearchOutcome::Found(found)@,
            rows,
        );
    law_equal_words_rank_alike(call.query@, call.query@, found@, score, first, second);
}

/// A search of the web page is done once it was embedded and searched, with what was found in the
/// order of the ranking; where either fails, it ends with status 500 and the whole cause. A question
/// goes on with the prompt of all that was found.
pub proof fn law_web_requests_go_on_step_by_step<F: Fn(&CorpusStats, &DocStats) -> u64>(
    query: &str,
    score: F,
    found: Vec<Row>,
    cause: String,
    searching: WebSearch,
    results: Vec<SearchResult>,
    ended: WebSearch,
    failed: WebSearch,
    prompt: String,
    streaming: WebAsk,
    refused: WebAsk,
)
    requires
        is_score(score),
        call_ensures(
            crate::server::proceed_search::<F>,
            (WebSearch::Embed, query, SearchOutcome::Embedded, score),
            searching,
        ),
        call_ensures(search_results::<F>, (query, found, score), results),
        call_ensures(
            crate::server::proceed_search::<F>,
            (WebSearch::Search, query, SearchOutcome::Found(found), score),
            ended,
        ),
        call_ensures(
            crate::server::proceed_search::<F>,
            (WebSearch::Search, query, SearchOutcome::Failed(cause), score),
            failed,
        ),
        call_ensures(build_prompt, (Asker::Web, query, &found), prompt),
        call_ensures(
            crate::server::proceed_ask,
            (WebAsk::Search, query, AskOutcome::Found(found)),
            streaming,
        ),
        call_ensures(
            crate::server::proceed_ask,
            (WebAsk::Embed, query, AskOutcome::Failed(cause)),
            refused,
        ),
    ensures
        searching@ is Search,
        ended@ is Done && ended@->Done_0 == results@.map_values(
            |r: SearchResult| (r.filename@, r.path@),
        ),
        failed@ is Failed && failed@->Failed_status == 500 && failed@->Failed_text == cause@,
        streaming@ is Stream && streaming@->prompt == prompt@,
        refused@ is Failed && refused@->Failed_status == 500 && refused@->Failed_text == cause@,
{
    let first = choose|rows: Seq<Row>|
        #![trigger reranked(query@, found@, score, rows)]
        reranked(query@, found@, score, rows) && result_views(results@) == names_and_paths(rows);
    let second = choose|rows: Seq<Row>|
        ((WebSearch::Search is Search && SearchOutcome::Found(found) is Found) ==> reranked(
            query@,
            SearchOutcome::Found(found)@->Found_0,
            score,
            rows,
        )) && ended@ == #[trigger] web_search_after(
            WebSearch::Search@,
            SearchOutcome::Found(found)@,
            rows,
        );
    law_equal_words_rank_alike(query@, query@, found@, score, first, second);
    assert(results@.map_values(|r: SearchResult| (r.filename@, r.path@)) =~= result_views(results@));
}

/// Two tools are offered: a search by a query, with a limit that is ten by default, and a question, with
/// a model that is `llama3` by default.
pub proof fn law_two_tools_are_offered(r: Json)
    requires
        call_ensures(tools_list, (), r),
    ensures
        ({
            let text = |s: Seq<char>| JsonView::Str(s);
            let inputs = |first: (Seq<char>, JsonView), second: (Seq<char>, JsonView)|
                JsonView::Object(
                    seq![
                        ("type"@, text("object"@)),
                        ("properties"@, JsonView::Object(seq![first, second])),
                        ("required"@, JsonView::Array(seq![text(first.0)])),
                    ],
                );
            r@ == JsonView::Object(
                seq![
                    (
                        "tools"@,
                        JsonView::Array(
                            seq![
                                JsonView::Object(
                                    seq![
                                        ("name"@, text("search"@)),
                                        (
                                            "description"@,
                                            text(
                                                "Semantic search over the user's locally-indexed files. Returns matching file names and paths."@,
                                            ),
                                        ),
                                        (
                                            "inputSchema"@,
                                            inputs(
                                                (
                                                    "query"@,
                                                    JsonView::Object(
                                                        seq![
                                                            ("type"@, text("string"@)),
                                                            (
                                                                "description"@,
                                                                text("Natural-language search query"@),
                                                            ),
                                                        ],
                                                    ),
                                                ),
                                                (
                                                    "limit"@,
                                                    JsonView::Object(
                                                        seq![
                                                            ("type"@, text("integer"@)),
                                                            (
                                                                "description"@,
                                                                text("Max results (default 10)"@),
                                                            ),
                                                            ("default"@, JsonView::UInt(10)),
                                                        ],
                                                    ),
                                                ),
                                            ),
                                        ),
                                    ],
                                ),
                                JsonView::Object(
                                    seq![
                                        ("name"@, text("ask"@)),
                                        (
                                            "description"@,
                                            text(
                                                "Ask a question answered from the user's local files using RAG + Ollama."@,
                                            ),
                                        ),
                                        (
                                            "inputSchema"@,
                                            inputs(
                                                (
                                                    "question"@,
                                                    JsonView::Object(
                                                        seq![
                                                            ("type"@, text("string"@)),
                                                            (
                                                                "description"@,
                                                                text("The question to answer"@),
                                                            ),
                                                        ],
                                                    ),
                                                ),
                                                (
                                                    "model"@,
                                                    JsonView::Object(
                                                        seq![
                                                            ("type"@, text("string"@)),
                                                            (
                                                                "description"@,
                                                                text(
                                                                    "Ollama model to use (default: llama3)"@,
                                                                ),
                                                            ),
                                                            ("default"@, text("llama3"@)),
                                                        ],
                                                    ),
                                                ),
                                            ),
                                        ),
                                    ],
                                ),
                            ],
                        ),
                    ),
                ],
            )
        }),
{
}

} // verus!
