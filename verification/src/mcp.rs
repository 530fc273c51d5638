//! The tool server for agents: JSON-RPC requests in, responses out.
//!
//! A request is either answered at once or becomes a call whose embedding, search and generation
//! happen outside; each thing that happens there is turned into the response by a function here.
use std::collections::BTreeMap;

use vstd::prelude::*;

use crate::db::{names_and_paths, pair_views, without_chunks};
use crate::json::{field_of, integer, Json, JsonView};
use crate::rag::{build_prompt, prompt_for, Asker};
use crate::reranker::{is_score, rerank, reranked, CorpusStats, DocStats, Row};
use crate::text::{concat2, str_eq, trim, trimmed};

verus! {

// ----------------------------------------------------------------------------------------------
// Requests and responses
// ----------------------------------------------------------------------------------------------

/// A request. An identifier or parameters that are missing are null.
#[derive(Debug)]
pub struct RpcRequest {
    pub id: Json,
    pub method: String,
    pub params: Json,
}

/// A response: either a result or an error.
#[derive(Debug)]
pub struct RpcResponse {
    pub jsonrpc: &'static str,
    pub id: Json,
    pub result: Option<Json>,
    pub error: Option<Json>,
}

/// The model of a [`RpcResponse`].
pub struct ResponseView {
    pub jsonrpc: Seq<char>,
    pub id: JsonView,
    pub result: Option<JsonView>,
    pub error: Option<JsonView>,
}

/// The view of an optional JSON value.
pub open spec fn json_option(j: Option<Json>) -> Option<JsonView> {
    match j {
        Some(v) => Some(v@),
        None => None,
    }
}

impl View for RpcResponse {
    type V = ResponseView;

    open spec fn view(&self) -> ResponseView {
        ResponseView {
            jsonrpc: self.jsonrpc@,
            id: self.id@,
            result: json_option(self.result),
            error: json_option(self.error),
        }
    }
}

/// The response with a result.
pub open spec fn success(id: JsonView, result: JsonView) -> ResponseView {
    ResponseView { jsonrpc: "2.0"@, id, result: Some(result), error: None }
}

/// The response with an error.
pub open spec fn failure(id: JsonView, code: int, message: Seq<char>) -> ResponseView {
    ResponseView {
        jsonrpc: "2.0"@,
        id,
        result: None,
        error: Some(
            JsonView::Object(
                seq![("code"@, integer(code)), ("message"@, JsonView::Str(message))],
            ),
        ),
    }
}

/// Responds with a result.
pub fn ok(id: Json, result: Json) -> (r: RpcResponse)
    ensures
        r@ == success(id@, result@),
{
    RpcResponse { jsonrpc: "2.0", id, result: Some(result), error: None }
}

/// Responds with an error.
pub fn err(id: Json, code: i64, message: &str) -> (r: RpcResponse)
    ensures
        r@ == failure(id@, code as int, message@),
{
    let error: Json = Json::object2(
        "code",
        Json::from_int(code),
        "message",
        Json::from_text(message),
    );
    RpcResponse { jsonrpc: "2.0", id, result: None, error: Some(error) }
}

/// The request in a line of input: the line without the whitespace around it, unless nothing is
/// left.
pub fn request_in(line: &str) -> (r: Option<String>)
    ensures
        trimmed(line@).len() == 0 <==> r is None,
        r matches Some(s) ==> s@ == trimmed(line@),
{
    let text: String = trim(line);
    if text.as_str().is_empty() {
        None
    } else {
        Some(text)
    }
}

/// Responds to a request that could not be read.
pub fn parse_error(cause: &str) -> (r: RpcResponse)
    ensures
        r@ == failure(JsonView::Null, -32700, "Parse error: "@ + cause@),
{
    err(Json::Null, -32700, concat2("Parse error: ", cause).as_str())
}

/// A response as it is written out: one line.
pub fn as_line(response: &str) -> (r: String)
    ensures
        r@ == response@.push('\n'),
{
    let mut out: String = response.to_owned();
    out.push('\n');
    out
}

// ----------------------------------------------------------------------------------------------
// The tools
// ----------------------------------------------------------------------------------------------

/// How many results a search has where its call does not say: what the tool list announces.
pub const DEFAULT_LIMIT: usize = 10;

/// A parameter of a tool.
pub open spec fn parameter(kind: Seq<char>, description: Seq<char>) -> JsonView {
    JsonView::Object(
        seq![("type"@, JsonView::Str(kind)), ("description"@, JsonView::Str(description))],
    )
}

/// A parameter of a tool that has a default.
pub open spec fn defaulted(
    kind: Seq<char>,
    description: Seq<char>,
    default: JsonView,
) -> JsonView {
    JsonView::Object(
        seq![
            ("type"@, JsonView::Str(kind)),
            ("description"@, JsonView::Str(description)),
            ("default"@, default),
        ],
    )
}

/// A tool, by its name, what it does, its parameters and the one that has to be given.
pub open spec fn tool(
    name: Seq<char>,
    description: Seq<char>,
    parameters: JsonView,
    required: Seq<char>,
) -> JsonView {
    JsonView::Object(
        seq![
            ("name"@, JsonView::Str(name)),
            ("description"@, JsonView::Str(description)),
            (
                "inputSchema"@,
                JsonView::Object(
                    seq![
                        ("type"@, JsonView::Str("object"@)),
                        ("properties"@, parameters),
                        ("required"@, JsonView::Array(seq![JsonView::Str(required)])),
                    ],
                ),
            ),
        ],
    )
}

/// The tools that the server offers.
pub open spec fn tools() -> JsonView {
    JsonView::Object(
        seq![
            (
                "tools"@,
                JsonView::Array(
                    seq![
                        tool(
                            "search"@,
                            "Semantic search over the user's locally-indexed files. Returns matching file names and paths."@,
                            JsonView::Object(
                                seq![
                                    (
                                        "query"@,
                                        parameter("string"@, "Natural-language search query"@),
                                    ),
                                    (
                                        "limit"@,
                                        defaulted(
                                            "integer"@,
                                            "Max results (default 10)"@,
                                            JsonView::UInt(DEFAULT_LIMIT as u64),
                                        ),
                                    ),
                                ],
                            ),
                            "query"@,
                        ),
                        tool(
                            "ask"@,
                            "Ask a question answered from the user's local files using RAG + Ollama."@,
                            JsonView::Object(
                                seq![
                                    (
                                        "question"@,
                                        parameter("string"@, "The question to answer"@),
                                    ),
                                    (
                                        "model"@,
                                        defaulted(
                                            "string"@,
                                            "Ollama model to use (default: llama3)"@,
                                            JsonView::Str("llama3"@),
                                        ),
                                    ),
                                ],
                            ),
                            "question"@,
                        ),
                    ],
                ),
            ),
        ],
    )
}

fn build_parameter(kind: &str, description: &str) -> (r: Json)
    ensures
        r@ == parameter(kind@, description@),
{
    Json::object2("type", Json::from_text(kind), "description", Json::from_text(description))
}

fn build_defaulted(kind: &str, description: &str, default: Json) -> (r: Json)
    ensures
        r@ == defaulted(kind@, description@, default@),
{
    Json::object3(
        "type",
        Json::from_text(kind),
        "description",
        Json::from_text(description),
        "default",
        default,
    )
}

fn build_tool(name: &str, description: &str, parameters: Json, required: &str) -> (r: Json)
    ensures
        r@ == tool(name@, description@, parameters@, required@),
{
    let input: Json = Json::object3(
        "type",
        Json::from_text("object"),
        "properties",
        parameters,
        "required",
        Json::array1(Json::from_text(required)),
    );
    Json::object3(
        "name",
        Json::from_text(name),
        "description",
        Json::from_text(description),
        "inputSchema",
        input,
    )
}

/// Lists the tools that the server offers.
pub fn tools_list() -> (r: Json)
    ensures
        r@ == tools(),
{
    let search: Json = build_tool(
        "search",
        "Semantic search over the user's locally-indexed files. Returns matching file names and paths.",
        Json::object2(
            "query",
            build_parameter("string", "Natural-language search query"),
            "limit",
            build_defaulted("integer", "Max results (default 10)", Json::UInt(DEFAULT_LIMIT as u64)),
        ),
        "query",
    );
    let ask: Json = build_tool(
        "ask",
        "Ask a question answered from the user's local files using RAG + Ollama.",
        Json::object2(
            "question",
            build_parameter("string", "The question to answer"),
            "model",
            build_defaulted(
                "string",
                "Ollama model to use (default: llama3)",
                Json::from_text("llama3"),
            ),
        ),
        "question",
    );
    Json::object1("tools", Json::array2(search, ask))
}

/// What the server says of itself, in its given version.
pub open spec fn server_info(version: Seq<char>) -> JsonView {
    JsonView::Object(
        seq![
            ("protocolVersion"@, JsonView::Str("2024-11-05"@)),
            ("capabilities"@, JsonView::Object(seq![("tools"@, JsonView::Object(Seq::empty()))])),
            (
                "serverInfo"@,
                JsonView::Object(
                    seq![
                        ("name"@, JsonView::Str("omitfs"@)),
                        ("version"@, JsonView::Str(version)),
                    ],
                ),
            ),
        ],
    )
}

fn build_server_info(version: &str) -> (r: Json)
    ensures
        r@ == server_info(version@),
{
    Json::object3(
        "protocolVersion",
        Json::from_text("2024-11-05"),
        "capabilities",
        Json::object1("tools", Json::object0()),
        "serverInfo",
        Json::object2("name", Json::from_text("omitfs"), "version", Json::from_text(version)),
    )
}

// ----------------------------------------------------------------------------------------------
// Dispatching
// ----------------------------------------------------------------------------------------------

/// A search that an agent asked for.
#[derive(Debug)]
pub struct SearchCall {
    pub id: Json,
    pub query: String,
    pub limit: usize,
}

/// A question that an agent asked.
#[derive(Debug)]
pub struct AskCall {
    pub id: Json,
    pub question: String,
    pub model: String,
}

/// What a request asks for next.
#[derive(Debug)]
pub enum McpStep {
    /// To be answered at once.
    Reply(RpcResponse),
    /// To search.
    Search(SearchCall),
    /// To search, and to have a question answered from what was found.
    Ask(AskCall),
}

/// The model of a [`McpStep`].
pub enum StepView {
    Reply(ResponseView),
    Search { id: JsonView, query: Seq<char>, limit: usize },
    Ask { id: JsonView, question: Seq<char>, model: Seq<char> },
}

impl View for McpStep {
    type V = StepView;

    open spec fn view(&self) -> StepView {
        match self {
            McpStep::Reply(r) => StepView::Reply(r@),
            McpStep::Search(c) => StepView::Search { id: c.id@, query: c.query@, limit: c.limit },
            McpStep::Ask(c) => StepView::Ask {
                id: c.id@,
                question: c.question@,
                model: c.model@,
            },
        }
    }
}

/// The text of a field in the arguments of a call, where there are any.
pub open spec fn argument_text(args: Option<JsonView>, key: Seq<char>) -> Option<Seq<char>> {
    match args {
        Some(a) => a.text_field(key),
        None => None,
    }
}

/// The number in a field in the arguments of a call, where there are any.
pub open spec fn argument_number(args: Option<JsonView>, key: Seq<char>) -> Option<u64> {
    match args {
        Some(a) => a.number_field(key),
        None => None,
    }
}

/// A text or, where there is none, another.
pub open spec fn text_or(s: Option<Seq<char>>, other: Seq<char>) -> Seq<char> {
    match s {
        Some(t) => t,
        None => other,
    }
}

/// What a call of a tool asks for.
pub open spec fn called(
    id: JsonView,
    params: JsonView,
    default_model: Seq<char>,
) -> StepView {
    let name = text_or(params.text_field("name"@), ""@);
    let args = params.field("arguments"@);
    if name == "search"@ {
        match argument_text(args, "query"@) {
            Some(query) => StepView::Search {
                id,
                query,
                limit: match argument_number(args, "limit"@) {
                    Some(n) => n as usize,
                    None => DEFAULT_LIMIT,
                },
            },
            None => StepView::Reply(failure(id, -32602, "Missing 'query' argument"@)),
        }
    } else if name == "ask"@ {
        match argument_text(args, "question"@) {
            Some(question) => StepView::Ask {
                id,
                question,
                model: text_or(argument_text(args, "model"@), default_model),
            },
            None => StepView::Reply(failure(id, -32602, "Missing 'question' argument"@)),
        }
    } else {
        StepView::Reply(failure(id, -32601, "Unknown tool: "@ + name))
    }
}

/// What a request asks for.
pub open spec fn dispatched(
    id: JsonView,
    method: Seq<char>,
    params: JsonView,
    default_model: Seq<char>,
    version: Seq<char>,
) -> StepView {
    if method == "initialize"@ {
        StepView::Reply(success(id, server_info(version)))
    } else if method == "tools/list"@ {
        StepView::Reply(success(id, tools()))
    } else if method == "tools/call"@ {
        called(id, params, default_model)
    } else if method == "notifications/initialized"@ {
        StepView::Reply(success(id, JsonView::Null))
    } else {
        StepView::Reply(failure(id, -32601, "Method not found: "@ + method))
    }
}

fn call_tool(id: Json, params: &Json, default_model: &str) -> (r: McpStep)
    ensures
        r@ == called(id@, params@, default_model@),
{
    let name: &str = match params.get_str("name") {
        Some(s) => s,
        None => "",
    };
    let args: Option<&Json> = params.get("arguments");
    if str_eq(name, "search") {
        let query: Option<&str> = match args {
            Some(a) => a.get_str("query"),
            None => None,
        };
        let asked: Option<u64> = match args {
            Some(a) => a.get_u64("limit"),
            None => None,
        };
        let limit: usize = match asked {
            Some(n) => n as usize,
            None => DEFAULT_LIMIT,
        };
        match query {
            Some(q) => McpStep::Search(SearchCall { id, query: q.to_owned(), limit }),
            None => McpStep::Reply(err(id, -32602, "Missing 'query' argument")),
        }
    } else if str_eq(name, "ask") {
        let question: Option<&str> = match args {
            Some(a) => a.get_str("question"),
            None => None,
        };
        let asked: Option<&str> = match args {
            Some(a) => a.get_str("model"),
            None => None,
        };
        let model: &str = match asked {
            Some(m) => m,
            None => default_model,
        };
        match question {
            Some(q) => McpStep::Ask(
                AskCall { id, question: q.to_owned(), model: model.to_owned() },
            ),
            None => McpStep::Reply(err(id, -32602, "Missing 'question' argument")),
        }
    } else {
        McpStep::Reply(err(id, -32601, concat2("Unknown tool: ", name).as_str()))
    }
}

/// Decides what a request asks for: a response at once, a search, or a question. A search without
/// a limit has the one that the tool list announces, a question without a model goes to
/// `default_model`.
pub fn handle(req: RpcRequest, default_model: &str, version: &str) -> (r: McpStep)
    ensures
        r@ == dispatched(req.id@, req.method@, req.params@, default_model@, version@),
{
    let method: &str = req.method.as_str();
    if str_eq(method, "initialize") {
        McpStep::Reply(ok(req.id, build_server_info(version)))
    } else if str_eq(method, "tools/list") {
        McpStep::Reply(ok(req.id, tools_list()))
    } else if str_eq(method, "tools/call") {
        call_tool(req.id, &req.params, default_model)
    } else if str_eq(method, "notifications/initialized") {
        McpStep::Reply(ok(req.id, Json::Null))
    } else {
        let message: String = concat2("Method not found: ", method);
        McpStep::Reply(err(req.id, -32601, message.as_str()))
    }
}

/// Every step carries the identifier of its request, and a response has either a result or an
/// error.
pub proof fn law_steps_answer_their_request(
    id: JsonView,
    method: Seq<char>,
    params: JsonView,
    default_model: Seq<char>,
    version: Seq<char>,
)
    ensures
        match dispatched(id, method, params, default_model, version) {
            StepView::Reply(r) => r.id == id && r.jsonrpc == "2.0"@ && (r.result is Some
                <==> r.error is None),
            StepView::Search { id: i, .. } => i == id && method == "tools/call"@,
            StepView::Ask { id: i, .. } => i == id && method == "tools/call"@,
        },
{
}

/// The field that a path of names leads to, where each but the last is that of an object.
pub open spec fn field_at(j: JsonView, path: Seq<Seq<char>>) -> Option<JsonView>
    decreases path.len(),
{
    if path.len() == 0 {
        Some(j)
    } else {
        match j.field(path.first()) {
            Some(v) => field_at(v, path.drop_first()),
            None => None,
        }
    }
}

/// The default that the tool list announces for a parameter of a tool, by the place of the tool.
pub open spec fn announced_default(tool: int, parameter: Seq<char>) -> Option<JsonView> {
    match tools().field("tools"@) {
        Some(JsonView::Array(list)) => field_at(
            list[tool],
            seq!["inputSchema"@, "properties"@, parameter, "default"@],
        ),
        _ => None,
    }
}

/// The defaults that the tool list announces: a limit for a search, and a model for a question.
proof fn lemma_announced()
    ensures
        announced_default(0, "limit"@) == Some(JsonView::UInt(DEFAULT_LIMIT as u64)),
        announced_default(1, "model"@) == Some(JsonView::Str("llama3"@)),
{
    reveal_strlit("name");
    reveal_strlit("description");
    reveal_strlit("inputSchema");
    reveal_strlit("type");
    reveal_strlit("properties");
    reveal_strlit("query");
    reveal_strlit("limit");
    reveal_strlit("question");
    reveal_strlit("model");
    reveal_strlit("default");
    reveal_with_fuel(field_of, 4);
    reveal_with_fuel(field_at, 5);
    assert("name"@[0] != "inputSchema"@[0] && "description"@[0] != "inputSchema"@[0]);
    assert("type"@[0] != "properties"@[0]);
    assert("query"@[0] != "limit"@[0] && "question"@[0] != "model"@[0]);
    assert("type"@[0] != "default"@[0] && "description"@[2] != "default"@[2]);
    lemma_path("limit"@);
    lemma_path("model"@);
}

/// A path to a default, field by field.
proof fn lemma_path(parameter: Seq<char>)
    ensures
        ({
            let path = seq!["inputSchema"@, "properties"@, parameter, "default"@];
            &&& path.drop_first() == seq!["properties"@, parameter, "default"@]
            &&& path.drop_first().drop_first() == seq![parameter, "default"@]
            &&& path.drop_first().drop_first().drop_first() == seq!["default"@]
        }),
{
    let path = seq!["inputSchema"@, "properties"@, parameter, "default"@];
    assert(path.drop_first() =~= seq!["properties"@, parameter, "default"@]);
    assert(path.drop_first().drop_first() =~= seq![parameter, "default"@]);
    assert(path.drop_first().drop_first().drop_first() =~= seq!["default"@]);
}

/// The model that a question goes to where nothing says otherwise: what the tool list announces.
pub fn announced_model() -> (r: &'static str)
    ensures
        announced_default(1, "model"@) == Some(JsonView::Str(r@)),
{
    proof {
        lemma_announced();
    }
    "llama3"
}

/// Where the default model is the one that the tool list announces, a question that is asked without
/// a model goes to that model.
pub proof fn law_the_announced_model_is_applied(
    id: JsonView,
    params: JsonView,
    default_model: Seq<char>,
)
    requires
        argument_text(params.field("arguments"@), "model"@) is None,
        announced_default(1, "model"@) == Some(JsonView::Str(default_model)),
    ensures
        called(id, params, default_model) matches StepView::Ask { model, .. } ==> announced_default(
            1,
            "model"@,
        ) == Some(JsonView::Str(model)),
        announced_default(1, "model"@) == Some(JsonView::Str("llama3"@)),
{
    lemma_announced();
}

/// A search that is asked for without a limit has the one that the tool list announces as its
/// default.
pub proof fn law_the_announced_limit_is_applied(
    id: JsonView,
    params: JsonView,
    default_model: Seq<char>,
)
    requires
        argument_number(params.field("arguments"@), "limit"@) is None,
    ensures
        called(id, params, default_model) matches StepView::Search { limit, .. }
            ==> announced_default(0, "limit"@) == Some(JsonView::UInt(limit as u64)),
{
    lemma_announced();
}

// ----------------------------------------------------------------------------------------------
// Finishing a call
// ----------------------------------------------------------------------------------------------

/// What can fail outside while a tool works, with the cause.
#[derive(Debug)]
pub enum ToolFailure {
    Embedding(String),
    Search(String),
    HttpClient(String),
    OllamaUnreachable(String),
    OllamaResponse(String),
}

impl ToolFailure {
    /// What the agent is told.
    pub open spec fn text(self) -> Seq<char> {
        match self {
            ToolFailure::Embedding(e) => "Embedding failed: "@ + e@,
            ToolFailure::Search(e) => "Search failed: "@ + e@,
            ToolFailure::HttpClient(e) => "HTTP client error: "@ + e@,
            ToolFailure::OllamaUnreachable(e) => "Ollama unreachable: "@ + e@,
            ToolFailure::OllamaResponse(e) => "Ollama response parse error: "@ + e@,
        }
    }
}

/// Responds to a call that failed outside.
pub fn tool_failed(id: Json, cause: ToolFailure) -> (r: RpcResponse)
    ensures
        r@ == failure(id@, -32000, cause.text()),
{
    let message: String = match &cause {
        ToolFailure::Embedding(e) => concat2("Embedding failed: ", e.as_str()),
        ToolFailure::Search(e) => concat2("Search failed: ", e.as_str()),
        ToolFailure::HttpClient(e) => concat2("HTTP client error: ", e.as_str()),
        ToolFailure::OllamaUnreachable(e) => concat2("Ollama unreachable: ", e.as_str()),
        ToolFailure::OllamaResponse(e) => concat2("Ollama response parse error: ", e.as_str()),
    };
    err(id, -32000, message.as_str())
}

/// The result of a tool: one text.
pub open spec fn text_content(text: Seq<char>) -> JsonView {
    JsonView::Object(
        seq![
            (
                "content"@,
                JsonView::Array(
                    seq![
                        JsonView::Object(
                            seq![("type"@, JsonView::Str("text"@)), ("text"@, JsonView::Str(text))],
                        ),
                    ],
                ),
            ),
        ],
    )
}

/// Responds to a call with one text.
pub fn text_reply(id: Json, text: &str) -> (r: RpcResponse)
    ensures
        r@ == success(id@, text_content(text@)),
{
    let item: Json = Json::object2("type", Json::from_text("text"), "text", Json::from_text(text));
    ok(id, Json::object1("content", Json::array1(item)))
}

/// The pretty-printed JSON of an array of objects, each with two texts under these names.
pub uninterp spec fn pretty_objects(
    first: Seq<char>,
    second: Seq<char>,
    rows: Seq<(Seq<char>, Seq<char>)>,
) -> Seq<char>;

/// `to_string_pretty` of the crate `serde_json`, on an array of objects with two texts each: what
/// it prints is a function of the names and the texts alone.
#[verifier::external_body]
fn print_objects(first: &str, second: &str, rows: &Vec<(String, String)>) -> (r: String)
    ensures
        r@ == pretty_objects(first@, second@, pair_views(rows@)),
{
    let objects: Vec<BTreeMap<&str, &String>> = rows.iter().map(
        |row| BTreeMap::from([(first, &row.0), (second, &row.1)]),
    ).collect();
    serde_json::to_string_pretty(&objects).unwrap_or_default()
}

/// The response to a search with these results.
pub open spec fn found_response(id: JsonView, results: Seq<Row>) -> ResponseView {
    success(
        id,
        text_content(pretty_objects("filename"@, "path"@, names_and_paths(results))),
    )
}

/// Responds to a search with its results, in their order.
pub fn found_reply(id: Json, results: &Vec<Row>) -> (r: RpcResponse)
    ensures
        r@ == found_response(id@, results@),
{
    let pairs: Vec<(String, String)> = without_chunks(results);
    text_reply(id, print_objects("filename", "path", &pairs).as_str())
}

/// Responds to a search with the rows that were found, re-ranked by `score` against the query.
pub fn search_reply<F: Fn(&CorpusStats, &DocStats) -> u64>(
    call: &SearchCall,
    found: Vec<Row>,
    score: F,
) -> (r: RpcResponse)
    requires
        is_score(score),
    ensures
        exists|results: Seq<Row>|
            #![trigger reranked(call.query@, found@, score, results)]
            reranked(call.query@, found@, score, results) && r@ == found_response(
                call.id@,
                results,
            ),
{
    let results: Vec<Row> = rerank(call.query.as_str(), found, score);
    found_reply(call.id.copy(), &results)
}

/// Writes the prompt for a question over the chunks that were found.
pub fn ask_prompt(call: &AskCall, chunks: &Vec<Row>) -> (r: String)
    ensures
        r@ == prompt_for(Asker::Agent, call.question@, chunks@),
{
    build_prompt(Asker::Agent, call.question.as_str(), chunks)
}

// ----------------------------------------------------------------------------------------------
// The steps of a call
// ----------------------------------------------------------------------------------------------

/// The model of a [`SearchCall`].
pub struct SearchCallView {
    pub id: JsonView,
    pub query: Seq<char>,
    pub limit: usize,
}

impl View for SearchCall {
    type V = SearchCallView;

    open spec fn view(&self) -> SearchCallView {
        SearchCallView { id: self.id@, query: self.query@, limit: self.limit }
    }
}

/// The model of an [`AskCall`].
pub struct AskCallView {
    pub id: JsonView,
    pub question: Seq<char>,
    pub model: Seq<char>,
}

impl View for AskCall {
    type V = AskCallView;

    open spec fn view(&self) -> AskCallView {
        AskCallView { id: self.id@, question: self.question@, model: self.model@ }
    }
}

/// The response to a call that failed outside, by what failed and the cause.
pub open spec fn failed_outside(id: JsonView, what: Seq<char>, cause: Seq<char>) -> ResponseView {
    failure(id, -32000, what + cause)
}

/// The next step of a search for an agent.
#[derive(Debug)]
pub enum SearchStep {
    /// Embed the query.
    Embed,
    /// Search for what was embedded, for as many files as the call has for a limit.
    Search,
    /// Nothing more: this is the response.
    Done(RpcResponse),
}

/// The model of a [`SearchStep`].
pub enum SearchStepView {
    Embed,
    Search,
    Done(ResponseView),
}

impl View for SearchStep {
    type V = SearchStepView;

    open spec fn view(&self) -> SearchStepView {
        match self {
            SearchStep::Embed => SearchStepView::Embed,
            SearchStep::Search => SearchStepView::Search,
            SearchStep::Done(r) => SearchStepView::Done(r@),
        }
    }
}

/// How a step of a search went.
#[derive(Debug)]
pub enum SearchOutcome {
    /// It failed, by this cause.
    Failed(String),
    /// The query was embedded.
    Embedded,
    /// The search gave these rows.
    Found(Vec<Row>),
}

/// The model of a [`SearchOutcome`].
pub enum SearchOutcomeView {
    Failed(Seq<char>),
    Embedded,
    Found(Seq<Row>),
}

impl View for SearchOutcome {
    type V = SearchOutcomeView;

    open spec fn view(&self) -> SearchOutcomeView {
        match self {
            SearchOutcome::Failed(c) => SearchOutcomeView::Failed(c@),
            SearchOutcome::Embedded => SearchOutcomeView::Embedded,
            SearchOutcome::Found(rows) => SearchOutcomeView::Found(rows@),
        }
    }
}

/// The step after a step of a search that went like this, where `ranked` are the rows that it gave
/// in the order of their ranking. What is no outcome of the step changes nothing.
pub open spec fn search_after(
    now: SearchStepView,
    call: SearchCallView,
    outcome: SearchOutcomeView,
    ranked: Seq<Row>,
) -> SearchStepView {
    match (now, outcome) {
        (SearchStepView::Embed, SearchOutcomeView::Embedded) => SearchStepView::Search,
        (SearchStepView::Embed, SearchOutcomeView::Failed(cause)) => SearchStepView::Done(
            failed_outside(call.id, "Embedding failed: "@, cause),
        ),
        (SearchStepView::Search, SearchOutcomeView::Found(_)) => SearchStepView::Done(
            found_response(call.id, ranked),
        ),
        (SearchStepView::Search, SearchOutcomeView::Failed(cause)) => SearchStepView::Done(
            failed_outside(call.id, "Search failed: "@, cause),
        ),
        _ => now,
    }
}

/// Decides on the next step of a search, whose results are re-ranked by `score` against the query.
pub fn proceed_search<F: Fn(&CorpusStats, &DocStats) -> u64>(
    now: SearchStep,
    call: &SearchCall,
    outcome: SearchOutcome,
    score: F,
) -> (r: SearchStep)
    requires
        is_score(score),
    ensures
        exists|ranked: Seq<Row>|
            ((now is Search && outcome is Found) ==> reranked(
                call.query@,
                outcome@->Found_0,
                score,
                ranked,
            )) && r@ == #[trigger] search_after(now@, call@, outcome@, ranked),
{
    let ghost now_view = now@;
    let ghost outcome_view = outcome@;
    match now {
        SearchStep::Embed => {
            let r: SearchStep = match outcome {
                SearchOutcome::Embedded => SearchStep::Search,
                SearchOutcome::Failed(cause) => SearchStep::Done(
                    tool_failed(call.id.copy(), ToolFailure::Embedding(cause)),
                ),
                SearchOutcome::Found(_) => SearchStep::Embed,
            };
            assert(r@ == search_after(now_view, call@, outcome_view, Seq::empty()));
            r
        },
        SearchStep::Search => match outcome {
            SearchOutcome::Embedded => {
                assert(SearchStepView::Search == search_after(
                    now_view,
                    call@,
                    outcome_view,
                    Seq::empty(),
                ));
                SearchStep::Search
            },
            SearchOutcome::Failed(cause) => {
                let r: SearchStep = SearchStep::Done(
                    tool_failed(call.id.copy(), ToolFailure::Search(cause)),
                );
                assert(r@ == search_after(now_view, call@, outcome_view, Seq::empty()));
                r
            },
            SearchOutcome::Found(found) => {
                let ghost rows = found@;
                let response: RpcResponse = search_reply(call, found, score);
                let r: SearchStep = SearchStep::Done(response);
                proof {
                    let ranked = choose|ranked: Seq<Row>|
                        #![trigger reranked(call.query@, rows, score, ranked)]
                        reranked(call.query@, rows, score, ranked) && response@ == found_response(
                            call.id@,
                            ranked,
                        );
                    assert(r@ == search_after(now_view, call@, outcome_view, ranked));
                }
                r
            },
        },
        SearchStep::Done(response) => {
            let r: SearchStep = SearchStep::Done(response);
            assert(r@ == search_after(now_view, call@, outcome_view, Seq::empty()));
            r
        },
    }
}

/// The next step of answering a question of an agent.
#[derive(Debug)]
pub enum AskStep {
    /// Embed the question.
    Embed,
    /// Search for what was embedded.
    Search,
    /// Make ready to talk to Ollama.
    Connect { prompt: String },
    /// Send the prompt.
    Send { prompt: String },
    /// Read the reply.
    Read,
    /// Nothing more: this is the response.
    Done(RpcResponse),
}

/// The model of an [`AskStep`].
pub enum AskStepView {
    Embed,
    Search,
    Connect { prompt: Seq<char> },
    Send { prompt: Seq<char> },
    Read,
    Done(ResponseView),
}

impl View for AskStep {
    type V = AskStepView;

    open spec fn view(&self) -> AskStepView {
        match self {
            AskStep::Embed => AskStepView::Embed,
            AskStep::Search => AskStepView::Search,
            AskStep::Connect { prompt } => AskStepView::Connect { prompt: prompt@ },
            AskStep::Send { prompt } => AskStepView::Send { prompt: prompt@ },
            AskStep::Read => AskStepView::Read,
            AskStep::Done(r) => AskStepView::Done(r@),
        }
    }
}

/// How a step of answering a question went.
#[derive(Debug)]
pub enum AskOutcome {
    /// It failed, by this cause.
    Failed(String),
    /// It was done.
    Succeeded,
    /// The search gave these chunks.
    Found(Vec<Row>),
    /// The reply is this answer.
    Answered(String),
}

/// The model of an [`AskOutcome`].
pub enum AskOutcomeView {
    Failed(Seq<char>),
    Succeeded,
    Found(Seq<Row>),
    Answered(Seq<char>),
}

impl View for AskOutcome {
    type V = AskOutcomeView;

    open spec fn view(&self) -> AskOutcomeView {
        match self {
            AskOutcome::Failed(c) => AskOutcomeView::Failed(c@),
            AskOutcome::Succeeded => AskOutcomeView::Succeeded,
            AskOutcome::Found(rows) => AskOutcomeView::Found(rows@),
            AskOutcome::Answered(text) => AskOutcomeView::Answered(text@),
        }
    }
}

/// What the agent is told first of a step that failed.
pub open spec fn failing_step(now: AskStepView) -> Seq<char> {
    match now {
        AskStepView::Embed => "Embedding failed: "@,
        AskStepView::Search => "Search failed: "@,
        AskStepView::Connect { .. } => "HTTP client error: "@,
        AskStepView::Send { .. } => "Ollama unreachable: "@,
        AskStepView::Read => "Ollama response parse error: "@,
        AskStepView::Done(_) => ""@,
    }
}

/// The step after a step of answering a question that went like this: the first failure ends it.
/// What is no outcome of the step changes nothing.
pub open spec fn ask_after(
    now: AskStepView,
    call: AskCallView,
    outcome: AskOutcomeView,
) -> AskStepView {
    match (now, outcome) {
        (AskStepView::Done(response), _) => AskStepView::Done(response),
        (_, AskOutcomeView::Failed(cause)) => AskStepView::Done(
            failed_outside(call.id, failing_step(now), cause),
        ),
        (AskStepView::Embed, AskOutcomeView::Succeeded) => AskStepView::Search,
        (AskStepView::Search, AskOutcomeView::Found(chunks)) => AskStepView::Connect {
            prompt: prompt_for(Asker::Agent, call.question, chunks),
        },
        (AskStepView::Connect { prompt }, AskOutcomeView::Succeeded) => AskStepView::Send {
            prompt,
        },
        (AskStepView::Send { .. }, AskOutcomeView::Succeeded) => AskStepView::Read,
        (AskStepView::Read, AskOutcomeView::Answered(text)) => AskStepView::Done(
            success(call.id, text_content(text)),
        ),
        _ => now,
    }
}

/// Decides on the next step of answering a question.
pub fn proceed_ask(now: AskStep, call: &AskCall, outcome: AskOutcome) -> (r: AskStep)
    ensures
        r@ == ask_after(now@, call@, outcome@),
{
    match now {
        AskStep::Embed => match outcome {
            AskOutcome::Failed(cause) => AskStep::Done(
                tool_failed(call.id.copy(), ToolFailure::Embedding(cause)),
            ),
            AskOutcome::Succeeded => AskStep::Search,
            _ => AskStep::Embed,
        },
        AskStep::Search => match outcome {
            AskOutcome::Failed(cause) => AskStep::Done(
                tool_failed(call.id.copy(), ToolFailure::Search(cause)),
            ),
            AskOutcome::Found(chunks) => AskStep::Connect { prompt: ask_prompt(call, &chunks) },
            _ => AskStep::Search,
        },
        AskStep::Connect { prompt } => match outcome {
            AskOutcome::Failed(cause) => AskStep::Done(
                tool_failed(call.id.copy(), ToolFailure::HttpClient(cause)),
            ),
            AskOutcome::Succeeded => AskStep::Send { prompt },
            _ => AskStep::Connect { prompt },
        },
        AskStep::Send { prompt } => match outcome {
            AskOutcome::Failed(cause) => AskStep::Done(
                tool_failed(call.id.copy(), ToolFailure::OllamaUnreachable(cause)),
            ),
            AskOutcome::Succeeded => AskStep::Read,
            _ => AskStep::Send { prompt },
        },
        AskStep::Read => match outcome {
            AskOutcome::Failed(cause) => AskStep::Done(
                tool_failed(call.id.copy(), ToolFailure::OllamaResponse(cause)),
            ),
            AskOutcome::Answered(text) => AskStep::Done(
                text_reply(call.id.copy(), text.as_str()),
            ),
            _ => AskStep::Read,
        },
        AskStep::Done(response) => AskStep::Done(response),
    }
}

/// The first failure ends a question: its step is named, nothing else is done, and the response
/// carries the identifier of the call.
pub proof fn law_the_first_failure_ends_a_question(
    now: AskStepView,
    call: AskCallView,
    cause: Seq<char>,
    later: AskOutcomeView,
)
    requires
        now !is Done,
    ensures
        ({
            let end = ask_after(now, call, AskOutcomeView::Failed(cause));
            &&& end == AskStepView::Done(failed_outside(call.id, failing_step(now), cause))
            &&& ask_after(end, call, later) == end
        }),
{
}

/// A question is answered by embedding it, searching, and generating, in this order: when all goes
/// well the prompt is that of the chunks that were found, and the response the answer to it.
pub proof fn law_questions_are_answered_in_order(
    call: AskCallView,
    chunks: Seq<Row>,
    answer: Seq<char>,
)
    ensures
        ({
            let prompt = prompt_for(Asker::Agent, call.question, chunks);
            let done = AskOutcomeView::Succeeded;
            &&& ask_after(AskStepView::Embed, call, done) == AskStepView::Search
            &&& ask_after(AskStepView::Search, call, AskOutcomeView::Found(chunks)) == (
            AskStepView::Connect { prompt })
            &&& ask_after(AskStepView::Connect { prompt }, call, done) == (AskStepView::Send {
                prompt,
            })
            &&& ask_after(AskStepView::Send { prompt }, call, done) == AskStepView::Read
            &&& ask_after(AskStepView::Read, call, AskOutcomeView::Answered(answer))
                == AskStepView::Done(success(call.id, text_content(answer)))
        }),
{
}

/// Nothing is searched before the query was embedded, and the first failure ends a search.
pub proof fn law_the_first_failure_ends_a_search(
    now: SearchStepView,
    call: SearchCallView,
    outcome: SearchOutcomeView,
    ranked: Seq<Row>,
)
    ensures
        search_after(now, call, outcome, ranked) is Search ==> now is Search || (now is Embed
            && outcome is Embedded),
        now !is Done && outcome is Failed ==> (search_after(now, call, outcome, ranked) matches
            SearchStepView::Done(r) && r.id == call.id && r.result is None && r.error is Some),
        now is Done ==> search_after(now, call, outcome, ranked) == now,
{
}

// ----------------------------------------------------------------------------------------------
// What a request is answered
// ----------------------------------------------------------------------------------------------

/// The names of the methods and of the tools are different from each other.
proof fn lemma_names_differ()
    ensures
        "tools/call"@ != "initialize"@,
        "tools/call"@ != "tools/list"@,
        "tools/list"@ != "initialize"@,
        "notifications/initialized"@ != "initialize"@,
        "notifications/initialized"@ != "tools/list"@,
        "notifications/initialized"@ != "tools/call"@,
        "ask"@ != "search"@,
{
    reveal_strlit("tools/call");
    reveal_strlit("initialize");
    reveal_strlit("tools/list");
    reveal_strlit("notifications/initialized");
    reveal_strlit("ask");
    reveal_strlit("search");
    assert("tools/call"@[0] == 't' && "initialize"@[0] == 'i' && "tools/list"@[0] == 't'
        && "notifications/initialized"@[0] == 'n');
    assert("tools/call"@[6] == 'c' && "tools/list"@[6] == 'l');
    assert("ask"@[0] == 'a' && "search"@[0] == 's');
}

/// A search has the limit that its call gives: where the arguments hold a text under "query" and,
/// under "limit", an integer that is not negative and can be a limit, the search is for that text
/// with exactly that limit, however large or small. Only where there is no such integer is the
/// limit ten.
pub proof fn law_a_given_limit_is_kept(
    id: JsonView,
    params: JsonView,
    args: JsonView,
    query: Seq<char>,
    n: u64,
    default_model: Seq<char>,
    version: Seq<char>,
)
    requires
        params.field("name"@) == Some(JsonView::Str("search"@)),
        params.field("arguments"@) == Some(args),
        args.field("query"@) == Some(JsonView::Str(query)),
    ensures
        args.field("limit"@) == Some(JsonView::UInt(n)) && n <= usize::MAX ==> dispatched(
            id,
            "tools/call"@,
            params,
            default_model,
            version,
        ) == (StepView::Search { id, query, limit: n as usize }),
        !(args.field("limit"@) is Some && args.field("limit"@)->0 is UInt) ==> dispatched(
            id,
            "tools/call"@,
            params,
            default_model,
            version,
        ) == (StepView::Search { id, query, limit: 10 }),
        dispatched(id, "tools/call"@, params, default_model, version) matches StepView::Search {
            id: i,
            query: q,
            ..
        } && i == id && q == query,
{
    lemma_names_differ();
}

/// A question goes to the model that its call gives: where the arguments hold a text under
/// "question" and one under "model", exactly that question goes to exactly that model. Only where
/// no text stands under "model" does it go to the default model.
pub proof fn law_a_given_model_is_kept(
    id: JsonView,
    params: JsonView,
    args: JsonView,
    question: Seq<char>,
    model: Seq<char>,
    default_model: Seq<char>,
    version: Seq<char>,
)
    requires
        params.field("name"@) == Some(JsonView::Str("ask"@)),
        params.field("arguments"@) == Some(args),
        args.field("question"@) == Some(JsonView::Str(question)),
    ensures
        args.field("model"@) == Some(JsonView::Str(model)) ==> dispatched(
            id,
            "tools/call"@,
            params,
            default_model,
            version,
        ) == (StepView::Ask { id, question, model }),
        !(args.field("model"@) is Some && args.field("model"@)->0 is Str) ==> dispatched(
            id,
            "tools/call"@,
            params,
            default_model,
            version,
        ) == (StepView::Ask { id, question, model: default_model }),
        dispatched(id, "tools/call"@, params, default_model, version) matches StepView::Ask {
            id: i,
            question: q,
            ..
        } && i == id && q == question,
{
    lemma_names_differ();
}

/// A response with an error names its code and its message, and one with a result is that result.
pub proof fn law_responses_say_what_they_are_given(
    id: JsonView,
    result: JsonView,
    code: int,
    message: Seq<char>,
)
    requires
        i64::MIN <= code < 0,
    ensures
        success(id, result) == (ResponseView {
            jsonrpc: "2.0"@,
            id,
            result: Some(result),
            error: None,
        }),
        failure(id, code, message) == (ResponseView {
            jsonrpc: "2.0"@,
            id,
            result: None,
            error: Some(
                JsonView::Object(
                    seq![
                        ("code"@, JsonView::Int(code as i64)),
                        ("message"@, JsonView::Str(message)),
                    ],
                ),
            ),
        }),
{
}

/// A call is refused exactly where it names no tool that there is, or its tool lacks the one argument
/// that has to be given as a text; the refusal says which.
pub proof fn law_refused_calls_are_told_why(
    id: JsonView,
    params: JsonView,
    name: Seq<char>,
    default_model: Seq<char>,
    version: Seq<char>,
)
    requires
        params.field("name"@) == Some(JsonView::Str(name)),
    ensures
        name == "search"@ && !(params.field("arguments"@) is Some && params.field(
            "arguments"@,
        )->0.field("query"@) is Some && params.field("arguments"@)->0.field("query"@)->0 is Str)
            ==> dispatched(id, "tools/call"@, params, default_model, version) == StepView::Reply(
            failure(id, -32602, "Missing 'query' argument"@),
        ),
        name == "ask"@ && !(params.field("arguments"@) is Some && params.field(
            "arguments"@,
        )->0.field("question"@) is Some && params.field("arguments"@)->0.field("question"@)->0 is Str)
            ==> dispatched(id, "tools/call"@, params, default_model, version) == StepView::Reply(
            failure(id, -32602, "Missing 'question' argument"@),
        ),
        name != "search"@ && name != "ask"@ ==> dispatched(
            id,
            "tools/call"@,
            params,
            default_model,
            version,
        ) == StepView::Reply(failure(id, -32601, "Unknown tool: "@ + name)),
{
    lemma_names_differ();
}

/// A call without the name of a tool is refused as one of a tool without a name.
pub proof fn law_nameless_calls_are_refused(
    id: JsonView,
    params: JsonView,
    default_model: Seq<char>,
    version: Seq<char>,
)
    requires
        !(params.field("name"@) is Some && params.field("name"@)->0 is Str),
    ensures
        dispatched(id, "tools/call"@, params, default_model, version) == StepView::Reply(
            failure(id, -32601, "Unknown tool: "@),
        ),
{
    lemma_names_differ();
    reveal_strlit("");
    reveal_strlit("search");
    reveal_strlit("ask");
    assert(""@ =~= Seq::<char>::empty());
    assert("search"@.len() == 6 && "ask"@.len() == 3);
    assert("Unknown tool: "@ + ""@ =~= "Unknown tool: "@);
}

/// The handshake is answered with the protocol and the version of the server, the tool list with the
/// tools and the notice of readiness with null, whatever the parameters; and any method but these
/// and the call of a tool is refused by its name.
pub proof fn law_methods_are_told_apart(
    id: JsonView,
    method: Seq<char>,
    params: JsonView,
    default_model: Seq<char>,
    version: Seq<char>,
)
    ensures
        dispatched(id, "initialize"@, params, default_model, version) == StepView::Reply(
            success(
                id,
                JsonView::Object(
                    seq![
                        ("protocolVersion"@, JsonView::Str("2024-11-05"@)),
                        (
                            "capabilities"@,
                            JsonView::Object(seq![("tools"@, JsonView::Object(Seq::empty()))]),
                        ),
                        (
                            "serverInfo"@,
                            JsonView::Object(
                                seq![
                                    ("name"@, JsonView::Str("omitfs"@)),
                                    ("version"@, JsonView::Str(version)),
                                ],
                            ),
                        ),
                    ],
                ),
            ),
        ),
        dispatched(id, "tools/list"@, params, default_model, version) == StepView::Reply(
            success(id, tools()),
        ),
        dispatched(id, "notifications/initialized"@, params, default_model, version)
            == StepView::Reply(success(id, JsonView::Null)),
        !(method == "initialize"@ || method == "tools/list"@ || method == "tools/call"@ || method
            == "notifications/initialized"@) ==> dispatched(
            id,
            method,
            params,
            default_model,
            version,
        ) == StepView::Reply(failure(id, -32601, "Method not found: "@ + method)),
{
    lemma_names_differ();
}

/// A search is answered with the name and the path of every result, in the order of the ranking, and
/// a question with the whole answer: each as the text of a single content.
pub proof fn law_answers_are_given_whole(id: JsonView, results: Seq<Row>, answer: Seq<char>)
    ensures
        found_response(id, results) == success(
            id,
            JsonView::Object(
                seq![
                    (
                        "content"@,
                        JsonView::Array(
                            seq![
                                JsonView::Object(
                                    seq![
                                        ("type"@, JsonView::Str("text"@)),
                                        (
                                            "text"@,
                                            JsonView::Str(
                                                pretty_objects(
                                                    "filename"@,
                                                    "path"@,
                                                    results.map_values(|row: Row| (row.0@, row.1@)),
                                                ),
                                            ),
                                        ),
                                    ],
                                ),
                            ],
                        ),
                    ),
                ],
            ),
        ),
        text_content(answer) == JsonView::Object(
            seq![
                (
                    "content"@,
                    JsonView::Array(
                        seq![
                            JsonView::Object(
                                seq![
                                    ("type"@, JsonView::Str("text"@)),
                                    ("text"@, JsonView::Str(answer)),
                                ],
                            ),
                        ],
                    ),
                ),
            ],
        ),
{
    assert(names_and_paths(results) =~= results.map_values(|row: Row| (row.0@, row.1@)));
}

/// A search embeds the query, searches, and is answered with what was found; where a step fails, the
/// answer names it and the whole cause.
pub proof fn law_searches_go_in_order(
    call: SearchCallView,
    found: Seq<Row>,
    ranked: Seq<Row>,
    cause: Seq<char>,
)
    ensures
        search_after(SearchStepView::Embed, call, SearchOutcomeView::Embedded, ranked)
            == SearchStepView::Search,
        search_after(SearchStepView::Search, call, SearchOutcomeView::Found(found), ranked)
            == SearchStepView::Done(found_response(call.id, ranked)),
        search_after(SearchStepView::Embed, call, SearchOutcomeView::Failed(cause), ranked)
            == SearchStepView::Done(failure(call.id, -32000, "Embedding failed: "@ + cause)),
        search_after(SearchStepView::Search, call, SearchOutcomeView::Failed(cause), ranked)
            == SearchStepView::Done(failure(call.id, -32000, "Search failed: "@ + cause)),
{
}

/// Where a step of a question fails, the answer names it and the whole cause.
pub proof fn law_failed_questions_are_told_why(
    call: AskCallView,
    prompt: Seq<char>,
    cause: Seq<char>,
)
    ensures
        ask_after(AskStepView::Embed, call, AskOutcomeView::Failed(cause)) == AskStepView::Done(
            failure(call.id, -32000, "Embedding failed: "@ + cause),
        ),
        ask_after(AskStepView::Search, call, AskOutcomeView::Failed(cause)) == AskStepView::Done(
            failure(call.id, -32000, "Search failed: "@ + cause),
        ),
        ask_after(AskStepView::Connect { prompt }, call, AskOutcomeView::Failed(cause))
            == AskStepView::Done(failure(call.id, -32000, "HTTP client error: "@ + cause)),
        ask_after(AskStepView::Send { prompt }, call, AskOutcomeView::Failed(cause))
            == AskStepView::Done(failure(call.id, -32000, "Ollama unreachable: "@ + cause)),
        ask_after(AskStepView::Read, call, AskOutcomeView::Failed(cause)) == AskStepView::Done(
            failure(call.id, -32000, "Ollama response parse error: "@ + cause),
        ),
{
}

/// What failed outside is told with its whole cause.
pub proof fn law_failures_are_told_in_full(e: String)
    ensures
        ToolFailure::Embedding(e).text() == "Embedding failed: "@ + e@,
        ToolFailure::Search(e).text() == "Search failed: "@ + e@,
        ToolFailure::HttpClient(e).text() == "HTTP client error: "@ + e@,
        ToolFailure::OllamaUnreachable(e).text() == "Ollama unreachable: "@ + e@,
        ToolFailure::OllamaResponse(e).text() == "Ollama response parse error: "@ + e@,
{
}

} // verus!
