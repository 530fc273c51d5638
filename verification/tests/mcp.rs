use omitfs::json::Json;
use omitfs::mcp::{
    announced_model, as_line, ask_prompt, err, found_reply, handle, ok, parse_error, proceed_ask, proceed_search,
    request_in, search_reply, text_reply, tool_failed, tools_list, AskCall, AskOutcome, AskStep,
    McpStep, RpcRequest, RpcResponse, SearchCall, SearchOutcome, SearchStep, ToolFailure,
    DEFAULT_LIMIT,
};
use omitfs::reranker::{CorpusStats, DocStats, Row};

fn text(s: &str) -> Json {
    Json::from_text(s)
}

fn request(method: &str, params: Json) -> RpcRequest {
    RpcRequest { id: Json::UInt(7), method: method.into(), params }
}

fn step(method: &str, params: Json) -> McpStep {
    handle(request(method, params), "llama3", "0.4.0")
}

fn reply(method: &str, params: Json) -> RpcResponse {
    match step(method, params) {
        McpStep::Reply(r) => r,
        other => panic!("{other:?}"),
    }
}

/// A value as JSON text, for telling values apart.
fn print(j: &Json) -> String {
    match j {
        Json::Null => "null".into(),
        Json::Bool(b) => b.to_string(),
        Json::UInt(n) => n.to_string(),
        Json::Int(n) => n.to_string(),
        Json::Decimal(s) => s.clone(),
        Json::Str(s) => format!("{s:?}"),
        Json::Array(v) => format!("[{}]", v.iter().map(print).collect::<Vec<_>>().join(",")),
        Json::Object(v) => format!(
            "{{{}}}",
            v.iter().map(|(k, j)| format!("{k:?}:{}", print(j))).collect::<Vec<_>>().join(",")
        ),
    }
}

fn error_of(r: &RpcResponse) -> String {
    assert_eq!(r.jsonrpc, "2.0");
    assert!(r.result.is_none());
    print(r.error.as_ref().unwrap())
}

fn result_of(r: &RpcResponse) -> String {
    assert_eq!(r.jsonrpc, "2.0");
    assert!(r.error.is_none());
    print(r.result.as_ref().unwrap())
}

fn row(name: &str, path: &str, chunk: &str) -> Row {
    (name.into(), path.into(), chunk.into())
}

fn call(name: &str, arguments: Json) -> Json {
    Json::object2("name", text(name), "arguments", arguments)
}

#[test]
fn results_and_errors() {
    let r = ok(Json::from_text("id"), Json::Bool(true));
    assert_eq!(print(&r.id), "\"id\"");
    assert_eq!(result_of(&r), "true");
    let r = err(Json::Null, -32000, "oops");
    assert_eq!(error_of(&r), r#"{"code":-32000,"message":"oops"}"#);
    let r = err(Json::Null, 5, "odd");
    assert_eq!(error_of(&r), r#"{"code":5,"message":"odd"}"#);
}

#[test]
fn lines_in_and_out() {
    assert_eq!(request_in("  {}\r\n"), Some("{}".to_string()));
    assert_eq!(request_in(" \t "), None);
    assert_eq!(as_line("{}"), "{}\n");
}

#[test]
fn what_cannot_be_read_is_answered_without_an_identifier() {
    let r = parse_error("expected value");
    assert_eq!(print(&r.id), "null");
    assert_eq!(error_of(&r), r#"{"code":-32700,"message":"Parse error: expected value"}"#);
}

#[test]
fn the_handshake_names_the_server() {
    let r = reply("initialize", Json::Null);
    assert_eq!(print(&r.id), "7");
    assert_eq!(
        result_of(&r),
        r#"{"protocolVersion":"2024-11-05","capabilities":{"tools":{}},"serverInfo":{"name":"omitfs","version":"0.4.0"}}"#
    );
    assert_eq!(result_of(&reply("notifications/initialized", Json::Null)), "null");
}

#[test]
fn the_tools_are_listed() {
    let listed = result_of(&reply("tools/list", Json::Null));
    assert_eq!(listed, print(&tools_list()));
    assert_eq!(
        listed,
        concat_all(&[
            r#"{"tools":[{"name":"search","#,
            r#""description":"Semantic search over the user's locally-indexed files. Returns matching file names and paths.","#,
            r#""inputSchema":{"type":"object","properties":{"#,
            r#""query":{"type":"string","description":"Natural-language search query"},"#,
            r#""limit":{"type":"integer","description":"Max results (default 10)","default":10}},"#,
            r#""required":["query"]}},"#,
            r#"{"name":"ask","#,
            r#""description":"Ask a question answered from the user's local files using RAG + Ollama.","#,
            r#""inputSchema":{"type":"object","properties":{"#,
            r#""question":{"type":"string","description":"The question to answer"},"#,
            r#""model":{"type":"string","description":"Ollama model to use (default: llama3)","default":"llama3"}},"#,
            r#""required":["question"]}}]}"#,
        ])
    );
}

fn concat_all(parts: &[&str]) -> String {
    parts.concat()
}

#[test]
fn unknown_methods_and_tools_are_refused() {
    assert_eq!(
        error_of(&reply("nope", Json::Null)),
        r#"{"code":-32601,"message":"Method not found: nope"}"#
    );
    assert_eq!(
        error_of(&reply("tools/call", call("fly", Json::object0()))),
        r#"{"code":-32601,"message":"Unknown tool: fly"}"#
    );
    assert_eq!(
        error_of(&reply("tools/call", Json::Null)),
        r#"{"code":-32601,"message":"Unknown tool: "}"#
    );
    assert_eq!(
        error_of(&reply("tools/call", Json::object1("name", Json::UInt(1)))),
        r#"{"code":-32601,"message":"Unknown tool: "}"#
    );
}

#[test]
fn a_search_has_a_query_and_a_limit() {
    let args = Json::object2("query", text("notes"), "limit", Json::UInt(3));
    match step("tools/call", call("search", args)) {
        McpStep::Search(c) => {
            assert_eq!(print(&c.id), "7");
            assert_eq!(c.query, "notes");
            assert_eq!(c.limit, 3);
        }
        other => panic!("{other:?}"),
    }
    for limit in [Json::Null, Json::Int(-1), Json::Decimal("2.5".into()), text("3")] {
        let args = Json::object2("query", text("notes"), "limit", limit);
        match step("tools/call", call("search", args)) {
            McpStep::Search(c) => assert_eq!(c.limit, DEFAULT_LIMIT),
            other => panic!("{other:?}"),
        }
    }
}

#[test]
fn missing_arguments_are_refused() {
    let refused = r#"{"code":-32602,"message":"Missing 'query' argument"}"#;
    assert_eq!(error_of(&reply("tools/call", call("search", Json::object0()))), refused);
    assert_eq!(error_of(&reply("tools/call", Json::object1("name", text("search")))), refused);
    assert_eq!(
        error_of(&reply("tools/call", call("ask", Json::object1("question", Json::Null)))),
        r#"{"code":-32602,"message":"Missing 'question' argument"}"#
    );
}

#[test]
fn a_question_goes_to_its_model_or_the_default() {
    match step("tools/call", call("ask", Json::object1("question", text("why?")))) {
        McpStep::Ask(c) => {
            assert_eq!(c.question, "why?");
            assert_eq!(c.model, "llama3");
        }
        other => panic!("{other:?}"),
    }
    let args = Json::object2("question", text("why?"), "model", text("phi"));
    match step("tools/call", call("ask", args)) {
        McpStep::Ask(c) => assert_eq!(c.model, "phi"),
        other => panic!("{other:?}"),
    }
}

#[test]
fn failures_outside_are_reported() {
    let message = |cause: ToolFailure| error_of(&tool_failed(Json::UInt(1), cause));
    assert_eq!(
        message(ToolFailure::Embedding("e".into())),
        r#"{"code":-32000,"message":"Embedding failed: e"}"#
    );
    assert_eq!(
        message(ToolFailure::Search("e".into())),
        r#"{"code":-32000,"message":"Search failed: e"}"#
    );
    assert_eq!(
        message(ToolFailure::HttpClient("e".into())),
        r#"{"code":-32000,"message":"HTTP client error: e"}"#
    );
    assert_eq!(
        message(ToolFailure::OllamaUnreachable("e".into())),
        r#"{"code":-32000,"message":"Ollama unreachable: e"}"#
    );
    assert_eq!(
        message(ToolFailure::OllamaResponse("e".into())),
        r#"{"code":-32000,"message":"Ollama response parse error: e"}"#
    );
}

#[test]
fn replies_carry_one_text() {
    assert_eq!(
        result_of(&text_reply(Json::UInt(1), "hi")),
        r#"{"content":[{"type":"text","text":"hi"}]}"#
    );
}

#[test]
fn results_are_printed_as_json() {
    let r = found_reply(Json::UInt(1), &vec![row("a \"x\".txt", "/a", "chunk")]);
    let printed = "[\n  {\n    \"filename\": \"a \\\"x\\\".txt\",\n    \"path\": \"/a\"\n  }\n]";
    assert_eq!(
        result_of(&r),
        format!("{{\"content\":[{{\"type\":\"text\",\"text\":{printed:?}}}]}}")
    );
    let none = found_reply(Json::UInt(1), &vec![]);
    assert_eq!(result_of(&none), r#"{"content":[{"type":"text","text":"[]"}]}"#);
}

#[test]
fn search_replies_are_ranked() {
    let found = vec![row("one", "/1", "short text"), row("two", "/2", "a longer text here")];
    let by_length = |_: &CorpusStats, doc: &DocStats| doc.len as u64;
    let c = SearchCall { id: Json::UInt(4), query: "text".into(), limit: 5 };
    let r = search_reply(&c, found.clone(), by_length);
    assert_eq!(print(&r.id), "4");
    let swapped = vec![found[1].clone(), found[0].clone()];
    assert_eq!(result_of(&r), result_of(&found_reply(Json::UInt(4), &swapped)));
}

#[test]
fn the_prompt_for_an_agent() {
    let c = AskCall { id: Json::Null, question: "q".into(), model: "m".into() };
    assert_eq!(
        ask_prompt(&c, &vec![]),
        "You are a helpful assistant with access to the user's local files.\n\
         Use ONLY the provided context. If the answer is not present, say so.\n\n\
         CONTEXT:\n\n\nQUESTION: q\n\nANSWER:"
    );
}

#[test]
fn fields_of_objects() {
    let j = Json::object2("a", Json::UInt(1), "b", text("t"));
    assert_eq!(j.get_u64("a"), Some(1));
    assert_eq!(j.get_str("b"), Some("t"));
    assert_eq!(j.get_str("a"), None);
    assert!(j.get("c").is_none());
    assert!(Json::Null.get("a").is_none());
}

#[test]
fn the_announced_limit_is_applied() {
    assert_eq!(DEFAULT_LIMIT, 10);
    match step("tools/call", call("search", Json::object1("query", text("notes")))) {
        McpStep::Search(c) => assert_eq!(c.limit, 10),
        other => panic!("{other:?}"),
    }
    assert!(print(&tools_list()).contains(r#""default":10"#));
}

#[test]
fn the_announced_model_is_applied() {
    assert_eq!(announced_model(), "llama3");
    let params = call("ask", Json::object1("question", text("why?")));
    match handle(request("tools/call", params), announced_model(), "0.4.0") {
        McpStep::Ask(c) => assert_eq!(c.model, announced_model()),
        other => panic!("{other:?}"),
    }
    let announced = format!("\"default\":{:?}", announced_model());
    assert!(print(&tools_list()).contains(&announced));
}

#[test]
fn copies_are_the_same() {
    let j = Json::object3(
        "a",
        Json::array2(Json::Null, Json::Bool(true)),
        "b",
        Json::object2("c", Json::Int(-3), "d", Json::Decimal("2.5".into())),
        "e",
        Json::array1(Json::object0()),
    );
    assert_eq!(print(&j.copy()), print(&j));
    assert_eq!(print(&j), r#"{"a":[null,true],"b":{"c":-3,"d":2.5},"e":[{}]}"#);
}

fn question() -> AskCall {
    AskCall { id: Json::UInt(9), question: "why?".into(), model: "m".into() }
}

/// The response that ends a question.
fn ended(step: AskStep) -> RpcResponse {
    match step {
        AskStep::Done(r) => r,
        other => panic!("{other:?}"),
    }
}

#[test]
fn questions_are_answered_in_order() {
    let chunks = vec![row("n", "/n", "c")];
    let prompt = ask_prompt(&question(), &chunks);
    let now = proceed_ask(AskStep::Embed, &question(), AskOutcome::Succeeded);
    assert!(matches!(now, AskStep::Search));
    let now = proceed_ask(now, &question(), AskOutcome::Found(chunks));
    match &now {
        AskStep::Connect { prompt: p } => assert_eq!(p, &prompt),
        other => panic!("{other:?}"),
    }
    let now = proceed_ask(now, &question(), AskOutcome::Succeeded);
    match &now {
        AskStep::Send { prompt: p } => assert_eq!(p, &prompt),
        other => panic!("{other:?}"),
    }
    let now = proceed_ask(now, &question(), AskOutcome::Succeeded);
    assert!(matches!(now, AskStep::Read));
    let r = ended(proceed_ask(now, &question(), AskOutcome::Answered("so".into())));
    assert_eq!(print(&r.id), "9");
    assert_eq!(result_of(&r), r#"{"content":[{"type":"text","text":"so"}]}"#);
}

#[test]
fn the_first_failure_ends_a_question() {
    let steps = [
        (AskStep::Embed, "Embedding failed: e"),
        (AskStep::Search, "Search failed: e"),
        (AskStep::Connect { prompt: "p".into() }, "HTTP client error: e"),
        (AskStep::Send { prompt: "p".into() }, "Ollama unreachable: e"),
        (AskStep::Read, "Ollama response parse error: e"),
    ];
    for (step, message) in steps {
        let now = proceed_ask(step, &question(), AskOutcome::Failed("e".into()));
        let r = ended(proceed_ask(now, &question(), AskOutcome::Answered("late".into())));
        assert_eq!(print(&r.id), "9");
        assert_eq!(error_of(&r), format!("{{\"code\":-32000,\"message\":{message:?}}}"));
    }
}

#[test]
fn what_is_no_outcome_of_a_step_changes_nothing() {
    let now = proceed_ask(AskStep::Search, &question(), AskOutcome::Succeeded);
    assert!(matches!(now, AskStep::Search));
    let now = proceed_ask(AskStep::Read, &question(), AskOutcome::Found(vec![]));
    assert!(matches!(now, AskStep::Read));
}

#[test]
fn a_search_goes_step_by_step() {
    let by_length = |_: &CorpusStats, doc: &DocStats| doc.len as u64;
    let c = SearchCall { id: Json::UInt(4), query: "text".into(), limit: 5 };
    let found = vec![row("one", "/1", "short text"), row("two", "/2", "a longer text here")];
    let now = proceed_search(SearchStep::Embed, &c, SearchOutcome::Embedded, by_length);
    assert!(matches!(now, SearchStep::Search));
    match proceed_search(now, &c, SearchOutcome::Found(found.clone()), by_length) {
        SearchStep::Done(r) => {
            assert_eq!(result_of(&r), result_of(&search_reply(&c, found, by_length)));
        }
        other => panic!("{other:?}"),
    }
    for (step, message) in [
        (SearchStep::Embed, r#"{"code":-32000,"message":"Embedding failed: e"}"#),
        (SearchStep::Search, r#"{"code":-32000,"message":"Search failed: e"}"#),
    ] {
        match proceed_search(step, &c, SearchOutcome::Failed("e".into()), by_length) {
            SearchStep::Done(r) => assert_eq!(error_of(&r), message),
            other => panic!("{other:?}"),
        }
    }
}
