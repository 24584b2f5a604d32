use local_mcp::command_output::MIN_INLINE_OUTPUT_LIMIT;
use local_mcp::json::{parse, render, Json};
use local_mcp::json_size::{brief_text, escaped_width};
use local_mcp::requests::{
    call_tool, dispatch, invalid_arguments, message_line, refuse_arguments, respond, take_line,
    Dispatch, LineStep,
};
use local_mcp::tool_args::CommandArgv;
use local_mcp::tools::ToolName;

fn schemas() -> Vec<Json> {
    ToolName::all().iter().map(|_| Json::object()).collect()
}

fn answer(line: &str) -> String {
    match take_line(line) {
        LineStep::Answer(response) => render(&response),
        other => panic!("expected an answer, got {other:?}"),
    }
}

fn handled(line: &str) -> (Json, Json) {
    match take_line(line) {
        LineStep::Handle { id, request } => (id, request),
        other => panic!("expected a request, got {other:?}"),
    }
}

fn dispatched(request: &str) -> Result<Dispatch, String> {
    dispatch(&parse(request).unwrap(), &schemas(), "1.2.3", false)
}

fn answered(request: &str) -> String {
    match dispatched(request).unwrap() {
        Dispatch::Answer(json) => render(&json),
        other => panic!("expected an answer, got {other:?}"),
    }
}

#[test]
fn blank_lines_and_notifications_are_skipped() {
    assert!(matches!(take_line(""), LineStep::Skip));
    assert!(matches!(take_line(" \t\u{3000}"), LineStep::Skip));
    assert!(matches!(
        take_line("{\"jsonrpc\":\"2.0\",\"method\":\"notifications/initialized\"}"),
        LineStep::Skip
    ));
    assert!(matches!(take_line("[1]"), LineStep::Skip));
}

#[test]
fn lines_that_are_no_json_are_refused() {
    let response = parse(&answer("{oops")).unwrap();
    assert_eq!(response.get("id"), Some(&Json::Null));
    let error = response.get("error").unwrap();
    assert_eq!(error.get("code"), Some(&Json::Signed(-32700)));
    assert_eq!(error.get_text("message"), Some("key must be a string at line 1 column 2"));
}

#[test]
fn long_request_ids_are_refused_before_dispatch() {
    let line = format!("{{\"id\":\"{}\",\"method\":\"ping\"}}", "x".repeat(255));
    assert_eq!(
        answer(&line),
        "{\"error\":{\"code\":-32600,\"message\":\"JSON-RPC request id exceeds 256 serialized bytes\"},\"id\":null,\"jsonrpc\":\"2.0\"}"
    );
    let line = format!("{{\"id\":\"{}\",\"method\":\"ping\"}}", "x".repeat(254));
    assert_eq!(handled(&line).0, Json::Text("x".repeat(254)));
}

#[test]
fn requests_are_handled_under_their_id() {
    let (id, request) = handled("{\"id\":7,\"method\":\"ping\"}");
    assert_eq!(id, Json::Unsigned(7));
    assert_eq!(request.get_text("method"), Some("ping"));
    let (id, _) = handled("{\"id\":null,\"method\":\"ping\"}");
    assert_eq!(id, Json::Null);
    let (id, _) = handled("{\"id\":1.5,\"method\":\"ping\"}");
    assert_eq!(render(&id), "1.5");
}

#[test]
fn responses_name_their_request() {
    assert_eq!(
        render(&respond(Json::Unsigned(7), Ok(Json::object()))),
        "{\"id\":7,\"jsonrpc\":\"2.0\",\"result\":{}}"
    );
    assert_eq!(
        render(&respond(Json::text("a"), Err("no".to_owned()))),
        "{\"error\":{\"code\":-32000,\"message\":\"no\"},\"id\":\"a\",\"jsonrpc\":\"2.0\"}"
    );
}

#[test]
fn messages_stay_on_one_line() {
    let message = Json::object().with("text", Json::text("a\nb\u{7}\u{1}\"\\"));
    assert_eq!(
        message_line(&message),
        "{\"text\":\"a\\nb\\u0007\\u0001\\\"\\\\\"}\n"
    );
}

#[test]
fn initialize_introduces_the_server() {
    let shown = parse(&answered("{\"method\":\"initialize\"}")).unwrap();
    assert_eq!(shown.get_text("protocolVersion"), Some("2025-06-18"));
    let server = shown.get("serverInfo").unwrap();
    assert_eq!(server.get_text("name"), Some("local-mcp"));
    assert_eq!(server.get_text("version"), Some("1.2.3"));
    assert_eq!(
        render(shown.get("capabilities").unwrap()),
        "{\"resources\":{\"listChanged\":false,\"subscribe\":false},\"tools\":{\"listChanged\":false}}"
    );
    assert!(shown.get_text("instructions").unwrap().starts_with("Every tool call requires"));
}

#[test]
fn methods_are_routed() {
    assert_eq!(answered("{\"method\":\"ping\"}"), "{}");
    let listed = parse(&answered("{\"method\":\"tools/list\"}")).unwrap();
    match listed.get("tools") {
        Some(Json::Array(items)) => assert_eq!(items.len(), 15),
        _ => panic!("expected tools"),
    }
    assert!(answered("{\"method\":\"resources/list\"}").contains("local_mcp_image_viewer"));
    assert_eq!(
        dispatched("{\"method\":\"resources/read\"}").unwrap_err(),
        "missing resource uri"
    );
    assert_eq!(
        dispatched("{\"method\":\"tools/remove\"}").unwrap_err(),
        "method not found: tools/remove"
    );
    assert_eq!(dispatched("{}").unwrap_err(), "method not found: ");
}

#[test]
fn calls_are_routed_to_tools() {
    let call = "{\"method\":\"tools/call\",\"params\":{\"name\":\"poll_job\",\"arguments\":{\"a\":1}}}";
    match dispatched(call).unwrap() {
        Dispatch::Call(tool, arguments) => {
            assert_eq!(tool, ToolName::PollJob);
            assert_eq!(render(&arguments), "{\"a\":1}");
        }
        other => panic!("expected a call, got {other:?}"),
    }
    let (tool, arguments) =
        call_tool(&Json::object().with("name", Json::text("session_info"))).unwrap();
    assert_eq!(tool, ToolName::SessionInfo);
    assert_eq!(arguments, Json::object());
    assert_eq!(
        dispatched("{\"method\":\"tools/call\"}").unwrap_err(),
        "missing tool name"
    );
    assert_eq!(
        call_tool(&Json::object().with("name", Json::text("nope"))).unwrap_err(),
        "unknown tool: nope"
    );
    assert_eq!(
        invalid_arguments(ToolName::Execute, "missing field"),
        "invalid arguments for execute: missing field"
    );
}

#[test]
fn wrong_arguments_of_commands_are_typed_outcomes() {
    let params = parse(
        "{\"name\":\"execute\",\"arguments\":{\"session_id\":\"demo\",\"command\":[]}}",
    )
    .unwrap();
    let (tool, arguments) = call_tool(&params).unwrap();
    assert_eq!(arguments.get("command"), Some(&Json::list()));
    let reason = CommandArgv::parse(Vec::new()).unwrap_err();
    let answer = refuse_arguments(tool, &reason).unwrap();
    assert_eq!(answer.get("isError"), Some(&Json::Bool(true)));
    let outcome = answer.get("structuredContent").unwrap();
    assert_eq!(outcome.get_text("status"), Some("failed"));
    assert_eq!(outcome.get_text("error_kind"), Some("invalid_arguments"));
    assert_eq!(
        outcome.get_text("message"),
        Some("invalid arguments for execute: command must contain at least one argv entry")
    );
}

#[test]
fn wrong_arguments_of_other_tools_are_errors() {
    for tool in ToolName::all() {
        let answer = refuse_arguments(tool, "missing field");
        assert_eq!(answer.is_ok(), tool.is_command());
        if let Err(message) = answer {
            assert_eq!(message, invalid_arguments(tool, "missing field"));
        }
    }
}

fn wire_bytes(answer: Json) -> usize {
    message_line(&respond(Json::text(&"x".repeat(254)), Ok(answer))).len()
}

#[test]
fn refusals_fit_whatever_the_reason() {
    for reason in ["x".repeat(20_000), "\u{1}".repeat(20_000), "\u{1F600}".repeat(9_000)] {
        let answer = refuse_arguments(ToolName::WithoutSandbox, &reason).unwrap();
        let message = answer.get("structuredContent").unwrap().get_text("message").unwrap();
        assert!(message.starts_with("invalid arguments for without_sandbox: "));
        assert!(message.ends_with("..."));
        assert!(render(&Json::text(message)).len() > 500);
        assert!(wire_bytes(answer) <= MIN_INLINE_OUTPUT_LIMIT);
    }
}

#[test]
fn short_reasons_are_told_whole() {
    let reason = "y".repeat(512 - "invalid arguments for execute: ".len());
    let answer = refuse_arguments(ToolName::Execute, &reason).unwrap();
    let message = answer.get("structuredContent").unwrap().get_text("message").unwrap();
    assert_eq!(message, invalid_arguments(ToolName::Execute, &reason));
    let longer = refuse_arguments(ToolName::Execute, &(reason + "y")).unwrap();
    let message = longer.get("structuredContent").unwrap().get_text("message").unwrap();
    assert_eq!(message.len(), 512);
    assert!(message.ends_with("y..."));
}

#[test]
fn brief_texts_count_what_is_written() {
    assert_eq!(brief_text("abcdef", 6), "abcdef");
    assert_eq!(brief_text("abcdefg", 6), "abc...");
    assert_eq!(brief_text("a\"b", 4), "a\"b");
    assert_eq!(brief_text("\"\"\"\"", 7), "\"\"...");
    assert_eq!(brief_text("\u{1}\u{1}", 10), "\u{1}...");
    assert_eq!(brief_text("\u{1}\u{1}", 12), "\u{1}\u{1}");
    assert_eq!(brief_text("\u{e9}\u{e9}\u{e9}", 5), "\u{e9}...");
    assert_eq!(brief_text("long", 3), "...");
    for character in ['a', '"', '\\', '\n', '\u{8}', '\u{c}', '\u{1f}', '\u{7f}', '\u{e9}', '\u{20ac}'] {
        let written = render(&Json::text(&character.to_string()));
        assert_eq!(escaped_width(character), written.len() - 2);
    }
}
