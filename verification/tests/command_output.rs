use local_mcp::command_answers::bounded_outcome;
use local_mcp::command_output::{
    bounded_result_value, capture_preview_limit, inline_output_limit, jsonrpc_id_within_budget,
    max_jsonrpc_response_bytes, render_logged_output, resource_uri, split_preview_budget,
    stream_preview, DEFAULT_INLINE_OUTPUT_LIMIT, MAX_INLINE_OUTPUT_LIMIT,
    MAX_JSONRPC_ID_SERIALIZED_BYTES, MIN_INLINE_OUTPUT_LIMIT,
};
use local_mcp::job_id::JobId;
use local_mcp::json::{parse, render, Json};
use local_mcp::requests::{message_line, respond};
use local_mcp::sandbox::{LoggedOutput, StopTrigger, StreamCapture, Termination};

const JOB: JobId = JobId { bits: 0x0000_0000_0000_4000_8000_0000_0000_0001 };

fn capture(bytes: &[u8], limit: usize) -> StreamCapture {
    StreamCapture {
        bytes: bytes.len() as u64,
        head: bytes[..bytes.len().min(limit)].to_vec(),
        tail: bytes[bytes.len().saturating_sub(limit)..].to_vec(),
    }
}

#[test]
fn large_results_are_utf8_safe_and_fit_final_jsonrpc_envelopes() {
    let stdout = "日本語🙂\\\"".repeat(10_000).into_bytes();
    let stderr = b"important failure\\n\\\\quoted\\n".repeat(2_000);
    let value = bounded_result_value(
        JOB,
        7,
        Termination::Exited,
        &capture(&stdout, 4096),
        &capture(&stderr, 4096),
        4096,
    );
    let text = render(&value);

    assert!(
        max_jsonrpc_response_bytes(&text) <= 4096,
        "final response was {} bytes",
        max_jsonrpc_response_bytes(&text)
    );
    let value = parse(&text).unwrap();
    assert_eq!(value.get("stdout_bytes"), Some(&Json::Unsigned(stdout.len() as u64)));
    assert_eq!(value.get("stderr_bytes"), Some(&Json::Unsigned(stderr.len() as u64)));
    assert_eq!(value.get("exit_code"), Some(&Json::Unsigned(7)));
    assert_eq!(value.get("stdout_truncated"), Some(&Json::Bool(true)));
    assert_eq!(value.get("stderr_truncated"), Some(&Json::Bool(true)));
    assert!(value
        .get_text("stderr_head")
        .unwrap()
        .contains("important failure"));
}

#[test]
fn minimum_limit_bounds_both_success_and_error_jsonrpc_responses() {
    let stdout = b"\\\"\\\\\\n".repeat(100_000);
    let value = bounded_result_value(
        JOB,
        1,
        Termination::Exited,
        &capture(&stdout, MIN_INLINE_OUTPUT_LIMIT),
        &capture(&[], MIN_INLINE_OUTPUT_LIMIT),
        MIN_INLINE_OUTPUT_LIMIT,
    );
    let text = render(&value);
    assert!(max_jsonrpc_response_bytes(&text) <= MIN_INLINE_OUTPUT_LIMIT);
}

#[test]
fn jsonrpc_request_ids_are_bounded_before_tool_dispatch() {
    assert!(jsonrpc_id_within_budget(&Json::Unsigned(1)));
    assert!(jsonrpc_id_within_budget(&Json::text("request-1")));
    assert!(!jsonrpc_id_within_budget(&Json::Text(
        "x".repeat(MAX_JSONRPC_ID_SERIALIZED_BYTES)
    )));
}

#[test]
fn request_ids_may_take_all_of_their_budget() {
    assert!(jsonrpc_id_within_budget(&Json::Text("x".repeat(254))));
    assert!(!jsonrpc_id_within_budget(&Json::Text("x".repeat(255))));
    assert!(!jsonrpc_id_within_budget(&Json::Text("\"".repeat(128))));
}

#[test]
fn limits_are_read_from_the_setting_and_clamped() {
    assert_eq!(inline_output_limit(None), DEFAULT_INLINE_OUTPUT_LIMIT);
    assert_eq!(inline_output_limit(Some("many")), DEFAULT_INLINE_OUTPUT_LIMIT);
    assert_eq!(inline_output_limit(Some("5000")), 5000);
    assert_eq!(inline_output_limit(Some("+5000")), 5000);
    assert_eq!(inline_output_limit(Some("1")), MIN_INLINE_OUTPUT_LIMIT);
    assert_eq!(inline_output_limit(Some("99999999")), MAX_INLINE_OUTPUT_LIMIT);
    assert_eq!(
        inline_output_limit(Some("99999999999999999999999999")),
        DEFAULT_INLINE_OUTPUT_LIMIT
    );
    assert_eq!(capture_preview_limit(Some("5000")), 5000);
}

#[test]
fn streams_have_addresses() {
    assert_eq!(
        resource_uri(JOB, "stdout"),
        "local-mcp://jobs/00000000-0000-4000-8000-000000000001/stdout"
    );
}

#[test]
fn previews_show_all_of_a_short_stream() {
    let shown = stream_preview(&capture(b"hello", 100), 100);
    assert_eq!(shown.bytes, 5);
    assert!(!shown.truncated);
    assert_eq!(shown.head, "hello");
    assert_eq!(shown.tail, "");
}

#[test]
fn previews_show_both_ends_of_a_long_stream() {
    let shown = stream_preview(&capture(b"0123456789abcdefghij", 100), 10);
    assert_eq!(shown.bytes, 20);
    assert!(shown.truncated);
    assert_eq!(shown.head, "01234");
    assert_eq!(shown.tail, "fghij");
}

#[test]
fn previews_replace_what_is_no_text() {
    let shown = stream_preview(&capture(b"a\xffb", 100), 100);
    assert_eq!(shown.head, "a\u{fffd}b");
}

#[test]
fn budgets_go_to_the_stream_that_has_something() {
    let some = capture(b"x", 10);
    let none = capture(b"", 10);
    assert_eq!(split_preview_budget(100, &some, &none), (100, 0));
    assert_eq!(split_preview_budget(100, &none, &some), (0, 100));
}

#[test]
fn failed_commands_are_rendered_as_errors() {
    let output = |status: i32, termination: Termination| LoggedOutput {
        status,
        stdout: capture(b"out", 100),
        stderr: capture(b"", 100),
        termination,
    };
    let fine = render_logged_output(JOB, output(0, Termination::Exited), None).unwrap();
    let value = parse(&fine).unwrap();
    assert_eq!(value.get_text("stdout_head"), Some("out"));
    assert_eq!(value.get_text("termination"), Some("exited"));
    assert_eq!(value.get("termination_trigger"), Some(&Json::Null));
    assert!(render_logged_output(JOB, output(2, Termination::Exited), None).is_err());
    let killed =
        render_logged_output(JOB, output(-1, Termination::ForcedKill(StopTrigger::Requested)), None)
            .unwrap();
    let value = parse(&killed).unwrap();
    assert_eq!(value.get_text("termination"), Some("forced_kill"));
    assert_eq!(value.get_text("termination_trigger"), Some("stop"));
}

#[test]
fn complete_answers_fit_into_the_limit() {
    let stdout = "日本語🙂\\\"".repeat(10_000).into_bytes();
    let stderr = b"\\\"\\\\\\n".repeat(10_000);
    for limit in [2048, 4096, 16384, 100_000] {
        let output = LoggedOutput {
            status: 7,
            stdout: capture(&stdout, limit),
            stderr: capture(&stderr, limit),
            termination: Termination::Exited,
        };
        let outcome = bounded_outcome(JOB, &output, limit);
        let response = respond(Json::text(&"i".repeat(254)), Ok(outcome.tool_result()));
        let line = message_line(&response);
        assert!(line.len() <= limit, "{} bytes", line.len());
        assert!(outcome.stdout_truncated && outcome.stderr_truncated);
        assert_eq!(outcome.stdout_bytes, stdout.len() as u64);
        assert_eq!(outcome.exit_code, Some(7));
        assert!(!outcome.stdout_head.is_empty() && !outcome.stderr_tail.is_empty());
    }
}
