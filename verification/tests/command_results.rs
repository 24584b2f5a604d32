use local_mcp::command_result::{
    classify_termination, output_schema, BoundedCommandOutput, CommandErrorKind, CommandOutcome,
    CommandStatus,
};
use local_mcp::job_id::JobId;
use local_mcp::json::{render, Json};

const JOB: JobId = JobId { bits: 0x0000_0000_0000_4000_8000_0000_0000_0001 };

fn bounded(exit_code: i32, termination: &str) -> CommandOutcome {
    CommandOutcome::from_bounded_output(BoundedCommandOutput {
        job_id: JOB,
        exit_code,
        termination: termination.to_owned(),
        termination_trigger: if termination == "forced_kill" {
            Some("completion".to_owned())
        } else {
            None
        },
        stdout_bytes: 7,
        stderr_bytes: 0,
        stdout_truncated: false,
        stderr_truncated: false,
        stdout_head: "output\n".to_owned(),
        stdout_tail: String::new(),
        stderr_head: String::new(),
        stderr_tail: String::new(),
        stdout_resource: "local-mcp://jobs/00000000-0000-4000-8000-000000000001/stdout".to_owned(),
        stderr_resource: "local-mcp://jobs/00000000-0000-4000-8000-000000000001/stderr".to_owned(),
        read_tool: "read_job_log".to_owned(),
    })
}

#[test]
fn text_fallback_is_human_readable_and_preserves_bounded_output() {
    let outcome = bounded(7, "exited");
    let result = outcome.tool_result();
    let text = match result.get("content") {
        Some(Json::Array(items)) => items[0].get_text("text").unwrap().to_owned(),
        _ => panic!("expected content"),
    };
    assert!(text.contains("exited with status 7"));
    assert!(text.contains("stdout:\noutput"));
    assert_eq!(
        result.get("structuredContent").unwrap().get_text("error_kind"),
        Some("process_exit")
    );
    assert_eq!(result.get("isError"), Some(&Json::Bool(true)));
}

#[test]
fn outcomes_tell_success_from_failure() {
    let fine = bounded(0, "exited");
    assert!(fine.ok);
    assert_eq!(fine.status, CommandStatus::Completed);
    assert_eq!(fine.error_kind, None);
    assert_eq!(fine.exit_code, Some(0));
    let failed = bounded(2, "exited");
    assert!(!failed.ok);
    assert_eq!(failed.status, CommandStatus::Failed);
    assert_eq!(failed.error_kind, Some(CommandErrorKind::ProcessExit));
}

#[test]
fn outcomes_without_output_say_why() {
    let spawn = CommandOutcome::spawn_error("executable not found");
    assert_eq!(spawn.error_kind, Some(CommandErrorKind::SpawnError));
    let denied = CommandOutcome::approval_denied("Approval was denied; command was not started.");
    assert_eq!(denied.error_kind, Some(CommandErrorKind::ApprovalDenied));
    let invalid = CommandOutcome::invalid_arguments("command must contain at least one argv entry");
    assert_eq!(invalid.error_kind, Some(CommandErrorKind::InvalidArguments));
    let internal = CommandOutcome::internal("command task failed unexpectedly");
    assert_eq!(internal.error_kind, Some(CommandErrorKind::Internal));
    let cancelled = CommandOutcome::cancellation(Some(JOB), "Command was stopped.");
    assert_eq!(cancelled.error_kind, Some(CommandErrorKind::Cancellation));
    assert_eq!(cancelled.status, CommandStatus::Stopped);
    assert_eq!(
        cancelled.job_id.as_deref(),
        Some("00000000-0000-4000-8000-000000000001")
    );
    let lost = CommandOutcome::orphaned(JOB, "The command cannot be reattached.");
    assert_eq!(lost.message, "The command cannot be reattached.");
    let running = CommandOutcome::running(JOB);
    assert_eq!(running.status, CommandStatus::Running);
}

#[test]
fn terminations_are_classified() {
    let (ok, status, kind, _, _) = classify_termination(0, "exited", None);
    assert!(ok);
    assert_eq!((status, kind), (CommandStatus::Completed, None));
    let (ok, status, kind, _, _) = classify_termination(-1, "stopped", Some("stop"));
    assert!(!ok);
    assert_eq!(
        (status, kind),
        (CommandStatus::Stopped, Some(CommandErrorKind::Cancellation))
    );
}

#[test]
fn schema_lists_every_property_of_an_outcome() {
    let schema = output_schema();
    let properties = schema.get("properties").unwrap();
    match (properties, CommandOutcome::running(JOB).to_json()) {
        (Json::Object(described), Json::Object(present)) => {
            assert_eq!(described.len(), present.len());
            for (key, _) in &present {
                assert!(properties.get(key).is_some(), "missing property {key}");
            }
        }
        _ => panic!("expected objects"),
    }
    assert_eq!(schema.get_text("type"), Some("object"));
    assert!(render(&schema).contains("\"additionalProperties\":false"));
}

#[test]
fn summaries_are_bounded() {
    let outcome = bounded(7, "exited");
    let summary = outcome.activity_summary(16).unwrap();
    assert!(summary.len() <= 16);
    assert_eq!(
        outcome.with_job_id(JobId { bits: 2 }).job_id.as_deref(),
        Some("00000000-0000-0000-0000-000000000002")
    );
}
