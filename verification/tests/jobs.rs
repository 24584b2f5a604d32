use local_mcp::answers::render_output;
use local_mcp::command_output::{render_logged_output, MIN_INLINE_OUTPUT_LIMIT};
use local_mcp::command_result::{CommandOutcome, CommandStatus};
use local_mcp::job_id::JobId;
use local_mcp::job_journal::{ExecutionMode, JobRecord, JobState};
use local_mcp::jobs::{
    poll_job, stop_job, stopped_termination, JobStep, RunningJob, TerminalJobs, MAX_TERMINAL_JOBS,
};
use local_mcp::journal_store::{create_running, finish, load, mark_stopped};
use local_mcp::json::{render, Json};
use local_mcp::kept_outcomes::{render_failure, render_outcome, tell, tell_value};
use local_mcp::requests::{message_line, respond};
use local_mcp::sandbox::{LoggedOutput, Output, StopTrigger, StreamCapture, Termination};

const JOB: JobId = JobId { bits: 0x0000_0000_0000_4000_8000_0000_0000_0001 };

fn running(session_id: &str, finished: bool) -> Option<RunningJob> {
    Some(RunningJob { session_id: session_id.to_owned(), finished })
}

fn answer(step: Result<JobStep, String>) -> Json {
    match step.unwrap() {
        JobStep::Answer(json) => json,
        JobStep::Await => panic!("expected an answer"),
    }
}

fn text(step: Result<JobStep, String>) -> String {
    match answer(step).get("content") {
        Some(Json::Array(items)) => items[0].get_text("text").unwrap().to_owned(),
        _ => panic!("expected content"),
    }
}

#[test]
fn renders_forced_completion_cleanup_as_an_inspectable_result() {
    let rendered = render_output(&Output {
        status: 0,
        stdout: String::new(),
        stderr: String::new(),
        termination: Termination::ForcedKill(StopTrigger::Completion),
    })
    .unwrap();
    assert!(rendered.contains("\"termination\":\"forced_kill\""));
    assert!(rendered.contains("\"termination_trigger\":\"completion\""));
}

#[test]
fn failed_commands_render_as_errors() {
    let output = |status: i32, termination: Termination| Output {
        status,
        stdout: "o".to_owned(),
        stderr: "e".to_owned(),
        termination,
    };
    assert_eq!(
        render_output(&output(3, Termination::Exited)).unwrap_err(),
        "{\"exit_code\":3,\"stderr\":\"e\",\"stdout\":\"o\",\"termination\":\"exited\",\"termination_trigger\":null}"
    );
    assert!(render_output(&output(0, Termination::Exited)).is_ok());
    assert!(render_output(&output(143, Termination::Stopped)).is_ok());
}

#[test]
fn running_jobs_are_answered_as_running() {
    let none = TerminalJobs::new();
    assert_eq!(
        text(poll_job(&running("s", false), &none, &None, JOB, "s")),
        "Command is running as job 00000000-0000-4000-8000-000000000001."
    );
    assert!(matches!(
        poll_job(&running("s", true), &none, &None, JOB, "s"),
        Ok(JobStep::Await)
    ));
    assert!(matches!(
        stop_job(&running("s", false), &none, &None, JOB, "s"),
        Ok(JobStep::Await)
    ));
    for step in [
        poll_job(&running("s", false), &none, &None, JOB, "t"),
        stop_job(&running("s", false), &none, &None, JOB, "t"),
    ] {
        assert_eq!(step.unwrap_err(), "job does not belong to this session");
    }
}

#[test]
fn repeated_stop_job_calls_return_the_same_terminal_result() {
    let mut remembered = TerminalJobs::new();
    let result = render_output(&Output {
        status: -1,
        stdout: String::new(),
        stderr: String::new(),
        termination: Termination::Stopped,
    });
    remembered.remember(JOB, "stop-test", &result);
    let first = text(stop_job(&None, &remembered, &None, JOB, "stop-test"));
    let second = text(stop_job(&None, &remembered, &None, JOB, "stop-test"));
    assert_eq!(first, second);
    assert!(first.contains("\"termination\":\"stopped\""));
    assert!(first.contains("\"termination_trigger\":\"stop\""));
    assert_eq!(stopped_termination(&result), "stopped");
}

#[test]
fn remembered_failures_are_answered_as_failures() {
    let mut remembered = TerminalJobs::new();
    remembered.remember(JOB, "s", &Err("broken".to_owned()));
    assert_eq!(poll_job(&None, &remembered, &None, JOB, "s").unwrap_err(), "broken");
    assert_eq!(
        poll_job(&None, &remembered, &None, JOB, "t").unwrap_err(),
        "job does not belong to this session"
    );
    assert_eq!(
        poll_job(&None, &remembered, &None, JobId { bits: 2 }, "s").unwrap_err(),
        "unknown job_id: 00000000-0000-0000-0000-000000000002"
    );
    remembered.remember(JOB, "s", &Ok("fine".to_owned()));
    assert_eq!(text(poll_job(&None, &remembered, &None, JOB, "s")), "fine");
}

#[test]
fn one_job_is_forgotten_where_too_many_are_remembered() {
    let mut remembered = TerminalJobs::new();
    for bits in 0..MAX_TERMINAL_JOBS as u128 + 1 {
        remembered.remember(JobId { bits }, "s", &Ok(format!("job {bits}")));
    }
    let known = (0..MAX_TERMINAL_JOBS as u128 + 1)
        .filter(|bits| poll_job(&None, &remembered, &None, JobId { bits: *bits }, "s").is_ok())
        .count();
    assert_eq!(known, MAX_TERMINAL_JOBS);
    let last = JobId { bits: MAX_TERMINAL_JOBS as u128 };
    assert_eq!(text(poll_job(&None, &remembered, &None, last, "s")), "job 256");
}

#[test]
fn results_survive_a_restart() {
    let nothing = TerminalJobs::new();
    let mut entries = Vec::new();
    let create = |entries: &mut Vec<_>, bits: u128| {
        create_running(
            entries,
            "s",
            JobId { bits },
            "true",
            "/work",
            ExecutionMode::Sandboxed,
            10,
            1,
        )
        .unwrap()
    };
    create(&mut entries, 1);
    create(&mut entries, 2);
    create(&mut entries, 3);
    finish(&mut entries, JobId { bits: 1 }, &Ok("{\"exit_code\":0}".to_owned()), 11).unwrap();
    finish(&mut entries, JobId { bits: 2 }, &Err("bad".to_owned()), 11).unwrap();
    let mut reloaded =
        |bits: u128| -> Option<JobRecord> { Some(load(&mut entries, JobId { bits }, false, 12).unwrap()) };
    let (first, second, third) = (reloaded(1), reloaded(2), reloaded(3));
    let poll = |record: &Option<JobRecord>, bits: u128| {
        poll_job(&None, &nothing, record, JobId { bits }, "s")
    };
    assert_eq!(text(poll(&first, 1)), "{\"exit_code\":0}");
    assert_eq!(poll(&second, 2).unwrap_err(), "bad");
    let lost = answer(poll(&third, 3));
    assert_eq!(lost.get("isError"), Some(&Json::Bool(true)));
    let outcome = lost.get("structuredContent").unwrap();
    assert_eq!(outcome.get_text("status"), Some("stopped"));
    assert_eq!(outcome.get_text("termination"), Some("orphaned"));
    assert_eq!(outcome.get_text("job_id"), Some("00000000-0000-0000-0000-000000000003"));
    assert!(outcome.get_text("message").unwrap().contains("cannot be reattached"));
}

#[test]
fn running_jobs_are_answered_with_data() {
    let running = answer(poll_job(&running("s", false), &TerminalJobs::new(), &None, JOB, "s"));
    assert_eq!(running.get("isError"), Some(&Json::Bool(false)));
    let outcome = running.get("structuredContent").unwrap();
    assert_eq!(outcome.get_text("status"), Some("running"));
    assert_eq!(outcome.get_text("job_id"), Some("00000000-0000-4000-8000-000000000001"));
    assert_eq!(outcome.get("schema_version"), Some(&Json::Unsigned(1)));
}

#[test]
fn failed_commands_are_outcomes_before_and_after_a_restart() {
    let result = render_logged_output(
        JOB,
        LoggedOutput {
            status: 7,
            stdout: StreamCapture { bytes: 0, head: Vec::new(), tail: Vec::new() },
            stderr: StreamCapture { bytes: 3, head: b"bad".to_vec(), tail: b"bad".to_vec() },
            termination: Termination::Exited,
        },
        None,
    );
    assert!(result.is_err());
    let mut remembered = TerminalJobs::new();
    remembered.remember(JOB, "s", &result);
    let first = answer(poll_job(&None, &remembered, &None, JOB, "s"));
    assert_eq!(first.get("isError"), Some(&Json::Bool(true)));
    let outcome = first.get("structuredContent").unwrap();
    assert_eq!(outcome.get_text("status"), Some("failed"));
    assert_eq!(outcome.get_text("error_kind"), Some("process_exit"));
    assert_eq!(outcome.get("exit_code"), Some(&Json::Signed(7)));
    assert_eq!(outcome.get_text("stderr_head"), Some("bad"));

    let mut entries = Vec::new();
    create_running(&mut entries, "s", JOB, "false", "/", ExecutionMode::Sandboxed, 1, 1).unwrap();
    finish(&mut entries, JOB, &result, 2).unwrap();
    let record = load(&mut entries, JOB, false, 3).unwrap();
    assert_eq!(record.state, JobState::Failed);
    assert_eq!(record.exit_code, Some(7));
    let nothing = TerminalJobs::new();
    for step in [
        poll_job(&None, &nothing, &Some(record.clone()), JOB, "s"),
        stop_job(&None, &nothing, &Some(record), JOB, "s"),
    ] {
        assert_eq!(answer(step), first);
    }
}

#[test]
fn stopped_records_are_outcomes() {
    let mut entries = Vec::new();
    create_running(&mut entries, "s", JOB, "sleep", "/", ExecutionMode::Sandboxed, 1, 1).unwrap();
    let record = mark_stopped(&mut entries, JOB, 2).unwrap();
    let stopped = answer(poll_job(&None, &TerminalJobs::new(), &Some(record), JOB, "s"));
    let outcome = stopped.get("structuredContent").unwrap();
    assert_eq!(outcome.get_text("status"), Some("stopped"));
    assert_eq!(outcome.get_text("message"), Some("stopped by request"));
}

#[test]
fn outcomes_are_read_back() {
    let outcomes = [
        CommandOutcome::running(JOB),
        CommandOutcome::spawn_error("no \"such\" file\n"),
        CommandOutcome::cancellation(Some(JOB), "gone"),
        CommandOutcome::orphaned(JOB, "lost"),
        CommandOutcome::approval_denied("no"),
        CommandOutcome::invalid_arguments("wrong"),
        CommandOutcome::internal("broken").with_job_id(JOB),
    ];
    for outcome in outcomes {
        assert_eq!(CommandOutcome::from_json(&outcome.to_json()), Some(outcome.clone()));
        let result = render_outcome(&outcome);
        assert_eq!(result.is_err(), outcome.status == CommandStatus::Failed);
        assert_eq!(tell(&result).unwrap(), outcome.tool_result());
    }
}

#[test]
fn other_values_are_no_outcomes() {
    let outcome = CommandOutcome::internal("broken").to_json();
    for (key, value) in [
        ("schema_version", Json::Unsigned(2)),
        ("ok", Json::Unsigned(1)),
        ("status", Json::text("lost")),
        ("error_kind", Json::text("other")),
        ("exit_code", Json::Unsigned(2_147_483_648)),
        ("stdout_bytes", Json::Signed(-1)),
        ("message", Json::Null),
        ("job_id", Json::Bool(true)),
    ] {
        assert_eq!(CommandOutcome::from_json(&outcome.clone().with(key, value)), None);
    }
    assert_eq!(CommandOutcome::from_json(&Json::Null), None);
    assert!(CommandOutcome::from_json(&outcome.clone().with("job_id", Json::Null)).is_some());
    assert_eq!(tell(&Err("broken".to_owned())).unwrap_err(), "broken");
    assert_eq!(
        tell_value(&Err("kept".to_owned()), &Ok(outcome.clone())).unwrap(),
        CommandOutcome::internal("broken").tool_result()
    );
    assert_eq!(tell_value(&Err("kept".to_owned()), &Ok(Json::Null)).unwrap_err(), "kept");
}

#[test]
fn stopped_jobs_say_how_they_ended() {
    let ended = |word: &str| {
        Ok(render(&Json::object().with("termination", Json::text(word))))
    };
    assert_eq!(stopped_termination(&ended("forced_kill")), "forced_kill");
    assert_eq!(stopped_termination(&Ok("{}".to_owned())), "failed");
    assert_eq!(stopped_termination(&Ok("no json".to_owned())), "failed");
    assert_eq!(stopped_termination(&Err("broken".to_owned())), "failed");
}

fn wire_bytes(answer: Json) -> usize {
    message_line(&respond(Json::text(&"x".repeat(254)), Ok(answer))).len()
}

#[test]
fn failures_without_output_fit_whatever_the_reason() {
    let reasons = ["no such file".to_owned(), "\"".repeat(9_000), "\u{1}\u{20ac}".repeat(9_000)];
    for reason in reasons {
        for outcome in [CommandOutcome::spawn_error(&reason), CommandOutcome::internal(&reason)] {
            let kept = render_failure(outcome, JOB);
            assert!(kept.is_err());
            let answer = tell(&kept).unwrap();
            let told = answer.get("structuredContent").unwrap();
            assert_eq!(told.get_text("job_id"), Some("00000000-0000-4000-8000-000000000001"));
            let message = told.get_text("message").unwrap();
            assert_eq!(message.ends_with("..."), reason.len() > 512);
            assert!(wire_bytes(answer) <= MIN_INLINE_OUTPUT_LIMIT);
        }
    }
    let kept = render_failure(CommandOutcome::spawn_error("no such file"), JOB);
    let whole = CommandOutcome::spawn_error("no such file").with_job_id(JOB);
    assert_eq!(kept, render_outcome(&whole));
}

#[test]
fn recorded_ends_fit_whatever_the_reason() {
    let nothing = TerminalJobs::new();
    let mut entries = Vec::new();
    let mode = ExecutionMode::Sandboxed;
    create_running(&mut entries, "s", JOB, "true", "/work", mode, 10, 1).unwrap();
    for state in [JobState::Orphaned, JobState::Stopped] {
        let mut record = load(&mut entries, JOB, false, 12).unwrap();
        record.state = state;
        record.error = Some("\u{1}".repeat(10_000));
        let recorded = Some(record);
        let told = answer(poll_job(&None, &nothing, &recorded, JOB, "s"));
        let outcome = told.get("structuredContent").unwrap();
        assert!(outcome.get_text("message").unwrap().ends_with("..."));
        assert!(wire_bytes(told) <= MIN_INLINE_OUTPUT_LIMIT);
    }
}
