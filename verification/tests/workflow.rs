use local_mcp::paths::writable_roots;
use local_mcp::stored_records::{check_step_to_store, check_stored_step};
use local_mcp::workflow::{
    same_invocation, validate_args, validate_identifier, validate_unique_paths, StepRecord,
    StepStatus, WorkflowStepArgs, WorkflowStepResult,
};
use local_mcp::workflow_journal::{
    check_platform, check_step, finish_step, missing_files, recover_step, reserve, Reservation, StepEntry,
    StepOutput,
};

const NOW: u64 = 1_800_000_000_000;
const RUNNER: &str = "this-runner";

fn args(session_id: &str, step_id: &str, command: &[&str]) -> WorkflowStepArgs {
    WorkflowStepArgs {
        session_id: session_id.to_owned(),
        step_id: step_id.to_owned(),
        depends_on: Vec::new(),
        idempotency_key: format!("{step_id}-v1"),
        required_files: Vec::new(),
        expected_outputs: Vec::new(),
        command: command.iter().map(|part| (*part).to_owned()).collect(),
        continue_on_error: false,
    }
}

fn output(status: i32) -> Result<StepOutput, String> {
    Ok(StepOutput { status, stdout: String::new(), stderr: String::new() })
}

/// Runs a step whose command ends so, with the files that are there at its start and at its end.
fn run(
    entries: &mut Vec<StepEntry>,
    args: &WorkflowStepArgs,
    before: &[&str],
    ended: Result<StepOutput, String>,
    after: &[&str],
    runs: &mut usize,
) -> Result<WorkflowStepResult, String> {
    check_step(args, &args.session_id)?;
    let present = |paths: &[String], files: &[&str]| {
        paths.iter().map(|path| files.contains(&path.as_str())).collect::<Vec<bool>>()
    };
    let missing = missing_files(&args.required_files, &present(&args.required_files, before));
    match reserve(entries, args, &args.session_id, RUNNER, missing, NOW, NOW + 1)? {
        Reservation::Reused(record) => Ok(record.result(true)),
        Reservation::Blocked(record) => Ok(record.result(false)),
        Reservation::Conflict(result) => Ok(result),
        Reservation::Launch(_, record) => {
            *runs += 1;
            let missing = match &ended {
                Ok(output) if output.status == 0 => {
                    missing_files(&args.expected_outputs, &present(&args.expected_outputs, after))
                }
                _ => Vec::new(),
            };
            let record = finish_step(entries, &record, ended, missing, RUNNER, NOW + 2)?;
            Ok(record.result(false))
        }
    }
}

fn statuses(result: &WorkflowStepResult) -> Vec<StepStatus> {
    result.history.iter().map(|transition| transition.status).collect()
}

#[test]
fn missing_dependency_blocks_before_process_spawn() {
    let mut entries = Vec::new();
    let mut runs = 0;
    let mut request = args("workflow", "dependent", &["sh", "-c", "exit 0"]);
    request.depends_on = vec!["missing-step".to_owned()];

    let result = run(&mut entries, &request, &[], output(0), &[], &mut runs).unwrap();
    assert_eq!(result.status, StepStatus::Blocked);
    assert_eq!(runs, 0);
    assert_eq!(result.history[0].status, StepStatus::Pending);
    assert_eq!(result.history[1].status, StepStatus::Blocked);
    assert_eq!(result.blocked_by, vec!["missing-step: missing"]);
    assert_eq!(
        result.error.as_deref(),
        Some("unsatisfied dependencies: missing-step: missing")
    );
}

#[test]
fn failed_prerequisite_blocks_every_dependent_side_effect() {
    let mut entries = Vec::new();
    let mut runs = 0;
    let prerequisite = args("workflow", "focused-tests", &["sh", "-c", "exit 7"]);
    let failed = run(&mut entries, &prerequisite, &[], output(7), &[], &mut runs).unwrap();
    assert_eq!(failed.status, StepStatus::Failed);
    assert_eq!(failed.error.as_deref(), Some("command exited with status 7"));

    for index in 0..3 {
        let mut request = args("workflow", &format!("dependent-{index}"), &["true"]);
        request.depends_on = vec!["focused-tests".to_owned()];
        let result = run(&mut entries, &request, &[], output(0), &[], &mut runs).unwrap();
        assert_eq!(result.status, StepStatus::Blocked);
        assert_eq!(result.blocked_by, vec!["focused-tests: failed"]);
    }
    assert_eq!(runs, 1);
}

#[test]
fn missing_required_file_blocks_before_process_spawn() {
    let mut entries = Vec::new();
    let mut runs = 0;
    let mut request = args("workflow", "required-gate", &["true"]);
    request.required_files = vec!["missing.ok".to_owned()];

    let result = run(&mut entries, &request, &[], output(0), &[], &mut runs).unwrap();
    assert_eq!(result.status, StepStatus::Blocked);
    assert_eq!(result.missing_required_files, vec!["missing.ok"]);
    assert_eq!(result.error.as_deref(), Some("missing required files: missing.ok"));
    assert_eq!(runs, 0);
}

#[test]
fn successful_process_without_expected_output_is_failed() {
    let mut entries = Vec::new();
    let mut runs = 0;
    let mut request = args("workflow", "missing-output", &["true"]);
    request.expected_outputs = vec!["expected.json".to_owned()];

    let result = run(&mut entries, &request, &[], output(0), &[], &mut runs).unwrap();
    assert_eq!(result.status, StepStatus::Failed);
    assert_eq!(result.exit_code, Some(0));
    assert_eq!(result.missing_expected_outputs, vec!["expected.json"]);
}

#[test]
fn idempotency_reuses_prior_result_and_conflicts_deterministically() {
    let mut entries = Vec::new();
    let mut runs = 0;
    let request = args("workflow", "idempotent", &["touch", "count"]);

    let first = run(&mut entries, &request, &[], output(0), &[], &mut runs).unwrap();
    let second = run(&mut entries, &request, &[], output(0), &[], &mut runs).unwrap();
    assert_eq!(first.status, StepStatus::Succeeded);
    assert_eq!(second.status, StepStatus::Succeeded);
    assert!(second.reused);
    assert_eq!(runs, 1);

    let conflict = args("workflow", "idempotent", &["touch", "conflict"]);
    let first_conflict = run(&mut entries, &conflict, &[], output(0), &[], &mut runs).unwrap();
    let second_conflict = run(&mut entries, &conflict, &[], output(0), &[], &mut runs).unwrap();
    assert_eq!(format!("{first_conflict:?}"), format!("{second_conflict:?}"));
    assert_eq!(first_conflict.status, StepStatus::Blocked);
    assert_eq!(
        first_conflict.error.as_deref(),
        Some(
            "idempotency key \"idempotent-v1\" already belongs to step \"idempotent\" with a different invocation"
        )
    );
    assert_eq!(runs, 1);

    let mut other_key = args("workflow", "idempotent", &["touch", "count"]);
    other_key.idempotency_key = "idempotent-v2".to_owned();
    let refused = run(&mut entries, &other_key, &[], output(0), &[], &mut runs).unwrap();
    assert_eq!(
        refused.error.as_deref(),
        Some("step_id \"idempotent\" already exists with idempotency key \"idempotent-v1\"")
    );
}

#[test]
fn successful_dependency_and_required_gate_allow_execution() {
    let mut entries = Vec::new();
    let mut runs = 0;
    let mut prerequisite = args("workflow", "focused-tests", &["true"]);
    prerequisite.expected_outputs = vec!["focused.ok".to_owned()];
    assert_eq!(
        run(&mut entries, &prerequisite, &[], output(0), &["focused.ok"], &mut runs)
            .unwrap()
            .status,
        StepStatus::Succeeded
    );

    let mut dependent = args("workflow", "acceptance", &["true"]);
    dependent.depends_on = vec!["focused-tests".to_owned()];
    dependent.required_files = vec!["focused.ok".to_owned()];
    dependent.expected_outputs = vec!["accepted".to_owned()];
    let result =
        run(&mut entries, &dependent, &["focused.ok"], output(0), &["accepted"], &mut runs)
            .unwrap();
    assert_eq!(result.status, StepStatus::Succeeded);
    assert_eq!(runs, 2);
    assert_eq!(
        statuses(&result),
        vec![StepStatus::Pending, StepStatus::Running, StepStatus::Succeeded]
    );
}

#[test]
fn stale_incomplete_record_is_failed_closed_after_runner_restart() {
    let mut entries = Vec::new();
    let request = args("workflow", "stale-step", &["true"]);
    let launched = reserve(&mut entries, &request, "workflow", RUNNER, Vec::new(), NOW, NOW + 1);
    let Ok(Reservation::Launch(_, mut record)) = launched else {
        panic!("expected launch reservation");
    };
    record.runner_instance_id = "previous-runner".to_owned();
    let recovered = recover_step(&record, RUNNER, NOW + 9);
    assert_eq!(recovered.status, StepStatus::Failed);
    assert!(recovered.error.as_deref().unwrap().contains("runner restarted"));
    assert_eq!(recovered.finished_at_ms, Some(NOW + 9));
}

#[test]
fn journal_is_session_scoped() {
    let mut first = Vec::new();
    let mut second = Vec::new();
    let mut runs = 0;
    let request = args("first", "shared-name", &["true"]);
    assert_eq!(
        run(&mut first, &request, &[], output(0), &[], &mut runs).unwrap().status,
        StepStatus::Succeeded
    );

    let mut second_request = args("second", "dependent", &["true"]);
    second_request.depends_on = vec!["shared-name".to_owned()];
    let result = run(&mut second, &second_request, &[], output(0), &[], &mut runs).unwrap();
    assert_eq!(result.status, StepStatus::Blocked);
    assert!(result.blocked_by[0].contains("missing"));
}

#[test]
fn explicit_continue_on_error_allows_a_failed_gate() {
    let mut entries = Vec::new();
    let mut runs = 0;
    let mut prerequisite = args("workflow", "optional-check", &["false"]);
    prerequisite.continue_on_error = true;
    assert_eq!(
        run(&mut entries, &prerequisite, &[], output(7), &[], &mut runs).unwrap().status,
        StepStatus::Failed
    );

    let mut dependent = args("workflow", "continued-step", &["true"]);
    dependent.depends_on = vec!["optional-check".to_owned()];
    assert_eq!(
        run(&mut entries, &dependent, &[], output(0), &[], &mut runs).unwrap().status,
        StepStatus::Succeeded
    );
    assert_eq!(runs, 2);
}

#[test]
fn commands_that_cannot_be_executed_fail_their_step() {
    let mut entries = Vec::new();
    let mut runs = 0;
    let request = args("workflow", "broken", &["nothing"]);
    let ended = Err("no such file".to_owned());
    let result = run(&mut entries, &request, &[], ended, &[], &mut runs).unwrap();
    assert_eq!(result.status, StepStatus::Failed);
    assert_eq!(
        result.error.as_deref(),
        Some("command could not be executed: no such file")
    );
    assert_eq!(result.exit_code, None);
}

#[test]
fn ends_that_come_too_late_are_refused() {
    let mut entries = Vec::new();
    let asked = args("late", "step", &["true"]);
    let reserved =
        reserve(&mut entries, &asked, "late", RUNNER, Vec::new(), NOW, NOW + 1).unwrap();
    let Reservation::Launch(_, launched) = reserved else {
        panic!("the step is to run");
    };

    let mut gone = Vec::new();
    let refused = finish_step(&mut gone, &launched, output(0), Vec::new(), RUNNER, NOW + 2);
    assert_eq!(refused.unwrap_err(), "workflow step \"step\" disappeared");

    let mut other = launched.clone();
    other.idempotency_key = "another".to_owned();
    let refused = finish_step(&mut entries, &other, output(0), Vec::new(), RUNNER, NOW + 2);
    assert_eq!(
        refused.unwrap_err(),
        "workflow step journal changed while the command was running"
    );
    assert_eq!(entries[0].record.as_ref().unwrap().status, StepStatus::Running);

    let refused = finish_step(&mut entries, &launched, output(0), Vec::new(), "next", NOW + 2);
    assert_eq!(refused.unwrap_err(), "workflow step is no longer running");
    let stored = entries[0].record.as_ref().unwrap();
    assert_eq!(stored.status, StepStatus::Failed);
    assert_eq!(stored.finished_at_ms, Some(NOW + 2));

    entries[0].record = Err("cannot be read".to_owned());
    let refused = finish_step(&mut entries, &launched, output(0), Vec::new(), RUNNER, NOW + 3);
    assert_eq!(refused.unwrap_err(), "cannot be read");
}

#[test]
fn steps_belong_to_the_session_that_is_loaded() {
    assert_eq!(
        check_step(&args("mine", "a", &["true"]), "yours").unwrap_err(),
        "session_id does not match the loaded session"
    );
}

#[test]
fn arguments_are_validated() {
    let refused = |change: &dyn Fn(&mut WorkflowStepArgs)| {
        let mut request = args("s", "step", &["true"]);
        change(&mut request);
        validate_args(&request).unwrap_err()
    };
    assert!(validate_args(&args("s", "step", &["true"])).is_ok());
    assert_eq!(refused(&|a| a.step_id = String::new()), "step_id must not be empty");
    assert_eq!(
        refused(&|a| a.idempotency_key = "x".repeat(129)),
        "idempotency_key must be at most 128 bytes"
    );
    assert_eq!(
        refused(&|a| a.step_id = "a b".to_owned()),
        "step_id may contain only ASCII letters, digits, '.', '_' and '-'"
    );
    assert_eq!(
        refused(&|a| a.depends_on = vec!["d".to_owned(); 129]),
        "depends_on may contain at most 128 entries"
    );
    assert_eq!(
        refused(&|a| a.required_files = vec!["f".to_owned(); 257]),
        "required_files may contain at most 256 entries"
    );
    assert_eq!(
        refused(&|a| a.expected_outputs = vec!["f".to_owned(); 257]),
        "expected_outputs may contain at most 256 entries"
    );
    assert_eq!(
        refused(&|a| a.command = Vec::new()),
        "command must contain a non-empty executable"
    );
    assert_eq!(
        refused(&|a| a.command = vec![String::new()]),
        "command must contain a non-empty executable"
    );
    assert_eq!(
        refused(&|a| a.command = vec!["x".to_owned(); 4097]),
        "command may contain at most 4096 entries"
    );
    assert_eq!(
        refused(&|a| a.depends_on = vec!["step".to_owned()]),
        "a step cannot depend on itself"
    );
    assert_eq!(
        refused(&|a| a.depends_on = vec!["d".to_owned(), "d".to_owned()]),
        "depends_on contains duplicate step \"d\""
    );
    assert_eq!(
        refused(&|a| a.required_files = vec!["f".to_owned(), "f".to_owned()]),
        "required_files contains duplicate path \"f\""
    );
    assert_eq!(
        refused(&|a| a.expected_outputs = vec![String::new()]),
        "expected_outputs entries must not be empty"
    );
}

#[test]
fn identifiers_and_paths_are_validated() {
    assert!(validate_identifier("dependency", "a.B-9_").is_ok());
    assert_eq!(
        validate_identifier("dependency", "").unwrap_err(),
        "dependency must not be empty"
    );
    assert!(validate_unique_paths("required_files", &vec!["a".to_owned(), "b".to_owned()]).is_ok());
}

#[test]
fn invocations_are_compared_part_by_part() {
    let first = args("s", "step", &["true"]).invocation();
    let same = args("other", "step", &["true"]).invocation();
    let other = args("s", "step", &["false"]).invocation();
    assert!(same_invocation(&first, &same));
    assert!(!same_invocation(&first, &other));
}

#[test]
fn stored_steps_are_checked() {
    let mut entries = Vec::new();
    let request = args("s", "step", &["true"]);
    let launched = reserve(&mut entries, &request, "s", RUNNER, Vec::new(), NOW, NOW + 1);
    let Ok(Reservation::Launch(pending, record)) = launched else {
        panic!("expected launch reservation");
    };
    assert_eq!(pending.status, StepStatus::Pending);
    assert_eq!(record.status, StepStatus::Running);
    assert!(check_stored_step(&record, "s", "step").is_ok());
    assert!(check_step_to_store(&record).is_ok());
    assert_eq!(
        check_stored_step(&record, "t", "step").unwrap_err(),
        "workflow session mismatch"
    );
    assert_eq!(
        check_stored_step(&record, "s", "other").unwrap_err(),
        "workflow step ID mismatch"
    );
    let newer = StepRecord { version: 2, ..record };
    assert_eq!(
        check_stored_step(&newer, "s", "step").unwrap_err(),
        "unsupported workflow journal version"
    );
    assert_eq!(
        check_step_to_store(&newer).unwrap_err(),
        "unsupported workflow journal version"
    );
}

#[test]
fn steps_may_write_where_their_session_may() {
    let permitted = vec!["/work".to_owned()];
    assert_eq!(writable_roots(&permitted, "/work/project"), vec!["/work"]);
    assert_eq!(writable_roots(&permitted, "/other"), vec!["/work", "/other"]);
    assert_eq!(writable_roots(&permitted, "/workspace"), vec!["/work", "/workspace"]);
}

#[test]
fn steps_need_a_platform_with_a_sandbox() {
    assert!(check_platform(false).is_ok());
    assert_eq!(
        check_platform(true).unwrap_err(),
        "run_workflow_step is unsupported on Windows because this release cannot provide a \
         filesystem/network sandbox there"
    );
}
