use local_mcp::sandbox::{
    bounded_stream_bytes, graceful_termination, logged_output_to_output, safe_environment,
    update_tail, LoggedOutput, StopTrigger, StreamCapture, Termination,
};
use local_mcp::supervision::{Event, Step, Supervision};

/// Supervises a command, with what comes of each step.
fn supervise(events: &[Event]) -> (Option<i32>, Vec<Step>) {
    let mut supervision = Supervision::new();
    let mut steps = vec![supervision.step()];
    for event in events {
        assert!(supervision.armed());
        supervision.advance(*event);
        steps.push(supervision.step());
    }
    (supervision.status, steps)
}

#[test]
fn normal_exit_is_distinct_from_lifecycle_termination() {
    let (status, steps) = supervise(&[Event::Exited(0), Event::GroupGone]);
    assert_eq!(status, Some(0));
    assert_eq!(
        steps,
        vec![
            Step::AwaitExitOrTrigger,
            Step::ProbeGroup,
            Step::Finish(Termination::Exited)
        ]
    );
}

#[test]
fn normal_parent_exit_cleans_up_background_descendants_before_returning() {
    let (status, steps) = supervise(&[
        Event::Exited(0),
        Event::GraceElapsed,
        Event::Asked,
        Event::GroupGone,
    ]);
    assert_eq!(status, Some(0));
    assert_eq!(steps.last(), Some(&Step::Finish(Termination::Exited)));
    assert!(steps.contains(&Step::AskGroup));
    assert!(!steps.contains(&Step::KillGroup));
}

#[test]
fn normal_parent_exit_force_kills_descendant_that_ignores_term() {
    let (status, steps) = supervise(&[
        Event::Exited(0),
        Event::GraceElapsed,
        Event::Asked,
        Event::GraceElapsed,
        Event::Killed,
        Event::GroupGone,
    ]);
    assert_eq!(status, Some(0));
    assert_eq!(
        steps.last(),
        Some(&Step::Finish(Termination::ForcedKill(StopTrigger::Completion)))
    );
    assert!(steps.contains(&Step::KillGroup));
}

#[test]
fn requested_stop_terminates_parent_and_child_and_reaps_parent() {
    let (status, steps) = supervise(&[
        Event::Triggered(StopTrigger::Requested),
        Event::Asked,
        Event::Exited(-1),
        Event::GroupGone,
    ]);
    assert_eq!(status, Some(-1));
    assert_eq!(
        steps,
        vec![
            Step::AwaitExitOrTrigger,
            Step::AskGroup,
            Step::AwaitExit,
            Step::ProbeGroup,
            Step::Finish(Termination::Stopped)
        ]
    );
}

#[test]
fn ignored_graceful_signal_escalates_to_forced_tree_kill() {
    let (status, steps) = supervise(&[
        Event::Triggered(StopTrigger::Requested),
        Event::Asked,
        Event::GraceElapsed,
        Event::Killed,
        Event::Exited(-1),
        Event::GroupGone,
    ]);
    assert_eq!(status, Some(-1));
    assert_eq!(
        steps.last(),
        Some(&Step::Finish(Termination::ForcedKill(StopTrigger::Requested)))
    );
    assert!(steps.contains(&Step::Reap));
}

#[test]
fn execution_timeout_uses_the_same_tree_termination_path() {
    let (_, steps) = supervise(&[
        Event::Triggered(StopTrigger::Timeout),
        Event::Asked,
        Event::Exited(-1),
        Event::GroupGone,
    ]);
    assert_eq!(steps.last(), Some(&Step::Finish(Termination::TimedOut)));
}

#[test]
fn task_abort_drop_guard_kills_the_complete_process_group() {
    let mut supervision = Supervision::new();
    assert!(supervision.armed());
    supervision.advance(Event::Exited(0));
    assert!(supervision.armed());
    supervision.advance(Event::GroupGone);
    assert!(!supervision.armed());
}

#[test]
fn unrestricted_output_streams_to_files_with_bounded_memory_previews() {
    let mut stdout = StreamCapture::new();
    for _ in 0..128 {
        stdout.absorb(&[0; 8192], 1024);
    }
    assert_eq!(stdout.bytes, 1_048_576);
    assert!(stdout.head.len() <= 1024);
    assert!(stdout.tail.len() <= 1024);
    let mut stderr = StreamCapture::new();
    stderr.absorb(b"failure", 1024);
    assert_eq!(stderr.bytes, 7);
    assert_eq!(stderr.head, b"failure");
    assert_eq!(stderr.tail, b"failure");
}

#[test]
fn captures_keep_both_ends() {
    let mut capture = StreamCapture::new();
    capture.absorb(b"abcdef", 4);
    capture.absorb(b"gh", 4);
    assert_eq!(capture.bytes, 8);
    assert_eq!(capture.head, b"abcd");
    assert_eq!(capture.tail, b"efgh");
    assert_eq!(
        bounded_stream_bytes(capture),
        b"abcd\n... output truncated ...\nefgh"
    );
}

#[test]
fn short_streams_are_shown_whole() {
    let mut capture = StreamCapture::new();
    capture.absorb(b"abc", 4);
    assert_eq!(bounded_stream_bytes(capture), b"abc");
}

#[test]
fn tails_hold_the_last_bytes() {
    let mut tail = Vec::new();
    update_tail(&mut tail, b"abc", 4);
    update_tail(&mut tail, b"de", 4);
    assert_eq!(tail, b"bcde");
    update_tail(&mut tail, b"0123456", 4);
    assert_eq!(tail, b"3456");
    let mut none = vec![1];
    update_tail(&mut none, b"xyz", 0);
    assert_eq!(none, vec![1]);
}

#[test]
fn streams_become_text() {
    let mut stdout = StreamCapture::new();
    stdout.absorb(b"ok \xff", 10);
    let output = logged_output_to_output(LoggedOutput {
        status: 4,
        stdout,
        stderr: StreamCapture::new(),
        termination: Termination::Cancelled,
    });
    assert_eq!(output.status, 4);
    assert_eq!(output.stdout, "ok \u{fffd}");
    assert_eq!(output.stderr, "");
    assert_eq!(output.termination, Termination::Cancelled);
}

#[test]
fn endings_have_words() {
    assert_eq!(graceful_termination(StopTrigger::Requested), Termination::Stopped);
    assert_eq!(graceful_termination(StopTrigger::Timeout), Termination::TimedOut);
    assert_eq!(graceful_termination(StopTrigger::Cancellation), Termination::Cancelled);
    assert_eq!(graceful_termination(StopTrigger::Completion), Termination::Exited);
    let words: Vec<&str> = [
        Termination::Exited,
        Termination::Stopped,
        Termination::TimedOut,
        Termination::Cancelled,
        Termination::ForcedKill(StopTrigger::Timeout),
    ]
    .iter()
    .map(|termination| termination.as_str())
    .collect();
    assert_eq!(words, vec!["exited", "stopped", "timeout", "cancelled", "forced_kill"]);
    assert_eq!(
        Termination::ForcedKill(StopTrigger::Cancellation).trigger().unwrap().as_str(),
        "cancellation"
    );
    assert_eq!(Termination::Exited.trigger(), None);
}

#[test]
fn environments_are_restricted() {
    let variable = |name: &str, value: &str| (name.to_owned(), value.to_owned());
    let picked = safe_environment(&vec![
        variable("HOME", "/root"),
        variable("TERM", "xterm"),
        variable("SECRET", "x"),
        variable("PATH", "/bin"),
    ]);
    assert_eq!(picked, vec![variable("PATH", "/bin"), variable("TERM", "xterm")]);
}

#[test]
fn groups_that_outlive_a_kill_are_failures() {
    let (status, steps) = supervise(&[
        Event::Triggered(StopTrigger::Requested),
        Event::Asked,
        Event::GraceElapsed,
        Event::Killed,
        Event::Exited(-1),
        Event::GraceElapsed,
    ]);
    assert_eq!(status, Some(-1));
    assert_eq!(steps.last(), Some(&Step::Fail));

    let (_, steps) = supervise(&[
        Event::Exited(0),
        Event::GraceElapsed,
        Event::Asked,
        Event::GraceElapsed,
        Event::Killed,
        Event::GraceElapsed,
        Event::GroupGone,
    ]);
    assert_eq!(steps.last(), Some(&Step::Fail));
}
