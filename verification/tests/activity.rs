use local_mcp::activity::{
    command_summary, render_command, report_command_finished, report_log_read, report_result,
    report_stopped_job, report_stored_job, result_summary, shell_word, Failure,
};
use local_mcp::diff::{edit_counts, render_diff, report_edit, LineChange};
use local_mcp::job_id::JobId;
use local_mcp::json::{render, Json};

#[test]
fn quotes_command_arguments_for_activity_display() {
    assert_eq!(shell_word("README.md"), "README.md");
    assert_eq!(shell_word("hello world"), "\"hello world\"");
}

#[test]
fn leaves_plain_arguments_as_they_are() {
    assert_eq!(shell_word(""), "");
    assert_eq!(shell_word("-C/a_b.c:d=e+F9"), "-C/a_b.c:d=e+F9");
    assert_eq!(shell_word("a\"b"), "\"a\\\"b\"");
    assert_eq!(shell_word("naïve"), "\"naïve\"");
}

#[test]
fn renders_commands_word_by_word() {
    let command = vec!["cargo".to_owned(), "test".to_owned(), "a b".to_owned()];
    assert_eq!(render_command(&command), "cargo test \"a b\"");
    assert_eq!(render_command(&Vec::new()), "");
}

#[test]
fn rendered_activity_command_is_utf8_safe_and_bounded() {
    let rendered = render_command(&vec!["echo".into(), "🙂".repeat(1000)]);
    assert!(rendered.len() <= 512);
    assert!(rendered.ends_with("..."));
}

#[test]
fn command_activity_summary_uses_bounded_head_and_tail() {
    let value = Json::object()
        .with("stdout_head", Json::text("first line\n"))
        .with("stdout_tail", Json::text("last line\n"))
        .with("stdout_truncated", Json::Bool(true))
        .with("stderr_head", Json::text(""))
        .with("stderr_tail", Json::text(""))
        .with("stderr_truncated", Json::Bool(false));
    let summary = command_summary(&render(&value)).unwrap();
    assert!(summary.contains("first line"));
    assert!(summary.contains("output truncated"));
    assert!(summary.contains("last line"));
    assert_eq!(
        summary,
        "└ first line\n└ ... output truncated; use read_job_log ...\n└ last line"
    );
}

#[test]
fn summaries_show_stderr_where_stdout_is_empty() {
    let value = Json::object()
        .with("stdout", Json::text(" \n"))
        .with("stderr", Json::text("broken\r\npipe\n"));
    assert_eq!(result_summary(&value).unwrap(), "└ broken\n└ pipe");
    let bounded = Json::object()
        .with("stdout_head", Json::text(""))
        .with("stderr_head", Json::text("oops"))
        .with("stderr_tail", Json::text("oops"))
        .with("stderr_truncated", Json::Bool(false));
    assert_eq!(result_summary(&bounded).unwrap(), "└ oops");
}

#[test]
fn summaries_are_missing_where_there_is_no_output() {
    assert!(command_summary("no json").is_none());
    assert!(command_summary("{\"stdout\":\"\",\"stderr\":\"\"}").is_none());
    assert!(command_summary("[]").is_none());
}

#[test]
fn finished_commands_show_their_output_or_their_error() {
    let shown = report_command_finished("true", &Ok("{\"stdout\":\"ok\\n\"}".to_owned()));
    assert_eq!(shown.title, "Ran true");
    assert_eq!(shown.detail.as_deref(), Some("└ ok"));

    let failed = report_command_finished(
        "false",
        &Err(Failure {
            message: "{\"stderr\":\"bad\"}".to_owned(),
            with_causes: "{\"stderr\":\"bad\"}".to_owned(),
        }),
    );
    assert_eq!(failed.detail.as_deref(), Some("└ bad"));

    let broken = report_command_finished(
        "false",
        &Err(Failure {
            message: "spawn failed".to_owned(),
            with_causes: "spawn failed: no such file".to_owned(),
        }),
    );
    assert_eq!(
        broken.detail.as_deref(),
        Some("└ Error: spawn failed: no such file")
    );

    let long = report_command_finished(
        "false",
        &Err(Failure {
            message: "long".to_owned(),
            with_causes: "x".repeat(5000),
        }),
    );
    let detail = long.detail.unwrap();
    assert_eq!(detail.len(), 2048);
    assert!(detail.ends_with("..."));

    let silent = report_command_finished("true", &Ok("{\"stdout\":\"\"}".to_owned()));
    assert!(silent.detail.is_none());
}

#[test]
fn reports_name_jobs_and_streams() {
    let job_id = JobId { bits: 1 };
    let stored = report_stored_job("Started", "sleep 1", job_id);
    assert_eq!(stored.title, "Started sleep 1");
    assert_eq!(
        stored.detail.as_deref(),
        Some("└ job 00000000-0000-0000-0000-000000000001")
    );
    let stopped = report_stopped_job("sleep 1", job_id, "stopped");
    assert_eq!(stopped.title, "Stopped sleep 1");
    assert_eq!(
        stopped.detail.as_deref(),
        Some("└ job 00000000-0000-0000-0000-000000000001; termination stopped")
    );
    let read = report_log_read("stdout", job_id, 7, 8192);
    assert_eq!(
        read.title,
        "Read stdout for job 00000000-0000-0000-0000-000000000001"
    );
    assert_eq!(read.detail.as_deref(), Some("└ offset 7, length 8192"));
}

#[test]
fn reports_show_errors() {
    let fine = report_result("Read a".to_owned(), None);
    assert_eq!((fine.title.as_str(), fine.detail), ("Read a", None));
    let failed = report_result("Read a".to_owned(), Some("gone"));
    assert_eq!(failed.detail.as_deref(), Some("└ Error: gone"));
}

#[test]
fn renders_edit_counts_and_unified_diff() {
    let (added, removed, diff) = render_diff("one\ntwo\n", "one\nchanged\nthree\n");

    assert_eq!((added, removed), (2, 1));
    assert!(diff.contains("-two"));
    assert!(diff.contains("+changed"));
    assert!(diff.contains("+three"));
    assert_eq!(diff, "@@ -1,2 +1,3 @@\n one\n-two\n+changed\n+three");
}

#[test]
fn unchanged_files_show_no_diff() {
    let (added, removed, diff) = render_diff("same\n", "same\n");
    assert_eq!((added, removed), (0, 0));
    assert_eq!(diff, "");
    let report = report_edit("a.txt", added, removed, diff, None);
    assert_eq!(report.title, "Edited a.txt (+0 -0)");
    assert!(report.detail.is_none());
}

#[test]
fn edits_are_counted_line_by_line() {
    let changes = vec![
        LineChange::Equal,
        LineChange::Insert,
        LineChange::Delete,
        LineChange::Insert,
    ];
    assert_eq!(edit_counts(&changes), (2, 1));
}

#[test]
fn edit_reports_show_the_diff_or_the_error() {
    let edited = report_edit("src/a.rs", 12, 3, "+x".to_owned(), None);
    assert_eq!(edited.title, "Edited src/a.rs (+12 -3)");
    assert_eq!(edited.detail.as_deref(), Some("+x"));
    let failed = report_edit("src/a.rs", 12, 3, "+x".to_owned(), Some("denied"));
    assert_eq!(failed.detail.as_deref(), Some("└ Error: denied"));
}
