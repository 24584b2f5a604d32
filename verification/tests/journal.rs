use local_mcp::job_id::JobId;
use local_mcp::job_journal::{
    bound_plain_text, bound_persisted_payload, ExecutionMode, JobState, MAX_JOBS_PER_SESSION,
    MAX_JOURNAL_SNAPSHOT_BYTES, MAX_PERSISTED_FIELD_SERIALIZED_BYTES, RETENTION_AGE_MS,
};
use local_mcp::journal_store::{
    create_running, finish, journal_removals, list, load, mark_stopped, JobEntry,
};
use local_mcp::json::{render, Json};
use local_mcp::snapshots::{latest_snapshot, name_has_extension, published_name, unpublished_name};
use local_mcp::stored_records::{
    check_job_to_store, check_snapshot_to_store, check_stored_job, check_stored_snapshot,
};

const NOW: u64 = 1_800_000_000_000;

fn job(number: u128) -> JobId {
    JobId { bits: number }
}

fn create(entries: &mut Vec<JobEntry>, session_id: &str, job_id: JobId, command: &str, now: u64) {
    create_running(
        entries,
        session_id,
        job_id,
        command,
        "/workspace",
        ExecutionMode::Sandboxed,
        now,
        42,
    )
    .unwrap();
}

fn record_result(exit_code: i32, stdout: &str) -> Result<String, String> {
    let text = |out: &str, err: &str| {
        render(
            &Json::object()
                .with("exit_code", Json::Signed(exit_code as i64))
                .with("stdout", Json::text(out))
                .with("stderr", Json::text(err)),
        )
    };
    if exit_code == 0 {
        Ok(text(stdout, ""))
    } else {
        Err(text("", stdout))
    }
}

#[test]
fn completed_result_survives_reload() {
    let mut entries = Vec::new();
    create(&mut entries, "journal-complete", job(1), "cargo test", NOW);
    finish(&mut entries, job(1), &record_result(0, "ok"), NOW + 1).unwrap();

    let record = load(&mut entries, job(1), false, NOW + 2).unwrap();
    assert_eq!(record.state, JobState::Completed);
    assert_eq!(record.exit_code, Some(0));
    assert!(record.result.as_deref().unwrap().contains("ok"));
}

#[test]
fn running_record_becomes_orphaned_after_reload_without_active_handle() {
    let mut entries = Vec::new();
    create(&mut entries, "journal-running", job(1), "sleep 10", NOW);

    let active = load(&mut entries, job(1), true, NOW + 1).unwrap();
    assert_eq!(active.state, JobState::Running);
    let record = load(&mut entries, job(1), false, NOW + 2).unwrap();
    assert_eq!(record.state, JobState::Orphaned);
    assert!(record.error.as_deref().unwrap().contains("cannot be reattached"));
    assert_eq!(record.finished_at_ms, Some(NOW + 2));
}

#[test]
fn stopped_record_is_idempotent_and_reloadable() {
    let mut entries = Vec::new();
    create(&mut entries, "journal-stopped", job(1), "sleep 10", NOW);
    mark_stopped(&mut entries, job(1), NOW + 1).unwrap();
    let again = mark_stopped(&mut entries, job(1), NOW + 2).unwrap();
    assert_eq!(again.state, JobState::Stopped);
    assert_eq!(again.updated_at_ms, NOW + 1);
    assert_eq!(
        load(&mut entries, job(1), false, NOW + 3).unwrap().state,
        JobState::Stopped
    );
}

#[test]
fn stop_does_not_overwrite_completed_or_failed_terminal_results() {
    for (exit_code, expected_state) in [(0, JobState::Completed), (7, JobState::Failed)] {
        let mut entries = Vec::new();
        create(&mut entries, "journal-terminal-stop", job(1), "terminal", NOW);
        let finished =
            finish(&mut entries, job(1), &record_result(exit_code, "original"), NOW + 1).unwrap();
        let stopped = mark_stopped(&mut entries, job(1), NOW + 2).unwrap();

        assert_eq!(stopped.state, expected_state);
        assert_eq!(stopped.result, finished.result);
        assert_eq!(stopped.error, finished.error);
        assert_eq!(stopped.exit_code, finished.exit_code);
    }
}

#[test]
fn persisted_result_and_error_payloads_and_snapshots_are_bounded() {
    for exit_code in [0, 9] {
        let mut entries = Vec::new();
        let command = "quoted command".repeat(10_000);
        create(&mut entries, "journal-bounded", job(1), &command, NOW);
        let noisy = "\\\"日本語🙂\n".repeat(200_000);
        let record =
            finish(&mut entries, job(1), &record_result(exit_code, &noisy), NOW + 1).unwrap();
        let payload = record
            .result
            .as_ref()
            .or(record.error.as_ref())
            .expect("terminal record must contain a payload");

        assert!(payload.contains("journal_truncated"));
        assert!(payload.contains("original_bytes"));
        let serialized = render(&Json::text(payload)).len();
        assert!(serialized <= MAX_PERSISTED_FIELD_SERIALIZED_BYTES);
        let rest = record.command.len() + record.cwd.len() + record.session_id.len() + 1024;
        assert!((serialized + rest) as u64 <= MAX_JOURNAL_SNAPSHOT_BYTES);
        assert_eq!(record.exit_code, Some(exit_code));
    }
}

#[test]
fn oversized_snapshot_fails_closed_before_allocation() {
    let error =
        check_stored_snapshot("/state/jobs/a.json", MAX_JOURNAL_SNAPSHOT_BYTES + 1).unwrap_err();
    assert!(error.contains("exceeds"));
    assert_eq!(error, "job journal /state/jobs/a.json exceeds 131072 bytes");
    assert!(check_stored_snapshot("/state/jobs/a.json", MAX_JOURNAL_SNAPSHOT_BYTES).is_ok());
    assert_eq!(
        check_snapshot_to_store(MAX_JOURNAL_SNAPSHOT_BYTES + 1).unwrap_err(),
        "job journal snapshot exceeds 131072 bytes"
    );
    assert!(check_snapshot_to_store(MAX_JOURNAL_SNAPSHOT_BYTES).is_ok());
}

#[test]
fn corrupt_latest_snapshot_fails_closed_without_hiding_other_jobs() {
    let mut entries = Vec::new();
    create(&mut entries, "journal-corrupt", job(1), "true", NOW);
    finish(&mut entries, job(1), &record_result(0, "done"), NOW + 1).unwrap();
    create(&mut entries, "journal-corrupt", job(2), "false", NOW);
    entries[1].record = Err("corrupt job journal".to_owned());

    assert_eq!(
        load(&mut entries, job(2), false, NOW + 2).unwrap_err(),
        "corrupt job journal"
    );
    let (page, lost) = list(&entries, &Vec::new(), None, 0, 100, NOW + 2).unwrap();
    assert_eq!(page.jobs.len(), 1);
    assert_eq!(page.jobs[0].job_id, job(1).to_text());
    assert_eq!(page.corrupt_entries, 1);
    assert!(lost.is_empty());
}

#[test]
fn stale_temporary_snapshot_is_ignored_and_removed() {
    let names = vec!["stale.tmp".to_owned(), published_name(7, job(9))];
    assert_eq!(latest_snapshot(&names), Some(1));
    assert!(name_has_extension("stale.tmp", "tmp"));
    assert!(name_has_extension(&unpublished_name(7, job(9)), "tmp"));
    assert!(!name_has_extension(&published_name(7, job(9)), "tmp"));
}

#[test]
fn newer_snapshots_are_taken() {
    let names = vec![
        published_name(10, job(1)),
        published_name(9, job(2)),
        "readme.txt".to_owned(),
    ];
    assert_eq!(latest_snapshot(&names), Some(0));
    assert_eq!(latest_snapshot(&vec!["a.tmp".to_owned()]), None);
    assert_eq!(
        published_name(1_234, job(1)),
        "000000000000000000000000000000000001234-00000000-0000-0000-0000-000000000001.json"
    );
}

#[test]
fn list_is_session_scoped_filterable_and_paginated() {
    let mut first = Vec::new();
    let mut second = Vec::new();
    create(&mut first, "journal-list-a", job(1), "completed", NOW);
    finish(&mut first, job(1), &record_result(0, "done"), NOW).unwrap();
    create(&mut first, "journal-list-a", job(2), "failed", NOW + 2);
    finish(&mut first, job(2), &record_result(9, "failure"), NOW + 2).unwrap();
    create(&mut second, "journal-list-b", job(3), "other", NOW);
    finish(&mut second, job(3), &record_result(0, "other"), NOW).unwrap();

    let none = Vec::new();
    let (first_page, _) = list(&first, &none, None, 0, 1, NOW + 3).unwrap();
    assert_eq!(first_page.total, 2);
    assert_eq!(first_page.jobs.len(), 1);
    assert_eq!(first_page.next_offset, Some(1));
    assert_eq!(first_page.jobs[0].job_id, job(2).to_text());

    let (second_page, _) = list(&first, &none, None, 1, 1, NOW + 3).unwrap();
    assert_eq!(second_page.jobs.len(), 1);
    assert_eq!(second_page.next_offset, None);
    assert_ne!(second_page.jobs[0].job_id, job(3).to_text());

    let (failed, _) = list(&first, &none, Some(JobState::Failed), 0, 10, NOW + 3).unwrap();
    assert_eq!(failed.total, 1);
    assert_eq!(failed.jobs[0].job_id, job(2).to_text());
    assert_eq!(failed.jobs[0].state, JobState::Failed);

    assert!(load(&mut first, job(3), false, NOW + 3).is_err());
}

#[test]
fn pages_show_every_job_once() {
    let mut entries = Vec::new();
    for number in 0..10 {
        create(&mut entries, "s", job(number), "work", NOW + (number as u64 * 7) % 4);
        finish(&mut entries, job(number), &record_result(0, "done"), NOW + 9).unwrap();
    }
    entries.push(JobEntry { name: job(99).to_text(), record: Err("corrupt".to_owned()) });
    for limit in [1, 3, 4, 100] {
        let mut shown = Vec::new();
        let mut offset = 0;
        loop {
            let (page, _) = list(&entries, &Vec::new(), None, offset, limit, NOW + 10).unwrap();
            assert_eq!((page.total, page.offset, page.corrupt_entries), (10, offset, 1));
            let consumed = offset + page.jobs.len();
            assert_eq!(page.next_offset, (consumed < 10).then_some(consumed));
            shown.extend(page.jobs.into_iter().map(|job| (job.created_at_ms, job.job_id)));
            match page.next_offset {
                Some(next) => offset = next,
                None => break,
            }
        }
        let mut expected = shown.clone();
        expected.sort();
        expected.dedup();
        expected.reverse();
        assert_eq!(shown.len(), 10);
        assert_eq!(shown, expected);
    }
}

#[test]
fn lists_settle_lost_jobs() {
    let mut entries = Vec::new();
    create(&mut entries, "s", job(1), "lost", NOW);
    create(&mut entries, "s", job(2), "running", NOW + 1);
    let (page, lost) = list(&entries, &vec![job(2)], None, 0, 10, NOW + 5).unwrap();
    assert_eq!(page.jobs[0].state, JobState::Running);
    assert_eq!(page.jobs[1].state, JobState::Orphaned);
    assert_eq!(lost.len(), 1);
    assert_eq!(lost[0].job_id, job(1).to_text());
    assert!(list(&entries, &Vec::new(), None, 0, 0, NOW).is_err());
    assert_eq!(
        list(&entries, &Vec::new(), None, 0, 101, NOW).unwrap_err(),
        "limit must be between 1 and 100"
    );
}

#[test]
fn retention_removes_oldest_terminal_records() {
    let mut entries = Vec::new();
    for index in 0..3u64 {
        let id = job(10 + index as u128);
        create(&mut entries, "journal-retention", id, &format!("job {index}"), NOW + 2 * index);
        finish(&mut entries, id, &record_result(0, "done"), NOW + 2 * index).unwrap();
    }
    assert_eq!(journal_removals(&entries, 2, u64::MAX, NOW + 10), vec![0]);
}

#[test]
fn retention_removes_expired_records_but_no_running_ones() {
    let mut entries = Vec::new();
    create(&mut entries, "s", job(1), "running", NOW);
    create(&mut entries, "s", job(2), "ended", NOW);
    finish(&mut entries, job(2), &record_result(0, "done"), NOW).unwrap();
    let later = NOW + RETENTION_AGE_MS + 1;
    assert_eq!(
        journal_removals(&entries, MAX_JOBS_PER_SESSION, RETENTION_AGE_MS, later),
        vec![1]
    );
    assert!(journal_removals(&entries, 0, RETENTION_AGE_MS, NOW + 1) == vec![1]);
}

#[test]
fn running_records_cannot_exceed_the_hard_session_limit() {
    let mut entries = Vec::new();
    for index in 0..MAX_JOBS_PER_SESSION {
        create(
            &mut entries,
            "journal-running-limit",
            job(index as u128),
            &format!("running job {index}"),
            NOW,
        );
    }
    let removed = journal_removals(&entries, MAX_JOBS_PER_SESSION - 1, RETENTION_AGE_MS, NOW);
    assert!(removed.is_empty());

    let error = create_running(
        &mut entries,
        "journal-running-limit",
        job(9_999),
        "one job too many",
        "/workspace",
        ExecutionMode::Sandboxed,
        NOW,
        42,
    )
    .unwrap_err();

    assert!(error.contains("job journal limit reached"));
    assert_eq!(entries.len(), MAX_JOBS_PER_SESSION);
}

#[test]
fn states_are_read_by_their_words() {
    for state in [
        JobState::Running,
        JobState::Completed,
        JobState::Failed,
        JobState::Stopped,
        JobState::Orphaned,
    ] {
        assert_eq!(JobState::parse(state.as_str()).unwrap(), state);
        assert_eq!(state.terminal(), state != JobState::Running);
    }
    assert!(JobState::parse("paused").is_err());
}

#[test]
fn stored_records_are_checked() {
    let mut entries = Vec::new();
    create(&mut entries, "mine", job(5), "true", NOW);
    let record = load(&mut entries, job(5), true, NOW).unwrap();
    assert!(check_stored_job(&record, "mine", job(5)).is_ok());
    assert_eq!(
        check_stored_job(&record, "yours", job(5)).unwrap_err(),
        "job journal session mismatch"
    );
    assert_eq!(
        check_stored_job(&record, "mine", job(6)).unwrap_err(),
        "job journal ID mismatch"
    );
    assert_eq!(check_job_to_store(&record).unwrap(), job(5));

    let mut other = record.clone();
    other.version = 2;
    assert_eq!(
        check_stored_job(&other, "mine", job(5)).unwrap_err(),
        "unsupported job journal version"
    );
    assert_eq!(
        check_job_to_store(&other).unwrap_err(),
        "unsupported job journal version"
    );
    let mut other = record.clone();
    other.job_id = "five".to_owned();
    assert_eq!(check_job_to_store(&other).unwrap_err(), "invalid journal job_id");
    let mut other = record.clone();
    other.session_id = "not valid".to_owned();
    assert!(check_job_to_store(&other).is_err());
}

#[test]
fn long_texts_are_cut_in_the_middle() {
    assert_eq!(bound_plain_text("short", 8), "short");
    let cut = bound_plain_text(&"x".repeat(100), 50);
    assert_eq!(cut.len(), 50);
    assert!(cut.contains("journal text truncated"));
    assert_eq!(bound_persisted_payload("fine", Some(0), "result"), "fine");
}

#[test]
fn pages_show_every_job_beside_directories_with_odd_names() {
    let mut entries = Vec::new();
    for number in [1, 0xabc] {
        create(&mut entries, "s", job(number), "work", NOW + number as u64);
        finish(&mut entries, job(number), &record_result(0, "done"), NOW + 9).unwrap();
    }
    let odd = job(0xdef).to_text().to_uppercase();
    entries.push(JobEntry { name: odd, record: Err("corrupt".to_owned()) });
    entries.push(JobEntry { name: "notes".to_owned(), record: Err("corrupt".to_owned()) });
    let mut shown = Vec::new();
    for offset in 0..2 {
        let (page, _) = list(&entries, &Vec::new(), None, offset, 1, NOW + 10).unwrap();
        assert_eq!((page.total, page.corrupt_entries), (2, 2));
        shown.extend(page.jobs.into_iter().map(|job| job.job_id));
    }
    assert_eq!(shown, vec![job(0xabc).to_text(), job(1).to_text()]);
}

#[test]
fn identifiers_differ_in_writing() {
    let numbers = [0, 1, 0xabc, u128::MAX, 1 << 64, 1 << 127];
    for a in numbers {
        for b in numbers {
            assert_eq!(job(a).to_text() == job(b).to_text(), a == b);
        }
    }
}
