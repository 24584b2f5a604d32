use base64::engine::general_purpose::STANDARD;
use base64::Engine;
use local_mcp::command_logs::{
    admit_log_directory, check_read, log_removals, log_window, open_is_locked, read_range,
    LogDirectory, LOG_RETENTION_AGE_NANOS,
};
use local_mcp::command_output::LOG_RETENTION_DIRECTORIES;
use local_mcp::job_id::JobId;
use local_mcp::json::Json;
use local_mcp::storage::{execution_log_dir, session_log_root};

const JOB: JobId = JobId { bits: 1 };
const NOW: i128 = 1_800_000_000_000_000_000;

fn directory(name: &str, modified: i128, active: bool) -> LogDirectory {
    LogDirectory { name: name.as_bytes().to_vec(), modified, active }
}

#[test]
fn stored_logs_are_range_readable_and_session_scoped() {
    let log = b"0123456789";
    check_read("stdout", 4).unwrap();
    let window = log_window(3, 4, log.len() as u64);
    assert_eq!((window.start, window.count), (3, 4));
    let range = read_range(JOB, "stdout", window, &log[3..7]);
    assert_eq!(range.get_text("data"), Some("3456"));
    assert_eq!(range.get("next_offset"), Some(&Json::Unsigned(7)));
    assert_eq!(range.get("eof"), Some(&Json::Bool(false)));

    let window = log_window(0, 3, 3);
    let binary = read_range(JOB, "stderr", window, &[0xff, 0x00, 0x01]);
    assert_eq!(binary.get_text("encoding"), Some("base64"));
    assert_eq!(binary.get_text("data"), Some("/wAB"));
    assert_eq!(binary.get("eof"), Some(&Json::Bool(true)));

    assert_ne!(
        execution_log_dir("/state", "first", JOB).unwrap(),
        execution_log_dir("/state", "second", JOB).unwrap()
    );
}

#[test]
fn base64_is_padded() {
    let encode = |bytes: &[u8]| {
        let range = read_range(JOB, "stdout", log_window(0, 10, bytes.len() as u64), bytes);
        range.get_text("data").unwrap().to_owned()
    };
    assert_eq!(encode(&[0xff]), "/w==");
    assert_eq!(encode(&[0xff, 0xfe]), "//4=");
    assert_eq!(encode(&[0xfb, 0xef, 0xbe]), "++++");
    assert_eq!(encode(&[0xff, 0x00, 0x01, 0x02]), "/wABAg==");
}

#[test]
fn reads_are_checked() {
    assert_eq!(check_read("stdin", 1).unwrap_err(), "stream must be stdout or stderr");
    assert_eq!(check_read("stdout", 0).unwrap_err(), "length must be at least 1");
    assert_eq!(check_read("stderr", 65537).unwrap_err(), "length must be at most 65536");
    assert!(check_read("stderr", 65536).is_ok());
}

#[test]
fn windows_end_with_the_log() {
    let window = log_window(8, 4, 10);
    assert_eq!((window.start, window.count, window.total), (8, 2, 10));
    let window = log_window(50, 4, 10);
    assert_eq!((window.start, window.count), (10, 0));
}

#[test]
fn reading_window_by_window_gives_the_whole_log() {
    let log: Vec<u8> = (0..100).map(|n| b'a' + n % 26).collect();
    let mut offset = 0;
    let mut text = String::new();
    loop {
        let window = log_window(offset, 7, log.len() as u64);
        let start = window.start as usize;
        let part = read_range(JOB, "stdout", window, &log[start..(start + 7).min(log.len())]);
        text.push_str(part.get_text("data").unwrap());
        match part.get("next_offset") {
            Some(Json::Unsigned(next)) => offset = *next,
            _ => panic!("expected an offset"),
        }
        if part.get("eof") == Some(&Json::Bool(true)) {
            break;
        }
    }
    assert_eq!(text.into_bytes(), log);
}

#[test]
fn reads_of_any_lengths_give_the_whole_log() {
    let mut log: Vec<u8> = "häftig ".repeat(20).into_bytes();
    log.extend([0xff, 0x00, 0x80]);
    let mut lengths = [1, 2, 30, 3, 65536].into_iter();
    let mut offset = 0;
    let mut read = Vec::new();
    loop {
        let length = lengths.next().unwrap();
        let window = log_window(offset, length, log.len() as u64);
        let (start, count) = (window.start as usize, window.count);
        let bytes = &log[start..start + count];
        let part = read_range(JOB, "stdout", window, bytes);
        let data = part.get_text("data").unwrap();
        let text = std::str::from_utf8(bytes);
        assert_eq!(
            part.get_text("encoding"),
            Some(if text.is_ok() { "utf-8" } else { "base64" })
        );
        match part.get_text("encoding") {
            Some("utf-8") => read.extend(data.as_bytes()),
            _ => read.extend(STANDARD.decode(data).unwrap()),
        }
        match part.get("next_offset") {
            Some(Json::Unsigned(next)) => offset = *next,
            _ => panic!("expected an offset"),
        }
        if part.get("eof") == Some(&Json::Bool(true)) {
            break;
        }
        assert_eq!(count, length);
    }
    assert_eq!(read, log);
}

#[test]
fn prepare_preserves_active_logs_when_retention_is_full() {
    let mut directories = vec![directory("active", NOW - 10_000, true)];
    for index in 0..LOG_RETENTION_DIRECTORIES - 1 {
        directories.push(directory(&format!("terminal-{index:03}"), NOW - 5_000, false));
    }
    let removed = log_removals(&directories, NOW, LOG_RETENTION_DIRECTORIES - 1);
    assert!(!removed.contains(&0));
    assert_eq!(removed, vec![1]);
    let left = directories.len() - removed.len();
    assert!(admit_log_directory(left).is_ok());
    assert_eq!(left + 1, LOG_RETENTION_DIRECTORIES);
}

#[test]
fn cleanup_keeps_only_the_newest_configured_directories() {
    let directories = vec![
        directory("entry-0", NOW - 30, false),
        directory("entry-1", NOW - 20, false),
        directory("entry-2", NOW - 10, false),
    ];
    assert_eq!(log_removals(&directories, NOW, 2), vec![0]);
}

#[test]
fn cleanup_removes_stale_directories() {
    let directories = vec![
        directory("old", NOW - LOG_RETENTION_AGE_NANOS - 1, false),
        directory("busy", NOW - LOG_RETENTION_AGE_NANOS - 1, true),
        directory("edge", NOW - LOG_RETENTION_AGE_NANOS, false),
    ];
    assert_eq!(log_removals(&directories, NOW, 100), vec![0]);
}

#[test]
fn full_storage_refuses_new_logs() {
    assert!(admit_log_directory(127).is_ok());
    assert_eq!(
        admit_log_directory(128).unwrap_err(),
        "command log retention limit reached: 128 active directories are retained"
    );
}

#[test]
fn log_directories_are_checked_for_their_session() {
    assert_eq!(
        session_log_root("/state", "my-session").unwrap(),
        "/state/command-logs/my-session"
    );
    assert!(session_log_root("/state", "..").is_err());
    assert!(execution_log_dir("/state", "a/b", JOB).is_err());
}

#[test]
fn windows_can_refuse_to_open_what_is_locked() {
    assert!(open_is_locked(Some(33), true));
    assert!(!open_is_locked(Some(33), false));
    assert!(!open_is_locked(Some(5), true));
    assert!(!open_is_locked(None, true));
}
