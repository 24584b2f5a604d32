use local_mcp::config::validate_session_id;
use local_mcp::job_id::JobId;
use local_mcp::tool_args::{
    CommandArgv, HeartbeatInterval, HeartbeatName, HeartbeatWait, JobLogLength, JobLogStream,
    SessionId, HEARTBEAT_MAX_INTERVAL_SECONDS, HEARTBEAT_MAX_WAIT_SECONDS, JOB_LOG_MAX_READ_BYTES,
};

#[test]
fn session_ids_are_validated() {
    for valid in ["schema-contract", "a", "A.b_c-9", "...", &"x".repeat(64)] {
        assert_eq!(SessionId::parse(valid).unwrap().as_str(), valid);
        assert!(validate_session_id(valid).is_ok());
    }
    for invalid in ["", ".", "..", "contains spaces", "a/b", "é", &"x".repeat(65)] {
        assert!(SessionId::parse(invalid).is_err());
        assert!(validate_session_id(invalid).is_err());
    }
    assert_eq!(SessionId::parse("a").unwrap().clone().as_str(), "a");
}

#[test]
fn commands_need_an_entry() {
    let argv = CommandArgv::parse(vec!["true".to_owned()]).unwrap();
    assert_eq!(argv.as_slice(), ["true".to_owned()]);
    assert_eq!(argv.clone().as_slice().len(), 1);
    assert_eq!(
        CommandArgv::parse(Vec::new()).unwrap_err(),
        "command must contain at least one argv entry"
    );
}

#[test]
fn heartbeat_names_are_validated() {
    assert_eq!(HeartbeatName::parse(&"x".repeat(64)).unwrap().as_str().len(), 64);
    assert_eq!(HeartbeatName::parse("").unwrap_err(), "heartbeat name must not be empty");
    assert_eq!(
        HeartbeatName::parse(&"x".repeat(65)).unwrap_err(),
        "heartbeat name must be at most 64 bytes"
    );
    assert_eq!(
        HeartbeatName::parse("a b").unwrap_err(),
        "heartbeat name may contain only ASCII letters, digits, '.', '_' and '-'"
    );
    assert_eq!(
        HeartbeatName::parse(&"é".repeat(33)).unwrap_err(),
        "heartbeat name must be at most 64 bytes"
    );
}

#[test]
fn heartbeat_times_are_bounded() {
    assert_eq!(HEARTBEAT_MAX_INTERVAL_SECONDS, 86_400);
    assert_eq!(HEARTBEAT_MAX_WAIT_SECONDS, 25);
    assert_eq!(HeartbeatInterval::parse(1).unwrap().seconds(), 1);
    assert_eq!(HeartbeatInterval::parse(86_400).unwrap().seconds(), 86_400);
    for invalid in [0, 86_401] {
        assert_eq!(
            HeartbeatInterval::parse(invalid).unwrap_err(),
            "interval_seconds must be between 1 and 86400"
        );
    }
    assert_eq!(HeartbeatWait::parse(25).unwrap().seconds(), 25);
    for invalid in [0, 26] {
        assert_eq!(
            HeartbeatWait::parse(invalid).unwrap_err(),
            "max_wait_seconds must be between 1 and 25"
        );
    }
}

#[test]
fn log_reads_are_bounded() {
    assert_eq!(JOB_LOG_MAX_READ_BYTES, 65_536);
    assert_eq!(JobLogLength::parse(65_536).unwrap().bytes(), 65_536);
    assert!(JobLogLength::parse(0).is_err());
    assert!(JobLogLength::parse(65_537).is_err());
    assert_eq!(JobLogStream::parse("stderr").unwrap().as_str(), "stderr");
    assert!(JobLogStream::parse("stdin").is_none());
}

#[test]
fn job_ids_are_read_and_written() {
    let text = "00000000-0000-4000-8000-000000000001";
    let id = JobId::parse_str(text).unwrap();
    assert_eq!(id.to_text(), text);
    let high = JobId { bits: 0xfedc_ba98_7654_3210_0123_4567_89ab_cdef };
    assert_eq!(high.to_text(), "fedcba98-7654-3210-0123-456789abcdef");
    assert_eq!(JobId::parse_str(&high.to_text()), Some(high));
    assert_eq!(JobId::parse_str("FEDCBA98-7654-3210-0123-456789ABCDEF"), Some(high));
    assert_eq!(JobId::parse_str("not a job"), None);
}
