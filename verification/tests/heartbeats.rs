use local_mcp::heartbeat::{
    heartbeat_max_wait, heartbeat_name, heartbeat_result, skip_missed_heartbeat_ticks, Heartbeat,
    Heartbeats, NANOS_PER_SECOND,
};
use local_mcp::json::{parse, Json};
use local_mcp::tool_args::{HeartbeatInterval, HeartbeatName, HeartbeatWait};

const START: u128 = 1_000_000_000_000;

fn seconds(count: u128) -> u128 {
    count * NANOS_PER_SECOND
}

fn body(answer: &Json) -> Json {
    match answer.get("content") {
        Some(Json::Array(items)) => parse(items[0].get_text("text").unwrap()).unwrap(),
        _ => panic!("expected content"),
    }
}

#[test]
fn heartbeat_skips_ticks_missed_while_agent_is_busy() {
    let interval = seconds(300);
    let mut heartbeat = Heartbeat::new(300, START, 1);

    // The 5-minute tick was delivered while the agent was waiting.
    heartbeat.delivered_ticks += 1;
    heartbeat.next_tick += interval;

    // The work triggered at 5 minutes runs until 12 minutes. The 10-minute
    // tick must be skipped instead of being queued for immediate delivery.
    let missed = skip_missed_heartbeat_ticks(&mut heartbeat, START + seconds(720));
    assert_eq!(missed, 1);
    assert_eq!(heartbeat.skipped_ticks, 1);
    assert_eq!(heartbeat.delivered_ticks, 1);
    assert_eq!(heartbeat.next_tick, START + seconds(900));
}

#[test]
fn heartbeat_skips_multiple_overdue_ticks_without_catching_up() {
    let mut heartbeat = Heartbeat::new(60, START, 1);

    let missed = skip_missed_heartbeat_ticks(&mut heartbeat, START + seconds(305));
    assert_eq!(missed, 5);
    assert_eq!(heartbeat.skipped_ticks, 5);
    assert_eq!(heartbeat.next_tick, START + seconds(360));
}

#[test]
fn nothing_is_skipped_before_the_next_tick() {
    let mut heartbeat = Heartbeat::new(60, START, 1);
    assert_eq!(skip_missed_heartbeat_ticks(&mut heartbeat, START + seconds(60) - 1), 0);
    assert_eq!(heartbeat.next_tick, START + seconds(60));
    assert_eq!(skip_missed_heartbeat_ticks(&mut heartbeat, START + seconds(60)), 1);
    assert_eq!(heartbeat.next_tick, START + seconds(120));
}

#[test]
fn waiting_delivers_one_tick() {
    let mut all = Heartbeats::new();
    let interval = HeartbeatInterval::parse(10).unwrap();
    let started = body(&all.start("s", "default", interval, START));
    assert_eq!(started.get_text("status"), Some("started"));
    assert_eq!(started.get("next_tick_in_ms"), Some(&Json::Unsigned(10_000)));

    let waiter = all.begin_wait("s", "default", 25, START + seconds(4)).unwrap();
    assert_eq!(waiter.target, START + seconds(10));
    assert_eq!(waiter.wait_for, seconds(6));
    let (ticked, answer) = all.end_wait("s", "default", waiter, START + seconds(10)).unwrap();
    assert!(ticked);
    let tick = body(&answer);
    assert_eq!(tick.get_text("status"), Some("tick"));
    assert_eq!(tick.get("delivered_ticks"), Some(&Json::Unsigned(1)));
    assert_eq!(tick.get("skipped_ticks"), Some(&Json::Unsigned(0)));
    assert_eq!(all.get("s", "default").unwrap().next_tick, START + seconds(20));
}

#[test]
fn waits_end_before_the_tick_where_they_are_too_short() {
    let mut all = Heartbeats::new();
    let interval = HeartbeatInterval::parse(60).unwrap();
    all.start("s", "slow", interval, START);
    let waiter = all.begin_wait("s", "slow", 25, START).unwrap();
    assert_eq!(waiter.wait_for, seconds(25));
    let (ticked, answer) = all.end_wait("s", "slow", waiter, START + seconds(25)).unwrap();
    assert!(!ticked);
    assert_eq!(body(&answer).get_text("status"), Some("waiting"));
}

#[test]
fn one_waiter_at_a_time() {
    let mut all = Heartbeats::new();
    let interval = HeartbeatInterval::parse(60).unwrap();
    all.start("s", "one", interval, START);
    let waiter = all.begin_wait("s", "one", 25, START).unwrap();
    assert_eq!(
        all.begin_wait("s", "one", 25, START).unwrap_err(),
        "heartbeat \"one\" already has an active waiter"
    );
    all.start("s", "one", interval, START + seconds(1));
    assert_eq!(
        all.end_wait("s", "one", waiter, START + seconds(25)).unwrap_err(),
        "heartbeat \"one\" was restarted while waiting"
    );
}

#[test]
fn stopped_heartbeats_are_gone() {
    let mut all = Heartbeats::new();
    let interval = HeartbeatInterval::parse(60).unwrap();
    all.start("s", "gone", interval, START);
    let waiter = all.begin_wait("s", "gone", 25, START).unwrap();
    let stopped = body(&all.stop("s", "gone").unwrap());
    assert_eq!(stopped.get_text("status"), Some("stopped"));
    assert_eq!(
        all.end_wait("s", "gone", waiter, START + seconds(25)).unwrap_err(),
        "heartbeat \"gone\" was stopped while waiting"
    );
    assert_eq!(all.stop("s", "gone").unwrap_err(), "heartbeat \"gone\" is not running");
    assert_eq!(
        all.status("s", "gone", START).unwrap_err(),
        "heartbeat \"gone\" is not running"
    );
    assert_eq!(
        all.begin_wait("s", "gone", 25, START).unwrap_err(),
        "heartbeat \"gone\" is not running; call heartbeat_start first"
    );
}

#[test]
fn heartbeats_belong_to_their_session() {
    let mut all = Heartbeats::new();
    let interval = HeartbeatInterval::parse(60).unwrap();
    all.start("first", "default", interval, START);
    assert!(all.get("second", "default").is_none());
    assert!(all.status("second", "default", START).is_err());
}

#[test]
fn status_skips_missed_ticks() {
    let mut all = Heartbeats::new();
    let interval = HeartbeatInterval::parse(60).unwrap();
    all.start("s", "default", interval, START);
    let shown = body(&all.status("s", "default", START + seconds(150)).unwrap());
    assert_eq!(shown.get_text("status"), Some("idle"));
    assert_eq!(shown.get("skipped_ticks"), Some(&Json::Unsigned(2)));
    assert_eq!(shown.get("next_tick_in_ms"), Some(&Json::Unsigned(30_000)));
    all.begin_wait("s", "default", 25, START + seconds(150)).unwrap();
    let waiting = body(&all.status("s", "default", START + seconds(151)).unwrap());
    assert_eq!(waiting.get_text("status"), Some("waiting"));
}

#[test]
fn results_are_written_on_lines_of_their_own() {
    let heartbeat = Heartbeat::new(60, START, 1);
    let answer = heartbeat_result("default", "idle", &heartbeat, START);
    match answer.get("content") {
        Some(Json::Array(items)) => assert_eq!(
            items[0].get_text("text"),
            Some(
                "{\n  \"delivered_ticks\": 0,\n  \"interval_seconds\": 60,\n  \"name\": \"default\",\n  \"next_tick_in_ms\": 60000,\n  \"skipped_ticks\": 0,\n  \"status\": \"idle\"\n}"
            )
        ),
        _ => panic!("expected content"),
    }
}

#[test]
fn names_and_waits_have_defaults() {
    let name = HeartbeatName::parse("work").unwrap();
    assert_eq!(heartbeat_name(Some(&name)), "work");
    assert_eq!(heartbeat_name(None), "default");
    assert_eq!(heartbeat_max_wait(Some(HeartbeatWait::parse(3).unwrap())), 3);
    assert_eq!(heartbeat_max_wait(None), 25);
}
