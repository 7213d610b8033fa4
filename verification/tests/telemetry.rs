use esp32c6_matter_human_detection::telemetry::{
    bytes_contain, bytes_start_with, log_enabled, telemetry_suppressed, LineBatch, LogLevel,
    TelemetryHealth, BATCH_CAPACITY, HEARTBEAT_MS, SINK_PAUSE_MS, STORM_PAUSE_MS,
};

#[test]
fn openthread_targets_log_down_to_debug() {
    assert!(log_enabled("openthread::mle", LogLevel::Debug));
    assert!(!log_enabled("openthread::mle", LogLevel::Trace));
    assert!(log_enabled("repeater", LogLevel::Info));
    assert!(!log_enabled("repeater", LogLevel::Debug));
    assert!(log_enabled("esp_radio", LogLevel::Error));
    assert!(!log_enabled("openthrea", LogLevel::Debug));
}

#[test]
fn echo_lines_are_suppressed() {
    assert!(telemetry_suppressed("[I] Ip6: Sent to fd00::1:9999"));
    assert!(telemetry_suppressed("bound port 12424"));
    assert!(telemetry_suppressed("Failed to find valid route for dst"));
    assert!(telemetry_suppressed("MeshForwarder-: Sent IPv6 UDP msg"));
    assert!(!telemetry_suppressed("repeater: role -> Router"));
    assert!(!telemetry_suppressed("port 999"));
    assert!(!telemetry_suppressed(""));
}

#[test]
fn byte_search_helpers() {
    assert!(bytes_contain(b"abcabd", b"abd"));
    assert!(!bytes_contain(b"abcab", b"abd"));
    assert!(bytes_contain(b"abc", b""));
    assert!(!bytes_contain(b"ab", b"abc"));
    assert!(bytes_start_with(b"openthread", b"open"));
    assert!(!bytes_start_with(b"op", b"open"));
}

#[test]
fn batch_joins_lines_until_full() {
    let mut b = LineBatch::new();
    assert_eq!(b.bytes(), b"");
    b.start("first");
    assert!(b.has_line_room());
    assert!(b.try_add("second"));
    assert_eq!(b.bytes(), b"first\nsecond");
    let long = "x".repeat(BATCH_CAPACITY - 12);
    assert!(!b.try_add(&long));
    assert_eq!(b.bytes(), b"first\nsecond");
    let fits = "y".repeat(BATCH_CAPACITY - 13);
    assert!(b.try_add(&fits));
    assert_eq!(b.bytes().len(), BATCH_CAPACITY);
    b.start("again");
    assert_eq!(b.bytes(), b"again");
}

#[test]
fn batch_holds_at_most_eight_lines() {
    let mut b = LineBatch::new();
    b.start("0");
    let mut added = 1;
    while b.has_line_room() {
        assert!(b.try_add("n"));
        added += 1;
    }
    assert_eq!(added, 8);
    assert_eq!(b.bytes(), b"0\nn\nn\nn\nn\nn\nn\nn");
}

#[test]
fn oversized_first_line_is_dropped() {
    let mut b = LineBatch::new();
    b.start(&"z".repeat(BATCH_CAPACITY + 1));
    assert_eq!(b.bytes(), b"");
}

#[test]
fn failing_sink_pauses_after_five_errors() {
    let mut h = TelemetryHealth::new(0);
    for k in 0..4 {
        h.record_send(1, false, 100);
        assert_eq!(h.sink(1).consec, k + 1);
        assert!(h.sink_ready(1, 100));
    }
    h.record_send(1, false, 1_000);
    assert_eq!(h.sink(1).err, 5);
    assert_eq!(h.sink(1).consec, 0);
    assert!(!h.sink_ready(1, 1_000 + SINK_PAUSE_MS - 1));
    assert!(h.sink_ready(1, 1_000 + SINK_PAUSE_MS));
    h.record_send(0, true, 50);
    assert_eq!(h.sink(0).ok, 1);
    assert!(h.sink_ready(0, 0));
}

#[test]
fn success_ends_failure_run() {
    let mut h = TelemetryHealth::new(0);
    h.record_send(0, false, 1);
    h.record_send(0, false, 2);
    h.record_send(0, true, 3);
    assert_eq!(h.sink(0).consec, 0);
    assert_eq!(h.sink(0).err, 2);
    assert_eq!(h.sink(0).ok, 1);
}

#[test]
fn echo_storm_pauses_every_sink() {
    let mut h = TelemetryHealth::new(1_000);
    assert!(!h.heartbeat_due(1_000 + HEARTBEAT_MS - 1));
    assert!(h.heartbeat_due(1_000 + HEARTBEAT_MS));
    assert_eq!(h.next_heartbeat_ms(), 1_000 + HEARTBEAT_MS);
    for _ in 0..300 {
        h.batch_sent();
    }
    assert_eq!(h.heartbeat(11_000), None);
    for _ in 0..301 {
        h.batch_sent();
    }
    assert_eq!(h.heartbeat(21_000), Some(301));
    assert!(!h.sink_ready(0, 21_000 + STORM_PAUSE_MS - 1));
    assert!(!h.sink_ready(1, 21_000));
    assert!(h.sink_ready(1, 21_000 + STORM_PAUSE_MS));
    assert_eq!(h.next_heartbeat_ms(), 21_000 + HEARTBEAT_MS);
    assert_eq!(h.heartbeat(31_000), None);
}
