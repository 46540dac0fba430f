use spectraguard::telemetry::logger::{
    corrupted_line, error, event_dropped, info, queue_overflow, recorder_failure, recorder_start,
    recorder_stop, render_log_line, replay_skip, replay_stop, schema_migrate, schema_unknown,
    uses_error_stream, warn, LogLevel,
};

#[test]
fn log_levels_are_correct() {
    assert_eq!(LogLevel::Info.as_str(), "INFO");
    assert_eq!(LogLevel::Warn.as_str(), "WARN");
    assert_eq!(LogLevel::Error.as_str(), "ERROR");
}

#[test]
fn operational_log_functions_do_not_panic() {
    recorder_start("test-session", "/tmp/test.jsonl");
    recorder_stop("test-session", 42);
    recorder_failure("write error", "test-session");
    event_dropped("queue full", "sweep_data");
    queue_overflow(100, 64);
    corrupted_line(5, "/tmp/test.jsonl", "invalid json");
    replay_stop("/tmp/test.jsonl", 95);
    replay_skip(5, "/tmp/test.jsonl", "malformed");
    schema_migrate(0, 1, Some("/tmp/test.jsonl"));
    schema_unknown(99, "/tmp/test.jsonl");
    info("test info message");
    warn("test warn message");
    error("test error message");
}

#[test]
fn operational_records_carry_their_level_and_text() {
    let r = recorder_start("test-session", "/tmp/test.jsonl");
    assert_eq!(r.level, LogLevel::Info);
    assert_eq!(r.message, "recorder start: session=test-session file=/tmp/test.jsonl");

    let r = recorder_stop("test-session", 42);
    assert_eq!(r.message, "recorder stop: session=test-session events=42");

    let r = recorder_failure("write error", "test-session");
    assert_eq!(r.level, LogLevel::Error);
    assert_eq!(r.message, "recorder failure: session=test-session error=write error");

    let r = queue_overflow(100, 64);
    assert_eq!(r.level, LogLevel::Warn);
    assert_eq!(r.message, "queue overflow: depth=100/64");

    let r = schema_migrate(0, 1, Some("/tmp/test.jsonl"));
    assert_eq!(r.message, "schema migrate: v0 -> v1 file=/tmp/test.jsonl");
    let r = schema_migrate(0, 1, None);
    assert_eq!(r.message, "schema migrate: v0 -> v1");

    let r = replay_skip(5, "/tmp/test.jsonl", "malformed");
    assert_eq!(r.message, "replay skip: file=/tmp/test.jsonl line=5 reason=malformed");

    let r = corrupted_line(5, "/tmp/test.jsonl", "invalid json");
    assert_eq!(r.message, "corrupted line: file=/tmp/test.jsonl line=5 error=invalid json");

    let r = event_dropped("queue full", "sweep_data");
    assert_eq!(r.message, "event dropped: reason=queue full event_type=sweep_data");

    let r = schema_unknown(99, "/tmp/test.jsonl");
    assert_eq!(r.message, "schema unknown: version=99 file=/tmp/test.jsonl");

    let r = replay_stop("/tmp/test.jsonl", 95);
    assert_eq!(r.message, "replay stop: file=/tmp/test.jsonl emitted=95");
}

#[test]
fn log_lines_are_stamped_and_routed_by_level() {
    let line = render_log_line(1234, &warn("careful"));
    assert_eq!(line, "[1234] [WARN] careful");
    assert!(uses_error_stream(LogLevel::Error));
    assert!(!uses_error_stream(LogLevel::Warn));
    assert!(!uses_error_stream(LogLevel::Info));
}
