//! Structured operational log records. The library decides the level and the
//! exact text of each record; the program stamps and prints them.
use vstd::prelude::*;
use crate::text::{decimal, push_decimal, push_str};

verus! {

/// Log levels for structured operational logging.
#[derive(Clone, Copy, Debug, PartialEq, Eq, Structural)]
pub enum LogLevel {
    Info,
    Warn,
    Error,
}

pub open spec fn level_name(level: LogLevel) -> Seq<char> {
    match level {
        LogLevel::Info => "INFO"@,
        LogLevel::Warn => "WARN"@,
        LogLevel::Error => "ERROR"@,
    }
}

impl LogLevel {
    /// The upper-case name printed in log lines.
    pub fn as_str(&self) -> (s: &'static str)
        ensures
            s@ == level_name(*self),
    {
        match self {
            LogLevel::Info => "INFO",
            LogLevel::Warn => "WARN",
            LogLevel::Error => "ERROR",
        }
    }
}

/// One log record: its level and its message.
#[derive(Clone, Debug, PartialEq)]
pub struct LogRecord {
    pub level: LogLevel,
    pub message: String,
}

/// The printed form of a record stamped at `timestamp_ms`.
pub open spec fn log_line_text(timestamp_ms: u64, level: LogLevel, message: Seq<char>) -> Seq<char> {
    "["@ + decimal(timestamp_ms as nat) + "] ["@ + level_name(level) + "] "@ + message
}

/// Renders `[timestamp] [LEVEL] message`.
pub fn render_log_line(timestamp_ms: u64, record: &LogRecord) -> (s: String)
    ensures
        s@ == log_line_text(timestamp_ms, record.level, record.message@),
{
    let mut s = String::new();
    push_str(&mut s, "[");
    push_decimal(&mut s, timestamp_ms);
    push_str(&mut s, "] [");
    push_str(&mut s, record.level.as_str());
    push_str(&mut s, "] ");
    push_str(&mut s, record.message.as_str());
    s
}

/// Error records go to the error stream, the others to standard output.
pub fn uses_error_stream(level: LogLevel) -> (b: bool)
    ensures
        b == (level == LogLevel::Error),
{
    match level {
        LogLevel::Error => true,
        _ => false,
    }
}

/// A replay session finished.
pub fn replay_stop(file_path: &str, emitted: u64) -> (r: LogRecord)
    ensures
        r.level == LogLevel::Info,
        r.message@ == "replay stop: file="@ + file_path@ + " emitted="@ + decimal(emitted as nat),
{
    let mut m = String::new();
    push_str(&mut m, "replay stop: file=");
    push_str(&mut m, file_path);
    push_str(&mut m, " emitted=");
    push_decimal(&mut m, emitted);
    LogRecord { level: LogLevel::Info, message: m }
}

/// A replay line was skipped.
pub fn replay_skip(line_number: u64, file_path: &str, reason: &str) -> (r: LogRecord)
    ensures
        r.level == LogLevel::Warn,
        r.message@ == "replay skip: file="@ + file_path@ + " line="@ + decimal(line_number as nat)
            + " reason="@ + reason@,
{
    let mut m = String::new();
    push_str(&mut m, "replay skip: file=");
    push_str(&mut m, file_path);
    push_str(&mut m, " line=");
    push_decimal(&mut m, line_number);
    push_str(&mut m, " reason=");
    push_str(&mut m, reason);
    LogRecord { level: LogLevel::Warn, message: m }
}

/// A recording is migrated between schema versions.
pub fn schema_migrate(from_version: u32, to_version: u32, file_path: Option<&str>) -> (r: LogRecord)
    ensures
        r.level == LogLevel::Info,
        r.message@ == "schema migrate: v"@ + decimal(from_version as nat) + " -> v"@ + decimal(
            to_version as nat,
        ) + match file_path {
            Some(p) => " file="@ + p@,
            None => Seq::<char>::empty(),
        },
{
    let mut m = String::new();
    push_str(&mut m, "schema migrate: v");
    push_decimal(&mut m, from_version as u64);
    push_str(&mut m, " -> v");
    push_decimal(&mut m, to_version as u64);
    match file_path {
        Some(p) => {
            push_str(&mut m, " file=");
            push_str(&mut m, p);
        },
        None => {
            assert(m@ + Seq::<char>::empty() =~= m@);
        },
    }
    LogRecord { level: LogLevel::Info, message: m }
}

/// A recording uses a schema version this library does not know.
pub fn schema_unknown(version: u32, file_path: &str) -> (r: LogRecord)
    ensures
        r.level == LogLevel::Warn,
        r.message@ == "schema unknown: version="@ + decimal(version as nat) + " file="@ + file_path@,
{
    let mut m = String::new();
    push_str(&mut m, "schema unknown: version=");
    push_decimal(&mut m, version as u64);
    push_str(&mut m, " file=");
    push_str(&mut m, file_path);
    LogRecord { level: LogLevel::Warn, message: m }
}

/// A malformed line was met.
pub fn corrupted_line(line_number: u64, file_path: &str, error: &str) -> (r: LogRecord)
    ensures
        r.level == LogLevel::Warn,
        r.message@ == "corrupted line: file="@ + file_path@ + " line="@ + decimal(line_number as nat)
            + " error="@ + error@,
{
    let mut m = String::new();
    push_str(&mut m, "corrupted line: file=");
    push_str(&mut m, file_path);
    push_str(&mut m, " line=");
    push_decimal(&mut m, line_number);
    push_str(&mut m, " error=");
    push_str(&mut m, error);
    LogRecord { level: LogLevel::Warn, message: m }
}

/// An event was dropped.
pub fn event_dropped(reason: &str, event_type: &str) -> (r: LogRecord)
    ensures
        r.level == LogLevel::Warn,
        r.message@ == "event dropped: reason="@ + reason@ + " event_type="@ + event_type@,
{
    let mut m = String::new();
    push_str(&mut m, "event dropped: reason=");
    push_str(&mut m, reason);
    push_str(&mut m, " event_type=");
    push_str(&mut m, event_type);
    LogRecord { level: LogLevel::Warn, message: m }
}

/// A queue reached its capacity.
pub fn queue_overflow(current_depth: usize, capacity: usize) -> (r: LogRecord)
    ensures
        r.level == LogLevel::Warn,
        r.message@ == "queue overflow: depth="@ + decimal(current_depth as nat) + "/"@ + decimal(
            capacity as nat,
        ),
{
    let mut m = String::new();
    push_str(&mut m, "queue overflow: depth=");
    push_decimal(&mut m, current_depth as u64);
    push_str(&mut m, "/");
    push_decimal(&mut m, capacity as u64);
    LogRecord { level: LogLevel::Warn, message: m }
}

/// Writing a recording failed.
pub fn recorder_failure(error: &str, session_id: &str) -> (r: LogRecord)
    ensures
        r.level == LogLevel::Error,
        r.message@ == "recorder failure: session="@ + session_id@ + " error="@ + error@,
{
    let mut m = String::new();
    push_str(&mut m, "recorder failure: session=");
    push_str(&mut m, session_id);
    push_str(&mut m, " error=");
    push_str(&mut m, error);
    LogRecord { level: LogLevel::Error, message: m }
}

/// A recording session started.
pub fn recorder_start(session_id: &str, file_path: &str) -> (r: LogRecord)
    ensures
        r.level == LogLevel::Info,
        r.message@ == "recorder start: session="@ + session_id@ + " file="@ + file_path@,
{
    let mut m = String::new();
    push_str(&mut m, "recorder start: session=");
    push_str(&mut m, session_id);
    push_str(&mut m, " file=");
    push_str(&mut m, file_path);
    LogRecord { level: LogLevel::Info, message: m }
}

/// A recording session stopped.
pub fn recorder_stop(session_id: &str, event_count: u64) -> (r: LogRecord)
    ensures
        r.level == LogLevel::Info,
        r.message@ == "recorder stop: session="@ + session_id@ + " events="@ + decimal(
            event_count as nat,
        ),
{
    let mut m = String::new();
    push_str(&mut m, "recorder stop: session=");
    push_str(&mut m, session_id);
    push_str(&mut m, " events=");
    push_decimal(&mut m, event_count);
    LogRecord { level: LogLevel::Info, message: m }
}

/// A free-form informational record.
pub fn info(message: &str) -> (r: LogRecord)
    ensures
        r.level == LogLevel::Info,
        r.message@ == message@,
{
    let mut m = String::new();
    push_str(&mut m, message);
    LogRecord { level: LogLevel::Info, message: m }
}

/// A free-form warning record.
pub fn warn(message: &str) -> (r: LogRecord)
    ensures
        r.level == LogLevel::Warn,
        r.message@ == message@,
{
    let mut m = String::new();
    push_str(&mut m, message);
    LogRecord { level: LogLevel::Warn, message: m }
}

/// A free-form error record.
pub fn error(message: &str) -> (r: LogRecord)
    ensures
        r.level == LogLevel::Error,
        r.message@ == message@,
{
    let mut m = String::new();
    push_str(&mut m, message);
    LogRecord { level: LogLevel::Error, message: m }
}

} // verus!
