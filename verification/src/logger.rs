//! The application log: the line written for each message and when the
//! log file is rotated.
use vstd::prelude::*;
use crate::text::push_all;

verus! {

/// A log file that reaches this size is rotated before the next line.
pub const MAX_LOG_SIZE_BYTES: u64 = 1_048_576;

/// The severity of a log line.
#[derive(Clone, Copy, PartialEq, Eq, Debug, Structural)]
pub enum LogLevel {
    Info,
    Warn,
    Error,
}

pub open spec fn level_name(level: LogLevel) -> Seq<char> {
    match level {
        LogLevel::Info => "INFO"@,
        LogLevel::Warn => "WARN"@,
        LogLevel::Error => "ERROR"@,
    }
}

impl LogLevel {
    /// The name written in the log.
    pub fn name(&self) -> (r: &'static str)
        ensures
            r@ == level_name(*self),
    {
        match self {
            LogLevel::Info => "INFO",
            LogLevel::Warn => "WARN",
            LogLevel::Error => "ERROR",
        }
    }
}

/// `[timestamp] [LEVEL] message` and a line break.
pub open spec fn log_line_text(timestamp: Seq<char>, level: LogLevel, message: Seq<char>) -> Seq<char> {
    "["@ + timestamp + "] ["@ + level_name(level) + "] "@ + message + "\n"@
}

/// The line written for `message`.
pub fn log_line(timestamp: &str, level: LogLevel, message: &str) -> (r: String)
    ensures
        r@ == log_line_text(timestamp@, level, message@),
{
    let mut line = String::from_str("[");
    push_all(&mut line, timestamp);
    push_all(&mut line, "] [");
    push_all(&mut line, level.name());
    push_all(&mut line, "] ");
    push_all(&mut line, message);
    push_all(&mut line, "\n");
    line
}

/// The line that `info` writes.
pub fn info(timestamp: &str, message: &str) -> (r: String)
    ensures
        r@ == log_line_text(timestamp@, LogLevel::Info, message@),
{
    log_line(timestamp, LogLevel::Info, message)
}

/// The line that `warn` writes.
pub fn warn(timestamp: &str, message: &str) -> (r: String)
    ensures
        r@ == log_line_text(timestamp@, LogLevel::Warn, message@),
{
    log_line(timestamp, LogLevel::Warn, message)
}

/// The line that `error` writes.
pub fn error(timestamp: &str, message: &str) -> (r: String)
    ensures
        r@ == log_line_text(timestamp@, LogLevel::Error, message@),
{
    log_line(timestamp, LogLevel::Error, message)
}

/// Whether a log file of `size` bytes, if it exists, is rotated first.
pub fn needs_rotation(exists: bool, size: u64) -> (r: bool)
    ensures
        r == (exists && size >= MAX_LOG_SIZE_BYTES),
{
    exists && size >= MAX_LOG_SIZE_BYTES
}

} // verus!
