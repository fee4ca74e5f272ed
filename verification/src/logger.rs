//! The operational log.
//!
//! The logger decides whether a message is written, composes its line and
//! says where the line belongs. Writing it is left to the caller.

use vstd::prelude::*;

verus! {

/// The severity of a message, from the least to the most severe.
#[derive(Debug, Clone, Copy, PartialEq, Eq, Structural, PartialOrd, Ord)]
pub enum LogLevel {
    Debug,
    Warn,
    Error,
}

impl LogLevel {
    /// The place of the level in the order of severity.
    pub open spec fn rank_of(self) -> int {
        match self {
            LogLevel::Debug => 0,
            LogLevel::Warn => 1,
            LogLevel::Error => 2,
        }
    }

    /// The name of the level as a line shows it.
    pub open spec fn label_of(self) -> Seq<char> {
        match self {
            LogLevel::Debug => "DEBUG"@,
            LogLevel::Warn => "WARN"@,
            LogLevel::Error => "ERROR"@,
        }
    }

    /// The escape sequence that sets the colour of the level.
    pub open spec fn color_of(self) -> Seq<char> {
        match self {
            LogLevel::Debug => "\x1b[34m"@,
            LogLevel::Warn => "\x1b[33m"@,
            LogLevel::Error => "\x1b[31m"@,
        }
    }

    /// The place of the level in the order of severity.
    pub fn rank(&self) -> (r: u8)
        ensures
            r == self.rank_of(),
    {
        match self {
            LogLevel::Debug => 0,
            LogLevel::Warn => 1,
            LogLevel::Error => 2,
        }
    }

    /// The name of the level: `DEBUG`, `WARN` or `ERROR`.
    pub fn to_string(&self) -> (s: String)
        ensures
            s@ == self.label_of(),
    {
        match self {
            LogLevel::Debug => String::from_str("DEBUG"),
            LogLevel::Warn => String::from_str("WARN"),
            LogLevel::Error => String::from_str("ERROR"),
        }
    }

    /// The escape sequence that sets the colour of the level: blue for
    /// `Debug`, yellow for `Warn`, red for `Error`.
    pub fn color_code(&self) -> (s: &'static str)
        ensures
            s@ == self.color_of(),
    {
        match self {
            LogLevel::Debug => "\x1b[34m",
            LogLevel::Warn => "\x1b[33m",
            LogLevel::Error => "\x1b[31m",
        }
    }
}

/// The line of a message: the time, then the coloured name of the level in
/// square brackets, then the message.
pub open spec fn line_of(time: Seq<char>, level: LogLevel, msg: Seq<char>) -> Seq<char> {
    time + " ["@ + level.color_of() + level.label_of() + "\x1b[0m"@ + "] "@ + msg
}

/// Where a line is written.
#[derive(Debug, Clone, Copy, PartialEq, Eq, Structural)]
pub enum LogStream {
    /// The standard output.
    Stdout,
    /// The standard error.
    Stderr,
}

/// A line that is to be written.
#[derive(Debug, Clone, PartialEq, Eq)]
pub struct LogRecord {
    /// The local time at which the message was logged.
    pub time: String,
    /// The whole line, without a line feed.
    pub line: String,
    /// The stream to which the line belongs.
    pub stream: LogStream,
}

/// The stream of a level: errors go to the standard error, everything else to
/// the standard output.
pub open spec fn stream_of(level: LogLevel) -> LogStream {
    if level == LogLevel::Error {
        LogStream::Stderr
    } else {
        LogStream::Stdout
    }
}

/// The line of a message that was logged at the time `time`.
pub fn format_line(time: &str, level: LogLevel, msg: &str) -> (line: String)
    ensures
        line@ == line_of(time@, level, msg@),
{
    let mut line = String::from_str(time);
    line.append(" [");
    line.append(level.color_code());
    let label = level.to_string();
    line.append(label.as_str());
    line.append("\x1b[0m");
    line.append("] ");
    line.append(msg);
    line
}

/// `chrono::Local::now` and `DateTime::format` with the pattern
/// `%Y-%m-%d %H:%M:%S`: the local date and time of the call. The result
/// depends on the clock and the time zone, so nothing is claimed of it.
/// `chrono` expects the clock of the system not to stand before 1970.
#[verifier::external_body]
fn local_time() -> (out: String) {
    chrono::Local::now().format("%Y-%m-%d %H:%M:%S").to_string()
}

/// A logger that passes the messages of a least severity.
#[derive(Debug)]
pub struct Logger {
    min_level: LogLevel,
}

impl Logger {
    /// The least severity that this logger passes.
    pub closed spec fn min_level(&self) -> LogLevel {
        self.min_level
    }

    /// Whether a message of the given level is passed.
    pub open spec fn passes(&self, level: LogLevel) -> bool {
        level.rank_of() >= self.min_level().rank_of()
    }

    /// A logger that passes the messages of `min_level` and above.
    pub fn new(min_level: LogLevel) -> (out: Logger)
        ensures
            out.min_level() == min_level,
    {
        Logger { min_level }
    }

    /// The record of a message that was logged at the time `time`, or nothing
    /// where the level is below the least severity of this logger.
    pub fn record(&self, time: String, level: LogLevel, msg: &str) -> (out: Option<LogRecord>)
        ensures
            self.passes(level) <==> out is Some,
            out is Some ==> {
                &&& out->0.time@ == time@
                &&& out->0.line@ == line_of(time@, level, msg@)
                &&& out->0.stream == stream_of(level)
            },
    {
        if level.rank() < self.min_level.rank() {
            return None;
        }
        let line = format_line(time.as_str(), level, msg);
        let stream = match level {
            LogLevel::Error => LogStream::Stderr,
            _ => LogStream::Stdout,
        };
        Some(LogRecord { time, line, stream })
    }

    /// Logs `msg` at the given level: the record to write, stamped with the
    /// local time, or nothing where the level is below the least severity of
    /// this logger.
    pub fn log(&self, level: LogLevel, msg: &str) -> (out: Option<LogRecord>)
        ensures
            self.passes(level) <==> out is Some,
            out is Some ==> {
                &&& out->0.line@ == line_of(out->0.time@, level, msg@)
                &&& out->0.stream == stream_of(level)
            },
    {
        if level.rank() < self.min_level.rank() {
            return None;
        }
        self.record(local_time(), level, msg)
    }

    /// Logs `msg` at the level `Debug`.
    pub fn debug(&self, msg: &str) -> (out: Option<LogRecord>)
        ensures
            self.passes(LogLevel::Debug) <==> out is Some,
            out is Some ==> {
                &&& out->0.line@ == line_of(out->0.time@, LogLevel::Debug, msg@)
                &&& out->0.stream == LogStream::Stdout
            },
    {
        self.log(LogLevel::Debug, msg)
    }

    /// Logs `msg` at the level `Warn`.
    pub fn warn(&self, msg: &str) -> (out: Option<LogRecord>)
        ensures
            self.passes(LogLevel::Warn) <==> out is Some,
            out is Some ==> {
                &&& out->0.line@ == line_of(out->0.time@, LogLevel::Warn, msg@)
                &&& out->0.stream == LogStream::Stdout
            },
    {
        self.log(LogLevel::Warn, msg)
    }

    /// Logs `msg` at the level `Error`.
    pub fn error(&self, msg: &str) -> (out: Option<LogRecord>)
        ensures
            self.passes(LogLevel::Error) <==> out is Some,
            out is Some ==> {
                &&& out->0.line@ == line_of(out->0.time@, LogLevel::Error, msg@)
                &&& out->0.stream == LogStream::Stderr
            },
    {
        self.log(LogLevel::Error, msg)
    }
}

} // verus!
