//! The application's log: what is written, where, and when the file is
//! rotated. Writing itself is left to the caller.

use crate::platform::{data_local_dir, local_time_text};
use crate::settings::AppSettings;
use crate::text::same_text;
use vstd::prelude::*;

verus! {

/// How serious a message is.
#[derive(Debug, Clone, Copy, PartialEq, Eq, Structural)]
pub enum LogLevel {
    Info,
    Warning,
    Error,
    Debug,
}

impl LogLevel {
    /// The name of the level in a log entry.
    pub open spec fn spec_as_str(self) -> Seq<char> {
        match self {
            LogLevel::Info => "INFO"@,
            LogLevel::Warning => "WARN"@,
            LogLevel::Error => "ERROR"@,
            LogLevel::Debug => "DEBUG"@,
        }
    }

    /// The rank of the level: the lower, the more serious.
    pub open spec fn spec_rank(self) -> i32 {
        match self {
            LogLevel::Error => 0,
            LogLevel::Warning => 1,
            LogLevel::Info => 2,
            LogLevel::Debug => 3,
        }
    }

    /// The name of the level in a log entry.
    pub fn as_str(&self) -> (name: &'static str)
        ensures
            name@ == self.spec_as_str(),
    {
        match self {
            LogLevel::Info => "INFO",
            LogLevel::Warning => "WARN",
            LogLevel::Error => "ERROR",
            LogLevel::Debug => "DEBUG",
        }
    }

    /// The rank of the level: the lower, the more serious.
    pub fn rank(&self) -> (rank: i32)
        ensures
            rank == self.spec_rank(),
    {
        match self {
            LogLevel::Error => 0,
            LogLevel::Warning => 1,
            LogLevel::Info => 2,
            LogLevel::Debug => 3,
        }
    }
}

/// The highest rank that is logged under the configured level; an unknown
/// level counts as "info".
pub open spec fn threshold(configured: Seq<char>) -> i32 {
    if configured == "error"@ {
        0
    } else if configured == "warn"@ {
        1
    } else if configured == "info"@ {
        2
    } else if configured == "debug"@ {
        3
    } else {
        2
    }
}

/// The name `name` inside the directory `dir`.
pub open spec fn child_path(dir: Seq<char>, name: Seq<char>) -> Seq<char> {
    if dir.len() == 0 || dir.last() == '/' {
        dir + name
    } else {
        dir + "/"@ + name
    }
}

/// The path of the log file, given the directory for the user's local
/// data: `parut/parut.log` inside it, or inside `/tmp` where there is none.
pub open spec fn log_path_in(data_dir: Option<Seq<char>>) -> Seq<char> {
    child_path(
        match data_dir {
            Some(dir) => child_path(dir, "parut"@),
            None => "/tmp/parut"@,
        },
        "parut.log"@,
    )
}

/// The largest size of the log file in bytes: the configured megabytes, at
/// least one, and no more than fits in 64 bits.
pub open spec fn max_log_bytes(max_mb: u64) -> u64 {
    let mb = if max_mb < 1 {
        1
    } else {
        max_mb as int
    };
    if mb * 1048576 > u64::MAX {
        u64::MAX
    } else {
        (mb * 1048576) as u64
    }
}

/// One line of the log: the time in brackets, the level, a colon and the
/// message.
pub open spec fn log_entry(timestamp: Seq<char>, level: LogLevel, message: Seq<char>) -> Seq<char> {
    "["@ + timestamp + "] "@ + level.spec_as_str() + ": "@ + message + "\n"@
}

/// What to do for one message.
#[derive(Debug)]
pub struct LogRecord {
    /// Where to move the log file first, if it has grown too large.
    pub rotate_to: Option<String>,
    /// The line to append to the log file.
    pub entry: String,
    /// Whether to print the line to standard error too.
    pub echo: bool,
}

/// A log record as mathematical values.
pub struct LogRecordView {
    pub rotate_to: Option<Seq<char>>,
    pub entry: Seq<char>,
    pub echo: bool,
}

impl View for LogRecord {
    type V = LogRecordView;

    open spec fn view(&self) -> LogRecordView {
        LogRecordView {
            rotate_to: match self.rotate_to {
                Some(p) => Some(p@),
                None => None,
            },
            entry: self.entry@,
            echo: self.echo,
        }
    }
}

/// What logging `message` at `level` comes to, for a log file at `path` of
/// `size` bytes, at the time `timestamp`: nothing where the configured level
/// leaves the message out; else the entry, whether it is echoed, which
/// warnings and errors are, and the rotation where the file is larger than
/// allowed.
pub open spec fn log_plan(
    path: Seq<char>,
    level: LogLevel,
    message: Seq<char>,
    configured: Seq<char>,
    max_mb: u64,
    timestamp: Seq<char>,
    size: Option<u64>,
) -> Option<LogRecordView> {
    if level.spec_rank() <= threshold(configured) {
        Some(
            LogRecordView {
                rotate_to: match size {
                    Some(bytes) => if bytes > max_log_bytes(max_mb) {
                        Some(path + ".1"@)
                    } else {
                        None
                    },
                    None => None,
                },
                entry: log_entry(timestamp, level, message),
                echo: level == LogLevel::Error || level == LogLevel::Warning,
            },
        )
    } else {
        None
    }
}

/// The view of an optional log record.
pub open spec fn opt_record(r: Option<LogRecord>) -> Option<LogRecordView> {
    match r {
        Some(rec) => Some(rec@),
        None => None,
    }
}

/// The name `name` inside the directory `dir`.
pub fn child_of(dir: &str, name: &str) -> (path: String)
    ensures
        path@ == child_path(dir@, name@),
{
    let letters = crate::text::chars_of(dir);
    let mut path = dir.to_owned();
    if letters.len() > 0 && letters[letters.len() - 1] != '/' {
        path.append("/");
    }
    path.append(name);
    path
}

/// The log and where it is kept.
#[derive(Debug)]
pub struct Logger {
    log_path: String,
}

impl View for Logger {
    type V = Seq<char>;

    closed spec fn view(&self) -> Seq<char> {
        self.log_path@
    }
}

impl Logger {
    /// A log kept under the directory for the user's local data, or under
    /// `/tmp` where there is none.
    pub fn in_data_dir(data_dir: Option<String>) -> (logger: Self)
        ensures
            logger@ == log_path_in(
                match data_dir {
                    Some(dir) => Some(dir@),
                    None => None,
                },
            ),
    {
        let dir = match data_dir {
            Some(dir) => child_of(dir.as_str(), "parut"),
            None => "/tmp/parut".to_owned(),
        };
        Logger { log_path: child_of(dir.as_str(), "parut.log") }
    }

    /// A log kept where the platform keeps the user's local data.
    pub fn new() -> (logger: Self)
        ensures
            exists|data_dir: Option<Seq<char>>| logger@ == #[trigger] log_path_in(data_dir),
    {
        let dir = data_local_dir();
        let logger = Self::in_data_dir(dir);
        assert(logger@ == log_path_in(
            match dir {
                Some(d) => Some(d@),
                None => None,
            },
        ));
        logger
    }

    /// The path of the log file.
    pub fn get_log_path(&self) -> (path: &String)
        ensures
            path@ == self@,
    {
        &self.log_path
    }

    /// Whether a message at `level` is logged under the settings.
    pub fn should_log(level: LogLevel, settings: &AppSettings) -> (r: bool)
        ensures
            r == (level.spec_rank() <= threshold(settings.log_level@)),
    {
        let configured = settings.log_level.as_str();
        let limit: i32 = if same_text(configured, "error") {
            0
        } else if same_text(configured, "warn") {
            1
        } else if same_text(configured, "info") {
            2
        } else if same_text(configured, "debug") {
            3
        } else {
            2
        };
        level.rank() <= limit
    }

    /// Where to move the log file before the next entry, if its size is
    /// above what the settings allow; nowhere where the size is unknown.
    pub fn rotate_if_needed(&self, settings: &AppSettings, size: Option<u64>) -> (target: Option<
        String,
    >)
        ensures
            match target {
                Some(p) => size is Some && size->0 > max_log_bytes(settings.max_log_size_mb) && p@
                    == self@ + ".1"@,
                None => !(size is Some && size->0 > max_log_bytes(settings.max_log_size_mb)),
            },
    {
        let mb: u64 = if settings.max_log_size_mb < 1 {
            1
        } else {
            settings.max_log_size_mb
        };
        let max_bytes: u64 = if mb > u64::MAX / 1048576 {
            u64::MAX
        } else {
            mb * 1048576
        };
        match size {
            Some(bytes) => if bytes > max_bytes {
                let mut target = self.log_path.clone();
                target.append(".1");
                Some(target)
            } else {
                None
            },
            None => None,
        }
    }

    /// What logging `message` at `level` comes to at the time `timestamp`,
    /// for a log file of `size` bytes.
    pub fn log_at(
        &self,
        level: LogLevel,
        message: &str,
        settings: &AppSettings,
        timestamp: &str,
        size: Option<u64>,
    ) -> (record: Option<LogRecord>)
        ensures
            opt_record(record) == log_plan(
                self@,
                level,
                message@,
                settings.log_level@,
                settings.max_log_size_mb,
                timestamp@,
                size,
            ),
    {
        if !Self::should_log(level, settings) {
            return None;
        }
        let rotate_to = self.rotate_if_needed(settings, size);
        let mut entry = "[".to_owned();
        entry.append(timestamp);
        entry.append("] ");
        entry.append(level.as_str());
        entry.append(": ");
        entry.append(message);
        entry.append("\n");
        let echo = match level {
            LogLevel::Error | LogLevel::Warning => true,
            _ => false,
        };
        Some(LogRecord { rotate_to, entry, echo })
    }

    /// What logging `message` at `level` comes to now, by the local clock,
    /// for a log file of `size` bytes.
    pub fn log(&self, level: LogLevel, message: &str, settings: &AppSettings, size: Option<u64>) -> (record:
        Option<LogRecord>)
        ensures
            exists|timestamp: Seq<char>|
                opt_record(record) == #[trigger] log_plan(
                    self@,
                    level,
                    message@,
                    settings.log_level@,
                    settings.max_log_size_mb,
                    timestamp,
                    size,
                ),
    {
        let timestamp = match local_time_text("%Y-%m-%d %H:%M:%S") {
            Some(text) => text,
            None => String::new(),
        };
        self.log_at(level, message, settings, timestamp.as_str(), size)
    }

    /// What logging `message` as information comes to.
    pub fn info(&self, message: &str, settings: &AppSettings, size: Option<u64>) -> (record: Option<
        LogRecord,
    >)
        ensures
            exists|timestamp: Seq<char>|
                opt_record(record) == #[trigger] log_plan(
                    self@,
                    LogLevel::Info,
                    message@,
                    settings.log_level@,
                    settings.max_log_size_mb,
                    timestamp,
                    size,
                ),
    {
        self.log(LogLevel::Info, message, settings, size)
    }

    /// What logging `message` as a warning comes to.
    pub fn warning(&self, message: &str, settings: &AppSettings, size: Option<u64>) -> (record:
        Option<LogRecord>)
        ensures
            exists|timestamp: Seq<char>|
                opt_record(record) == #[trigger] log_plan(
                    self@,
                    LogLevel::Warning,
                    message@,
                    settings.log_level@,
                    settings.max_log_size_mb,
                    timestamp,
                    size,
                ),
    {
        self.log(LogLevel::Warning, message, settings, size)
    }

    /// What logging `message` as an error comes to.
    pub fn error(&self, message: &str, settings: &AppSettings, size: Option<u64>) -> (record: Option<
        LogRecord,
    >)
        ensures
            exists|timestamp: Seq<char>|
                opt_record(record) == #[trigger] log_plan(
                    self@,
                    LogLevel::Error,
                    message@,
                    settings.log_level@,
                    settings.max_log_size_mb,
                    timestamp,
                    size,
                ),
    {
        self.log(LogLevel::Error, message, settings, size)
    }

    /// What logging `message` for debugging comes to.
    pub fn debug(&self, message: &str, settings: &AppSettings, size: Option<u64>) -> (record: Option<
        LogRecord,
    >)
        ensures
            exists|timestamp: Seq<char>|
                opt_record(record) == #[trigger] log_plan(
                    self@,
                    LogLevel::Debug,
                    message@,
                    settings.log_level@,
                    settings.max_log_size_mb,
                    timestamp,
                    size,
                ),
    {
        self.log(LogLevel::Debug, message, settings, size)
    }
}

} // verus!
