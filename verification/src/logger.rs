//! Levelled logging: which messages pass, and how a line reads. Writing the
//! lines to a file is left to the caller.

use vstd::prelude::*;
use vstd::string::StringExecFns;

verus! {

/// Severity of a message, from the least to the most severe.
#[derive(Debug, Clone, Copy, PartialEq, Eq, PartialOrd, Ord, Structural)]
pub enum LogLevel {
    Debug,
    Info,
    Warning,
    Error,
}

/// Position of a level in the order of severity.
pub open spec fn level_rank(level: LogLevel) -> int {
    match level {
        LogLevel::Debug => 0,
        LogLevel::Info => 1,
        LogLevel::Warning => 2,
        LogLevel::Error => 3,
    }
}

/// The tag that stands for a level in a line.
pub open spec fn level_text(level: LogLevel) -> Seq<char> {
    match level {
        LogLevel::Info => "INFO"@,
        LogLevel::Warning => "WARN"@,
        LogLevel::Error => "ERROR"@,
        LogLevel::Debug => "DEBUG"@,
    }
}

impl LogLevel {
    /// The tag that stands for the level in a line.
    pub fn as_str(&self) -> (tag: &'static str)
        ensures
            tag@ == level_text(*self),
    {
        match self {
            LogLevel::Info => "INFO",
            LogLevel::Warning => "WARN",
            LogLevel::Error => "ERROR",
            LogLevel::Debug => "DEBUG",
        }
    }

    /// Position of the level in the order of severity.
    pub fn rank(&self) -> (r: u8)
        ensures
            r == level_rank(*self),
    {
        match self {
            LogLevel::Debug => 0,
            LogLevel::Info => 1,
            LogLevel::Warning => 2,
            LogLevel::Error => 3,
        }
    }
}

/// The text of the calendar time `secs` seconds after the start of 1970 in
/// UTC, as `YYYY-MM-DD hh:mm:ss UTC`; `None` for a time that the calendar
/// does not reach.
pub uninterp spec fn utc_stamp_text(secs: int) -> Option<Seq<char>>;

/// Calls `chrono::DateTime::from_timestamp` and `DateTime::format` with the
/// pattern `%Y-%m-%d %H:%M:%S UTC`. Trusted: the result is the text that
/// chrono gives for these seconds, and `None` where chrono has no such
/// time; nothing is claimed about what the text holds.
#[verifier::external_body]
fn utc_stamp(secs: i64) -> (stamp: Option<String>)
    ensures
        stamp is Some <==> utc_stamp_text(secs as int) is Some,
        stamp matches Some(s) ==> utc_stamp_text(secs as int) == Some(s@),
{
    match chrono::DateTime::from_timestamp(secs, 0) {
        Some(t) => Some(t.format("%Y-%m-%d %H:%M:%S UTC").to_string()),
        None => None,
    }
}

/// Text that is still to be formatted, carried through as it is.
#[verifier::external_type_specification]
#[verifier::external_body]
pub struct ExArguments<'a>(std::fmt::Arguments<'a>);

/// Calls `std::fmt::format`. Trusted, with nothing claimed of the text.
#[verifier::external_body]
fn render(args: std::fmt::Arguments<'_>) -> (text: String) {
    std::fmt::format(args)
}

/// How a line reads: the stamp and the level's tag in brackets, the
/// message, and a line feed.
pub open spec fn line_text(stamp: Seq<char>, level: LogLevel, message: Seq<char>) -> Seq<char> {
    "["@ + stamp + "] ["@ + level_text(level) + "] "@ + message + "\n"@
}

/// Builds one line of the log.
pub fn format_line(stamp: &str, level: LogLevel, message: &str) -> (line: String)
    ensures
        line@ == line_text(stamp@, level, message@),
{
    let mut line = String::from_str("[");
    line.append(stamp);
    line.append("] [");
    line.append(level.as_str());
    line.append("] ");
    line.append(message);
    line.append("\n");
    line
}

/// Where the log goes and which messages pass.
pub struct Logger {
    file_path: String,
    enabled: bool,
    min_level: LogLevel,
}

impl Logger {
    /// Path of the file that the lines are meant for.
    pub closed spec fn spec_file_path(&self) -> Seq<char> {
        self.file_path@
    }

    /// Whether anything passes at all.
    pub closed spec fn spec_enabled(&self) -> bool {
        self.enabled
    }

    /// The least severe level that passes.
    pub closed spec fn spec_min_level(&self) -> LogLevel {
        self.min_level
    }

    /// A message of `level` passes: the logger is enabled and the level is
    /// at least as severe as the least one it lets through.
    pub open spec fn passes(&self, level: LogLevel) -> bool {
        self.spec_enabled() && level_rank(level) >= level_rank(self.spec_min_level())
    }

    /// The line for a message that passes, stamped with the time `secs`;
    /// `None` for one that does not pass or a time without a text.
    pub open spec fn line_for(&self, level: LogLevel, message: Seq<char>, secs: int) -> Option<
        Seq<char>,
    > {
        if !self.passes(level) {
            None
        } else {
            match utc_stamp_text(secs) {
                Some(stamp) => Some(line_text(stamp, level, message)),
                None => None,
            }
        }
    }

    /// A logger that lets every level through.
    pub fn new(file_path: &str, enabled: bool) -> (logger: Self)
        ensures
            logger.spec_file_path() == file_path@,
            logger.spec_enabled() == enabled,
            logger.spec_min_level() == LogLevel::Debug,
    {
        Self::new_with_level(file_path, enabled, LogLevel::Debug)
    }

    /// A logger for `file_path` that lets `min_level` and above through.
    pub fn new_with_level(file_path: &str, enabled: bool, min_level: LogLevel) -> (logger: Self)
        ensures
            logger.spec_file_path() == file_path@,
            logger.spec_enabled() == enabled,
            logger.spec_min_level() == min_level,
    {
        Logger { file_path: file_path.to_owned(), enabled, min_level }
    }

    /// An enabled logger that drops debug messages.
    pub fn new_production(file_path: &str) -> (logger: Self)
        ensures
            logger.spec_file_path() == file_path@,
            logger.spec_enabled(),
            logger.spec_min_level() == LogLevel::Info,
    {
        Self::new_with_level(file_path, true, LogLevel::Info)
    }

    /// An enabled logger that lets every level through.
    pub fn new_development(file_path: &str) -> (logger: Self)
        ensures
            logger.spec_file_path() == file_path@,
            logger.spec_enabled(),
            logger.spec_min_level() == LogLevel::Debug,
    {
        Self::new_with_level(file_path, true, LogLevel::Debug)
    }

    /// Whether a message of `level` passes.
    pub fn should_log(&self, level: LogLevel) -> (ok: bool)
        ensures
            ok == self.passes(level),
    {
        self.enabled && level.rank() >= self.min_level.rank()
    }

    /// The line to append to the log for `message`, stamped with the time
    /// `unix_secs`.
    pub fn log(&self, level: LogLevel, message: &str, unix_secs: i64) -> (line: Option<String>)
        ensures
            line is Some <==> self.line_for(level, message@, unix_secs as int) is Some,
            line matches Some(l) ==> self.line_for(level, message@, unix_secs as int) == Some(l@),
    {
        if !self.should_log(level) {
            return None;
        }
        match utc_stamp(unix_secs) {
            Some(stamp) => Some(format_line(stamp.as_str(), level, message)),
            None => None,
        }
    }

    /// As `log`, for a message still to be formatted; a message that does
    /// not pass is not formatted at all.
    pub fn log_fmt(&self, level: LogLevel, args: std::fmt::Arguments<'_>, unix_secs: i64) -> (line:
        Option<String>)
        ensures
            !self.passes(level) ==> line is None,
            utc_stamp_text(unix_secs as int) is None ==> line is None,
            self.passes(level) && utc_stamp_text(unix_secs as int) is Some ==> line is Some,
            line matches Some(l) ==> exists|message: Seq<char>|
                self.line_for(level, message, unix_secs as int) == Some(l@),
    {
        if !self.should_log(level) {
            return None;
        }
        let message = render(args);
        self.log(level, message.as_str(), unix_secs)
    }

    /// As `log`, at the level of information.
    pub fn info(&self, message: &str, unix_secs: i64) -> (line: Option<String>)
        ensures
            line is Some <==> self.line_for(LogLevel::Info, message@, unix_secs as int) is Some,
            line matches Some(l) ==> self.line_for(LogLevel::Info, message@, unix_secs as int)
                == Some(l@),
    {
        self.log(LogLevel::Info, message, unix_secs)
    }

    /// As `log`, at the level of warnings.
    pub fn warn(&self, message: &str, unix_secs: i64) -> (line: Option<String>)
        ensures
            line is Some <==> self.line_for(LogLevel::Warning, message@, unix_secs as int) is Some,
            line matches Some(l) ==> self.line_for(LogLevel::Warning, message@, unix_secs as int)
                == Some(l@),
    {
        self.log(LogLevel::Warning, message, unix_secs)
    }

    /// As `log`, at the level of errors.
    pub fn error(&self, message: &str, unix_secs: i64) -> (line: Option<String>)
        ensures
            line is Some <==> self.line_for(LogLevel::Error, message@, unix_secs as int) is Some,
            line matches Some(l) ==> self.line_for(LogLevel::Error, message@, unix_secs as int)
                == Some(l@),
    {
        self.log(LogLevel::Error, message, unix_secs)
    }

    /// As `log`, at the level of debugging.
    pub fn debug(&self, message: &str, unix_secs: i64) -> (line: Option<String>)
        ensures
            line is Some <==> self.line_for(LogLevel::Debug, message@, unix_secs as int) is Some,
            line matches Some(l) ==> self.line_for(LogLevel::Debug, message@, unix_secs as int)
                == Some(l@),
    {
        self.log(LogLevel::Debug, message, unix_secs)
    }

    /// As `log_fmt`, at the level of information.
    pub fn info_fmt(&self, args: std::fmt::Arguments<'_>, unix_secs: i64) -> (line: Option<String>)
        ensures
            !self.passes(LogLevel::Info) ==> line is None,
            utc_stamp_text(unix_secs as int) is None ==> line is None,
            self.passes(LogLevel::Info) && utc_stamp_text(unix_secs as int) is Some ==> line is Some,
            line matches Some(l) ==> exists|message: Seq<char>|
                self.line_for(LogLevel::Info, message, unix_secs as int) == Some(l@),
    {
        self.log_fmt(LogLevel::Info, args, unix_secs)
    }

    /// As `log_fmt`, at the level of warnings.
    pub fn warn_fmt(&self, args: std::fmt::Arguments<'_>, unix_secs: i64) -> (line: Option<String>)
        ensures
            !self.passes(LogLevel::Warning) ==> line is None,
            utc_stamp_text(unix_secs as int) is None ==> line is None,
            self.passes(LogLevel::Warning) && utc_stamp_text(unix_secs as int) is Some
                ==> line is Some,
            line matches Some(l) ==> exists|message: Seq<char>|
                self.line_for(LogLevel::Warning, message, unix_secs as int) == Some(l@),
    {
        self.log_fmt(LogLevel::Warning, args, unix_secs)
    }

    /// As `log_fmt`, at the level of errors.
    pub fn error_fmt(&self, args: std::fmt::Arguments<'_>, unix_secs: i64) -> (line: Option<String>)
        ensures
            !self.passes(LogLevel::Error) ==> line is None,
            utc_stamp_text(unix_secs as int) is None ==> line is None,
            self.passes(LogLevel::Error) && utc_stamp_text(unix_secs as int) is Some
                ==> line is Some,
            line matches Some(l) ==> exists|message: Seq<char>|
                self.line_for(LogLevel::Error, message, unix_secs as int) == Some(l@),
    {
        self.log_fmt(LogLevel::Error, args, unix_secs)
    }

    /// As `log_fmt`, at the level of debugging.
    pub fn debug_fmt(&self, args: std::fmt::Arguments<'_>, unix_secs: i64) -> (line: Option<String>)
        ensures
            !self.passes(LogLevel::Debug) ==> line is None,
            utc_stamp_text(unix_secs as int) is None ==> line is None,
            self.passes(LogLevel::Debug) && utc_stamp_text(unix_secs as int) is Some
                ==> line is Some,
            line matches Some(l) ==> exists|message: Seq<char>|
                self.line_for(LogLevel::Debug, message, unix_secs as int) == Some(l@),
    {
        self.log_fmt(LogLevel::Debug, args, unix_secs)
    }

    /// Whether clearing the log has anything to clear: a disabled logger
    /// leaves its file alone.
    pub fn clear(&self) -> (truncate: bool)
        ensures
            truncate == self.spec_enabled(),
    {
        self.enabled
    }

    /// Path of the file that the lines are meant for.
    pub fn file_path(&self) -> (path: &str)
        ensures
            path@ == self.spec_file_path(),
    {
        self.file_path.as_str()
    }

    /// Whether anything passes at all.
    pub fn is_enabled(&self) -> (enabled: bool)
        ensures
            enabled == self.spec_enabled(),
    {
        self.enabled
    }

    /// Switches the logger on or off.
    pub fn set_enabled(&mut self, enabled: bool)
        ensures
            final(self).spec_enabled() == enabled,
            final(self).spec_file_path() == old(self).spec_file_path(),
            final(self).spec_min_level() == old(self).spec_min_level(),
    {
        self.enabled = enabled;
    }

    /// The least severe level that passes.
    pub fn min_level(&self) -> (level: LogLevel)
        ensures
            level == self.spec_min_level(),
    {
        self.min_level
    }

    /// Sets the least severe level that passes.
    pub fn set_min_level(&mut self, level: LogLevel)
        ensures
            final(self).spec_min_level() == level,
            final(self).spec_file_path() == old(self).spec_file_path(),
            final(self).spec_enabled() == old(self).spec_enabled(),
    {
        self.min_level = level;
    }
}

} // verus!
