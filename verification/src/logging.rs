//! Log levels: their names, their order, and which messages a level lets through.
use vstd::prelude::*;

verus! {

/// How much is logged, from least to most.
#[derive(Debug, Clone, Copy, PartialEq, Eq, Structural)]
pub enum LogLevel {
    Error,
    Warn,
    Info,
    Debug,
}

/// The rank of a level: 1 for errors up to 4 for debug output.
pub open spec fn rank(l: LogLevel) -> nat {
    match l {
        LogLevel::Error => 1,
        LogLevel::Warn => 2,
        LogLevel::Info => 3,
        LogLevel::Debug => 4,
    }
}

impl LogLevel {
    /// Parses a level name (`error`, `warn`, `info`, `debug`, exactly).
    pub fn parse(value: &str) -> (r: Option<LogLevel>)
        ensures
            r == if value@ == "error"@ {
                Some(LogLevel::Error)
            } else if value@ == "warn"@ {
                Some(LogLevel::Warn)
            } else if value@ == "info"@ {
                Some(LogLevel::Info)
            } else if value@ == "debug"@ {
                Some(LogLevel::Debug)
            } else {
                None::<LogLevel>
            },
    {
        let v = crate::text::chars_of(value);
        if crate::text::seq_eq(&v, &crate::text::chars_of("error")) {
            Some(LogLevel::Error)
        } else if crate::text::seq_eq(&v, &crate::text::chars_of("warn")) {
            Some(LogLevel::Warn)
        } else if crate::text::seq_eq(&v, &crate::text::chars_of("info")) {
            Some(LogLevel::Info)
        } else if crate::text::seq_eq(&v, &crate::text::chars_of("debug")) {
            Some(LogLevel::Debug)
        } else {
            None
        }
    }

    /// The rank of the level (see [`rank`]).
    pub fn rank(&self) -> (r: u8)
        ensures
            r == rank(*self),
    {
        match self {
            LogLevel::Error => 1,
            LogLevel::Warn => 2,
            LogLevel::Info => 3,
            LogLevel::Debug => 4,
        }
    }
}

/// Whether a message of `level` is logged when the threshold is `current`: its rank is at
/// most the threshold's.
pub fn enabled_at(current: LogLevel, level: LogLevel) -> (r: bool)
    ensures
        r == (rank(level) <= rank(current)),
{
    level.rank() <= current.rank()
}

/// The threshold in force before any is set.
pub fn default_level() -> (r: LogLevel)
    ensures
        r == LogLevel::Info,
{
    LogLevel::Info
}

} // verus!
