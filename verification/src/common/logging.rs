//! Severity levels of log messages.
//!
//! The library writes no log: the sink belongs to the program around it.

use vstd::prelude::*;

verus! {

/// How severe a log message is, least severe first.
#[derive(Debug, Clone, Copy, PartialEq, Eq, PartialOrd, Ord, Structural)]
pub enum LogLevel {
    Debug,
    Info,
    Warn,
    Error,
}

impl LogLevel {
    /// The rank of a level: 0 for `Debug` up to 3 for `Error`.
    pub open spec fn rank(self) -> int {
        match self {
            LogLevel::Debug => 0,
            LogLevel::Info => 1,
            LogLevel::Warn => 2,
            LogLevel::Error => 3,
        }
    }

    /// The name of a level in capitals.
    pub open spec fn name(self) -> Seq<char> {
        match self {
            LogLevel::Debug => "DEBUG"@,
            LogLevel::Info => "INFO"@,
            LogLevel::Warn => "WARN"@,
            LogLevel::Error => "ERROR"@,
        }
    }

    /// Returns the name of the level in capitals.
    pub fn as_str(&self) -> (r: &'static str)
        ensures
            r@ == self.name(),
    {
        match self {
            LogLevel::Debug => "DEBUG",
            LogLevel::Info => "INFO",
            LogLevel::Warn => "WARN",
            LogLevel::Error => "ERROR",
        }
    }

    /// Returns the rank of the level: 0 for `Debug` up to 3 for `Error`.
    pub fn as_u8(&self) -> (r: u8)
        ensures
            r == self.rank(),
    {
        match self {
            LogLevel::Debug => 0,
            LogLevel::Info => 1,
            LogLevel::Warn => 2,
            LogLevel::Error => 3,
        }
    }

    /// Returns whether a message of this level passes a filter that lets
    /// `min_level` and everything more severe through.
    pub fn passes(&self, min_level: LogLevel) -> (r: bool)
        ensures
            r == (self.rank() >= min_level.rank()),
    {
        self.as_u8() >= min_level.as_u8()
    }
}

} // verus!
