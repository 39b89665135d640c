//! Log levels and the decision of which messages a logger shows.
use vstd::prelude::*;

verus! {

/// How much a logger shows, from everything (`Debug`) to nothing (`Off`).
#[derive(Debug, Clone, Copy, PartialEq, Eq, Structural)]
pub enum LogLevel {
    Debug,
    Info,
    Warn,
    Error,
    Off,
}

impl LogLevel {
    /// The level's place in the order Debug < Info < Warn < Error < Off.
    pub open spec fn spec_rank(self) -> u8 {
        match self {
            LogLevel::Debug => 0,
            LogLevel::Info => 1,
            LogLevel::Warn => 2,
            LogLevel::Error => 3,
            LogLevel::Off => 4,
        }
    }

    pub fn rank(&self) -> (r: u8)
        ensures
            r == self.spec_rank(),
    {
        match self {
            LogLevel::Debug => 0,
            LogLevel::Info => 1,
            LogLevel::Warn => 2,
            LogLevel::Error => 3,
            LogLevel::Off => 4,
        }
    }
}

impl Default for LogLevel {
    fn default() -> (r: Self)
        ensures
            r == LogLevel::Info,
    {
        LogLevel::Info
    }
}

/// A logger: a level and a prefix put before each message.
pub struct Logger {
    pub level: LogLevel,
    pub prefix: String,
}

impl Logger {
    pub fn new(level: LogLevel, prefix: String) -> (r: Self)
        ensures
            r.level == level,
            r.prefix == prefix,
    {
        Logger { level, prefix }
    }

    /// Whether a message of level `at` is shown.
    pub fn enabled(&self, at: LogLevel) -> (r: bool)
        ensures
            r == (self.level.spec_rank() <= at.spec_rank()),
    {
        self.level.rank() <= at.rank()
    }

    /// The line a message is shown as: the prefix, then the message.
    pub fn line(&self, message: &str) -> (r: String)
        ensures
            r@ == self.prefix@ + message@,
    {
        let mut s = self.prefix.clone();
        s.append(message);
        s
    }
}

} // verus!
