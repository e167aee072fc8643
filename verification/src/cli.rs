//! The commands of the tool and what they ask for, as plain values.

use vstd::prelude::*;

verus! {

/// What was asked for on the command line.
#[derive(Debug, Clone, PartialEq, Eq)]
pub struct Cli {
    pub command: Commands,
    /// How much is to be logged: see `Cli::log_level`.
    pub verbosity: u8,
}

/// The commands.
#[derive(Debug, Clone, PartialEq, Eq)]
pub enum Commands {
    /// Make the current directory the dotfiles directory; with `overwrite`
    /// write a new file of declarations.
    Init { overwrite: bool },
    /// Point the state file to the current directory.
    Setup,
    /// Take `source` into the dotfiles directory and declare a link for it
    /// that belongs at `target`, under `name` or else under the name that
    /// `source` ends in.
    Add { source: String, target: String, name: Option<String> },
    /// Put the links in place: those of the profiles, or all where no
    /// profile is given.
    Link { overwrite: bool, profiles: Vec<String> },
    /// Take the links away. This is not available.
    Unlink,
}

/// How much is logged, from least to most.
#[derive(Debug, Clone, Copy, PartialEq, Eq, Structural)]
pub enum LogLevel {
    Error,
    Warn,
    Info,
    Debug,
    Trace,
}

/// The level that a verbosity stands for: one to four for errors, warnings,
/// information and debugging, anything else for everything.
pub open spec fn level_of(verbosity: u8) -> LogLevel {
    if verbosity == 1 {
        LogLevel::Error
    } else if verbosity == 2 {
        LogLevel::Warn
    } else if verbosity == 3 {
        LogLevel::Info
    } else if verbosity == 4 {
        LogLevel::Debug
    } else {
        LogLevel::Trace
    }
}

impl Cli {
    /// The level at which to log.
    pub fn log_level(&self) -> (level: LogLevel)
        ensures
            level == level_of(self.verbosity),
    {
        match self.verbosity {
            1 => LogLevel::Error,
            2 => LogLevel::Warn,
            3 => LogLevel::Info,
            4 => LogLevel::Debug,
            _ => LogLevel::Trace,
        }
    }
}

} // verus!
