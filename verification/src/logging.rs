//! How much rheo says while it works.

use vstd::prelude::*;

verus! {

/// How talkative the command line is.
#[derive(Debug, Clone, Copy, PartialEq, Eq, Structural)]
pub enum Verbosity {
    /// Errors only.
    Quiet,
    /// The usual progress lines.
    Normal,
    /// Debug information too.
    Verbose,
}

/// The most detailed level of log line that is shown.
#[derive(Debug, Clone, Copy, PartialEq, Eq, Structural)]
pub enum Level {
    Error,
    Warn,
    Info,
    Debug,
    Trace,
}

impl Verbosity {
    /// The level filter this verbosity shows: errors when quiet, progress
    /// when normal, debug information when verbose.
    pub fn to_level_filter(self) -> (l: Level)
        ensures
            l == (match self {
                Verbosity::Quiet => Level::Error,
                Verbosity::Normal => Level::Info,
                Verbosity::Verbose => Level::Debug,
            }),
    {
        match self {
            Verbosity::Quiet => Level::Error,
            Verbosity::Normal => Level::Info,
            Verbosity::Verbose => Level::Debug,
        }
    }

    /// The verbosity the `--quiet` and `--verbose` flags ask for; quiet wins.
    pub fn from_flags(verbose: bool, quiet: bool) -> (v: Verbosity)
        ensures
            v == (if quiet {
                Verbosity::Quiet
            } else if verbose {
                Verbosity::Verbose
            } else {
                Verbosity::Normal
            }),
    {
        if quiet {
            Verbosity::Quiet
        } else if verbose {
            Verbosity::Verbose
        } else {
            Verbosity::Normal
        }
    }
}

} // verus!
