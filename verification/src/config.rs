//! The run configuration handed in by the command line, and the logging
//! verbosity it selects.

use vstd::prelude::*;

verus! {

/// How much the run should say about itself.
#[derive(Clone, Copy, Debug, PartialEq, Eq, Structural)]
pub enum LogLevel {
    Error,
    Info,
    Debug,
}

/// The options of one run: where to read, where to write, whether to bypass
/// the dimension cache, and how loud to be.
#[derive(Debug)]
pub struct Config {
    pub input: String,
    pub output: String,
    pub force: bool,
    pub quiet: bool,
    pub verbose: bool,
}

impl Config {
    /// The logging level the flags select; `verbose` outranks `quiet`.
    pub fn log_level(&self) -> (r: LogLevel)
        ensures
            r == if self.verbose {
                LogLevel::Debug
            } else if self.quiet {
                LogLevel::Error
            } else {
                LogLevel::Info
            },
    {
        if self.verbose {
            LogLevel::Debug
        } else if self.quiet {
            LogLevel::Error
        } else {
            LogLevel::Info
        }
    }
}

} // verus!
