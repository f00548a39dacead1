//! The commands of the command line, and what they ask of the run
//! controller.

use vstd::prelude::*;
use crate::controller::RunType;

verus! {

/// `std::path::PathBuf`, carried through as it is: nothing is claimed of what
/// a path holds.
#[verifier::external_type_specification]
#[verifier::external_body]
pub struct ExPathBuf(std::path::PathBuf);

/// The arguments of one invocation.
#[derive(Clone, Debug)]
pub struct CliArgs {
    pub command: Commands,
}

/// How much is logged, from the most to the least.
#[derive(Clone, Copy, Debug, PartialEq, Eq, PartialOrd, Ord)]
pub enum LogLevel {
    Trace,
    Debug,
    Info,
    Warn,
    Error,
    Off,
}

/// What the program is asked to do.
#[derive(Clone, Debug)]
pub enum Commands {
    /// Keep the records up to date.
    Run {
        /// Run one cycle and end: what happens unless `loops` is set.
        once: bool,
        /// Run cycle after cycle until told to stop.
        loops: bool,
        /// The log level; `Info` where none is given.
        log: Option<LogLevel>,
        /// Where the configuration and the logs are kept.
        datadir: Option<std::path::PathBuf>,
    },
    /// Have the host run the program by itself.
    Install { component: InstallComponents },
    /// Undo an `Install`.
    Uninstall { component: UninstallComponents },
}

/// What can be installed.
#[derive(Clone, Copy, Debug, PartialEq, Eq)]
pub enum InstallComponents {
    /// A service of the host that runs the loop.
    Service,
    /// A task of the host's scheduler that runs one cycle every two minutes.
    Schedule,
    /// A cron job that runs one cycle every two minutes.
    Cron,
}

/// What can be uninstalled: each of the things that can be installed.
#[derive(Clone, Copy, Debug, PartialEq, Eq)]
pub enum UninstallComponents {
    Service,
    Schedule,
    Cron,
}

impl Commands {
    /// The kind of run that the command asks for, if it asks for a run.
    pub open spec fn wanted_run(self) -> Option<RunType> {
        match self {
            Commands::Run { once, loops, log, datadir } => if loops {
                Some(RunType::Loops)
            } else {
                Some(RunType::Once)
            },
            _ => None,
        }
    }

    /// The kind of run that the command asks for, if it asks for a run: a
    /// loop where `loops` is set, one cycle else.
    pub fn run_type(&self) -> (wanted: Option<RunType>)
        ensures
            wanted == self.wanted_run(),
    {
        match self {
            Commands::Run { once: _, loops, log: _, datadir: _ } => if *loops {
                Some(RunType::Loops)
            } else {
                Some(RunType::Once)
            },
            _ => None,
        }
    }
}

/// The level that is logged at: the one asked for, `Info` where none was.
pub fn effective_log_level(log: Option<LogLevel>) -> (level: LogLevel)
    ensures
        level == match log {
            Some(asked) => asked,
            None => LogLevel::Info,
        },
{
    match log {
        Some(asked) => asked,
        None => LogLevel::Info,
    }
}

} // verus!
