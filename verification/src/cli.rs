//! The command line: which command to run, on which flake.

use vstd::prelude::*;

use crate::config::FileConfig;

verus! {

/// What `check` can check.
#[derive(Clone, Copy, Debug, PartialEq, Eq)]
pub enum CheckCommand {
    /// That a commit keeps to this host, or to what is shared.
    Boundaries,
}

/// The commands.
#[derive(Debug)]
pub enum Command {
    Switch,
    Update,
    Check { command: CheckCommand },
}

/// The command line, read.
#[derive(Debug)]
pub struct Cli {
    /// The configuration file named with `--config`, read.
    pub config: Option<FileConfig>,
    pub command: Command,
    /// The flake to work on.
    pub flake: String,
}

/// The work a command line comes to.
#[derive(Debug, PartialEq, Eq)]
pub enum Task {
    /// Check that the commit standing in the flake's repository keeps to one host.
    CheckBoundaries { flake: String },
}

impl Cli {
    /// Whether the command is one there is an implementation for: `switch`
    /// and `update` are not yet reachable from the command line.
    pub open spec fn runnable(&self) -> bool {
        self.command is Check
    }

    /// Whether the command is one there is an implementation for, asked
    /// before running it.
    pub fn is_runnable(&self) -> (r: bool)
        ensures
            r == self.runnable(),
    {
        match &self.command {
            Command::Check { .. } => true,
            _ => false,
        }
    }

    /// The work the command line comes to: the check it names, on the flake
    /// it names.
    pub fn run(&self) -> (task: Task)
        requires
            self.runnable(),
        ensures
            task matches Task::CheckBoundaries { flake } && flake@ == self.flake@,
    {
        match &self.command {
            Command::Check { command } => match command {
                CheckCommand::Boundaries => Task::CheckBoundaries { flake: self.flake.clone() },
            },
            _ => Task::CheckBoundaries { flake: self.flake.clone() },
        }
    }
}

} // verus!
