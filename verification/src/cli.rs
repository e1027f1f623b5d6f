//! The command line: flags and what `main` does with them.

use vstd::prelude::*;

verus! {

/// Subcommands; the bare command scans.
#[derive(Debug, Clone, Copy, PartialEq, Eq)]
pub enum Command {
    /// Replace the binary with the latest release (`--check`: only report
    /// whether one is available).
    Update { check: bool, compact: bool },
}

/// Parsed command-line arguments.
#[derive(Debug, Clone, Copy, PartialEq, Eq)]
pub struct Cli {
    /// Emit single-line JSON instead of pretty-printed.
    pub compact: bool,
    /// Render a human-readable summary instead of JSON.
    pub summary: bool,
    pub command: Option<Command>,
}

/// What `main` does.
#[derive(Debug, Clone, Copy, PartialEq, Eq)]
pub enum Action {
    /// `--summary` with `update`: refused, exit code 2.
    RejectSummaryWithUpdate,
    /// Run the update (or only check it), reporting JSON.
    Update { check: bool, compact: bool },
    /// Scan and print the human summary.
    Summary,
    /// Scan and print the JSON contract.
    Scan { compact: bool },
}

impl Cli {
    pub open spec fn wants_compact_spec(&self) -> bool {
        self.compact || (self.command matches Some(Command::Update { compact: true, .. }))
    }

    /// Single-line JSON was asked for, before or after the subcommand.
    pub fn wants_compact(&self) -> (r: bool)
        ensures
            r == self.wants_compact_spec(),
    {
        self.compact || match self.command {
            Some(Command::Update { compact, .. }) => compact,
            None => false,
        }
    }

    /// What `main` does with these arguments.
    pub fn action(&self) -> (r: Action)
        ensures
            r == match self.command {
                Some(Command::Update { check, .. }) => if self.summary {
                    Action::RejectSummaryWithUpdate
                } else {
                    Action::Update { check, compact: self.wants_compact_spec() }
                },
                None => if self.summary {
                    Action::Summary
                } else {
                    Action::Scan { compact: self.wants_compact_spec() }
                },
            },
    {
        let compact = self.wants_compact();
        match self.command {
            Some(Command::Update { check, .. }) => {
                if self.summary {
                    Action::RejectSummaryWithUpdate
                } else {
                    Action::Update { check, compact }
                }
            },
            None => {
                if self.summary {
                    Action::Summary
                } else {
                    Action::Scan { compact }
                }
            },
        }
    }
}

} // verus!
