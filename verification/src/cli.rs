//! The command surface: what a caller can ask the library to decide.

use vstd::prelude::*;

verus! {

/// Which generated artifacts a `clean` run may remove.
#[derive(Debug, Clone, Copy, PartialEq, Eq, Structural)]
pub struct CleanSelection {
    /// Shorthand for all five targets.
    pub all: bool,
    pub local: bool,
    pub gemini: bool,
    pub codex: bool,
    pub global: bool,
    pub master: bool,
    /// Report what would be removed without removing it.
    pub dry_run: bool,
}

impl CleanSelection {
    /// The selection after normalisation: `all` expands to every target,
    /// and an empty selection falls back to the local file alone.
    pub open spec fn normalised_spec(self) -> CleanSelection {
        let s = if self.all {
            CleanSelection { local: true, gemini: true, codex: true, global: true, master: true, ..self }
        } else {
            self
        };
        if !s.local && !s.gemini && !s.codex && !s.global && !s.master {
            CleanSelection { local: true, ..s }
        } else {
            s
        }
    }

    /// Normalise the selection.
    pub fn normalised(self) -> (r: CleanSelection)
        ensures
            r == self.normalised_spec(),
    {
        let mut s = self;
        if s.all {
            s.local = true;
            s.gemini = true;
            s.codex = true;
            s.global = true;
            s.master = true;
        }
        if !s.local && !s.gemini && !s.codex && !s.global && !s.master {
            s.local = true;
        }
        s
    }
}

/// One invocation's command.
#[derive(Debug)]
pub enum Commands {
    /// Create a local catalogue here, empty or copied from the per-user one.
    Init { from_global: bool },
    /// List the servers of the per-user catalogue.
    List,
    /// Copy named entries from the per-user catalogue into the local one.
    Add { names: Vec<String> },
    /// Remove an entry from the local catalogue.
    Remove { name: String },
    /// Show (and maybe copy) the launch command of an entry.
    Command { name: String, copy: bool },
    /// Project the local catalogue into the external tool configurations.
    Sync { skip_codex: bool, skip_gemini: bool },
    /// Remove generated artifacts.
    Clean { selection: CleanSelection },
}

/// A parsed command line.
#[derive(Debug)]
pub struct Cli {
    /// Enable informational tracing.
    pub verbose: bool,
    pub command: Commands,
}

} // verus!
