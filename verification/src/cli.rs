//! The command-line surface as plain data: every option of the tool and
//! its subcommands, free of any argument-parsing machinery.

use vstd::prelude::*;

verus! {

/// Options of the `check` subcommand.
#[derive(Debug)]
pub struct MgtCommandCheck {
    pub all: bool,
    pub local: bool,
    pub recursive: bool,
    pub remote: bool,
    pub local_branch: Option<String>,
    pub remote_branch: Option<String>,
    /// The positional repo-file argument; a list only to match the
    /// parser's shape, in practice one entry.
    pub repo_file: Vec<String>,
}

/// Options of the `topbase` subcommand.
#[derive(Debug)]
pub struct MgtCommandTopbase {
    pub base_or_top: Vec<String>,
    pub dry_run: bool,
    pub verbose: bool,
}

/// Options shared by the split subcommands.
#[derive(Debug)]
pub struct MgtCommandSplit {
    pub generate_repo_file: bool,
    pub verbose: bool,
    pub dry_run: bool,
    pub input_branch: Option<String>,
    pub num_commits: Option<u32>,
    pub output_branch: Option<String>,
    pub rebase_flag: bool,
    pub rebase: Option<String>,
    pub topbase_flag: bool,
    pub topbase: Option<String>,
    pub as_subdir: Option<String>,
    /// Set by the program, not by the user.
    pub direction: Option<Direction>,
    pub repo_file: Vec<String>,
}

/// Which way a split moves history.
#[derive(Debug, Clone, Copy, PartialEq, Eq, Structural)]
pub enum Direction {
    Out,
    In,
}

#[derive(Debug)]
pub struct MgtCommandHelp {}

/// One parsed subcommand with its options.
#[derive(Debug)]
pub enum MgtSubcommands {
    Help(MgtCommandHelp),
    Check(MgtCommandCheck),
    Topbase(MgtCommandTopbase),
    SplitIn(MgtCommandSplit),
    SplitInAs(MgtCommandSplit),
    SplitOut(MgtCommandSplit),
    SplitOutAs(MgtCommandSplit),
}

/// The tool's top-level options.
#[derive(Debug)]
pub struct Mgt {
    pub dry_run: bool,
    pub verbose: bool,
    pub help: bool,
    pub version: bool,
    pub command: Option<MgtSubcommands>,
}

impl Mgt {
    pub fn new() -> (r: Mgt)
        ensures
            !r.dry_run,
            !r.verbose,
            !r.help,
            !r.version,
            r.command is None,
    {
        Mgt { dry_run: false, verbose: false, help: false, version: false, command: None }
    }
}

} // verus!
