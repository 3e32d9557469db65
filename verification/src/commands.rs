//! The split subcommand names and their one-line descriptions.

use vstd::prelude::*;

verus! {

/// A split subcommand, or none that this tool knows.
#[derive(Debug, Clone, Copy, PartialEq, Eq, Structural)]
pub enum CommandName {
    SplitInAs,
    SplitIn,
    SplitOut,
    UnknownCommand,
}

/// The wire name of each command, as spelled on the command line.
pub open spec fn command_name_spec(c: CommandName) -> Seq<char> {
    match c {
        CommandName::SplitInAs => "split-in-as"@,
        CommandName::SplitIn => "split-in"@,
        CommandName::SplitOut => "split-out"@,
        CommandName::UnknownCommand => ""@,
    }
}

/// The one-line description of each command.
pub open spec fn command_description_spec(c: CommandName) -> Seq<char> {
    match c {
        CommandName::SplitInAs => "fetch the entirety of a remote repository and place it in a subdirectory of this repository"@,
        CommandName::SplitIn => "fetch and rewrite a remote repository's history onto a new branch such that it only contains certain paths according to a repo-file"@,
        CommandName::SplitOut => "rewrite this repository history onto a new branch such that it only contains certain paths according to a repo-file"@,
        CommandName::UnknownCommand => ""@,
    }
}

impl CommandName {
    pub fn description(&self) -> (r: &'static str)
        ensures
            r@ == command_description_spec(*self),
    {
        match self {
            CommandName::SplitInAs => "fetch the entirety of a remote repository and place it in a subdirectory of this repository",
            CommandName::SplitIn => "fetch and rewrite a remote repository's history onto a new branch such that it only contains certain paths according to a repo-file",
            CommandName::SplitOut => "rewrite this repository history onto a new branch such that it only contains certain paths according to a repo-file",
            CommandName::UnknownCommand => "",
        }
    }

    /// The command-line spelling of this command.
    pub fn name(&self) -> (r: &'static str)
        ensures
            r@ == command_name_spec(*self),
    {
        match self {
            CommandName::SplitInAs => "split-in-as",
            CommandName::SplitIn => "split-in",
            CommandName::SplitOut => "split-out",
            CommandName::UnknownCommand => "",
        }
    }

    /// The command a spelling names; anything unknown maps to
    /// `UnknownCommand`.
    pub fn from_name(value: &str) -> (r: CommandName)
        ensures
            value@ == command_name_spec(CommandName::SplitInAs) ==> r == CommandName::SplitInAs,
            value@ == command_name_spec(CommandName::SplitIn) ==> r == CommandName::SplitIn,
            value@ == command_name_spec(CommandName::SplitOut) ==> r == CommandName::SplitOut,
    {
        proof {
            reveal_strlit("split-in-as");
            reveal_strlit("split-in");
            reveal_strlit("split-out");
            assert("split-in-as"@.len() == 11);
            assert("split-in"@.len() == 8);
            assert("split-out"@.len() == 9);
        }
        let r = if str_eq(value, "split-in-as") {
            CommandName::SplitInAs
        } else if str_eq(value, "split-in") {
            CommandName::SplitIn
        } else if str_eq(value, "split-out") {
            CommandName::SplitOut
        } else {
            CommandName::UnknownCommand
        };
        r
    }
}

/// Compare two string slices by contents.
pub fn str_eq(a: &str, b: &str) -> (r: bool)
    ensures
        r == (a@ == b@),
{
    let a_owned = a.to_owned();
    let b_owned = b.to_owned();
    a_owned == b_owned
}

} // verus!
