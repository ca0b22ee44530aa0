//! The failures that the tool reports, each with its line of text.

use vstd::prelude::*;
use vstd::string::*;

verus! {

/// Why a command did not succeed.
#[derive(Clone, Copy, Debug, PartialEq, Eq, Structural)]
pub enum ErrState {
    /// A file or directory could not be read, or an object not written.
    AddFailed,
    /// No command was given.
    BadUse,
    /// The repository's directories could not be created.
    InitFailed,
    /// The command lacks its path argument.
    LackOfArg,
    /// No directory from the starting directory upward holds the marker.
    NotARepo,
    /// The command is not known.
    UnknownCmd,
}

/// The line of text that reports `err`.
pub open spec fn message_of(err: ErrState) -> Seq<char> {
    match err {
        ErrState::AddFailed => "Add file failed!"@,
        ErrState::BadUse => "usage: mygit <command> [<args>]"@,
        ErrState::InitFailed => "Initialize failed!"@,
        ErrState::LackOfArg => "Lack of arguments!"@,
        ErrState::NotARepo => "Not a mygit repository!"@,
        ErrState::UnknownCmd => "Unknown command!"@,
    }
}

impl ErrState {
    /// The line of text that reports this failure.
    pub fn message(&self) -> (text: String)
        ensures
            text@ == message_of(*self),
    {
        match self {
            ErrState::AddFailed => String::from_str("Add file failed!"),
            ErrState::BadUse => String::from_str("usage: mygit <command> [<args>]"),
            ErrState::InitFailed => String::from_str("Initialize failed!"),
            ErrState::LackOfArg => String::from_str("Lack of arguments!"),
            ErrState::NotARepo => String::from_str("Not a mygit repository!"),
            ErrState::UnknownCmd => String::from_str("Unknown command!"),
        }
    }
}

/// The exit code for an outcome: 0 for success, 1 for any failure.
pub fn exit_code(outcome: &Result<(), ErrState>) -> (code: i32)
    ensures
        code == (if outcome is Ok { 0i32 } else { 1i32 }),
{
    match outcome {
        Ok(_) => 0,
        Err(_) => 1,
    }
}

} // verus!
