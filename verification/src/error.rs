//! Errors that the shell's commands report.

use vstd::prelude::*;

verus! {

/// An error a command hands back to the shell.
#[derive(Debug, PartialEq)]
pub enum CliError {
    /// A runtime error that carries only its message.
    Runtime(String),
    /// An error with a message and a label for the offending span.
    Labeled(String, String),
    /// An error about a state the command did not expect.
    Unexpected(String),
}

/// What an error says: its kind and its texts.
pub enum ErrorView {
    Runtime(Seq<char>),
    Labeled(Seq<char>, Seq<char>),
    Unexpected(Seq<char>),
}

impl View for CliError {
    type V = ErrorView;

    open spec fn view(&self) -> ErrorView {
        match self {
            CliError::Runtime(m) => ErrorView::Runtime(m@),
            CliError::Labeled(m, l) => ErrorView::Labeled(m@, l@),
            CliError::Unexpected(m) => ErrorView::Unexpected(m@),
        }
    }
}

impl CliError {
    /// A copy of this error, equal to it.
    pub fn duplicate(&self) -> (r: CliError)
        ensures
            r == *self,
    {
        match self {
            CliError::Runtime(m) => CliError::Runtime(m.clone()),
            CliError::Labeled(m, l) => CliError::Labeled(m.clone(), l.clone()),
            CliError::Unexpected(m) => CliError::Unexpected(m.clone()),
        }
    }

    /// The error's main message.
    pub fn message(&self) -> (r: &String)
        ensures
            r == match self {
                CliError::Runtime(m) => m,
                CliError::Labeled(m, _) => m,
                CliError::Unexpected(m) => m,
            },
    {
        match self {
            CliError::Runtime(m) => m,
            CliError::Labeled(m, _) => m,
            CliError::Unexpected(m) => m,
        }
    }
}

} // verus!
