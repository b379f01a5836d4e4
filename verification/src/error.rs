//! What can go wrong in the shell.
use vstd::prelude::*;

verus! {

/// The broad class of a failure.
#[derive(Clone, Copy, Debug, PartialEq, Eq, Structural)]
pub enum ErrorKind {
    NotFound,
    InvalidData,
    InvalidInput,
    PermissionDenied,
    TimedOut,
}

/// A failure: one that the shell found, or an error number of the system.
#[derive(Clone, Debug, PartialEq, Eq)]
pub enum ShellError {
    Failure { kind: ErrorKind, message: String },
    Os(i32),
}

/// What a [`ShellError`] says.
#[verifier::ext_equal]
pub enum ErrorView {
    Failure { kind: ErrorKind, message: Seq<char> },
    Os(i32),
}

impl View for ShellError {
    type V = ErrorView;

    open spec fn view(&self) -> ErrorView {
        match self {
            ShellError::Failure { kind, message } => ErrorView::Failure {
                kind: *kind,
                message: message@,
            },
            ShellError::Os(code) => ErrorView::Os(*code),
        }
    }
}

/// A failure with the given class and message.
pub open spec fn failure(kind: ErrorKind, message: Seq<char>) -> ErrorView {
    ErrorView::Failure { kind, message }
}

impl ShellError {
    /// A failure with the given class and message.
    pub fn new(kind: ErrorKind, message: &str) -> (r: ShellError)
        ensures
            r@ == failure(kind, message@),
    {
        ShellError::Failure { kind, message: message.to_string() }
    }
}

} // verus!
