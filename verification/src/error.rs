//! The failures a session can report.

use vstd::prelude::*;
use vstd::string::StringExecFns;

verus! {

/// What went wrong, with the text that describes it.
#[derive(Debug, Clone)]
pub enum BoopError {
    /// The pseudo-terminal could not be allocated or the child not started.
    Pty(String),
    /// A read or write on a terminal handle failed.
    Io(String),
    /// An event could not be handed to the notification endpoint.
    Ipc(String),
    /// The invocation was malformed.
    InvalidArgs(String),
    /// A signal handler could not be installed.
    Signal(String),
}

pub type Result<T> = core::result::Result<T, BoopError>;

/// A [`BoopError`] with its text as a sequence of characters.
pub ghost enum ErrorView {
    Pty(Seq<char>),
    Io(Seq<char>),
    Ipc(Seq<char>),
    InvalidArgs(Seq<char>),
    Signal(Seq<char>),
}

impl View for BoopError {
    type V = ErrorView;

    open spec fn view(&self) -> ErrorView {
        match *self {
            BoopError::Pty(text) => ErrorView::Pty(text@),
            BoopError::Io(text) => ErrorView::Io(text@),
            BoopError::Ipc(text) => ErrorView::Ipc(text@),
            BoopError::InvalidArgs(text) => ErrorView::InvalidArgs(text@),
            BoopError::Signal(text) => ErrorView::Signal(text@),
        }
    }
}

impl BoopError {
    /// The text carried by the error, without its prefix.
    pub open spec fn detail(self) -> Seq<char> {
        match self {
            BoopError::Pty(text) => text@,
            BoopError::Io(text) => text@,
            BoopError::Ipc(text) => text@,
            BoopError::InvalidArgs(text) => text@,
            BoopError::Signal(text) => text@,
        }
    }

    /// The prefix that names the kind of error in its rendered form.
    pub open spec fn prefix(self) -> Seq<char> {
        match self {
            BoopError::Pty(_) => "PTY error: "@,
            BoopError::Io(_) => "IO error: "@,
            BoopError::Ipc(_) => "IPC error: "@,
            BoopError::InvalidArgs(_) => "Invalid arguments: "@,
            BoopError::Signal(_) => "Signal error: "@,
        }
    }

    /// The rendered form of the error: its prefix followed by its detail.
    pub open spec fn rendered(self) -> Seq<char> {
        self.prefix() + self.detail()
    }

    /// Renders the error for a human reader.
    pub fn message(&self) -> (text: String)
        ensures
            text@ == self.rendered(),
    {
        match self {
            BoopError::Pty(detail) => String::from_str("PTY error: ").concat(detail.as_str()),
            BoopError::Io(detail) => String::from_str("IO error: ").concat(detail.as_str()),
            BoopError::Ipc(detail) => String::from_str("IPC error: ").concat(detail.as_str()),
            BoopError::InvalidArgs(detail) => String::from_str("Invalid arguments: ").concat(
                detail.as_str(),
            ),
            BoopError::Signal(detail) => String::from_str("Signal error: ").concat(
                detail.as_str(),
            ),
        }
    }
}

} // verus!
