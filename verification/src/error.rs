//! The library's errors.

use vstd::prelude::*;
use vstd::string::*;

verus! {

/// What can go wrong in the library.
#[derive(Debug)]
pub enum SquirrelError {
    /// The database refused a statement; the text is the database's own.
    Db(String),
    /// The engine's task has ended.
    ActorClosed,
    /// A text that should be a clock reading is none.
    InvalidHlc(String),
    /// A file could not be read or written; the text is the system's own.
    Io(String),
    /// Anything else.
    Other(String),
}

/// What an error says of itself, with its text as characters.
pub enum ErrorView {
    Db(Seq<char>),
    ActorClosed,
    InvalidHlc(Seq<char>),
    Io(Seq<char>),
    Other(Seq<char>),
}

impl View for SquirrelError {
    type V = ErrorView;

    open spec fn view(&self) -> ErrorView {
        match self {
            SquirrelError::Db(t) => ErrorView::Db(t@),
            SquirrelError::ActorClosed => ErrorView::ActorClosed,
            SquirrelError::InvalidHlc(t) => ErrorView::InvalidHlc(t@),
            SquirrelError::Io(t) => ErrorView::Io(t@),
            SquirrelError::Other(t) => ErrorView::Other(t@),
        }
    }
}

/// The message of an error.
pub open spec fn message_text(e: ErrorView) -> Seq<char> {
    match e {
        ErrorView::Db(t) => "database error: "@ + t,
        ErrorView::ActorClosed => "actor channel closed unexpectedly"@,
        ErrorView::InvalidHlc(t) => "invalid HLC string: "@ + t,
        ErrorView::Io(t) => "I/O error: "@ + t,
        ErrorView::Other(t) => t,
    }
}

impl SquirrelError {
    /// The message that a reader is shown.
    pub fn message(&self) -> (r: String)
        ensures
            r@ == message_text(self@),
    {
        match self {
            SquirrelError::Db(t) => "database error: ".to_owned().concat(t.as_str()),
            SquirrelError::ActorClosed => "actor channel closed unexpectedly".to_owned(),
            SquirrelError::InvalidHlc(t) => "invalid HLC string: ".to_owned().concat(t.as_str()),
            SquirrelError::Io(t) => "I/O error: ".to_owned().concat(t.as_str()),
            SquirrelError::Other(t) => t.clone(),
        }
    }
}

} // verus!
