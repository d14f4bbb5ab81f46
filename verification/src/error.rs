//! The error type shared by the lexer and the parser.

use vstd::prelude::*;

verus! {

/// Spec-level model of an [`Error`]: the kind together with the message text.
pub enum ErrorV {
    IO(Seq<char>),
    Parse(Seq<char>),
}

/// An error: either an I/O failure reported by the surrounding shell, or a
/// scan/parse failure. Both carry a descriptive message.
#[derive(Debug)]
pub enum Error {
    IO(String),
    Parse(String),
}

impl View for Error {
    type V = ErrorV;

    open spec fn view(&self) -> ErrorV {
        match self {
            Error::IO(s) => ErrorV::IO(s@),
            Error::Parse(s) => ErrorV::Parse(s@),
        }
    }
}

/// The message text carried by an error model.
pub open spec fn error_message(e: ErrorV) -> Seq<char> {
    match e {
        ErrorV::IO(m) => m,
        ErrorV::Parse(m) => m,
    }
}

impl Error {
    /// The human-readable message carried by the error.
    pub fn message(&self) -> (r: &str)
        ensures
            r@ == error_message(self@),
    {
        match self {
            Error::IO(s) => s.as_str(),
            Error::Parse(s) => s.as_str(),
        }
    }
}

impl PartialEq for Error {
    fn eq(&self, other: &Error) -> (r: bool) {
        match (self, other) {
            (Error::IO(a), Error::IO(b)) => *a == *b,
            (Error::Parse(a), Error::Parse(b)) => *a == *b,
            _ => false,
        }
    }
}

impl vstd::std_specs::cmp::PartialEqSpecImpl for Error {
    open spec fn obeys_eq_spec() -> bool {
        true
    }

    open spec fn eq_spec(&self, other: &Error) -> bool {
        self@ == other@
    }
}

} // verus!
