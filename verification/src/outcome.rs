//! How a reading ends: at the end of the input, or before it at bytes that
//! are no token.

use vstd::prelude::*;

verus! {

/// Why the bytes at some position are not a token.
#[derive(Debug, PartialEq, Eq, Clone, Copy, Structural)]
pub enum Reason {
    /// The bytes are not of the form asked for: after a `%`, no known code
    /// or parameterized form follows. A recognizer that answers this has
    /// ruled out only its own form; every other reason rules out all forms.
    UnknownDirective,
    /// A `{` is opened and the input ends before any `}`.
    UnterminatedParameter,
    /// A `{` is followed at once by `}`.
    EmptyParameter,
    /// The braces of a port or process-id form hold something other than
    /// one of the three words that the form accepts.
    LiteralSetMismatch,
    /// Text that a token would have to carry is not well-formed UTF-8.
    InvalidUtf8,
}

/// The outcome of parsing a whole format string.
#[derive(Debug, PartialEq, Eq, Clone, Copy, Structural)]
pub enum Outcome {
    /// Every byte of the input belongs to a token.
    Complete,
    /// The input from `offset` on is not a token, for the given reason; the
    /// tokens before that offset were still produced.
    Malformed { offset: usize, reason: Reason },
}

impl View for Outcome {
    type V = Option<(nat, Reason)>;

    /// Where and why the parse stopped early, if it did.
    open spec fn view(&self) -> Option<(nat, Reason)> {
        match self {
            Outcome::Complete => None,
            Outcome::Malformed { offset, reason } => Some((*offset as nat, *reason)),
        }
    }
}

} // verus!
