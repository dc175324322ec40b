//! Compiles an Apache-style access-log format string, such as
//! `%h %l %u %t "%r" %>s %b`, into an ordered sequence of typed directive
//! tokens: runs of literal text and named log fields, some with a parameter.
//! A format string is read once, and the tokens serve every line that is
//! written afterwards.
//!
//! - [`directive`] holds the tokens and the table of one-character codes.
//! - [`grammar`] says, as functions on byte sequences, what every form of a
//!   directive matches and what a whole format string reads as.
//! - [`parser`] holds the recognizers, one for each form, and
//!   [`logformat_parser`] and [`parse`], which read a whole format string
//!   from bytes and from text. Each is proved to give what the grammar says.
//! - [`outcome`] holds the outcome of a reading and the reasons for which
//!   bytes are refused.
//! - [`bytes`] and [`text`] hold the scanning primitives.
//! - [`laws`] holds what is proved of the grammar on every input.

use vstd::prelude::*;

pub mod bytes;
pub mod directive;
pub mod grammar;
pub mod laws;
pub mod outcome;
pub mod parser;
pub mod text;

pub use directive::{Directive, PIDType, PortType};
pub use outcome::{Outcome, Reason};
pub use parser::{directive_parser, logformat_parser, parse};

verus! {

/// The Common Log Format.
pub const CLF: &'static str = "%h %l %u %t \"%r\" %>s %b";

} // verus!
