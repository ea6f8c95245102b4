//! Errors produced when reading function declarations from a custom section.

use vstd::prelude::*;

verus! {

/// Kind of a [`ReadError`].
#[derive(Debug, Clone, Copy, PartialEq, Eq, Structural)]
pub enum ReadErrorKind {
    /// Unexpected end of the input.
    UnexpectedEof,
    /// A name in the section is not valid UTF-8.
    Utf8,
}

/// Errors that can occur when reading declarations of functions manipulating
/// resources from a module's custom section.
#[derive(Debug)]
pub struct ReadError {
    /// Kind of this error.
    pub kind: ReadErrorKind,
    /// Description of what was being read when the error occurred.
    pub context: String,
}

impl ReadErrorKind {
    /// Attaches a human-readable context to this error kind.
    pub fn with_context(self, context: &str) -> (err: ReadError)
        ensures
            err.kind == self,
            err.context@ == context@,
    {
        ReadError { kind: self, context: context.to_owned() }
    }
}

} // verus!
