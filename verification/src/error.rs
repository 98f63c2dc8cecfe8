//! Error values carrying a category, a 1-based source position, a message,
//! and an optional suggestion.

use vstd::prelude::*;

verus! {

/// Category of a parse or validation failure.
#[derive(Debug, Clone, Copy, PartialEq, Eq, Structural)]
pub enum ErrorKind {
    UnexpectedCharacter,
    UnterminatedString,
    UnexpectedToken,
    UnexpectedEof,
    InvalidSyntax,
    IntegerOutOfRange,
    StringTooLong,
    TypeMismatch,
    InvalidTypeHint,
    DuplicateKey,
    IoError,
}

/// A parse or validation failure, with the 1-based line and column where it
/// was detected. `line` and `column` are 0 for errors without a source
/// position.
#[derive(Debug, Clone)]
pub struct Error {
    pub kind: ErrorKind,
    pub line: usize,
    pub column: usize,
    pub message: String,
    pub suggestion: Option<String>,
}

impl Error {
    /// An error at the given source position, without a suggestion.
    pub fn new(kind: ErrorKind, line: usize, column: usize, message: String) -> (r: Error)
        ensures
            r.kind == kind,
            r.line == line,
            r.column == column,
            r.message == message,
            r.suggestion is None,
    {
        Error { kind, line, column, message, suggestion: None }
    }

    /// The same error with a suggestion attached.
    pub fn with_suggestion(self, suggestion: String) -> (r: Error)
        ensures
            r.kind == self.kind,
            r.line == self.line,
            r.column == self.column,
            r.message == self.message,
            r.suggestion == Some(suggestion),
    {
        Error { suggestion: Some(suggestion), ..self }
    }

    /// An I/O-side error, which has no source position.
    pub fn io(message: String) -> (r: Error)
        ensures
            r.kind == ErrorKind::IoError,
            r.line == 0,
            r.column == 0,
            r.message == message,
            r.suggestion is None,
    {
        Error { kind: ErrorKind::IoError, line: 0, column: 0, message, suggestion: None }
    }
}

impl From<String> for Error {
    /// An I/O-side error from a bare message; the same as [`Error::io`].
    fn from(message: String) -> (r: Error) {
        Error::io(message)
    }
}

impl vstd::std_specs::convert::FromSpecImpl<String> for Error {
    open spec fn obeys_from_spec() -> bool {
        true
    }

    open spec fn from_spec(message: String) -> Error {
        Error {
            kind: ErrorKind::IoError,
            line: 0,
            column: 0,
            message,
            suggestion: None,
        }
    }
}

} // verus!
