//! What a parse fails with.

use crate::node::Position;
use vstd::prelude::*;

verus! {

/// The ways in which a text can fail to lex or to parse.
#[derive(Clone, Copy, Debug, PartialEq, Eq, Structural)]
pub enum ErrorKind {
    /// A quote was opened and the text ended before it was closed.
    UnterminatedString,
    /// A `/*` has no `*/` after it.
    UnterminatedComment,
    /// A `url(` has no unescaped `)` after it.
    UnterminatedBrackets,
    /// The text ended while a `{` was still open.
    UnclosedBlock,
    /// A token stands where the grammar has no place for it.
    UnexpectedToken,
}

/// A failure, with the place that caused it and the identity of the input.
#[derive(Clone, Copy, Debug)]
pub struct ParseError<'a> {
    pub kind: ErrorKind,
    /// Where the offending construct starts.
    pub position: Position,
    /// The file of the input, if it has one.
    pub file: Option<&'a str>,
    /// The id of the input, if it has one.
    pub id: Option<&'a str>,
}

impl ErrorKind {
    /// A short description of the failure.
    pub fn message(&self) -> (m: &'static str)
        ensures
            m@ == (match *self {
                ErrorKind::UnterminatedString => "Unclosed string"@,
                ErrorKind::UnterminatedComment => "Unclosed comment"@,
                ErrorKind::UnterminatedBrackets => "Unclosed bracket"@,
                ErrorKind::UnclosedBlock => "Unclosed block"@,
                ErrorKind::UnexpectedToken => "Unexpected token"@,
            }),
    {
        match self {
            ErrorKind::UnterminatedString => "Unclosed string",
            ErrorKind::UnterminatedComment => "Unclosed comment",
            ErrorKind::UnterminatedBrackets => "Unclosed bracket",
            ErrorKind::UnclosedBlock => "Unclosed block",
            ErrorKind::UnexpectedToken => "Unexpected token",
        }
    }
}

} // verus!
