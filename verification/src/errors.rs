//! The faults that the front end reports.

use vstd::prelude::*;
use crate::token_type::TokenType;

verus! {

/// A fault in reading the source: the text that describes why the read
/// failed.
#[derive(Debug)]
pub enum FileError {
    ReadError(String),
}

/// A lexical fault, with the line on which the scanner met it.
#[derive(Debug, Clone, Copy, PartialEq, Eq, Structural)]
pub enum TokenError {
    /// A byte that begins no lexeme, as the character with its number.
    InvalidToken(u64, char),
    /// A string literal that the end of the input cut short.
    UnterminatedString(u64),
    /// A block comment that the end of the input cut short.
    UnterminatedBlockComment(u64),
}

impl TokenError {
    /// The line on which the fault was met.
    pub open spec fn spec_line(self) -> u64 {
        match self {
            TokenError::InvalidToken(line, _) => line,
            TokenError::UnterminatedString(line) => line,
            TokenError::UnterminatedBlockComment(line) => line,
        }
    }

    /// The line on which the fault was met.
    #[verifier::when_used_as_spec(spec_line)]
    pub fn line(self) -> (r: u64)
        ensures
            r == self.spec_line(),
    {
        match self {
            TokenError::InvalidToken(line, _) => line,
            TokenError::UnterminatedString(line) => line,
            TokenError::UnterminatedBlockComment(line) => line,
        }
    }
}

/// A failure that an operation over the syntax tree reports.
#[derive(Debug, Clone, Copy, PartialEq, Eq, Structural)]
pub enum LoxError {
    Failed,
}

/// A syntax fault.
#[derive(Debug)]
pub enum ParserError {
    /// A token of this category was required, and another stood there.
    ExpectedToken(TokenType),
    /// The expression cannot go on at this token: its line and its lexeme.
    At(u64, String),
    /// The expression cannot go on at the end of the input: its line.
    Eof(u64),
}

/// The mathematical content of a `ParserError`.
pub enum ParserErrorView {
    ExpectedToken(TokenType),
    At(u64, Seq<char>),
    Eof(u64),
}

impl View for ParserError {
    type V = ParserErrorView;

    open spec fn view(&self) -> ParserErrorView {
        match self {
            ParserError::ExpectedToken(t) => ParserErrorView::ExpectedToken(*t),
            ParserError::At(line, lexeme) => ParserErrorView::At(*line, lexeme@),
            ParserError::Eof(line) => ParserErrorView::Eof(*line),
        }
    }
}

} // verus!
