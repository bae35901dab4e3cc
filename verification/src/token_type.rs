//! The lexical categories of the language.

use vstd::prelude::*;

verus! {

/// The category of a token.
#[derive(Debug, Clone, Copy, PartialEq, Eq, Structural, Hash)]
pub enum TokenType {
    LeftParen,
    RightParen,
    LeftBrace,
    RightBrace,
    Comma,
    Dot,
    Minus,
    Plus,
    Semicolon,
    Slash,
    Star,
    Bang,
    BangEqual,
    Equal,
    EqualEqual,
    Greater,
    GreaterEqual,
    Less,
    LessEqual,
    Identifier,
    String,
    Number,
    And,
    Class,
    Else,
    False,
    Fun,
    For,
    If,
    Nil,
    Or,
    Print,
    Return,
    Super,
    This,
    True,
    Var,
    While,
    Eof,
}

impl TokenType {
    /// Whether a token of this category can begin a statement: the
    /// categories at which error recovery stops skipping.
    pub open spec fn starts_statement(self) -> bool {
        self == TokenType::Class || self == TokenType::Fun || self == TokenType::Var
            || self == TokenType::For || self == TokenType::If || self == TokenType::While
            || self == TokenType::Print || self == TokenType::Return
    }
}

} // verus!
