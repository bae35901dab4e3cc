//! Tokens and the values they carry.

use vstd::prelude::*;
use vstd::string::StringExecFns;
use crate::decimal::canonical_number;
use crate::decimal::canonical_text;
use crate::token_type::TokenType;

verus! {

/// The value that a token or a literal expression carries.
///
/// A number is held as its decimal text, digits with an optional fraction,
/// so that the value read from the source is kept exactly.
#[derive(Debug)]
pub enum Literal {
    Identifier(String),
    Str(String),
    Number(String),
    True,
    False,
}

/// The mathematical content of a `Literal`.
pub enum LiteralView {
    Identifier(Seq<char>),
    Str(Seq<char>),
    Number(Seq<char>),
    True,
    False,
}

impl View for Literal {
    type V = LiteralView;

    open spec fn view(&self) -> LiteralView {
        match self {
            Literal::Identifier(s) => LiteralView::Identifier(s@),
            Literal::Str(s) => LiteralView::Str(s@),
            Literal::Number(s) => LiteralView::Number(s@),
            Literal::True => LiteralView::True,
            Literal::False => LiteralView::False,
        }
    }
}

impl Clone for Literal {
    fn clone(&self) -> (r: Self)
        ensures
            r@ == self@,
    {
        match self {
            Literal::Identifier(s) => Literal::Identifier(s.clone()),
            Literal::Str(s) => Literal::Str(s.clone()),
            Literal::Number(s) => Literal::Number(s.clone()),
            Literal::True => Literal::True,
            Literal::False => Literal::False,
        }
    }
}

/// The text of a value: an identifier as it stands, a string between double
/// quotes, a number in its canonical text, and a boolean as its word.
pub open spec fn literal_text(literal: LiteralView) -> Seq<char> {
    match literal {
        LiteralView::Identifier(s) => s,
        LiteralView::Str(s) => seq!['"'] + s + seq!['"'],
        LiteralView::Number(s) => canonical_number(s),
        LiteralView::True => seq!['t', 'r', 'u', 'e'],
        LiteralView::False => seq!['f', 'a', 'l', 's', 'e'],
    }
}

impl Literal {
    /// The text of the value.
    pub fn text(&self) -> (r: String)
        ensures
            r@ == literal_text(self@),
    {
        match self {
            Literal::Identifier(s) => s.clone(),
            Literal::Str(s) => {
                proof {
                    reveal_strlit("\"");
                }
                let mut text = String::from_str("\"");
                text.append(s.as_str());
                text.append("\"");
                assert(text@ =~= seq!['"'] + s@ + seq!['"']);
                text
            },
            Literal::Number(s) => canonical_text(s.as_str()),
            Literal::True => {
                proof {
                    reveal_strlit("true");
                }
                let text = String::from_str("true");
                assert(text@ =~= seq!['t', 'r', 'u', 'e']);
                text
            },
            Literal::False => {
                proof {
                    reveal_strlit("false");
                }
                let text = String::from_str("false");
                assert(text@ =~= seq!['f', 'a', 'l', 's', 'e']);
                text
            },
        }
    }
}

/// The content of an optional literal.
pub open spec fn literal_view(literal: Option<Literal>) -> Option<LiteralView> {
    match literal {
        Some(l) => Some(l@),
        None => None,
    }
}

/// Copies an optional literal.
pub fn clone_literal(literal: &Option<Literal>) -> (r: Option<Literal>)
    ensures
        literal_view(r) == literal_view(*literal),
{
    match literal {
        Some(l) => Some(l.clone()),
        None => None,
    }
}

/// A classified lexeme: its category, its text as it stands in the source,
/// the value it carries if any, and the line it ends on, counted from 1.
#[derive(Debug)]
pub struct Token {
    pub token_type: TokenType,
    pub lexeme: String,
    pub literal: Option<Literal>,
    pub line: u64,
}

/// The mathematical content of a `Token`.
pub struct TokenView {
    pub token_type: TokenType,
    pub lexeme: Seq<char>,
    pub literal: Option<LiteralView>,
    pub line: u64,
}

impl View for Token {
    type V = TokenView;

    open spec fn view(&self) -> TokenView {
        TokenView {
            token_type: self.token_type,
            lexeme: self.lexeme@,
            literal: literal_view(self.literal),
            line: self.line,
        }
    }
}

/// The contents of a sequence of tokens, in order.
pub open spec fn token_views(tokens: Seq<Token>) -> Seq<TokenView> {
    Seq::new(tokens.len(), |i: int| tokens[i]@)
}

impl Token {
    pub fn new(token_type: TokenType, lexeme: String, literal: Option<Literal>, line: u64) -> (r:
        Self)
        ensures
            r.token_type == token_type,
            r.lexeme == lexeme,
            r.literal == literal,
            r.line == line,
    {
        Self { token_type, lexeme, literal, line }
    }

    /// The token's text: its lexeme.
    pub fn text(&self) -> (r: String)
        ensures
            r@ == self.lexeme@,
    {
        self.lexeme.clone()
    }
}

impl Clone for Token {
    fn clone(&self) -> (r: Self)
        ensures
            r@ == self@,
    {
        Token {
            token_type: self.token_type,
            lexeme: self.lexeme.clone(),
            literal: clone_literal(&self.literal),
            line: self.line,
        }
    }
}

/// Copies a sequence of tokens.
pub fn clone_tokens(tokens: &Vec<Token>) -> (r: Vec<Token>)
    ensures
        token_views(r@) == token_views(tokens@),
{
    let mut out: Vec<Token> = Vec::new();
    let mut i: usize = 0;
    while i < tokens.len()
        invariant
            i <= tokens.len(),
            out.len() == i,
            forall|k: int| 0 <= k < i ==> out[k]@ == tokens[k]@,
        decreases tokens.len() - i,
    {
        out.push(tokens[i].clone());
        i += 1;
    }
    assert(token_views(out@) =~= token_views(tokens@));
    out
}

} // verus!
