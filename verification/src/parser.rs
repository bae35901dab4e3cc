//! The parser: from tokens to an expression tree, by recursive descent.

use vstd::prelude::*;
use crate::ast::BinaryExpr;
use crate::ast::Expr;
use crate::ast::GroupingExpr;
use crate::ast::LiteralExpr;
use crate::ast::UnaryExpr;
use crate::errors::ParserError;
use crate::errors::ParserErrorView;
use crate::grammar::binary;
use crate::grammar::binary_rest;
use crate::grammar::boundary;
use crate::grammar::expression;
use crate::grammar::fault_at;
use crate::grammar::lemma_rules_advance;
use crate::grammar::primary;
use crate::grammar::unary;
use crate::grammar::well_formed;
use crate::grammar::Level;
use crate::grammar::Parsed;
use crate::token::clone_literal;
use crate::token::token_views;
use crate::token::Literal;
use crate::token::Token;
use crate::token::TokenView;
use crate::token_type::TokenType;

verus! {

/// A parser over a sequence of tokens, with the place of the token that it
/// reads next. The cursor only moves forward.
#[derive(Debug)]
pub struct Parser {
    pub tokens: Vec<Token>,
    pub current: usize,
}

impl Parser {
    /// The contents of the tokens.
    pub open spec fn views(&self) -> Seq<TokenView> {
        token_views(self.tokens@)
    }

    /// The tokens end with an end-of-input token, and the cursor stands at
    /// one of them.
    pub open spec fn wf(&self) -> bool {
        well_formed(self.views()) && self.current < self.tokens.len()
    }

    /// Whether the cursor stands at an end-of-input token.
    pub open spec fn at_end(&self) -> bool {
        self.tokens[self.current as int].token_type == TokenType::Eof
    }

    /// Whether `self` is what a rule leaves of `before`, and `r` what it
    /// returns, where `outcome` is what the rule gives at the cursor of
    /// `before`: the tree or the fault is returned, and the cursor stands
    /// after the tree or at the fault.
    pub open spec fn follows(
        &self,
        before: &Parser,
        outcome: Parsed,
        r: Result<Expr, ParserError>,
    ) -> bool {
        &&& self.tokens == before.tokens
        &&& self.wf()
        &&& match outcome {
            Parsed::Tree { expr, next } => r matches Ok(e) && e@ == expr && self.current == next,
            Parsed::Fault { error, at } => r matches Err(x) && x@ == error && self.current == at,
        }
    }

    /// A parser at the first of the tokens. It can read them if they end
    /// with an end-of-input token.
    pub fn new(tokens: Vec<Token>) -> (r: Self)
        ensures
            r.tokens == tokens,
            r.current == 0,
            r.wf() <==> tokens.len() > 0 && tokens[tokens.len() - 1].token_type == TokenType::Eof,
    {
        let r = Self { tokens, current: 0 };
        proof {
            if r.tokens.len() > 0 {
                assert(r.views()[r.tokens.len() - 1] == r.tokens[r.tokens.len() - 1]@);
            }
        }
        r
    }

    /// Reads one expression from the cursor on: returns its tree and leaves
    /// the cursor after it, or returns the first fault and leaves the
    /// cursor at the token at which it was met.
    pub fn parse(&mut self) -> (r: Result<Expr, ParserError>)
        requires
            old(self).wf(),
        ensures
            final(self).follows(
                old(self),
                expression(old(self).views(), old(self).current as int),
                r,
            ),
            old(self).current <= final(self).current,
            r is Ok ==> old(self).current < final(self).current,
    {
        proof {
            lemma_rules_advance(self.views(), self.current as int);
        }
        self.expression()
    }

    /// expression -> equality
    pub fn expression(&mut self) -> (r: Result<Expr, ParserError>)
        requires
            old(self).wf(),
        ensures
            final(self).follows(
                old(self),
                expression(old(self).views(), old(self).current as int),
                r,
            ),
        decreases old(self).tokens.len() - old(self).current, 10int,
    {
        self.equality()
    }

    /// equality -> comparison (("!=" | "==") comparison)*
    pub fn equality(&mut self) -> (r: Result<Expr, ParserError>)
        requires
            old(self).wf(),
        ensures
            final(self).follows(
                old(self),
                binary(old(self).views(), Level::Equality, old(self).current as int),
                r,
            ),
        decreases old(self).tokens.len() - old(self).current, 9int,
    {
        let ghost ts = self.views();
        let ghost start = self.current as int;
        proof {
            lemma_rules_advance(ts, start);
        }
        let mut expr = self.comparison()?;
        loop
            invariant
                self.tokens == old(self).tokens,
                start == old(self).current,
                ts == self.views(),
                self.wf(),
                start < self.current,
                binary(ts, Level::Equality, start) == binary_rest(
                    ts,
                    Level::Equality,
                    expr@,
                    self.current as int,
                ),
            ensures
                self.follows(old(self), binary(ts, Level::Equality, start), Ok(expr)),
            decreases self.tokens.len() - self.current,
        {
            let ghost at = self.current as int;
            if !self.match_types(vec![TokenType::BangEqual, TokenType::EqualEqual]) {
                break;
            }
            proof {
                lemma_rules_advance(ts, at + 1);
            }
            let operator = self.previous().clone();
            let right = self.comparison()?;
            let binary_expr = BinaryExpr::new(expr, operator, right);
            expr = Expr::Binary(binary_expr);
        }
        Ok(expr)
    }

    /// comparison -> term (("<" | "<=" | ">" | ">=") term)*
    pub fn comparison(&mut self) -> (r: Result<Expr, ParserError>)
        requires
            old(self).wf(),
        ensures
            final(self).follows(
                old(self),
                binary(old(self).views(), Level::Comparison, old(self).current as int),
                r,
            ),
        decreases old(self).tokens.len() - old(self).current, 7int,
    {
        let ghost ts = self.views();
        let ghost start = self.current as int;
        proof {
            lemma_rules_advance(ts, start);
        }
        let mut expr = self.term()?;
        loop
            invariant
                self.tokens == old(self).tokens,
                start == old(self).current,
                ts == self.views(),
                self.wf(),
                start < self.current,
                binary(ts, Level::Comparison, start) == binary_rest(
                    ts,
                    Level::Comparison,
                    expr@,
                    self.current as int,
                ),
            ensures
                self.follows(old(self), binary(ts, Level::Comparison, start), Ok(expr)),
            decreases self.tokens.len() - self.current,
        {
            let ghost at = self.current as int;
            if !self.match_types(
                vec![
                    TokenType::Greater,
                    TokenType::GreaterEqual,
                    TokenType::Less,
                    TokenType::LessEqual,
                ],
            ) {
                break;
            }
            proof {
                lemma_rules_advance(ts, at + 1);
            }
            let operator = self.previous().clone();
            let right = self.term()?;
            let binary_expr = BinaryExpr::new(expr, operator, right);
            expr = Expr::Binary(binary_expr);
        }
        Ok(expr)
    }

    /// term -> factor (("+" | "-") factor)*
    pub fn term(&mut self) -> (r: Result<Expr, ParserError>)
        requires
            old(self).wf(),
        ensures
            final(self).follows(
                old(self),
                binary(old(self).views(), Level::Term, old(self).current as int),
                r,
            ),
        decreases old(self).tokens.len() - old(self).current, 5int,
    {
        let ghost ts = self.views();
        let ghost start = self.current as int;
        proof {
            lemma_rules_advance(ts, start);
        }
        let mut expr = self.factor()?;
        loop
            invariant
                self.tokens == old(self).tokens,
                start == old(self).current,
                ts == self.views(),
                self.wf(),
                start < self.current,
                binary(ts, Level::Term, start) == binary_rest(
                    ts,
                    Level::Term,
                    expr@,
                    self.current as int,
                ),
            ensures
                self.follows(old(self), binary(ts, Level::Term, start), Ok(expr)),
            decreases self.tokens.len() - self.current,
        {
            let ghost at = self.current as int;
            if !self.match_types(vec![TokenType::Minus, TokenType::Plus]) {
                break;
            }
            proof {
                lemma_rules_advance(ts, at + 1);
            }
            let operator = self.previous().clone();
            let right = self.factor()?;
            let binary_expr = BinaryExpr::new(expr, operator, right);
            expr = Expr::Binary(binary_expr);
        }
        Ok(expr)
    }

    /// factor -> unary (("*" | "/") unary)*
    pub fn factor(&mut self) -> (r: Result<Expr, ParserError>)
        requires
            old(self).wf(),
        ensures
            final(self).follows(
                old(self),
                binary(old(self).views(), Level::Factor, old(self).current as int),
                r,
            ),
        decreases old(self).tokens.len() - old(self).current, 3int,
    {
        let ghost ts = self.views();
        let ghost start = self.current as int;
        proof {
            lemma_rules_advance(ts, start);
        }
        let mut expr = self.unary()?;
        loop
            invariant
                self.tokens == old(self).tokens,
                start == old(self).current,
                ts == self.views(),
                self.wf(),
                start < self.current,
                binary(ts, Level::Factor, start) == binary_rest(
                    ts,
                    Level::Factor,
                    expr@,
                    self.current as int,
                ),
            ensures
                self.follows(old(self), binary(ts, Level::Factor, start), Ok(expr)),
            decreases self.tokens.len() - self.current,
        {
            let ghost at = self.current as int;
            if !self.match_types(vec![TokenType::Slash, TokenType::Star]) {
                break;
            }
            proof {
                lemma_rules_advance(ts, at + 1);
            }
            let operator = self.previous().clone();
            let right = self.unary()?;
            let binary_expr = BinaryExpr::new(expr, operator, right);
            expr = Expr::Binary(binary_expr);
        }
        Ok(expr)
    }

    /// unary -> ("!" | "-") unary | primary
    pub fn unary(&mut self) -> (r: Result<Expr, ParserError>)
        requires
            old(self).wf(),
        ensures
            final(self).follows(old(self), unary(old(self).views(), old(self).current as int), r),
        decreases old(self).tokens.len() - old(self).current, 1int,
    {
        if self.match_types(vec![TokenType::Bang, TokenType::Minus]) {
            let operator = self.previous().clone();
            let right = self.unary()?;
            let unary_expr = UnaryExpr::new(operator, right);
            return Ok(Expr::Unary(unary_expr));
        }
        self.primary()
    }

    /// primary -> NUMBER | STRING | "true" | "false" | "nil" | "(" expression ")"
    pub fn primary(&mut self) -> (r: Result<Expr, ParserError>)
        requires
            old(self).wf(),
        ensures
            final(self).follows(
                old(self),
                primary(old(self).views(), old(self).current as int),
                r,
            ),
        decreases old(self).tokens.len() - old(self).current, 0int,
    {
        let ghost ts = self.views();
        let ghost start = self.current as int;
        if self.match_types(vec![TokenType::False]) {
            return Ok(Expr::Literal(LiteralExpr::new(Some(Literal::False))));
        }
        if self.match_types(vec![TokenType::True]) {
            return Ok(Expr::Literal(LiteralExpr::new(Some(Literal::True))));
        }
        if self.match_types(vec![TokenType::Nil]) {
            return Ok(Expr::Literal(LiteralExpr::new(None)));
        }
        if self.match_types(vec![TokenType::Number, TokenType::String]) {
            return Ok(Expr::Literal(LiteralExpr::new(clone_literal(&self.previous().literal))));
        }
        if self.match_types(vec![TokenType::LeftParen]) {
            proof {
                lemma_rules_advance(ts, start + 1);
            }
            let expr = self.expression()?;
            match self.consume(TokenType::RightParen) {
                Ok(()) => {},
                Err(_) => {
                    return Err(self.fault_here());
                },
            }
            let grouping_expr = GroupingExpr::new(expr);
            return Ok(Expr::Grouping(grouping_expr));
        }
        Err(self.fault_here())
    }

    /// The fault of an expression that cannot go on at the current token.
    pub fn fault_here(&self) -> (r: ParserError)
        requires
            self.wf(),
        ensures
            r@ == fault_at(self.views(), self.current as int),
    {
        let token = self.peek();
        if self.is_at_end() {
            ParserError::Eof(token.line)
        } else {
            ParserError::At(token.line, token.lexeme.clone())
        }
    }

    /// If the current token is of one of the categories, and not the end
    /// of the input, reads it.
    pub fn match_types(&mut self, types: Vec<TokenType>) -> (r: bool)
        requires
            old(self).wf(),
        ensures
            final(self).tokens == old(self).tokens,
            final(self).wf(),
            r == (!old(self).at_end() && types@.contains(
                old(self).tokens[old(self).current as int].token_type,
            )),
            final(self).current == if r {
                old(self).current + 1
            } else {
                old(self).current as int
            },
    {
        let ghost kind = self.tokens[self.current as int].token_type;
        let mut i: usize = 0;
        while i < types.len()
            invariant
                i <= types.len(),
                self.wf(),
                *self == *old(self),
                kind == self.tokens[self.current as int].token_type,
                forall|k: int| 0 <= k < i ==> !(!self.at_end() && types[k] == kind),
            decreases types.len() - i,
        {
            if self.check(types[i]) {
                self.advance();
                return true;
            }
            i += 1;
        }
        false
    }

    /// Reads the current token if it is of the category; else the fault is
    /// that a token of the category was expected, and the cursor stays.
    pub fn consume(&mut self, token_type: TokenType) -> (r: Result<(), ParserError>)
        requires
            old(self).wf(),
        ensures
            final(self).tokens == old(self).tokens,
            final(self).wf(),
            r is Ok <==> !old(self).at_end() && old(self).tokens[old(self).current as int].token_type
                == token_type,
            r is Ok ==> final(self).current == old(self).current + 1,
            r matches Err(e) ==> e@ == ParserErrorView::ExpectedToken(token_type),
            r is Err ==> final(self).current == old(self).current,
    {
        if self.check(token_type) {
            self.advance();
            return Ok(());
        }
        Err(ParserError::ExpectedToken(token_type))
    }

    /// Whether the current token is of the category, and not the end of
    /// the input.
    pub fn check(&self, token_type: TokenType) -> (r: bool)
        requires
            self.wf(),
        ensures
            r == (!self.at_end() && self.tokens[self.current as int].token_type == token_type),
    {
        if self.is_at_end() {
            return false;
        }
        return self.peek().token_type == token_type;
    }

    /// Moves the cursor past the current token, unless it is the end of the
    /// input, and returns the token before the cursor.
    ///
    /// There has to be such a token: the cursor is not at the first token,
    /// or that token is not the end of the input.
    pub fn advance(&mut self) -> (r: &Token)
        requires
            old(self).wf(),
            !old(self).at_end() || old(self).current > 0,
        ensures
            final(self).tokens == old(self).tokens,
            final(self).wf(),
            final(self).current == if old(self).at_end() {
                old(self).current as int
            } else {
                old(self).current + 1
            },
            *r == old(self).tokens[final(self).current - 1],
    {
        if !self.is_at_end() {
            proof {
                let ts = self.views();
                assert(ts[self.current as int] == self.tokens[self.current as int]@);
                assert(ts[ts.len() - 1] == self.tokens[self.tokens.len() - 1]@);
            }
            self.current += 1;
        }
        self.previous()
    }

    /// Whether the cursor stands at the end of the input.
    pub fn is_at_end(&self) -> (r: bool)
        requires
            self.wf(),
        ensures
            r == self.at_end(),
    {
        return self.peek().token_type == TokenType::Eof;
    }

    /// The current token.
    pub fn peek(&self) -> (r: &Token)
        requires
            self.wf(),
        ensures
            *r == self.tokens[self.current as int],
    {
        &self.tokens[self.current]
    }

    /// The token before the current one.
    pub fn previous(&self) -> (r: &Token)
        requires
            self.wf(),
            self.current > 0,
        ensures
            *r == self.tokens[self.current - 1],
    {
        &self.tokens[self.current - 1]
    }

    /// Skips tokens up to the next place where a statement may begin: moves
    /// past the current token, then on to the first token that is the end
    /// of the input, that follows a `;`, or that can begin a statement.
    pub fn synchronize(&mut self)
        requires
            old(self).wf(),
        ensures
            final(self).tokens == old(self).tokens,
            final(self).wf(),
            boundary(old(self).views(), final(self).current as int),
            old(self).at_end() ==> final(self).current == old(self).current,
            !old(self).at_end() ==> final(self).current > old(self).current,
            forall|p: int|
                old(self).current < p < final(self).current ==> !boundary(old(self).views(), p),
    {
        let ghost ts = self.views();
        let ghost start = self.current as int;
        if !self.is_at_end() {
            self.advance();
        }
        loop
            invariant
                self.tokens == old(self).tokens,
                start == old(self).current,
                ts == self.views(),
                self.wf(),
                old(self).at_end() ==> self.current == start,
                !old(self).at_end() ==> self.current > start,
                forall|p: int| start < p < self.current ==> !boundary(ts, p),
            ensures
                boundary(ts, self.current as int),
            decreases self.tokens.len() - self.current,
        {
            proof {
                assert(ts[self.current as int] == self.tokens[self.current as int]@);
                if self.current > 0 {
                    assert(ts[self.current - 1] == self.tokens[self.current - 1]@);
                }
            }
            if self.is_at_end() {
                break;
            }
            if self.previous().token_type == TokenType::Semicolon {
                return;
            }
            match self.peek().token_type {
                TokenType::Class
                | TokenType::Fun
                | TokenType::Var
                | TokenType::For
                | TokenType::If
                | TokenType::While
                | TokenType::Print
                | TokenType::Return => return,
                _ => {},
            }
            self.advance();
        }
    }
}

} // verus!
