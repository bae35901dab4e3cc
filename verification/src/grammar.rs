//! The expression grammar, stated over token sequences.
//!
//! ```text
//! expression  -> equality
//! equality    -> comparison (("!=" | "==") comparison)*
//! comparison  -> term (("<" | "<=" | ">" | ">=") term)*
//! term        -> factor (("+" | "-") factor)*
//! factor      -> unary (("*" | "/") unary)*
//! unary       -> ("!" | "-") unary | primary
//! primary     -> NUMBER | STRING | "true" | "false" | "nil" | "(" expression ")"
//! ```
//!
//! Each rule is a function from the tokens and a place among them to the
//! tree that the rule reads there and the place after it, or to the fault
//! that it meets and the place where it meets it.

use vstd::prelude::*;
use crate::ast::ExprView;
use crate::errors::ParserErrorView;
use crate::token::LiteralView;
use crate::token::TokenView;
use crate::token_type::TokenType;

verus! {

/// What a rule gives at a place.
pub enum Parsed {
    /// The tree read, and the place of the first token after it.
    Tree { expr: ExprView, next: int },
    /// The fault met, and the place of the token at which it was met.
    Fault { error: ParserErrorView, at: int },
}

/// The four rules of left-associative binary operators, loosest first.
pub enum Level {
    Equality,
    Comparison,
    Term,
    Factor,
}

/// Whether a token of the category is an operator of the level.
pub open spec fn level_has(level: Level, t: TokenType) -> bool {
    match level {
        Level::Equality => t == TokenType::BangEqual || t == TokenType::EqualEqual,
        Level::Comparison => t == TokenType::Greater || t == TokenType::GreaterEqual || t
            == TokenType::Less || t == TokenType::LessEqual,
        Level::Term => t == TokenType::Minus || t == TokenType::Plus,
        Level::Factor => t == TokenType::Slash || t == TokenType::Star,
    }
}

/// Orders the rules for the proof that they end: a rule calls a rule of
/// lower rank at the same place, and any rule at a later place.
pub open spec fn level_rank(level: Level) -> int {
    match level {
        Level::Equality => 8,
        Level::Comparison => 6,
        Level::Term => 4,
        Level::Factor => 2,
    }
}

/// Tokens that a parser can read: they end with an end-of-input token.
pub open spec fn well_formed(ts: Seq<TokenView>) -> bool {
    ts.len() > 0 && ts[ts.len() - 1].token_type == TokenType::Eof
}

/// The fault of an expression that cannot go on at the token at `pos`: it
/// carries the token's line, and its lexeme unless the token is the end of
/// the input.
pub open spec fn fault_at(ts: Seq<TokenView>, pos: int) -> ParserErrorView {
    if ts[pos].token_type == TokenType::Eof {
        ParserErrorView::Eof(ts[pos].line)
    } else {
        ParserErrorView::At(ts[pos].line, ts[pos].lexeme)
    }
}

/// Whether `r` is a tree that ends after `pos` and before the end of the
/// tokens. Every tree read from well-formed tokens does
/// (`lemma_rules_advance`).
pub open spec fn advanced(r: Parsed, ts: Seq<TokenView>, pos: int) -> bool {
    r matches Parsed::Tree { next, .. } && pos < next < ts.len()
}

/// primary -> NUMBER | STRING | "true" | "false" | "nil" | "(" expression ")"
///
/// A token that begins none of these is a fault at that token, and so is a
/// group that no `)` closes, at the token that stands in its place.
pub open spec fn primary(ts: Seq<TokenView>, pos: int) -> Parsed
    decreases ts.len() - pos, 0int,
    when 0 <= pos < ts.len()
{
    match ts[pos].token_type {
        TokenType::False => Parsed::Tree {
            expr: ExprView::Literal { value: Some(LiteralView::False) },
            next: pos + 1,
        },
        TokenType::True => Parsed::Tree {
            expr: ExprView::Literal { value: Some(LiteralView::True) },
            next: pos + 1,
        },
        TokenType::Nil => Parsed::Tree { expr: ExprView::Literal { value: None }, next: pos + 1 },
        TokenType::Number | TokenType::String => Parsed::Tree {
            expr: ExprView::Literal { value: ts[pos].literal },
            next: pos + 1,
        },
        TokenType::LeftParen => {
            let inner = expression(ts, pos + 1);
            if advanced(inner, ts, pos) {
                if ts[inner->next].token_type == TokenType::RightParen {
                    Parsed::Tree {
                        expr: ExprView::Grouping { expression: Box::new(inner->expr) },
                        next: inner->next + 1,
                    }
                } else {
                    Parsed::Fault { error: fault_at(ts, inner->next), at: inner->next }
                }
            } else {
                inner
            }
        },
        _ => Parsed::Fault { error: fault_at(ts, pos), at: pos },
    }
}

/// unary -> ("!" | "-") unary | primary
pub open spec fn unary(ts: Seq<TokenView>, pos: int) -> Parsed
    decreases ts.len() - pos, 1int,
    when 0 <= pos < ts.len()
{
    if ts[pos].token_type == TokenType::Bang || ts[pos].token_type == TokenType::Minus {
        match unary(ts, pos + 1) {
            Parsed::Tree { expr, next } => Parsed::Tree {
                expr: ExprView::Unary { operator: ts[pos], right: Box::new(expr) },
                next,
            },
            fault => fault,
        }
    } else {
        primary(ts, pos)
    }
}

/// An operand of the level: the next tighter rule.
pub open spec fn operand(ts: Seq<TokenView>, level: Level, pos: int) -> Parsed
    decreases ts.len() - pos, level_rank(level),
    when 0 <= pos < ts.len()
{
    match level {
        Level::Equality => binary(ts, Level::Comparison, pos),
        Level::Comparison => binary(ts, Level::Term, pos),
        Level::Term => binary(ts, Level::Factor, pos),
        Level::Factor => unary(ts, pos),
    }
}

/// A rule of binary operators: an operand, then operators of the level,
/// each with its operand, as long as one follows.
pub open spec fn binary(ts: Seq<TokenView>, level: Level, pos: int) -> Parsed
    decreases ts.len() - pos, level_rank(level) + 1,
    when 0 <= pos < ts.len()
{
    let first = operand(ts, level, pos);
    if advanced(first, ts, pos) {
        binary_rest(ts, level, first->expr, first->next)
    } else {
        first
    }
}

/// What follows the operand `left` in a rule of binary operators, from
/// `pos` on: where an operator of the level stands at `pos`, it and its
/// right operand make a tree with `left`, which is the left operand of what
/// follows in turn. Where none stands there, the rule ends with `left`.
pub open spec fn binary_rest(ts: Seq<TokenView>, level: Level, left: ExprView, pos: int) -> Parsed
    decreases ts.len() - pos, 0int,
    when 0 <= pos < ts.len()
{
    if level_has(level, ts[pos].token_type) {
        let right = operand(ts, level, pos + 1);
        if advanced(right, ts, pos) {
            binary_rest(
                ts,
                level,
                ExprView::Binary {
                    left: Box::new(left),
                    operator: ts[pos],
                    right: Box::new(right->expr),
                },
                right->next,
            )
        } else {
            right
        }
    } else {
        Parsed::Tree { expr: left, next: pos }
    }
}

/// expression -> equality
pub open spec fn expression(ts: Seq<TokenView>, pos: int) -> Parsed
    decreases ts.len() - pos, 10int,
    when 0 <= pos < ts.len()
{
    binary(ts, Level::Equality, pos)
}

/// Whether `r`, read from `pos`, lies within the tokens: a tree ends after
/// `pos` and before the end, or at `pos` where `may_stay`; a fault lies at
/// `pos` or after it, and before the end.
pub open spec fn within(r: Parsed, ts: Seq<TokenView>, pos: int, may_stay: bool) -> bool {
    match r {
        Parsed::Tree { next, .. } => (pos < next || (may_stay && pos == next)) && next < ts.len(),
        Parsed::Fault { at, .. } => pos <= at < ts.len(),
    }
}

/// No rule reads the end-of-input token: what a rule gives from
/// well-formed tokens lies within them.
pub proof fn lemma_rules_advance(ts: Seq<TokenView>, pos: int)
    requires
        well_formed(ts),
        0 <= pos < ts.len(),
    ensures
        within(primary(ts, pos), ts, pos, false),
        within(unary(ts, pos), ts, pos, false),
        forall|level: Level| within(#[trigger] operand(ts, level, pos), ts, pos, false),
        forall|level: Level| within(#[trigger] binary(ts, level, pos), ts, pos, false),
        forall|level: Level, left: ExprView|
            within(#[trigger] binary_rest(ts, level, left, pos), ts, pos, true),
        within(expression(ts, pos), ts, pos, false),
{
    lemma_primary_advances(ts, pos);
    lemma_unary_advances(ts, pos);
    assert forall|level: Level| within(#[trigger] operand(ts, level, pos), ts, pos, false) by {
        lemma_operand_advances(ts, level, pos);
    }
    assert forall|level: Level| within(#[trigger] binary(ts, level, pos), ts, pos, false) by {
        lemma_binary_advances(ts, level, pos);
    }
    assert forall|level: Level, left: ExprView|
        within(#[trigger] binary_rest(ts, level, left, pos), ts, pos, true) by {
        lemma_rest_advances(ts, level, left, pos);
    }
    lemma_binary_advances(ts, Level::Equality, pos);
}

proof fn lemma_primary_advances(ts: Seq<TokenView>, pos: int)
    requires
        well_formed(ts),
        0 <= pos < ts.len(),
    ensures
        within(primary(ts, pos), ts, pos, false),
    decreases ts.len() - pos, 0int,
{
    if ts[pos].token_type == TokenType::LeftParen {
        lemma_binary_advances(ts, Level::Equality, pos + 1);
    }
}

proof fn lemma_unary_advances(ts: Seq<TokenView>, pos: int)
    requires
        well_formed(ts),
        0 <= pos < ts.len(),
    ensures
        within(unary(ts, pos), ts, pos, false),
    decreases ts.len() - pos, 1int,
{
    if ts[pos].token_type == TokenType::Bang || ts[pos].token_type == TokenType::Minus {
        lemma_unary_advances(ts, pos + 1);
    } else {
        lemma_primary_advances(ts, pos);
    }
}

proof fn lemma_operand_advances(ts: Seq<TokenView>, level: Level, pos: int)
    requires
        well_formed(ts),
        0 <= pos < ts.len(),
    ensures
        within(operand(ts, level, pos), ts, pos, false),
    decreases ts.len() - pos, level_rank(level),
{
    match level {
        Level::Equality => lemma_binary_advances(ts, Level::Comparison, pos),
        Level::Comparison => lemma_binary_advances(ts, Level::Term, pos),
        Level::Term => lemma_binary_advances(ts, Level::Factor, pos),
        Level::Factor => lemma_unary_advances(ts, pos),
    }
}

proof fn lemma_binary_advances(ts: Seq<TokenView>, level: Level, pos: int)
    requires
        well_formed(ts),
        0 <= pos < ts.len(),
    ensures
        within(binary(ts, level, pos), ts, pos, false),
    decreases ts.len() - pos, level_rank(level) + 1,
{
    lemma_operand_advances(ts, level, pos);
    let first = operand(ts, level, pos);
    if advanced(first, ts, pos) {
        lemma_rest_advances(ts, level, first->expr, first->next);
    }
}

proof fn lemma_rest_advances(ts: Seq<TokenView>, level: Level, left: ExprView, pos: int)
    requires
        well_formed(ts),
        0 <= pos < ts.len(),
    ensures
        within(binary_rest(ts, level, left, pos), ts, pos, true),
    decreases ts.len() - pos, 0int,
{
    if level_has(level, ts[pos].token_type) {
        lemma_operand_advances(ts, level, pos + 1);
        let right = operand(ts, level, pos + 1);
        if advanced(right, ts, pos) {
            lemma_rest_advances(
                ts,
                level,
                ExprView::Binary {
                    left: Box::new(left),
                    operator: ts[pos],
                    right: Box::new(right->expr),
                },
                right->next,
            );
        }
    }
}

/// Whether error recovery stops at `pos`: at the end of the input, after a
/// `;`, or before a token that can begin a statement.
pub open spec fn boundary(ts: Seq<TokenView>, pos: int) -> bool {
    ts[pos].token_type == TokenType::Eof || (pos > 0 && ts[pos - 1].token_type
        == TokenType::Semicolon) || ts[pos].token_type.starts_statement()
}

} // verus!
