//! The expression tree, and the contract between a tree and the operations
//! that walk it.

use vstd::prelude::*;
use crate::errors::LoxError;
use crate::token::literal_view;
use crate::token::Literal;
use crate::token::LiteralView;
use crate::token::Token;
use crate::token::TokenView;

verus! {

/// An expression. Each node owns its children.
#[derive(Debug)]
pub enum Expr {
    Binary(BinaryExpr),
    Grouping(GroupingExpr),
    Literal(LiteralExpr),
    Unary(UnaryExpr),
}

/// Two operands and the operator between them.
#[derive(Debug)]
pub struct BinaryExpr {
    pub left: Box<Expr>,
    pub operator: Token,
    pub right: Box<Expr>,
}

/// An expression in parentheses.
#[derive(Debug)]
pub struct GroupingExpr {
    pub expression: Box<Expr>,
}

/// A literal value; `nil` where there is none.
#[derive(Debug)]
pub struct LiteralExpr {
    pub value: Option<Literal>,
}

/// A prefix operator and its operand.
#[derive(Debug)]
pub struct UnaryExpr {
    pub operator: Token,
    pub right: Box<Expr>,
}

/// The mathematical content of an expression.
pub enum ExprView {
    Binary { left: Box<ExprView>, operator: TokenView, right: Box<ExprView> },
    Grouping { expression: Box<ExprView> },
    Literal { value: Option<LiteralView> },
    Unary { operator: TokenView, right: Box<ExprView> },
}

/// The content of an expression, node by node.
pub open spec fn expr_view(e: Expr) -> ExprView
    decreases e,
{
    match e {
        Expr::Binary(b) => ExprView::Binary {
            left: Box::new(expr_view(*b.left)),
            operator: b.operator@,
            right: Box::new(expr_view(*b.right)),
        },
        Expr::Grouping(g) => ExprView::Grouping { expression: Box::new(expr_view(*g.expression)) },
        Expr::Literal(l) => ExprView::Literal { value: literal_view(l.value) },
        Expr::Unary(u) => ExprView::Unary {
            operator: u.operator@,
            right: Box::new(expr_view(*u.right)),
        },
    }
}

impl View for Expr {
    type V = ExprView;

    open spec fn view(&self) -> ExprView {
        expr_view(*self)
    }
}

impl View for BinaryExpr {
    type V = ExprView;

    open spec fn view(&self) -> ExprView {
        ExprView::Binary {
            left: Box::new(expr_view(*self.left)),
            operator: self.operator@,
            right: Box::new(expr_view(*self.right)),
        }
    }
}

impl View for GroupingExpr {
    type V = ExprView;

    open spec fn view(&self) -> ExprView {
        ExprView::Grouping { expression: Box::new(expr_view(*self.expression)) }
    }
}

impl View for LiteralExpr {
    type V = ExprView;

    open spec fn view(&self) -> ExprView {
        ExprView::Literal { value: literal_view(self.value) }
    }
}

impl View for UnaryExpr {
    type V = ExprView;

    open spec fn view(&self) -> ExprView {
        ExprView::Unary { operator: self.operator@, right: Box::new(expr_view(*self.right)) }
    }
}

/// An operation over the tree: one method for each kind of node.
///
/// For each method, an operation may say which results it gives for a
/// node; unless it does, any result may come.
pub trait Visitor<T> {
    /// Whether `visit_binary_expr` may return `r` for `expr`.
    open spec fn binary_result(&self, expr: &BinaryExpr, r: Result<T, LoxError>) -> bool {
        true
    }

    /// Whether `visit_grouping_expr` may return `r` for `expr`.
    open spec fn grouping_result(&self, expr: &GroupingExpr, r: Result<T, LoxError>) -> bool {
        true
    }

    /// Whether `visit_literal_expr` may return `r` for `expr`.
    open spec fn literal_result(&self, expr: &LiteralExpr, r: Result<T, LoxError>) -> bool {
        true
    }

    /// Whether `visit_unary_expr` may return `r` for `expr`.
    open spec fn unary_result(&self, expr: &UnaryExpr, r: Result<T, LoxError>) -> bool {
        true
    }

    fn visit_binary_expr(&self, expr: &BinaryExpr) -> (r: Result<T, LoxError>)
        ensures
            self.binary_result(expr, r),
    ;

    fn visit_grouping_expr(&self, expr: &GroupingExpr) -> (r: Result<T, LoxError>)
        ensures
            self.grouping_result(expr, r),
    ;

    fn visit_literal_expr(&self, expr: &LiteralExpr) -> (r: Result<T, LoxError>)
        ensures
            self.literal_result(expr, r),
    ;

    fn visit_unary_expr(&self, expr: &UnaryExpr) -> (r: Result<T, LoxError>)
        ensures
            self.unary_result(expr, r),
    ;
}

impl Expr {
    /// Hands the node to the method of `visitor` for its kind.
    pub fn accept<T, V: Visitor<T> + ?Sized>(&self, visitor: &V) -> (r: Result<T, LoxError>)
        ensures
            match self {
                Expr::Binary(e) => visitor.binary_result(e, r),
                Expr::Grouping(e) => visitor.grouping_result(e, r),
                Expr::Literal(e) => visitor.literal_result(e, r),
                Expr::Unary(e) => visitor.unary_result(e, r),
            },
    {
        match self {
            Expr::Binary(e) => e.accept(visitor),
            Expr::Grouping(e) => e.accept(visitor),
            Expr::Literal(e) => e.accept(visitor),
            Expr::Unary(e) => e.accept(visitor),
        }
    }
}

impl BinaryExpr {
    pub fn new(left: Expr, operator: Token, right: Expr) -> (r: Self)
        ensures
            *r.left == left,
            r.operator == operator,
            *r.right == right,
    {
        BinaryExpr { left: Box::new(left), operator, right: Box::new(right) }
    }

    pub fn accept<T, V: Visitor<T> + ?Sized>(&self, visitor: &V) -> (r: Result<T, LoxError>)
        ensures
            visitor.binary_result(self, r),
    {
        visitor.visit_binary_expr(self)
    }
}

impl GroupingExpr {
    pub fn new(expression: Expr) -> (r: Self)
        ensures
            *r.expression == expression,
    {
        GroupingExpr { expression: Box::new(expression) }
    }

    pub fn accept<T, V: Visitor<T> + ?Sized>(&self, visitor: &V) -> (r: Result<T, LoxError>)
        ensures
            visitor.grouping_result(self, r),
    {
        visitor.visit_grouping_expr(self)
    }
}

impl LiteralExpr {
    pub fn new(value: Option<Literal>) -> (r: Self)
        ensures
            r.value == value,
    {
        LiteralExpr { value }
    }

    pub fn accept<T, V: Visitor<T> + ?Sized>(&self, visitor: &V) -> (r: Result<T, LoxError>)
        ensures
            visitor.literal_result(self, r),
    {
        visitor.visit_literal_expr(self)
    }
}

impl UnaryExpr {
    pub fn new(operator: Token, right: Expr) -> (r: Self)
        ensures
            r.operator == operator,
            *r.right == right,
    {
        UnaryExpr { operator, right: Box::new(right) }
    }

    pub fn accept<T, V: Visitor<T> + ?Sized>(&self, visitor: &V) -> (r: Result<T, LoxError>)
        ensures
            visitor.unary_result(self, r),
    {
        visitor.visit_unary_expr(self)
    }
}

} // verus!
