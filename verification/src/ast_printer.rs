//! The printer: an expression as text, in prefix form with every
//! subexpression in parentheses.

use vstd::prelude::*;
use vstd::string::StringExecFns;
use crate::ast::expr_view;
use crate::ast::BinaryExpr;
use crate::ast::Expr;
use crate::ast::ExprView;
use crate::ast::GroupingExpr;
use crate::ast::LiteralExpr;
use crate::ast::UnaryExpr;
use crate::ast::Visitor;
use crate::errors::LoxError;
use crate::token::literal_text;

verus! {

/// The texts, each after a space.
pub open spec fn spaced(parts: Seq<Seq<char>>) -> Seq<char>
    decreases parts.len(),
{
    if parts.len() == 0 {
        Seq::empty()
    } else {
        spaced(parts.drop_last()) + seq![' '] + parts.last()
    }
}

/// A name and the texts of its operands, in parentheses.
pub open spec fn parenthesized(name: Seq<char>, parts: Seq<Seq<char>>) -> Seq<char> {
    seq!['('] + name + spaced(parts) + seq![')']
}

/// The printed form of an expression: a binary or unary node as its
/// operator's lexeme and its operands, a group as `group` and its content,
/// a literal as the text of its value, and `nil` where it has none.
pub open spec fn printed(e: ExprView) -> Seq<char>
    decreases e,
{
    match e {
        ExprView::Binary { left, operator, right } => parenthesized(
            operator.lexeme,
            seq![printed(*left), printed(*right)],
        ),
        ExprView::Grouping { expression } => parenthesized(
            seq!['g', 'r', 'o', 'u', 'p'],
            seq![printed(*expression)],
        ),
        ExprView::Literal { value } => match value {
            Some(l) => literal_text(l),
            None => seq!['n', 'i', 'l'],
        },
        ExprView::Unary { operator, right } => parenthesized(
            operator.lexeme,
            seq![printed(*right)],
        ),
    }
}

/// The printed forms of the expressions, in order.
pub open spec fn printed_all(exprs: Seq<&Expr>) -> Seq<Seq<char>> {
    Seq::new(exprs.len(), |i: int| printed(exprs[i]@))
}

/// The number of nodes on the longest way from the node down to a literal.
pub open spec fn height(e: ExprView) -> nat
    decreases e,
{
    match e {
        ExprView::Binary { left, operator, right } => 1 + if height(*left) >= height(*right) {
            height(*left)
        } else {
            height(*right)
        },
        ExprView::Grouping { expression } => 1 + height(*expression),
        ExprView::Literal { value } => 0,
        ExprView::Unary { operator, right } => 1 + height(*right),
    }
}

/// One more than the greatest height among the expressions; 0 where there
/// is none.
pub open spec fn tallest(exprs: Seq<&Expr>) -> nat
    decreases exprs.len(),
{
    if exprs.len() == 0 {
        0
    } else {
        let rest = tallest(exprs.drop_last());
        let last = height(exprs.last()@) + 1;
        if rest >= last {
            rest
        } else {
            last
        }
    }
}

proof fn lemma_tallest(exprs: Seq<&Expr>, i: int)
    requires
        0 <= i < exprs.len(),
    ensures
        height(exprs[i]@) < tallest(exprs),
    decreases exprs.len(),
{
    if i < exprs.len() - 1 {
        lemma_tallest(exprs.drop_last(), i);
    }
}

/// The printer.
pub struct AstPrinter;

impl AstPrinter {
    /// The printed form of the expression.
    pub fn print(&self, expr: Expr) -> (r: Result<String, LoxError>)
        ensures
            r matches Ok(s) && s@ == printed(expr@),
    {
        expr.accept(self)
    }

    /// The name and the printed forms of the expressions, in parentheses.
    pub fn parenthesize(&self, name: String, exprs: Vec<&Expr>) -> (r: Result<String, LoxError>)
        ensures
            r matches Ok(s) && s@ == parenthesized(name@, printed_all(exprs@)),
        decreases tallest(exprs@), 0int,
    {
        proof {
            reveal_strlit("(");
            reveal_strlit(" ");
            reveal_strlit(")");
        }
        let mut text = String::from_str("(");
        text.append(name.as_str());
        let mut i: usize = 0;
        while i < exprs.len()
            invariant
                i <= exprs.len(),
                text@ == seq!['('] + name@ + spaced(printed_all(exprs@).take(i as int)),
            decreases exprs.len() - i,
        {
            proof {
                lemma_tallest(exprs@, i as int);
            }
            let part = self.render(exprs[i]);
            text.append(" ");
            text.append(part.as_str());
            proof {
                reveal_strlit(" ");
                let all = printed_all(exprs@);
                assert(all.take(i + 1).drop_last() =~= all.take(i as int));
                assert(all.take(i + 1).last() == part@);
                assert(text@ =~= seq!['('] + name@ + spaced(all.take(i + 1)));
            }
            i += 1;
        }
        text.append(")");
        proof {
            let all = printed_all(exprs@);
            assert(all.take(exprs.len() as int) =~= all);
        }
        Ok(text)
    }

    /// The printed form of the expression.
    fn render(&self, expr: &Expr) -> (r: String)
        ensures
            r@ == printed(expr@),
        decreases height(expr@), 1int,
    {
        let r = match expr {
            Expr::Binary(e) => {
                let exprs: Vec<&Expr> = vec![&*e.left, &*e.right];
                proof {
                    assert(printed_all(exprs@) =~= seq![
                        printed(expr_view(*e.left)),
                        printed(expr_view(*e.right)),
                    ]);
                    reveal_with_fuel(tallest, 3);
                }
                self.parenthesize(e.operator.text(), exprs)
            },
            Expr::Grouping(e) => {
                let exprs: Vec<&Expr> = vec![&*e.expression];
                proof {
                    assert(printed_all(exprs@) =~= seq![printed(expr_view(*e.expression))]);
                    reveal_with_fuel(tallest, 2);
                    reveal_strlit("group");
                }
                let name = String::from_str("group");
                assert(name@ =~= seq!['g', 'r', 'o', 'u', 'p']);
                self.parenthesize(name, exprs)
            },
            Expr::Literal(e) => self.visit_literal_expr(e),
            Expr::Unary(e) => {
                let exprs: Vec<&Expr> = vec![&*e.right];
                proof {
                    assert(printed_all(exprs@) =~= seq![printed(expr_view(*e.right))]);
                    reveal_with_fuel(tallest, 2);
                }
                self.parenthesize(e.operator.text(), exprs)
            },
        };
        match r {
            Ok(text) => text,
            Err(_) => vstd::pervasive::unreached(),
        }
    }
}

impl Visitor<String> for AstPrinter {
    open spec fn binary_result(&self, expr: &BinaryExpr, r: Result<String, LoxError>) -> bool {
        r matches Ok(s) && s@ == printed(expr@)
    }

    open spec fn grouping_result(&self, expr: &GroupingExpr, r: Result<String, LoxError>) -> bool {
        r matches Ok(s) && s@ == printed(expr@)
    }

    open spec fn literal_result(&self, expr: &LiteralExpr, r: Result<String, LoxError>) -> bool {
        r matches Ok(s) && s@ == printed(expr@)
    }

    open spec fn unary_result(&self, expr: &UnaryExpr, r: Result<String, LoxError>) -> bool {
        r matches Ok(s) && s@ == printed(expr@)
    }

    fn visit_binary_expr(&self, expr: &BinaryExpr) -> (r: Result<String, LoxError>) {
        let exprs: Vec<&Expr> = vec![&*expr.left, &*expr.right];
        proof {
            assert(printed_all(exprs@) =~= seq![
                printed(expr_view(*expr.left)),
                printed(expr_view(*expr.right)),
            ]);
        }
        self.parenthesize(expr.operator.text(), exprs)
    }

    fn visit_grouping_expr(&self, expr: &GroupingExpr) -> (r: Result<String, LoxError>) {
        let exprs: Vec<&Expr> = vec![&*expr.expression];
        proof {
            assert(printed_all(exprs@) =~= seq![printed(expr_view(*expr.expression))]);
            reveal_strlit("group");
        }
        let name = String::from_str("group");
        assert(name@ =~= seq!['g', 'r', 'o', 'u', 'p']);
        self.parenthesize(name, exprs)
    }

    fn visit_literal_expr(&self, expr: &LiteralExpr) -> (r: Result<String, LoxError>) {
        match &expr.value {
            Some(e) => Ok(e.text()),
            None => {
                proof {
                    reveal_strlit("nil");
                }
                let text = String::from_str("nil");
                assert(text@ =~= seq!['n', 'i', 'l']);
                Ok(text)
            },
        }
    }

    fn visit_unary_expr(&self, expr: &UnaryExpr) -> (r: Result<String, LoxError>) {
        let exprs: Vec<&Expr> = vec![&*expr.right];
        proof {
            assert(printed_all(exprs@) =~= seq![printed(expr_view(*expr.right))]);
        }
        self.parenthesize(expr.operator.text(), exprs)
    }
}

} // verus!
