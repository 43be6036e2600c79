//! Expressions and the resolution slot that variable references carry.

use vstd::prelude::*;
use crate::ast::statement::{Statement, StatementView};
use crate::lexer::scanner::token_views;
use crate::lexer::token::{Token, TokenView};

verus! {

/// The resolution slot of a variable reference or assignment: how many scopes
/// lie between the use and the declaration, once the resolver has found it.
#[derive(Debug, Clone, Copy, PartialEq, Eq, Structural)]
pub enum Depth {
    /// Not resolved: the name is looked up in the global scope.
    Unresolved,
    /// Declared this many scopes out from the scope of use.
    Resolved(usize),
}

/// A node of the syntax tree that can show itself.
pub trait ExprNode {
    /// The printed form of the node.
    spec fn printed(&self) -> Seq<char>;

    /// The node in its printed form.
    fn visit(&self) -> (r: String)
        ensures
            r@ == self.printed(),
    ;
}

/// An expression.
#[derive(Debug)]
#[allow(inconsistent_fields)]
pub enum Expr {
    Assign { name: Token, value: Box<Expr>, depth: Depth },
    LogicOr { left: Box<Expr>, right: Box<Expr> },
    LogicAnd { left: Box<Expr>, right: Box<Expr> },
    Binary { left: Box<Expr>, operator: Token, right: Box<Expr> },
    Literal { value: Token },
    Grouping { expression: Box<Expr> },
    Unary { operator: Token, right: Box<Expr> },
    Variable { name: Token, depth: Depth },
    Call { callee: Box<Expr>, paren: Token, arguments: Vec<Expr> },
    Lambda { params: Vec<Token>, body: Vec<Statement> },
}

/// The mathematical content of an [`Expr`].
#[allow(inconsistent_fields)]
pub enum ExprView {
    Assign { name: TokenView, value: Box<ExprView>, depth: Depth },
    LogicOr { left: Box<ExprView>, right: Box<ExprView> },
    LogicAnd { left: Box<ExprView>, right: Box<ExprView> },
    Binary { left: Box<ExprView>, operator: TokenView, right: Box<ExprView> },
    Literal { value: TokenView },
    Grouping { expression: Box<ExprView> },
    Unary { operator: TokenView, right: Box<ExprView> },
    Variable { name: TokenView, depth: Depth },
    Call { callee: Box<ExprView>, paren: TokenView, arguments: Seq<ExprView> },
    Lambda { params: Seq<TokenView>, body: Seq<StatementView> },
}

impl Expr {
    /// The mathematical content of the node.
    pub open spec fn view(&self) -> ExprView
        decreases self,
    {
        match self {
            Expr::Assign { name, value, depth } => ExprView::Assign {
                name: name@,
                value: Box::new(value@),
                depth: *depth,
            },
            Expr::LogicOr { left, right } => ExprView::LogicOr {
                left: Box::new(left@),
                right: Box::new(right@),
            },
            Expr::LogicAnd { left, right } => ExprView::LogicAnd {
                left: Box::new(left@),
                right: Box::new(right@),
            },
            Expr::Binary { left, operator, right } => ExprView::Binary {
                left: Box::new(left@),
                operator: operator@,
                right: Box::new(right@),
            },
            Expr::Literal { value } => ExprView::Literal { value: value@ },
            Expr::Grouping { expression } => ExprView::Grouping { expression: Box::new(expression@) },
            Expr::Unary { operator, right } => ExprView::Unary {
                operator: operator@,
                right: Box::new(right@),
            },
            Expr::Variable { name, depth } => ExprView::Variable { name: name@, depth: *depth },
            Expr::Call { callee, paren, arguments } => ExprView::Call {
                callee: Box::new(callee@),
                paren: paren@,
                arguments: Seq::new(
                    arguments@.len(),
                    |i: int|
                        if 0 <= i < arguments@.len() {
                            arguments@[i]@
                        } else {
                            arbitrary()
                        },
                ),
            },
            Expr::Lambda { params, body } => ExprView::Lambda {
                params: token_views(params@),
                body: Seq::new(
                    body@.len(),
                    |i: int|
                        if 0 <= i < body@.len() {
                            body@[i]@
                        } else {
                            arbitrary()
                        },
                ),
            },
        }
    }
}

/// The views of a run of expressions.
pub open spec fn expr_views(exprs: Seq<Expr>) -> Seq<ExprView> {
    Seq::new(exprs.len(), |i: int| exprs[i]@)
}

/// The view of a call lists the views of its arguments, and the view of a
/// lambda those of its parameters and body.
pub proof fn lemma_expr_view_lists(e: Expr)
    ensures
        e matches Expr::Call { arguments, .. } ==> e@->Call_arguments == expr_views(arguments@),
        e matches Expr::Lambda { body, .. } ==> e@->Lambda_body
            == crate::ast::statement::statement_views(body@),
{
    match e {
        Expr::Call { arguments, .. } => {
            assert(e@->Call_arguments =~= expr_views(arguments@));
        },
        Expr::Lambda { body, .. } => {
            assert(e@->Lambda_body =~= crate::ast::statement::statement_views(body@));
        },
        _ => {},
    }
}

} // verus!
