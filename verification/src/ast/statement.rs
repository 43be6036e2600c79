//! Statements.

use vstd::prelude::*;
use crate::ast::expr::{Expr, ExprView};
use crate::lexer::scanner::token_views;
use crate::lexer::token::{Token, TokenView};

verus! {

/// A statement.
#[derive(Debug)]
#[allow(inconsistent_fields)]
pub enum Statement {
    Expression { expression: Expr },
    If { condition: Expr, then_branch: Box<Statement>, else_branch: Option<Box<Statement>> },
    Print { expression: Expr },
    Var { name: Token, initializer: Option<Expr> },
    While { condition: Expr, body: Box<Statement> },
    Block { statements: Vec<Statement> },
    Function { name: Token, params: Vec<Token>, body: Vec<Statement> },
    Return { keyword: Token, value: Option<Expr> },
}

/// The mathematical content of a [`Statement`].
#[allow(inconsistent_fields)]
pub enum StatementView {
    Expression { expression: ExprView },
    If {
        condition: ExprView,
        then_branch: Box<StatementView>,
        else_branch: Option<Box<StatementView>>,
    },
    Print { expression: ExprView },
    Var { name: TokenView, initializer: Option<ExprView> },
    While { condition: ExprView, body: Box<StatementView> },
    Block { statements: Seq<StatementView> },
    Function { name: TokenView, params: Seq<TokenView>, body: Seq<StatementView> },
    Return { keyword: TokenView, value: Option<ExprView> },
}

impl Statement {
    /// The mathematical content of the node.
    pub open spec fn view(&self) -> StatementView
        decreases self,
    {
        match self {
            Statement::Expression { expression } => StatementView::Expression {
                expression: expression@,
            },
            Statement::If { condition, then_branch, else_branch } => StatementView::If {
                condition: condition@,
                then_branch: Box::new(then_branch@),
                else_branch: match else_branch {
                    Some(branch) => Some(Box::new(branch@)),
                    None => None,
                },
            },
            Statement::Print { expression } => StatementView::Print { expression: expression@ },
            Statement::Var { name, initializer } => StatementView::Var {
                name: name@,
                initializer: match initializer {
                    Some(e) => Some(e@),
                    None => None,
                },
            },
            Statement::While { condition, body } => StatementView::While {
                condition: condition@,
                body: Box::new(body@),
            },
            Statement::Block { statements } => StatementView::Block {
                statements: Seq::new(
                    statements@.len(),
                    |i: int|
                        if 0 <= i < statements@.len() {
                            statements@[i]@
                        } else {
                            arbitrary()
                        },
                ),
            },
            Statement::Function { name, params, body } => StatementView::Function {
                name: name@,
                params: token_views(params@),
                body: Seq::new(
                    body@.len(),
                    |i: int|
                        if 0 <= i < body@.len() {
                            body@[i]@
                        } else {
                            arbitrary()
                        },
                ),
            },
            Statement::Return { keyword, value } => StatementView::Return {
                keyword: keyword@,
                value: match value {
                    Some(e) => Some(e@),
                    None => None,
                },
            },
        }
    }
}

/// The views of a run of statements.
pub open spec fn statement_views(statements: Seq<Statement>) -> Seq<StatementView> {
    Seq::new(statements.len(), |i: int| statements[i]@)
}

/// The view of a block lists the views of its statements, and the view of a
/// function declaration those of its body.
pub proof fn lemma_statement_view_lists(s: Statement)
    ensures
        s matches Statement::Block { statements } ==> s@->Block_statements == statement_views(
            statements@,
        ),
        s matches Statement::Function { body, .. } ==> s@->Function_body == statement_views(body@),
{
    match s {
        Statement::Block { statements } => {
            assert(s@->Block_statements =~= statement_views(statements@));
        },
        Statement::Function { body, .. } => {
            assert(s@->Function_body =~= statement_views(body@));
        },
        _ => {},
    }
}

} // verus!
