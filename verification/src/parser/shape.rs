//! Resolution writes resolution slots and nothing else: a program that has
//! been resolved is, but for its slots, the program that was parsed.

use vstd::prelude::*;
use crate::ast::expr::{Depth, ExprView};
use crate::ast::statement::StatementView;
use crate::parser::error::ParseErrorView;
use crate::parser::resolution::{
    argument_results, body_results, collect, lambda_results, resolve_expr, resolve_stmt,
    DeclarationView,
};

verus! {

/// The expression with every resolution slot in it empty.
pub open spec fn erase_expr(e: ExprView) -> ExprView
    decreases e,
{
    match e {
        ExprView::Assign { name, value, depth } => ExprView::Assign {
            name,
            value: Box::new(erase_expr(*value)),
            depth: Depth::Unresolved,
        },
        ExprView::LogicOr { left, right } => ExprView::LogicOr {
            left: Box::new(erase_expr(*left)),
            right: Box::new(erase_expr(*right)),
        },
        ExprView::LogicAnd { left, right } => ExprView::LogicAnd {
            left: Box::new(erase_expr(*left)),
            right: Box::new(erase_expr(*right)),
        },
        ExprView::Binary { left, operator, right } => ExprView::Binary {
            left: Box::new(erase_expr(*left)),
            operator,
            right: Box::new(erase_expr(*right)),
        },
        ExprView::Literal { value } => e,
        ExprView::Grouping { expression } => ExprView::Grouping {
            expression: Box::new(erase_expr(*expression)),
        },
        ExprView::Unary { operator, right } => ExprView::Unary {
            operator,
            right: Box::new(erase_expr(*right)),
        },
        ExprView::Variable { name, depth } => ExprView::Variable { name, depth: Depth::Unresolved },
        ExprView::Call { callee, paren, arguments } => ExprView::Call {
            callee: Box::new(erase_expr(*callee)),
            paren,
            arguments: Seq::new(
                arguments.len(),
                |i: int|
                    if 0 <= i < arguments.len() {
                        erase_expr(arguments[i])
                    } else {
                        arbitrary()
                    },
            ),
        },
        ExprView::Lambda { params, body } => ExprView::Lambda {
            params,
            body: Seq::new(
                body.len(),
                |i: int|
                    if 0 <= i < body.len() {
                        erase_stmt(body[i])
                    } else {
                        arbitrary()
                    },
            ),
        },
    }
}

/// The statement with every resolution slot in it empty.
pub open spec fn erase_stmt(s: StatementView) -> StatementView
    decreases s,
{
    match s {
        StatementView::Expression { expression } => StatementView::Expression {
            expression: erase_expr(expression),
        },
        StatementView::If { condition, then_branch, else_branch } => StatementView::If {
            condition: erase_expr(condition),
            then_branch: Box::new(erase_stmt(*then_branch)),
            else_branch: match else_branch {
                Some(other) => Some(Box::new(erase_stmt(*other))),
                None => None,
            },
        },
        StatementView::Print { expression } => StatementView::Print {
            expression: erase_expr(expression),
        },
        StatementView::Var { name, initializer } => StatementView::Var {
            name,
            initializer: match initializer {
                Some(e) => Some(erase_expr(e)),
                None => None,
            },
        },
        StatementView::While { condition, body } => StatementView::While {
            condition: erase_expr(condition),
            body: Box::new(erase_stmt(*body)),
        },
        StatementView::Block { statements } => StatementView::Block {
            statements: Seq::new(
                statements.len(),
                |i: int|
                    if 0 <= i < statements.len() {
                        erase_stmt(statements[i])
                    } else {
                        arbitrary()
                    },
            ),
        },
        StatementView::Function { name, params, body } => StatementView::Function {
            name,
            params,
            body: Seq::new(
                body.len(),
                |i: int|
                    if 0 <= i < body.len() {
                        erase_stmt(body[i])
                    } else {
                        arbitrary()
                    },
            ),
        },
        StatementView::Return { keyword, value } => StatementView::Return {
            keyword,
            value: match value {
                Some(e) => Some(erase_expr(e)),
                None => None,
            },
        },
    }
}

/// Results that collect to items are those items, one for one.
pub proof fn lemma_collected<T>(results: Seq<Result<T, ParseErrorView>>)
    ensures
        collect(results) matches Ok(items) ==> items.len() == results.len() && forall|i: int|
            0 <= i < results.len() ==> #[trigger] results[i] == Ok::<T, ParseErrorView>(items[i]),
    decreases results.len(),
{
    if results.len() > 0 {
        lemma_collected(results.drop_last());
        match collect(results.drop_last()) {
            Ok(before) => {
                match results.last() {
                    Ok(item) => {
                        let items = before.push(item);
                        assert forall|i: int| 0 <= i < results.len() implies #[trigger] results[i]
                            == Ok::<T, ParseErrorView>(items[i]) by {
                            if i < results.len() - 1 {
                                assert(results.drop_last()[i] == results[i]);
                            }
                        }
                    },
                    Err(_) => {},
                }
            },
            Err(_) => {},
        }
    }
}

/// A resolved expression is, but for its resolution slots, the expression
/// it was.
pub proof fn lemma_resolve_expr_shape(
    e: ExprView,
    scopes: Seq<Seq<DeclarationView>>,
    in_function: bool,
)
    ensures
        resolve_expr(e, scopes, in_function) matches Ok(r) ==> erase_expr(r) == erase_expr(e),
    decreases e,
{
    match resolve_expr(e, scopes, in_function) {
        Err(_) => {},
        Ok(r) => {
            match e {
                ExprView::Binary { left, operator, right } => {
                    lemma_resolve_expr_shape(*left, scopes, in_function);
                    lemma_resolve_expr_shape(*right, scopes, in_function);
                },
                ExprView::Literal { value } => {},
                ExprView::Grouping { expression } => {
                    lemma_resolve_expr_shape(*expression, scopes, in_function);
                },
                ExprView::Unary { operator, right } => {
                    lemma_resolve_expr_shape(*right, scopes, in_function);
                },
                ExprView::Variable { name, depth } => {},
                ExprView::Assign { name, value, depth } => {
                    lemma_resolve_expr_shape(*value, scopes, in_function);
                },
                ExprView::LogicOr { left, right } => {
                    lemma_resolve_expr_shape(*left, scopes, in_function);
                    lemma_resolve_expr_shape(*right, scopes, in_function);
                },
                ExprView::LogicAnd { left, right } => {
                    lemma_resolve_expr_shape(*left, scopes, in_function);
                    lemma_resolve_expr_shape(*right, scopes, in_function);
                },
                ExprView::Call { callee, paren, arguments } => {
                    lemma_resolve_expr_shape(*callee, scopes, in_function);
                    let results = argument_results(e, scopes, in_function);
                    lemma_collected(results);
                    let items = collect(results)->Ok_0;
                    assert forall|i: int| 0 <= i < arguments.len() implies erase_expr(items[i])
                        == erase_expr(arguments[i]) by {
                        lemma_resolve_expr_shape(arguments[i], scopes, in_function);
                        assert(results[i] == Ok::<ExprView, ParseErrorView>(items[i]));
                    }
                    assert(erase_expr(r)->Call_arguments =~= erase_expr(e)->Call_arguments);
                },
                ExprView::Lambda { params, body } => {
                    let inner = crate::parser::resolution::function_scopes(scopes, params)->Ok_0;
                    let results = lambda_results(e, inner);
                    lemma_collected(results);
                    let items = collect(results)->Ok_0;
                    assert forall|i: int| 0 <= i < body.len() implies erase_stmt(items[i])
                        == erase_stmt(body[i]) by {
                        lemma_resolve_stmt_shape(
                            body[i],
                            crate::parser::resolution::scopes_at(body, i, inner),
                            true,
                        );
                        assert(results[i] == Ok::<StatementView, ParseErrorView>(items[i]));
                    }
                    assert(erase_expr(r)->Lambda_body =~= erase_expr(e)->Lambda_body);
                },
            }
        },
    }
}

/// A resolved statement is, but for its resolution slots, the statement it
/// was.
pub proof fn lemma_resolve_stmt_shape(
    s: StatementView,
    scopes: Seq<Seq<DeclarationView>>,
    in_function: bool,
)
    ensures
        resolve_stmt(s, scopes, in_function) matches Ok(r) ==> erase_stmt(r) == erase_stmt(s),
    decreases s,
{
    match resolve_stmt(s, scopes, in_function) {
        Err(_) => {},
        Ok(r) => {
            match s {
                StatementView::Expression { expression } => {
                    lemma_resolve_expr_shape(expression, scopes, in_function);
                },
                StatementView::Print { expression } => {
                    lemma_resolve_expr_shape(expression, scopes, in_function);
                },
                StatementView::Var { name, initializer } => {
                    match initializer {
                        Some(given) => {
                            let declared = crate::parser::resolution::declare(scopes, name)->Ok_0;
                            lemma_resolve_expr_shape(given, declared, in_function);
                        },
                        None => {},
                    }
                },
                StatementView::Block { statements } => {
                    let inner = crate::parser::resolution::begin_scope(scopes);
                    let results = body_results(s, inner, in_function);
                    lemma_collected(results);
                    let items = collect(results)->Ok_0;
                    assert forall|i: int| 0 <= i < statements.len() implies erase_stmt(items[i])
                        == erase_stmt(statements[i]) by {
                        lemma_resolve_stmt_shape(
                            statements[i],
                            crate::parser::resolution::scopes_at(statements, i, inner),
                            in_function,
                        );
                        assert(results[i] == Ok::<StatementView, ParseErrorView>(items[i]));
                    }
                    assert(erase_stmt(r)->Block_statements =~= erase_stmt(s)->Block_statements);
                },
                StatementView::If { condition, then_branch, else_branch } => {
                    lemma_resolve_expr_shape(condition, scopes, in_function);
                    lemma_resolve_stmt_shape(*then_branch, scopes, in_function);
                    match else_branch {
                        Some(other) => {
                            lemma_resolve_stmt_shape(
                                *other,
                                crate::parser::resolution::after(*then_branch, scopes),
                                in_function,
                            );
                        },
                        None => {},
                    }
                },
                StatementView::While { condition, body } => {
                    lemma_resolve_expr_shape(condition, scopes, in_function);
                    lemma_resolve_stmt_shape(*body, scopes, in_function);
                },
                StatementView::Function { name, params, body } => {
                    let outer = crate::parser::resolution::introduce(scopes, name)->Ok_0;
                    let inner = crate::parser::resolution::function_scopes(outer, params)->Ok_0;
                    let results = body_results(s, inner, true);
                    lemma_collected(results);
                    let items = collect(results)->Ok_0;
                    assert forall|i: int| 0 <= i < body.len() implies erase_stmt(items[i])
                        == erase_stmt(body[i]) by {
                        lemma_resolve_stmt_shape(
                            body[i],
                            crate::parser::resolution::scopes_at(body, i, inner),
                            true,
                        );
                        assert(results[i] == Ok::<StatementView, ParseErrorView>(items[i]));
                    }
                    assert(erase_stmt(r)->Function_body =~= erase_stmt(s)->Function_body);
                },
                StatementView::Return { keyword, value } => {
                    match value {
                        Some(given) => {
                            lemma_resolve_expr_shape(given, scopes, in_function);
                        },
                        None => {},
                    }
                },
            }
        },
    }
}

} // verus!
