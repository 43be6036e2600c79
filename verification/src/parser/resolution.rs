//! What static resolution computes: for every variable reference and
//! assignment, how many scopes lie between it and the declaration it refers
//! to.
//!
//! Resolution walks the program with a stack of lexical scopes, innermost
//! last. Each scope lists the names declared in it and says of each whether
//! its initializer is done. Outside every scope lies the global scope, which
//! is not on the stack: names that no scope on the stack declares are left
//! to be looked up there at run time.

use vstd::prelude::*;
use crate::ast::expr::{Depth, ExprView};
use crate::ast::statement::StatementView;
use crate::lexer::token::TokenView;
use crate::parser::error::ParseErrorView;

verus! {

/// A name declared in a scope, and whether it is ready to be read.
pub struct DeclarationView {
    pub name: Seq<char>,
    pub ready: bool,
}

/// The first position at or after `from` where `scope` declares `name`.
pub open spec fn position(scope: Seq<DeclarationView>, name: Seq<char>, from: int) -> Option<int>
    decreases scope.len() - from,
{
    if from < 0 || from >= scope.len() {
        None
    } else if scope[from].name == name {
        Some(from)
    } else {
        position(scope, name, from + 1)
    }
}

/// Whether `scope` declares `name`, and if so whether the name is ready.
pub open spec fn status(scope: Seq<DeclarationView>, name: Seq<char>) -> Option<bool> {
    match position(scope, name, 0) {
        Some(i) => Some(scope[i].ready),
        None => None,
    }
}

/// Whether `scope` declares `name`.
pub open spec fn declares(scope: Seq<DeclarationView>, name: Seq<char>) -> bool {
    position(scope, name, 0) is Some
}

/// `scope` with `name` declared and marked as `ready`.
pub open spec fn marked(scope: Seq<DeclarationView>, name: Seq<char>, ready: bool) -> Seq<
    DeclarationView,
> {
    match position(scope, name, 0) {
        Some(i) => scope.update(i, DeclarationView { name, ready }),
        None => scope.push(DeclarationView { name, ready }),
    }
}

/// The error reported at `token`.
pub open spec fn error_at(token: TokenView, message: Seq<char>) -> ParseErrorView {
    ParseErrorView { line: token.line, message: "At '"@ + token.lexeme + "': "@ + message }
}

/// The scopes after `name` is declared in the innermost scope, not yet ready.
/// Declaring a name twice in one scope is an error. In the global scope
/// nothing is recorded.
pub open spec fn declare(scopes: Seq<Seq<DeclarationView>>, name: TokenView) -> Result<
    Seq<Seq<DeclarationView>>,
    ParseErrorView,
> {
    if scopes.len() == 0 {
        Ok(scopes)
    } else if declares(scopes.last(), name.lexeme) {
        Err(error_at(name, "Variable with this name already declared in this scope"@))
    } else {
        Ok(scopes.update(scopes.len() - 1, marked(scopes.last(), name.lexeme, false)))
    }
}

/// The scopes after `name` is marked as ready in the innermost scope.
pub open spec fn define(scopes: Seq<Seq<DeclarationView>>, name: Seq<char>) -> Seq<
    Seq<DeclarationView>,
> {
    if scopes.len() == 0 {
        scopes
    } else {
        scopes.update(scopes.len() - 1, marked(scopes.last(), name, true))
    }
}

/// The scopes after `name` is declared and at once marked as ready.
pub open spec fn introduce(scopes: Seq<Seq<DeclarationView>>, name: TokenView) -> Result<
    Seq<Seq<DeclarationView>>,
    ParseErrorView,
> {
    match declare(scopes, name) {
        Ok(declared) => Ok(define(declared, name.lexeme)),
        Err(e) => Err(e),
    }
}

/// The scopes with a new, empty innermost scope.
pub open spec fn begin_scope(scopes: Seq<Seq<DeclarationView>>) -> Seq<Seq<DeclarationView>> {
    scopes.push(Seq::empty())
}

/// The number of scopes between the innermost scope and the nearest scope
/// that declares `name`, if any scope does.
pub open spec fn distance(scopes: Seq<Seq<DeclarationView>>, name: Seq<char>) -> Option<nat>
    decreases scopes.len(),
{
    if scopes.len() == 0 {
        None
    } else if declares(scopes.last(), name) {
        Some(0)
    } else {
        match distance(scopes.drop_last(), name) {
            Some(d) => Some(d + 1),
            None => None,
        }
    }
}

/// The resolution slot of a reference to `name`: the distance to the nearest
/// declaration, or what the slot held before if no scope declares the name.
pub open spec fn resolved(scopes: Seq<Seq<DeclarationView>>, name: Seq<char>, before: Depth) -> Depth {
    match distance(scopes, name) {
        Some(d) => Depth::Resolved(d as usize),
        None => before,
    }
}

/// Whether a reference to `name` stands inside the initializer of the very
/// variable it names.
pub open spec fn in_own_initializer(scopes: Seq<Seq<DeclarationView>>, name: Seq<char>) -> bool {
    scopes.len() > 0 && status(scopes.last(), name) == Some(false)
}

/// The items of `results`, or the first error among them.
pub open spec fn collect<T>(results: Seq<Result<T, ParseErrorView>>) -> Result<
    Seq<T>,
    ParseErrorView,
>
    decreases results.len(),
{
    if results.len() == 0 {
        Ok(Seq::empty())
    } else {
        match collect(results.drop_last()) {
            Err(e) => Err(e),
            Ok(items) => match results.last() {
                Ok(item) => Ok(items.push(item)),
                Err(e) => Err(e),
            },
        }
    }
}

/// The scopes after the first `count` parameters are introduced, in order.
pub open spec fn with_parameters(
    scopes: Seq<Seq<DeclarationView>>,
    params: Seq<TokenView>,
    count: int,
) -> Result<Seq<Seq<DeclarationView>>, ParseErrorView>
    decreases count,
{
    if count <= 0 {
        Ok(scopes)
    } else {
        match with_parameters(scopes, params, count - 1) {
            Ok(so_far) => introduce(so_far, params[count - 1]),
            Err(e) => Err(e),
        }
    }
}

/// The scopes in which the body of a function with the given parameters is
/// resolved: a scope for the parameters, and inside it the scope of the body.
pub open spec fn function_scopes(scopes: Seq<Seq<DeclarationView>>, params: Seq<TokenView>) -> Result<
    Seq<Seq<DeclarationView>>,
    ParseErrorView,
> {
    match with_parameters(begin_scope(scopes), params, params.len() as int) {
        Ok(inner) => Ok(begin_scope(inner)),
        Err(e) => Err(e),
    }
}

/// The scopes after `statement` is resolved without error: a variable or
/// function declaration adds its name to the innermost scope, and so does
/// one that stands as a branch or loop body without a block around it.
pub open spec fn after(statement: StatementView, scopes: Seq<Seq<DeclarationView>>) -> Seq<
    Seq<DeclarationView>,
>
    decreases statement,
{
    match statement {
        StatementView::Var { name, .. } => match introduce(scopes, name) {
            Ok(s) => s,
            Err(_) => scopes,
        },
        StatementView::Function { name, .. } => match introduce(scopes, name) {
            Ok(s) => s,
            Err(_) => scopes,
        },
        StatementView::If { then_branch, else_branch, .. } => match else_branch {
            Some(other) => after(*other, after(*then_branch, scopes)),
            None => after(*then_branch, scopes),
        },
        StatementView::While { body, .. } => after(*body, scopes),
        _ => scopes,
    }
}

/// The scopes in which the `i`th statement of `list` is resolved, when the
/// first is resolved in `scopes`.
pub open spec fn scopes_at(list: Seq<StatementView>, i: int, scopes: Seq<Seq<DeclarationView>>) -> Seq<
    Seq<DeclarationView>,
>
    decreases i,
{
    if i <= 0 || i > list.len() {
        scopes
    } else {
        after(list[i - 1], scopes_at(list, i - 1, scopes))
    }
}

/// The results of resolving each argument of a call, all in the same scopes.
pub open spec fn argument_results(
    e: ExprView,
    scopes: Seq<Seq<DeclarationView>>,
    in_function: bool,
) -> Seq<Result<ExprView, ParseErrorView>>
    decreases e, 0nat,
{
    match e {
        ExprView::Call { arguments, .. } => Seq::new(
            arguments.len(),
            |i: int|
                if 0 <= i < arguments.len() {
                    resolve_expr(arguments[i], scopes, in_function)
                } else {
                    arbitrary()
                },
        ),
        _ => Seq::empty(),
    }
}

/// The results of resolving each statement of the body of a function
/// expression, the first in `scopes` and each in the scopes that the
/// statements before it leave.
pub open spec fn lambda_results(e: ExprView, scopes: Seq<Seq<DeclarationView>>) -> Seq<
    Result<StatementView, ParseErrorView>,
>
    decreases e, 0nat,
{
    match e {
        ExprView::Lambda { body, .. } => Seq::new(
            body.len(),
            |i: int|
                if 0 <= i < body.len() {
                    resolve_stmt(body[i], scopes_at(body, i, scopes), true)
                } else {
                    arbitrary()
                },
        ),
        _ => Seq::empty(),
    }
}

/// The results of resolving each statement of a block or of the body of a
/// function declaration, the first in `scopes` and each in the scopes that
/// the statements before it leave.
pub open spec fn body_results(
    s: StatementView,
    scopes: Seq<Seq<DeclarationView>>,
    in_function: bool,
) -> Seq<Result<StatementView, ParseErrorView>>
    decreases s, 0nat,
{
    match s {
        StatementView::Block { statements } => Seq::new(
            statements.len(),
            |i: int|
                if 0 <= i < statements.len() {
                    resolve_stmt(statements[i], scopes_at(statements, i, scopes), in_function)
                } else {
                    arbitrary()
                },
        ),
        StatementView::Function { body, .. } => Seq::new(
            body.len(),
            |i: int|
                if 0 <= i < body.len() {
                    resolve_stmt(body[i], scopes_at(body, i, scopes), in_function)
                } else {
                    arbitrary()
                },
        ),
        _ => Seq::empty(),
    }
}

/// Resolves an expression: the same expression with its resolution slots
/// filled, or the first error.
///
/// A reference to a variable from inside its own initializer is an error. A
/// function expression is resolved like a function declaration without a
/// name.
pub open spec fn resolve_expr(e: ExprView, scopes: Seq<Seq<DeclarationView>>, in_function: bool) -> Result<
    ExprView,
    ParseErrorView,
>
    decreases e, 1nat,
{
    match e {
        ExprView::Binary { left, operator, right } => match resolve_expr(
            *left,
            scopes,
            in_function,
        ) {
            Err(e) => Err(e),
            Ok(l) => match resolve_expr(*right, scopes, in_function) {
                Err(e) => Err(e),
                Ok(r) => Ok(ExprView::Binary { left: Box::new(l), operator, right: Box::new(r) }),
            },
        },
        ExprView::Literal { value } => Ok(e),
        ExprView::Grouping { expression } => match resolve_expr(*expression, scopes, in_function) {
            Err(e) => Err(e),
            Ok(inner) => Ok(ExprView::Grouping { expression: Box::new(inner) }),
        },
        ExprView::Unary { operator, right } => match resolve_expr(*right, scopes, in_function) {
            Err(e) => Err(e),
            Ok(r) => Ok(ExprView::Unary { operator, right: Box::new(r) }),
        },
        ExprView::Variable { name, depth } => if in_own_initializer(scopes, name.lexeme) {
            Err(error_at(name, "Can't read local variable in its own initializer"@))
        } else {
            Ok(ExprView::Variable { name, depth: resolved(scopes, name.lexeme, depth) })
        },
        ExprView::Assign { name, value, depth } => match resolve_expr(
            *value,
            scopes,
            in_function,
        ) {
            Err(e) => Err(e),
            Ok(v) => Ok(
                ExprView::Assign {
                    name,
                    value: Box::new(v),
                    depth: resolved(scopes, name.lexeme, depth),
                },
            ),
        },
        ExprView::LogicOr { left, right } => match resolve_expr(*left, scopes, in_function) {
            Err(e) => Err(e),
            Ok(l) => match resolve_expr(*right, scopes, in_function) {
                Err(e) => Err(e),
                Ok(r) => Ok(ExprView::LogicOr { left: Box::new(l), right: Box::new(r) }),
            },
        },
        ExprView::LogicAnd { left, right } => match resolve_expr(*left, scopes, in_function) {
            Err(e) => Err(e),
            Ok(l) => match resolve_expr(*right, scopes, in_function) {
                Err(e) => Err(e),
                Ok(r) => Ok(ExprView::LogicAnd { left: Box::new(l), right: Box::new(r) }),
            },
        },
        ExprView::Call { callee, paren, arguments } => match resolve_expr(
            *callee,
            scopes,
            in_function,
        ) {
            Err(e) => Err(e),
            Ok(c) => match collect(argument_results(e, scopes, in_function)) {
                Err(e) => Err(e),
                Ok(items) => Ok(
                    ExprView::Call { callee: Box::new(c), paren, arguments: items },
                ),
            },
        },
        ExprView::Lambda { params, body } => match function_scopes(scopes, params) {
            Err(e) => Err(e),
            Ok(inner) => match collect(lambda_results(e, inner)) {
                Err(e) => Err(e),
                Ok(items) => Ok(ExprView::Lambda { params, body: items }),
            },
        },
    }
}

/// Resolves a statement: the same statement with its resolution slots
/// filled, or the first error.
///
/// A block is resolved in a new scope. A function declaration introduces its
/// name, then its body is resolved in the scopes of the function. A `return`
/// outside every function is an error.
pub open spec fn resolve_stmt(
    s: StatementView,
    scopes: Seq<Seq<DeclarationView>>,
    in_function: bool,
) -> Result<StatementView, ParseErrorView>
    decreases s, 1nat,
{
    match s {
        StatementView::Expression { expression } => match resolve_expr(
            expression,
            scopes,
            in_function,
        ) {
            Err(e) => Err(e),
            Ok(x) => Ok(StatementView::Expression { expression: x }),
        },
        StatementView::Print { expression } => match resolve_expr(
            expression,
            scopes,
            in_function,
        ) {
            Err(e) => Err(e),
            Ok(x) => Ok(StatementView::Print { expression: x }),
        },
        StatementView::Var { name, initializer } => match declare(scopes, name) {
            Err(e) => Err(e),
            Ok(declared) => match initializer {
                None => Ok(s),
                Some(given) => match resolve_expr(given, declared, in_function) {
                    Err(e) => Err(e),
                    Ok(x) => Ok(StatementView::Var { name, initializer: Some(x) }),
                },
            },
        },
        StatementView::Block { statements } => match collect(
            body_results(s, begin_scope(scopes), in_function),
        ) {
            Err(e) => Err(e),
            Ok(items) => Ok(StatementView::Block { statements: items }),
        },
        StatementView::If { condition, then_branch, else_branch } => match resolve_expr(
            condition,
            scopes,
            in_function,
        ) {
            Err(e) => Err(e),
            Ok(c) => match resolve_stmt(*then_branch, scopes, in_function) {
                Err(e) => Err(e),
                Ok(t) => match else_branch {
                    None => Ok(
                        StatementView::If {
                            condition: c,
                            then_branch: Box::new(t),
                            else_branch: None,
                        },
                    ),
                    Some(other) => match resolve_stmt(
                        *other,
                        after(*then_branch, scopes),
                        in_function,
                    ) {
                        Err(e) => Err(e),
                        Ok(f) => Ok(
                            StatementView::If {
                                condition: c,
                                then_branch: Box::new(t),
                                else_branch: Some(Box::new(f)),
                            },
                        ),
                    },
                },
            },
        },
        StatementView::While { condition, body } => match resolve_expr(
            condition,
            scopes,
            in_function,
        ) {
            Err(e) => Err(e),
            Ok(c) => match resolve_stmt(*body, scopes, in_function) {
                Err(e) => Err(e),
                Ok(b) => Ok(StatementView::While { condition: c, body: Box::new(b) }),
            },
        },
        StatementView::Function { name, params, body } => match introduce(scopes, name) {
            Err(e) => Err(e),
            Ok(outer) => match function_scopes(outer, params) {
                Err(e) => Err(e),
                Ok(inner) => match collect(body_results(s, inner, true)) {
                    Err(e) => Err(e),
                    Ok(items) => Ok(StatementView::Function { name, params, body: items }),
                },
            },
        },
        StatementView::Return { keyword, value } => if !in_function {
            Err(error_at(keyword, "Can't return from top-level code"@))
        } else {
            match value {
                None => Ok(s),
                Some(given) => match resolve_expr(given, scopes, in_function) {
                    Err(e) => Err(e),
                    Ok(x) => Ok(StatementView::Return { keyword, value: Some(x) }),
                },
            }
        },
    }
}

/// Resolves the statements of a list in order, each in the scopes that the
/// statements before it leave.
pub open spec fn resolve_list(
    list: Seq<StatementView>,
    scopes: Seq<Seq<DeclarationView>>,
    in_function: bool,
) -> Result<Seq<StatementView>, ParseErrorView> {
    collect(
        Seq::new(
            list.len(),
            |i: int| resolve_stmt(list[i], scopes_at(list, i, scopes), in_function),
        ),
    )
}

} // verus!
