//! What every evaluation keeps: it never adds to the budget, it leaves the
//! current scope as it found it, however it ends, and it removes no scope,
//! no line of output and no part of the conversation with the host. So the
//! provisos [`kept`] and [`spent`] of the semantics never discard a run.

use vstd::prelude::*;
use crate::ast::expr::{Depth, ExprView};
use crate::ast::statement::StatementView;
use crate::lexer::token::TokenView;
use crate::runtime::environment;
use crate::runtime::function::{CallableView, FunctionView};
use crate::runtime::semantics::{
    as_number, assign_variable, binary_value, call_expr, call_function, evaluate,
    evaluate_arguments, execute, execute_block, execute_body, execute_if, execute_print,
    execute_return, execute_statements, execute_var, execute_while, interpret, invoke, kept,
    literal_value, logic, spent, unary_value, variable_assigned,
    visit_binary, visit_unary, Exchange, State, Step,
};
use crate::runtime::value::ValueView;

verus! {

/// Whether the state `after` can follow the state `before`: the budget has
/// not grown, the current scope is the same, and nothing has gone.
pub open spec fn follows(after: State, before: State) -> bool {
    &&& after.fuel <= before.fuel
    &&& after.current == before.current
    &&& after.scopes.len() >= before.scopes.len()
    &&& after.output.len() >= before.output.len()
    &&& after.asked >= before.asked
}

/// Whether a run from `s`, if there is one, ends in a state that can follow
/// `s`.
pub open spec fn orderly(run: Option<Step>, s: State) -> bool {
    run matches Some(step) ==> follows(step.state, s)
}

/// Whether a run from `s`, if there is one, is orderly and has spent some of
/// the budget, or has found none to spend and failed.
pub open spec fn paid(run: Option<Step>, s: State) -> bool {
    &&& orderly(run, s)
    &&& run matches Some(step) ==> (if s.fuel > 0 {
        step.state.fuel < s.fuel
    } else {
        step.result is Err && step.state == s
    })
}

/// Whether a run from `s`, if there is one, has changed nothing but the
/// length of the conversation with the host.
pub open spec fn only_asked(run: Option<Step>, s: State) -> bool {
    run matches Some(step) ==> step.state.asked >= s.asked && step.state == (State {
        asked: step.state.asked,
        ..s
    })
}

/// Operators and literals change nothing but the length of the conversation
/// with the host.
pub proof fn lemma_values(
    host: Seq<Exchange>,
    operator: TokenView,
    left: ValueView,
    right: ValueView,
    s: State,
)
    ensures
        only_asked(literal_value(host, operator, s), s),
        only_asked(unary_value(host, operator, right, s), s),
        only_asked(binary_value(host, operator, left, right, s), s),
{
    match as_number(host, left, s) {
        Some((a, t)) => {
            assert(t == State { asked: t.asked, ..s });
            match as_number(host, right, t) {
                Some((b, u)) => {
                    assert(u == State { asked: u.asked, ..s });
                },
                None => {},
            }
        },
        None => {},
    }
}

/// Assigning to a variable removes no scope.
pub proof fn lemma_assigned(s: State, name: TokenView, depth: Depth, value: ValueView)
    ensures
        variable_assigned(s, name, depth, value) matches Ok(scopes) ==> scopes.len()
            == s.scopes.len(),
{
}

/// No evaluation of an expression discards a run, and each pays for itself.
pub proof fn lemma_evaluate(host: Seq<Exchange>, e: ExprView, s: State)
    ensures
        paid(evaluate(host, e, s), s),
        kept(evaluate(host, e, s), s) == evaluate(host, e, s),
        spent(evaluate(host, e, s), s) == evaluate(host, e, s),
    decreases s.fuel, 0nat,
{
    if s.fuel > 0 {
        let t = s.tick();
        match e {
            ExprView::Binary { left, operator, right } => {
                lemma_visit_binary(host, *left, operator, *right, t);
            },
            ExprView::Literal { value } => {
                lemma_values(host, value, ValueView::Nil, ValueView::Nil, t);
            },
            ExprView::Grouping { expression } => {
                lemma_evaluate(host, *expression, t);
            },
            ExprView::Unary { operator, right } => {
                lemma_visit_unary(host, operator, *right, t);
            },
            ExprView::Variable { name, depth } => {},
            ExprView::Assign { name, value, depth } => {
                lemma_assign_variable(host, name, *value, depth, t);
            },
            ExprView::LogicOr { left, right } => {
                lemma_logic(host, false, *left, *right, t);
            },
            ExprView::LogicAnd { left, right } => {
                lemma_logic(host, true, *left, *right, t);
            },
            ExprView::Call { callee, paren, arguments } => {
                lemma_call_expr(host, *callee, paren, arguments, t);
            },
            ExprView::Lambda { params, body } => {},
        }
    }
}

pub proof fn lemma_visit_binary(
    host: Seq<Exchange>,
    left: ExprView,
    operator: TokenView,
    right: ExprView,
    s: State,
)
    ensures
        orderly(visit_binary(host, left, operator, right, s), s),
    decreases s.fuel, 6nat,
{
    lemma_evaluate(host, left, s);
    match evaluate(host, left, s) {
        Some(l) => match l.result {
            Ok(a) => {
                lemma_evaluate(host, right, l.state);
                match evaluate(host, right, l.state) {
                    Some(r) => match r.result {
                        Ok(b) => {
                            lemma_values(host, operator, a, b, r.state);
                        },
                        Err(_) => {},
                    },
                    None => {},
                }
            },
            Err(_) => {},
        },
        None => {},
    }
}

pub proof fn lemma_visit_unary(host: Seq<Exchange>, operator: TokenView, right: ExprView, s: State)
    ensures
        orderly(visit_unary(host, operator, right, s), s),
    decreases s.fuel, 6nat,
{
    lemma_evaluate(host, right, s);
    match evaluate(host, right, s) {
        Some(r) => match r.result {
            Ok(v) => {
                lemma_values(host, operator, ValueView::Nil, v, r.state);
            },
            Err(_) => {},
        },
        None => {},
    }
}

pub proof fn lemma_assign_variable(
    host: Seq<Exchange>,
    name: TokenView,
    value: ExprView,
    depth: Depth,
    s: State,
)
    ensures
        orderly(assign_variable(host, name, value, depth, s), s),
    decreases s.fuel, 6nat,
{
    lemma_evaluate(host, value, s);
    match evaluate(host, value, s) {
        Some(r) => match r.result {
            Ok(v) => {
                lemma_assigned(r.state, name, depth, v);
            },
            Err(_) => {},
        },
        None => {},
    }
}

pub proof fn lemma_logic(
    host: Seq<Exchange>,
    conjunction: bool,
    left: ExprView,
    right: ExprView,
    s: State,
)
    ensures
        orderly(logic(host, conjunction, left, right, s), s),
    decreases s.fuel, 6nat,
{
    lemma_evaluate(host, left, s);
    match evaluate(host, left, s) {
        Some(l) => match l.result {
            Ok(a) => {
                lemma_evaluate(host, right, l.state);
            },
            Err(_) => {},
        },
        None => {},
    }
}

pub proof fn lemma_evaluate_arguments(
    host: Seq<Exchange>,
    arguments: Seq<ExprView>,
    i: int,
    s: State,
)
    ensures
        orderly(evaluate_arguments(host, arguments, i, s), s),
    decreases s.fuel, 1nat,
{
    if 0 <= i < arguments.len() {
        lemma_evaluate(host, arguments[i], s);
        match evaluate(host, arguments[i], s) {
            Some(r) => match r.result {
                Ok(_) => {
                    lemma_evaluate_arguments(host, arguments, i + 1, r.state);
                },
                Err(_) => {},
            },
            None => {},
        }
    }
}

pub proof fn lemma_call_expr(
    host: Seq<Exchange>,
    callee: ExprView,
    paren: TokenView,
    arguments: Seq<ExprView>,
    s: State,
)
    ensures
        orderly(call_expr(host, callee, paren, arguments, s), s),
    decreases s.fuel, 6nat,
{
    lemma_evaluate(host, callee, s);
    match evaluate(host, callee, s) {
        Some(c) => match c.result {
            Ok(target) => {
                if target is Callable {
                    lemma_evaluate_arguments(host, arguments, 0, c.state);
                    match evaluate_arguments(host, arguments, 0, c.state) {
                        Some(a) => match a.result {
                            Ok(_) => {
                                lemma_invoke(
                                    host,
                                    target->Callable_0,
                                    crate::runtime::semantics::evaluated(
                                        host,
                                        arguments,
                                        0,
                                        c.state,
                                    ),
                                    a.state,
                                );
                            },
                            Err(_) => {},
                        },
                        None => {},
                    }
                }
            },
            Err(_) => {},
        },
        None => {},
    }
}

pub proof fn lemma_invoke(
    host: Seq<Exchange>,
    callable: CallableView,
    arguments: Seq<ValueView>,
    s: State,
)
    ensures
        orderly(invoke(host, callable, arguments, s), s),
    decreases s.fuel, 5nat,
{
    match callable {
        CallableView::Function(f) => {
            lemma_call_function(host, f, arguments, s);
        },
        CallableView::Clock => {},
    }
}

/// A call leaves the caller's scope current, however the function ends.
pub proof fn lemma_call_function(
    host: Seq<Exchange>,
    f: FunctionView,
    arguments: Seq<ValueView>,
    s: State,
)
    ensures
        orderly(call_function(host, f, arguments, s), s),
    decreases s.fuel, 4nat,
{
    if arguments.len() == f.params.len() && f.closure < s.scopes.len() {
        let frame = environment::ScopeView {
            enclosing: Some(f.closure),
            bindings: crate::runtime::semantics::bound(f.params, arguments, f.params.len()).bindings,
        };
        let inside = s.with_scopes(s.scopes.push(frame)).enter(s.scopes.len());
        lemma_execute_body(host, f.body, inside);
    }
}

pub proof fn lemma_execute_body(host: Seq<Exchange>, statements: Seq<StatementView>, s: State)
    ensures
        orderly(execute_body(host, statements, s), s),
    decreases s.fuel, 3nat,
{
    let inner = s.scopes.len();
    let inside = s.with_scopes(s.scopes.push(environment::ScopeView::empty(Some(s.current))));
    lemma_execute_block(host, statements, inner, inside);
}

/// A block leaves the scope that was current before it current, however it
/// ends.
pub proof fn lemma_execute_block(
    host: Seq<Exchange>,
    statements: Seq<StatementView>,
    scope: nat,
    s: State,
)
    ensures
        orderly(execute_block(host, statements, scope, s), s),
    decreases s.fuel, 2nat,
{
    lemma_execute_statements(host, statements, 0, s.enter(scope));
}

pub proof fn lemma_execute_statements(
    host: Seq<Exchange>,
    statements: Seq<StatementView>,
    i: int,
    s: State,
)
    ensures
        orderly(execute_statements(host, statements, i, s), s),
    decreases s.fuel, 1nat,
{
    if 0 <= i < statements.len() {
        lemma_execute(host, statements[i], s);
        match execute(host, statements[i], s) {
            Some(r) => match r.result {
                Ok(_) => {
                    lemma_execute_statements(host, statements, i + 1, r.state);
                },
                Err(_) => {},
            },
            None => {},
        }
    }
}

pub proof fn lemma_execute_while(
    host: Seq<Exchange>,
    condition: ExprView,
    body: StatementView,
    s: State,
)
    ensures
        orderly(execute_while(host, condition, body, s), s),
    decreases s.fuel, 1nat,
{
    lemma_evaluate(host, condition, s);
    match evaluate(host, condition, s) {
        Some(c) => match c.result {
            Ok(v) => {
                if v.is_truthy() {
                    lemma_execute(host, body, c.state);
                    match execute(host, body, c.state) {
                        Some(b) => match b.result {
                            Ok(_) => {
                                lemma_execute_while(host, condition, body, b.state);
                            },
                            Err(_) => {},
                        },
                        None => {},
                    }
                }
            },
            Err(_) => {},
        },
        None => {},
    }
}

pub proof fn lemma_execute_if(
    host: Seq<Exchange>,
    condition: ExprView,
    then_branch: StatementView,
    else_branch: Option<Box<StatementView>>,
    s: State,
)
    ensures
        orderly(execute_if(host, condition, then_branch, else_branch, s), s),
    decreases s.fuel, 6nat,
{
    lemma_evaluate(host, condition, s);
    match evaluate(host, condition, s) {
        Some(c) => match c.result {
            Ok(v) => {
                if v.is_truthy() {
                    lemma_execute(host, then_branch, c.state);
                } else {
                    match else_branch {
                        Some(other) => {
                            lemma_execute(host, *other, c.state);
                        },
                        None => {},
                    }
                }
            },
            Err(_) => {},
        },
        None => {},
    }
}

pub proof fn lemma_execute_print(host: Seq<Exchange>, expression: ExprView, s: State)
    ensures
        orderly(execute_print(host, expression, s), s),
    decreases s.fuel, 6nat,
{
    lemma_evaluate(host, expression, s);
}

pub proof fn lemma_execute_var(
    host: Seq<Exchange>,
    name: TokenView,
    initializer: Option<ExprView>,
    s: State,
)
    ensures
        orderly(execute_var(host, name, initializer, s), s),
    decreases s.fuel, 6nat,
{
    match initializer {
        Some(e) => {
            lemma_evaluate(host, e, s);
        },
        None => {},
    }
}

pub proof fn lemma_execute_return(host: Seq<Exchange>, value: Option<ExprView>, s: State)
    ensures
        orderly(execute_return(host, value, s), s),
    decreases s.fuel, 6nat,
{
    match value {
        Some(e) => {
            lemma_evaluate(host, e, s);
        },
        None => {},
    }
}

/// No execution of a statement discards a run, and each pays for itself.
pub proof fn lemma_execute(host: Seq<Exchange>, statement: StatementView, s: State)
    ensures
        paid(execute(host, statement, s), s),
        kept(execute(host, statement, s), s) == execute(host, statement, s),
        spent(execute(host, statement, s), s) == execute(host, statement, s),
    decreases s.fuel, 0nat,
{
    if s.fuel > 0 {
        let t = s.tick();
        match statement {
            StatementView::Expression { expression } => {
                lemma_evaluate(host, expression, t);
            },
            StatementView::Print { expression } => {
                lemma_execute_print(host, expression, t);
            },
            StatementView::Var { name, initializer } => {
                lemma_execute_var(host, name, initializer, t);
            },
            StatementView::Block { statements } => {
                lemma_execute_body(host, statements, t);
            },
            StatementView::If { condition, then_branch, else_branch } => {
                lemma_execute_if(host, condition, *then_branch, else_branch, t);
            },
            StatementView::While { condition, body } => {
                lemma_execute_while(host, condition, *body, t);
            },
            StatementView::Function { name, params, body } => {},
            StatementView::Return { keyword, value } => {
                lemma_execute_return(host, value, t);
            },
        }
    }
}

/// A program leaves the scope that was current before it current.
pub proof fn lemma_interpret(host: Seq<Exchange>, statements: Seq<StatementView>, i: int, s: State)
    ensures
        orderly(interpret(host, statements, i, s), s),
    decreases s.fuel,
{
    if 0 <= i < statements.len() {
        lemma_execute(host, statements[i], s);
        match execute(host, statements[i], s) {
            Some(r) => {
                if r.state.fuel < s.fuel {
                    lemma_interpret(host, statements, i + 1, r.state);
                }
            },
            None => {},
        }
    }
}

} // verus!
