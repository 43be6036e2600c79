//! Laws of evaluation: what the semantics imply for every operand, every
//! state and every conversation with the host.

use vstd::prelude::*;
use crate::ast::expr::ExprView;
use crate::lexer::token::{has_point, LiteralView, TokenType, TokenView};
use crate::runtime::control_flow::Signal;
use crate::runtime::environment;
use crate::runtime::environment::{BindingView, ScopeView};
use crate::runtime::function::{CallableView, FunctionView};
use crate::runtime::semantics::{
    arity_message, binary_value, call_error, call_function, error_at, evaluate, failure, logic,
    finished, fits, integer_arithmetic, integer_value, operands_message, unary_value,
    values_equal, Exchange, State,
};
use crate::runtime::value::ValueView;

verus! {

/// `+`, `-` and `*` on two integers give the integer that arithmetic gives,
/// wherever that is an integer of the language. The host is not asked.
pub proof fn lemma_integer_arithmetic(
    host: Seq<Exchange>,
    operator: TokenView,
    a: int,
    b: int,
    s: State,
)
    requires
        operator.kind == TokenType::Plus || operator.kind == TokenType::Minus || operator.kind
            == TokenType::Star,
        fits(integer_arithmetic(operator.kind, a, b)),
    ensures
        operator.kind == TokenType::Plus ==> binary_value(
            host,
            operator,
            ValueView::Integer(a),
            ValueView::Integer(b),
            s,
        ) == finished(Ok(ValueView::Integer(a + b)), s),
        operator.kind == TokenType::Minus ==> binary_value(
            host,
            operator,
            ValueView::Integer(a),
            ValueView::Integer(b),
            s,
        ) == finished(Ok(ValueView::Integer(a - b)), s),
        operator.kind == TokenType::Star ==> binary_value(
            host,
            operator,
            ValueView::Integer(a),
            ValueView::Integer(b),
            s,
        ) == finished(Ok(ValueView::Integer(a * b)), s),
{
}

/// An expression `a op b` of two integer literals, with `op` one of `+`, `-`
/// and `*`, evaluates to the integer that arithmetic gives, wherever that is
/// an integer of the language. The evaluation spends three units of the
/// budget and changes nothing else.
pub proof fn lemma_integer_literals(
    host: Seq<Exchange>,
    left: TokenView,
    operator: TokenView,
    right: TokenView,
    s: State,
)
    requires
        left.literal matches Some(LiteralView::Number(x)) && !has_point(x),
        right.literal matches Some(LiteralView::Number(y)) && !has_point(y),
        operator.kind == TokenType::Plus || operator.kind == TokenType::Minus || operator.kind
            == TokenType::Star,
        s.fuel >= 3,
        fits(
            integer_arithmetic(
                operator.kind,
                integer_value(left.literal->Some_0->Number_0),
                integer_value(right.literal->Some_0->Number_0),
            ),
        ),
    ensures
        evaluate(
            host,
            ExprView::Binary {
                left: Box::new(ExprView::Literal { value: left }),
                operator,
                right: Box::new(ExprView::Literal { value: right }),
            },
            s,
        ) == finished(
            Ok(
                ValueView::Integer(
                    integer_arithmetic(
                        operator.kind,
                        integer_value(left.literal->Some_0->Number_0),
                        integer_value(right.literal->Some_0->Number_0),
                    ),
                ),
            ),
            State { fuel: (s.fuel - 3) as nat, ..s },
        ),
{
    reveal_with_fuel(evaluate, 3);
    let ticked = s.tick();
    let a = evaluate(host, ExprView::Literal { value: left }, ticked);
    assert(a == finished(
        Ok(ValueView::Integer(integer_value(left.literal->Some_0->Number_0))),
        ticked.tick(),
    ));
    let b = evaluate(host, ExprView::Literal { value: right }, ticked.tick());
    assert(b == finished(
        Ok(ValueView::Integer(integer_value(right.literal->Some_0->Number_0))),
        ticked.tick().tick(),
    ));
    assert(ticked.tick().tick() == State { fuel: (s.fuel - 3) as nat, ..s });
}

/// A division of two numbers gives a floating-point number, whatever the
/// numbers are and whatever the host answers.
pub proof fn lemma_division_gives_a_float(
    host: Seq<Exchange>,
    operator: TokenView,
    left: ValueView,
    right: ValueView,
    s: State,
)
    requires
        operator.kind == TokenType::Slash,
        left.is_number(),
        right.is_number(),
    ensures
        binary_value(host, operator, left, right, s) matches Some(step) ==> step.result matches Ok(
            ValueView::Float(_),
        ),
{
}

/// `+` on two strings joins them.
pub proof fn lemma_string_concatenation(
    host: Seq<Exchange>,
    operator: TokenView,
    a: Seq<char>,
    b: Seq<char>,
    s: State,
)
    requires
        operator.kind == TokenType::Plus,
    ensures
        binary_value(host, operator, ValueView::Str(a), ValueView::Str(b), s) == finished(
            Ok(ValueView::Str(a + b)),
            s,
        ),
{
}

/// `+` on a string and a number, either way round, is a runtime error.
pub proof fn lemma_string_plus_number(
    host: Seq<Exchange>,
    operator: TokenView,
    a: Seq<char>,
    number: ValueView,
    s: State,
)
    requires
        operator.kind == TokenType::Plus,
        number.is_number(),
    ensures
        binary_value(host, operator, ValueView::Str(a), number, s) == finished(
            Err(error_at(operator, operands_message(TokenType::Plus))),
            s,
        ),
        binary_value(host, operator, number, ValueView::Str(a), s) == finished(
            Err(error_at(operator, operands_message(TokenType::Plus))),
            s,
        ),
{
}

/// `!x` is `false` if and only if `x` is truthy.
pub proof fn lemma_not(host: Seq<Exchange>, operator: TokenView, x: ValueView, s: State)
    requires
        operator.kind == TokenType::Bang,
    ensures
        unary_value(host, operator, x, s) == finished(Ok(ValueView::Bool(!x.is_truthy())), s),
        unary_value(host, operator, x, s) == finished(Ok(ValueView::Bool(false)), s)
            <==> x.is_truthy(),
{
}

/// `-x` negates an integer, wherever the negation is an integer of the
/// language, and is a runtime error on everything that is no number.
pub proof fn lemma_minus(host: Seq<Exchange>, operator: TokenView, x: ValueView, s: State)
    requires
        operator.kind == TokenType::Minus,
    ensures
        x matches ValueView::Integer(i) && fits(-i) ==> unary_value(host, operator, x, s)
            == finished(Ok(ValueView::Integer(-x->Integer_0)), s),
        !x.is_number() ==> unary_value(host, operator, x, s) == finished(
            Err(error_at(operator, "Operand must be a number for unary '-'"@)),
            s,
        ),
        x is Float ==> (unary_value(host, operator, x, s) matches Some(step) ==> step.result matches Ok(
            ValueView::Float(_),
        )),
{
}

/// Whether two values are of the same kind.
pub open spec fn same_kind(a: ValueView, b: ValueView) -> bool {
    ||| a is Callable && b is Callable
    ||| a is Integer && b is Integer
    ||| a is Float && b is Float
    ||| a is Str && b is Str
    ||| a is Bool && b is Bool
    ||| a is Nil && b is Nil
}

/// Values of different kinds are never equal: `==` gives `false` and `!=`
/// gives `true`, and neither is an error.
pub proof fn lemma_equality_across_kinds(
    host: Seq<Exchange>,
    operator: TokenView,
    a: ValueView,
    b: ValueView,
    s: State,
)
    requires
        !same_kind(a, b),
    ensures
        values_equal(host, a, b, s) == Some((false, s)),
        operator.kind == TokenType::EqualEqual ==> binary_value(host, operator, a, b, s)
            == finished(Ok(ValueView::Bool(false)), s),
        operator.kind == TokenType::BangEqual ==> binary_value(host, operator, a, b, s)
            == finished(Ok(ValueView::Bool(true)), s),
{
}

/// Two integers, two strings, two booleans are equal exactly when they are
/// the same; `nil` equals `nil`.
pub proof fn lemma_equality_within_kinds(host: Seq<Exchange>, s: State)
    ensures
        forall|a: int, b: int|
            #[trigger] values_equal(host, ValueView::Integer(a), ValueView::Integer(b), s) == Some(
                (a == b, s),
            ),
        forall|a: Seq<char>, b: Seq<char>|
            #[trigger] values_equal(host, ValueView::Str(a), ValueView::Str(b), s) == Some(
                (a == b, s),
            ),
        forall|a: bool, b: bool|
            #[trigger] values_equal(host, ValueView::Bool(a), ValueView::Bool(b), s) == Some(
                (a == b, s),
            ),
        values_equal(host, ValueView::Nil, ValueView::Nil, s) == Some((true, s)),
{
}

/// A call with another number of arguments than the callee takes is a
/// runtime error that names both numbers.
pub proof fn lemma_wrong_arity(callee: CallableView, paren: TokenView, got: nat)
    ensures
        got != callee.arity() ==> call_error(ValueView::Callable(callee), paren, got) == Some(
            error_at(paren, arity_message(callee.arity(), got)),
        ),
        got == callee.arity() ==> call_error(ValueView::Callable(callee), paren, got).is_none(),
{
}

/// A function called with another number of arguments than it has
/// parameters does not run: the call is an error that names both numbers,
/// and the state is as it was. No argument is dropped and none is made up.
pub proof fn lemma_function_arity(
    host: Seq<Exchange>,
    f: FunctionView,
    arguments: Seq<ValueView>,
    s: State,
)
    requires
        arguments.len() != f.params.len(),
    ensures
        call_function(host, f, arguments, s) == finished(
            Err(failure(0, arity_message(f.params.len(), arguments.len()))),
            s,
        ),
{
}

/// Assigning to a name that a scope already binds changes the value and
/// nothing else: the scope binds the same names as before.
pub proof fn lemma_define_keeps_names(
    scope: ScopeView,
    name: Seq<char>,
    value: ValueView,
    other: Seq<char>,
)
    requires
        scope.binds(name),
    ensures
        scope.define(name, value).binds(other) == scope.binds(other),
        scope.define(name, value).lookup(name) == Some(value),
        other != name ==> scope.define(name, value).lookup(other) == scope.lookup(other),
{
    environment::lemma_position(scope.bindings, name, 0);
    let at = scope.find(name)->Some_0;
    let after = scope.define(name, value).bindings;
    assert(after == scope.bindings.update(at, BindingView { name, value }));
    lemma_position_after_update(scope.bindings, at, value, other, 0);
    lemma_position_after_update(scope.bindings, at, value, name, 0);
    environment::lemma_position(scope.bindings, other, 0);
}

/// Replacing the value of a binding moves no name.
proof fn lemma_position_after_update(
    bindings: Seq<BindingView>,
    at: int,
    value: ValueView,
    name: Seq<char>,
    from: int,
)
    requires
        0 <= at < bindings.len(),
        0 <= from,
    ensures
        environment::position(
            bindings.update(at, BindingView { name: bindings[at].name, value }),
            name,
            from,
        ) == environment::position(bindings, name, from),
    decreases bindings.len() - from,
{
    let after = bindings.update(at, BindingView { name: bindings[at].name, value });
    if from < bindings.len() {
        assert(after[from].name == bindings[from].name);
        if bindings[from].name != name {
            lemma_position_after_update(bindings, at, value, name, from + 1);
        }
    }
}

/// After a value is bound to a name in the scope `target`, which bound the
/// name before, every scope finds the name where it found it before.
proof fn lemma_defining_scope_unchanged(
    scopes: Seq<ScopeView>,
    target: int,
    name: Seq<char>,
    value: ValueView,
    from: int,
    other: Seq<char>,
)
    requires
        0 <= target < scopes.len(),
        scopes[target].binds(name),
    ensures
        environment::defining_scope(
            environment::define(scopes, target, name, value),
            from,
            other,
        ) == environment::defining_scope(scopes, from, other),
    decreases from,
{
    let after = environment::define(scopes, target, name, value);
    if 0 <= from < scopes.len() {
        lemma_define_keeps_names(scopes[target], name, value, other);
        assert(after[from].binds(other) == scopes[from].binds(other));
        assert(after[from].enclosing == scopes[from].enclosing);
        if !scopes[from].binds(other) {
            match scopes[from].enclosing {
                Some(p) => {
                    if p < from {
                        lemma_defining_scope_unchanged(scopes, target, name, value, p as int, other);
                    }
                },
                None => {},
            }
        }
    }
}

/// An assignment is seen through every scope that sees the same binding.
///
/// If the name `name`, looked up from the scope `writer` and from the scope
/// `reader`, is found in the same scope, then after a value is assigned to
/// the name from `writer`, a lookup from `reader` gives that value. So a
/// function whose closure is `reader` observes the assignments made after it
/// was created, not the values of the time of its creation.
pub proof fn lemma_assignment_is_shared(
    scopes: Seq<ScopeView>,
    writer: int,
    reader: int,
    name: Seq<char>,
    value: ValueView,
    line: nat,
)
    requires
        environment::defining_scope(scopes, writer, name) is Some,
        environment::defining_scope(scopes, reader, name) == environment::defining_scope(
            scopes,
            writer,
            name,
        ),
    ensures
        environment::assign(scopes, writer, name, value, line) is Ok,
        environment::get(
            environment::assign(scopes, writer, name, value, line)->Ok_0,
            reader,
            name,
            line,
        ) == Ok::<ValueView, Signal>(value),
{
    let target = environment::defining_scope(scopes, writer, name)->Some_0;
    lemma_defining_scope_binds(scopes, writer, name);
    lemma_defining_scope_unchanged(scopes, target, name, value, reader, name);
    lemma_define_keeps_names(scopes[target], name, value, name);
}

/// The scope in which a name is found exists and binds the name.
pub proof fn lemma_defining_scope_binds(scopes: Seq<ScopeView>, from: int, name: Seq<char>)
    ensures
        environment::defining_scope(scopes, from, name) matches Some(found) ==> 0 <= found
            < scopes.len() && found <= from && scopes[found].binds(name),
    decreases from,
{
    if 0 <= from < scopes.len() && !scopes[from].binds(name) {
        match scopes[from].enclosing {
            Some(p) => {
                if p < from {
                    lemma_defining_scope_binds(scopes, p as int, name);
                }
            },
            None => {},
        }
    }
}

/// A name that has just been bound in a scope is found there, with the value
/// it was bound to, from that scope.
pub proof fn lemma_define_then_get(
    scopes: Seq<ScopeView>,
    scope: int,
    name: Seq<char>,
    value: ValueView,
    line: nat,
)
    requires
        0 <= scope < scopes.len(),
    ensures
        environment::get(environment::define(scopes, scope, name, value), scope, name, line)
            == Ok::<ValueView, Signal>(value),
        environment::get_at(
            environment::define(scopes, scope, name, value),
            scope,
            0,
            name,
            line,
        ) == Ok::<ValueView, Signal>(value),
{
    let before = scopes[scope];
    environment::lemma_position(before.bindings, name, 0);
    if before.binds(name) {
        lemma_define_keeps_names(before, name, value, name);
    } else {
        let after = before.define(name, value);
        lemma_position_after_push(before.bindings, name, value, 0);
    }
}

/// A name that no binding holds is found at the end once it is pushed there.
proof fn lemma_position_after_push(
    bindings: Seq<BindingView>,
    name: Seq<char>,
    value: ValueView,
    from: int,
)
    requires
        0 <= from <= bindings.len(),
        forall|j: int| from <= j < bindings.len() ==> bindings[j].name != name,
    ensures
        environment::position(bindings.push(BindingView { name, value }), name, from) == Some(
            bindings.len() as int,
        ),
    decreases bindings.len() - from,
{
    let after = bindings.push(BindingView { name, value });
    if from < bindings.len() {
        assert(after[from] == bindings[from]);
        lemma_position_after_push(bindings, name, value, from + 1);
    }
}

/// `nil` and `false` are falsy; every other value is truthy, zero and the
/// empty string among them.
pub proof fn lemma_truthiness(v: ValueView)
    ensures
        v.is_truthy() <==> !(v is Nil || v == ValueView::Bool(false)),
        ValueView::Integer(0).is_truthy(),
        ValueView::Str(Seq::empty()).is_truthy(),
{
}

/// `and` and `or` short-circuit: where the left operand decides, its value
/// is the result, the state is the one the left operand left, and the right
/// operand is not evaluated, whatever it is.
pub proof fn lemma_short_circuit(
    host: Seq<Exchange>,
    conjunction: bool,
    left: ExprView,
    right: ExprView,
    s: State,
)
    requires
        evaluate(host, left, s) matches Some(step) && step.state.fuel <= s.fuel && (
        step.result matches Ok(v) && v.is_truthy() != conjunction),
    ensures
        logic(host, conjunction, left, right, s) == evaluate(host, left, s),
{
}

} // verus!
