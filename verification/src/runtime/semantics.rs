//! What programs mean: the value of every expression and the effect of every
//! statement, as functions on the state of the interpreter.
//!
//! Floating-point arithmetic and the clock are the host's. The functions
//! here take the conversation with the host as an argument: the requests
//! made of it and the answers it gave, in order. Where the meaning of a
//! construct depends on the host, it is the next answer of the conversation,
//! provided the next request is the one the construct makes. A conversation
//! that is too short, or goes another way, gives no outcome (`None`).
//!
//! Every evaluation of an expression and every execution of a statement
//! spends one unit of the evaluation budget. With the budget spent,
//! evaluation ends in a runtime error.

use vstd::prelude::*;
use crate::ast::expr::{Depth, ExprView};
use crate::ast::statement::StatementView;
use crate::lexer::token::{has_point, Keyword, LiteralView, TokenType, TokenView};
use crate::runtime::control_flow::{Outcome, Signal};
use crate::runtime::environment;
use crate::runtime::environment::ScopeView;
use crate::runtime::function::{lambda_name, CallableView, FunctionView};
use crate::runtime::host::{Arithmetic, Float, FloatOrder};
use crate::runtime::runtime_error::RuntimeErrorView;
use crate::runtime::value::ValueView;
use crate::text::decimal_nat;

verus! {

/// The state of the interpreter: the scopes, the current scope, the lines
/// printed so far, and what is left of the evaluation budget. The global
/// scope is the scope at index zero.
pub struct State {
    pub scopes: Seq<ScopeView>,
    pub current: nat,
    pub output: Seq<Seq<char>>,
    pub fuel: nat,
    /// How many requests have been made of the host.
    pub asked: nat,
}

/// What the interpreter can ask of the host.
pub enum Request {
    /// The number that a numeral denotes.
    FromNumeral(Seq<char>),
    /// The floating-point number nearest to an integer.
    FromInteger(int),
    /// The result of an arithmetic operation.
    Arithmetic(Arithmetic, Float, Float),
    /// The negation of a number.
    Negate(Float),
    /// How two numbers compare.
    Compare(Float, Float),
    /// A number as text.
    Show(Float),
    /// The time.
    Clock,
}

/// What the host can answer.
pub enum Answer {
    Number(Float),
    Order(FloatOrder),
    Text(Seq<char>),
}

/// A request and the answer to it.
pub struct Exchange {
    pub request: Request,
    pub answer: Answer,
}

/// Whether the conversation `host` starts with the conversation `log`.
pub open spec fn extends(host: Seq<Exchange>, log: Seq<Exchange>) -> bool {
    &&& log.len() <= host.len()
    &&& forall|i: int| 0 <= i < log.len() ==> #[trigger] host[i] == log[i]
}

/// A conversation that starts with a later part of another starts with every
/// earlier part of it.
pub proof fn lemma_extends(host: Seq<Exchange>, later: Seq<Exchange>, earlier: Seq<Exchange>)
    requires
        extends(host, later),
        extends(later, earlier),
    ensures
        extends(host, earlier),
{
    assert forall|i: int| 0 <= i < earlier.len() implies #[trigger] host[i] == earlier[i] by {
        assert(host[i] == later[i]);
        assert(later[i] == earlier[i]);
    }
}

impl State {
    /// The state after one unit of the budget is spent.
    pub open spec fn tick(self) -> State {
        State { fuel: (self.fuel - 1) as nat, ..self }
    }

    /// The state with another current scope.
    pub open spec fn enter(self, scope: nat) -> State {
        State { current: scope, ..self }
    }

    /// The state with other scopes.
    pub open spec fn with_scopes(self, scopes: Seq<ScopeView>) -> State {
        State { scopes, ..self }
    }

    /// The state after one more request to the host.
    pub open spec fn answered(self) -> State {
        State { asked: self.asked + 1, ..self }
    }
}

/// The answer to `request`, if that is the next request of the conversation,
/// and the state after it.
pub open spec fn ask(host: Seq<Exchange>, s: State, request: Request) -> Option<(Answer, State)> {
    if s.asked < host.len() && host[s.asked as int].request == request {
        Some((host[s.asked as int].answer, s.answered()))
    } else {
        None
    }
}

/// As [`ask`], for a request that is answered by a number.
pub open spec fn ask_number(host: Seq<Exchange>, s: State, request: Request) -> Option<
    (Float, State),
> {
    match ask(host, s, request) {
        Some((Answer::Number(f), t)) => Some((f, t)),
        _ => None,
    }
}

/// As [`ask`], for a request that is answered by an order.
pub open spec fn ask_order(host: Seq<Exchange>, s: State, request: Request) -> Option<
    (FloatOrder, State),
> {
    match ask(host, s, request) {
        Some((Answer::Order(o), t)) => Some((o, t)),
        _ => None,
    }
}

/// As [`ask`], for a request that is answered by text.
pub open spec fn ask_text(host: Seq<Exchange>, s: State, request: Request) -> Option<
    (Seq<char>, State),
> {
    match ask(host, s, request) {
        Some((Answer::Text(t), u)) => Some((t, u)),
        _ => None,
    }
}

/// An outcome and the state it leaves.
pub struct Step {
    pub result: Outcome,
    pub state: State,
}

/// The run that ends with `result` in `state`.
pub open spec fn finished(result: Outcome, state: State) -> Option<Step> {
    Some(Step { result, state })
}

/// `run`, provided it spent some of the budget of `before` or failed.
pub open spec fn spent(run: Option<Step>, before: State) -> Option<Step> {
    match run {
        Some(step) => if step.state.fuel < before.fuel || (step.state.fuel == before.fuel
            && step.result is Err) {
            run
        } else {
            None
        },
        None => None,
    }
}

/// `run`, provided it did not add to the budget of `before`.
pub open spec fn kept(run: Option<Step>, before: State) -> Option<Step> {
    match run {
        Some(step) => if step.state.fuel <= before.fuel {
            run
        } else {
            None
        },
        None => None,
    }
}

/// A runtime error on `line`.
pub open spec fn failure(line: nat, message: Seq<char>) -> Signal {
    Signal::RuntimeError(RuntimeErrorView { line, message })
}

/// The runtime error reported at `token`.
pub open spec fn error_at(token: TokenView, message: Seq<char>) -> Signal {
    failure(
        token.line,
        if token.kind == TokenType::Eof {
            "Error at end: "@ + message
        } else {
            "Error at '"@ + token.lexeme + "': "@ + message
        },
    )
}

/// The error that ends evaluation when the budget is spent.
pub open spec fn exhausted() -> Signal {
    failure(0, "Evaluation budget exhausted."@)
}

/// The error for a function value whose scope does not exist.
pub open spec fn lost_closure() -> Signal {
    failure(0, "Function closure is not a scope."@)
}

/// The value of a decimal digit; zero for any other character.
pub open spec fn digit_value(c: char) -> int {
    if '0' <= c <= '9' {
        c as int - '0' as int
    } else {
        0
    }
}

/// The number that a run of decimal digits denotes.
pub open spec fn digits_value(digits: Seq<char>) -> int
    decreases digits.len(),
{
    if digits.len() == 0 {
        0
    } else {
        digits_value(digits.drop_last()) * 10 + digit_value(digits.last())
    }
}

/// The integer a numeral without a fraction stands for: the number it
/// denotes, or the largest integer if that is smaller.
pub open spec fn integer_value(numeral: Seq<char>) -> int {
    if digits_value(numeral) > i64::MAX {
        i64::MAX as int
    } else {
        digits_value(numeral)
    }
}

/// The value of a literal token. A numeral with a `.` in it is a
/// floating-point number, which the host reads; any other numeral is an
/// integer.
pub open spec fn literal_value(host: Seq<Exchange>, token: TokenView, s: State) -> Option<Step> {
    match token.literal {
        Some(LiteralView::Number(n)) => if has_point(n) {
            match ask_number(host, s, Request::FromNumeral(n)) {
                Some((f, t)) => finished(Ok(ValueView::Float(f)), t),
                None => None,
            }
        } else {
            finished(Ok(ValueView::Integer(integer_value(n))), s)
        },
        Some(LiteralView::String(text)) => finished(Ok(ValueView::Str(text)), s),
        Some(LiteralView::Boolean(b)) => finished(Ok(ValueView::Bool(b)), s),
        Some(LiteralView::Nil) => finished(Ok(ValueView::Nil), s),
        None => finished(
            Ok(
                if token.kind == TokenType::Keyword(Keyword::True) {
                    ValueView::Bool(true)
                } else if token.kind == TokenType::Keyword(Keyword::False) {
                    ValueView::Bool(false)
                } else {
                    ValueView::Nil
                },
            ),
            s,
        ),
    }
}

/// Whether `i` is an integer of the language.
pub open spec fn fits(i: int) -> bool {
    i64::MIN <= i <= i64::MAX
}

/// The integer `i`, or an overflow error at `operator` if it is out of range.
pub open spec fn integer_result(operator: TokenView, i: int) -> Outcome {
    if fits(i) {
        Ok(ValueView::Integer(i))
    } else {
        Err(error_at(operator, "Integer overflow."@))
    }
}

/// The message for an operator the evaluator does not know.
pub open spec fn unsupported(what: Seq<char>, operator: TokenView) -> Seq<char> {
    what + operator.kind.variant_name()
}

/// The result of a unary operator on a value: `!` negates truthiness, `-`
/// negates a number. The negation of a floating-point number is the host's.
pub open spec fn unary_value(host: Seq<Exchange>, operator: TokenView, right: ValueView, s: State) -> Option<
    Step,
> {
    if operator.kind == TokenType::Minus {
        match right {
            ValueView::Integer(i) => finished(integer_result(operator, -i), s),
            ValueView::Float(f) => match ask_number(host, s, Request::Negate(f)) {
                Some((g, t)) => finished(Ok(ValueView::Float(g)), t),
                None => None,
            },
            _ => finished(
                Err(error_at(operator, "Operand must be a number for unary '-'"@)),
                s,
            ),
        }
    } else if operator.kind == TokenType::Bang {
        finished(Ok(ValueView::Bool(!right.is_truthy())), s)
    } else {
        finished(
            Err(error_at(operator, unsupported("Unsupported unary operator: "@, operator))),
            s,
        )
    }
}

/// Whether two values are equal. Values of different kinds never are; nor
/// are two callables. Two floating-point numbers are equal if the host
/// finds them so.
pub open spec fn values_equal(host: Seq<Exchange>, left: ValueView, right: ValueView, s: State) -> Option<
    (bool, State),
> {
    match (left, right) {
        (ValueView::Nil, ValueView::Nil) => Some((true, s)),
        (ValueView::Bool(a), ValueView::Bool(b)) => Some((a == b, s)),
        (ValueView::Float(a), ValueView::Float(b)) => match ask_order(
            host,
            s,
            Request::Compare(a, b),
        ) {
            Some((order, t)) => Some((order == FloatOrder::Equal, t)),
            None => None,
        },
        (ValueView::Integer(a), ValueView::Integer(b)) => Some((a == b, s)),
        (ValueView::Str(a), ValueView::Str(b)) => Some((a == b, s)),
        _ => Some((false, s)),
    }
}

/// Whether the kind is that of `+`, `-`, `*` or `/`.
pub open spec fn is_arithmetic(kind: TokenType) -> bool {
    kind == TokenType::Plus || kind == TokenType::Minus || kind == TokenType::Star || kind
        == TokenType::Slash
}

/// Whether the kind is that of `<`, `<=`, `>` or `>=`.
pub open spec fn is_ordering(kind: TokenType) -> bool {
    kind == TokenType::Less || kind == TokenType::LessEqual || kind == TokenType::Greater || kind
        == TokenType::GreaterEqual
}

/// The error for an arithmetic operator whose operands are not both numbers
/// (nor, for `+`, both strings).
pub open spec fn operands_message(kind: TokenType) -> Seq<char> {
    if kind == TokenType::Plus {
        "Operands must be two numbers or two strings for '+'"@
    } else if kind == TokenType::Minus {
        "Operands must be two numbers for '-'"@
    } else if kind == TokenType::Star {
        "Operands must be two numbers for '*'"@
    } else {
        "Operands must be two numbers for '/'"@
    }
}

/// The error for an ordering operator with an operand that is no number.
pub open spec fn operand_message(operator: TokenView) -> Seq<char> {
    "Operand must be a number for "@ + operator.lexeme
}

/// The result of `+`, `-` or `*` on two integers.
pub open spec fn integer_arithmetic(kind: TokenType, a: int, b: int) -> int {
    if kind == TokenType::Plus {
        a + b
    } else if kind == TokenType::Minus {
        a - b
    } else {
        a * b
    }
}

/// Whether `a operator b` holds of two integers, for an ordering operator.
pub open spec fn integer_ordering(kind: TokenType, a: int, b: int) -> bool {
    if kind == TokenType::Less {
        a < b
    } else if kind == TokenType::LessEqual {
        a <= b
    } else if kind == TokenType::Greater {
        a > b
    } else {
        a >= b
    }
}

/// Whether `a operator b` holds, for an ordering operator, of two numbers
/// that compare as `order` says. Nothing holds of numbers that are unordered.
pub open spec fn ordering_holds(kind: TokenType, order: FloatOrder) -> bool {
    match order {
        FloatOrder::Less => kind == TokenType::Less || kind == TokenType::LessEqual,
        FloatOrder::Equal => kind == TokenType::LessEqual || kind == TokenType::GreaterEqual,
        FloatOrder::Greater => kind == TokenType::Greater || kind == TokenType::GreaterEqual,
        FloatOrder::Unordered => false,
    }
}

/// The arithmetic operation of an arithmetic operator.
pub open spec fn operation(kind: TokenType) -> Arithmetic {
    if kind == TokenType::Plus {
        Arithmetic::Add
    } else if kind == TokenType::Minus {
        Arithmetic::Subtract
    } else if kind == TokenType::Star {
        Arithmetic::Multiply
    } else {
        Arithmetic::Divide
    }
}

/// A number as a floating-point number: itself, or, for an integer, what the
/// host converts it to.
pub open spec fn as_number(host: Seq<Exchange>, v: ValueView, s: State) -> Option<(Float, State)> {
    match v {
        ValueView::Float(f) => Some((f, s)),
        ValueView::Integer(i) => ask_number(host, s, Request::FromInteger(i)),
        _ => None,
    }
}

/// Two numbers as floating-point numbers, the left one first.
pub open spec fn as_numbers(host: Seq<Exchange>, left: ValueView, right: ValueView, s: State) -> Option<
    (Float, Float, State),
> {
    match as_number(host, left, s) {
        Some((a, t)) => match as_number(host, right, t) {
            Some((b, u)) => Some((a, b, u)),
            None => None,
        },
        None => None,
    }
}

/// The result of a binary operator on two values.
///
/// `+`, `-` and `*` on two integers give the integer result, or an overflow
/// error if it is out of range; `+` on two strings joins them; ordering
/// operators on two integers compare them; `==` and `!=` compare values of
/// the same kind and tell values of different kinds apart. Arithmetic and
/// ordering on anything but numbers is an error. Where a floating-point
/// number is involved, and in every division, the operands are converted and
/// the host computes.
pub open spec fn binary_value(
    host: Seq<Exchange>,
    operator: TokenView,
    left: ValueView,
    right: ValueView,
    s: State,
) -> Option<Step> {
    let kind = operator.kind;
    if is_arithmetic(kind) {
        if left.is_number() && right.is_number() {
            if left is Integer && right is Integer && kind != TokenType::Slash {
                finished(
                    integer_result(
                        operator,
                        integer_arithmetic(kind, left->Integer_0, right->Integer_0),
                    ),
                    s,
                )
            } else {
                match as_numbers(host, left, right, s) {
                    Some((a, b, t)) => match ask_number(
                        host,
                        t,
                        Request::Arithmetic(operation(kind), a, b),
                    ) {
                        Some((f, u)) => finished(Ok(ValueView::Float(f)), u),
                        None => None,
                    },
                    None => None,
                }
            }
        } else if left is Str && right is Str && kind == TokenType::Plus {
            finished(Ok(ValueView::Str(left->Str_0 + right->Str_0)), s)
        } else {
            finished(Err(error_at(operator, operands_message(kind))), s)
        }
    } else if is_ordering(kind) {
        if left.is_number() && right.is_number() {
            if left is Integer && right is Integer {
                finished(
                    Ok(
                        ValueView::Bool(
                            integer_ordering(kind, left->Integer_0, right->Integer_0),
                        ),
                    ),
                    s,
                )
            } else {
                match as_numbers(host, left, right, s) {
                    Some((a, b, t)) => match ask_order(host, t, Request::Compare(a, b)) {
                        Some((order, u)) => finished(
                            Ok(ValueView::Bool(ordering_holds(kind, order))),
                            u,
                        ),
                        None => None,
                    },
                    None => None,
                }
            }
        } else {
            finished(Err(error_at(operator, operand_message(operator))), s)
        }
    } else if kind == TokenType::EqualEqual {
        match values_equal(host, left, right, s) {
            Some((b, t)) => finished(Ok(ValueView::Bool(b)), t),
            None => None,
        }
    } else if kind == TokenType::BangEqual {
        match values_equal(host, left, right, s) {
            Some((b, t)) => finished(Ok(ValueView::Bool(!b)), t),
            None => None,
        }
    } else {
        finished(
            Err(error_at(operator, unsupported("Unsupported binary operator: "@, operator))),
            s,
        )
    }
}

/// The value of the variable `name`: looked up in the global scope if the
/// reference is unresolved, else in the scope `distance` steps out.
pub open spec fn variable_value(s: State, name: TokenView, depth: Depth) -> Outcome {
    match depth {
        Depth::Unresolved => environment::get(s.scopes, 0, name.lexeme, name.line),
        Depth::Resolved(distance) => environment::get_at(
            s.scopes,
            s.current as int,
            distance as nat,
            name.lexeme,
            name.line,
        ),
    }
}

/// The scopes after `value` is assigned to the variable `name`.
pub open spec fn variable_assigned(s: State, name: TokenView, depth: Depth, value: ValueView) -> Result<
    Seq<ScopeView>,
    Signal,
> {
    match depth {
        Depth::Unresolved => environment::assign(s.scopes, 0, name.lexeme, value, name.line),
        Depth::Resolved(distance) => environment::assign_at(
            s.scopes,
            s.current as int,
            distance as nat,
            name.lexeme,
            value,
            name.line,
        ),
    }
}

/// The message for a call with the wrong number of arguments.
pub open spec fn arity_message(expected: nat, got: nat) -> Seq<char> {
    "Expected "@ + decimal_nat(expected) + " arguments but got "@ + decimal_nat(got) + "."@
}

/// The error, if any, that stops a call of `callee` with `got` arguments
/// before it starts: the callee is no callable, or takes another number of
/// arguments.
pub open spec fn call_error(callee: ValueView, paren: TokenView, got: nat) -> Option<Signal> {
    match callee {
        ValueView::Callable(c) => if c.arity() != got {
            Some(error_at(paren, arity_message(c.arity(), got)))
        } else {
            None
        },
        _ => Some(error_at(paren, "Can only call functions and classes."@)),
    }
}

/// The scope that holds the first `count` parameters bound to the first
/// `count` arguments, in order.
pub open spec fn bound(params: Seq<TokenView>, arguments: Seq<ValueView>, count: nat) -> ScopeView
    decreases count,
{
    if count == 0 {
        ScopeView { enclosing: None, bindings: Seq::empty() }
    } else {
        bound(params, arguments, (count - 1) as nat).define(
            params[count - 1].lexeme,
            arguments[count - 1],
        )
    }
}

/// The function value that a function declaration or expression makes in the
/// current scope.
pub open spec fn closure(s: State, name: Seq<char>, params: Seq<TokenView>, body: Seq<StatementView>) -> ValueView {
    ValueView::Callable(
        CallableView::Function(FunctionView { name, params, body, closure: s.current }),
    )
}

/// The outcome of a function call, given the outcome of its body: a
/// `return` gives the value, the end of the body gives `nil`, an error stays
/// an error.
pub open spec fn returned(body: Outcome) -> Outcome {
    match body {
        Ok(_) => Ok(ValueView::Nil),
        Err(Signal::Return(v)) => Ok(v),
        Err(Signal::RuntimeError(e)) => Err(Signal::RuntimeError(e)),
    }
}

/// Evaluates an expression.
pub open spec fn evaluate(host: Seq<Exchange>, e: ExprView, s: State) -> Option<Step>
    decreases s.fuel, 0nat,
{
    if s.fuel == 0 {
        finished(Err(exhausted()), s)
    } else {
        let s = s.tick();
        match e {
            ExprView::Binary { left, operator, right } => visit_binary(
                host,
                *left,
                operator,
                *right,
                s,
            ),
            ExprView::Literal { value } => literal_value(host, value, s),
            ExprView::Grouping { expression } => kept(evaluate(host, *expression, s), s),
            ExprView::Unary { operator, right } => visit_unary(host, operator, *right, s),
            ExprView::Variable { name, depth } => finished(variable_value(s, name, depth), s),
            ExprView::Assign { name, value, depth } => assign_variable(
                host,
                name,
                *value,
                depth,
                s,
            ),
            ExprView::LogicOr { left, right } => logic(host, false, *left, *right, s),
            ExprView::LogicAnd { left, right } => logic(host, true, *left, *right, s),
            ExprView::Call { callee, paren, arguments } => call_expr(
                host,
                *callee,
                paren,
                arguments,
                s,
            ),
            ExprView::Lambda { params, body } => finished(
                Ok(closure(s, lambda_name(), params, body)),
                s,
            ),
        }
    }
}

/// Evaluates both operands, left first, then applies the operator.
pub open spec fn visit_binary(
    host: Seq<Exchange>,
    left: ExprView,
    operator: TokenView,
    right: ExprView,
    s: State,
) -> Option<Step>
    decreases s.fuel, 6nat,
{
    match kept(evaluate(host, left, s), s) {
        None => None,
        Some(l) => match l.result {
            Err(_) => Some(l),
            Ok(a) => match kept(evaluate(host, right, l.state), s) {
                None => None,
                Some(r) => match r.result {
                    Err(_) => Some(r),
                    Ok(b) => binary_value(host, operator, a, b, r.state),
                },
            },
        },
    }
}

/// Evaluates the operand, then applies the operator.
pub open spec fn visit_unary(host: Seq<Exchange>, operator: TokenView, right: ExprView, s: State) -> Option<
    Step,
>
    decreases s.fuel, 6nat,
{
    match kept(evaluate(host, right, s), s) {
        None => None,
        Some(r) => match r.result {
            Err(_) => Some(r),
            Ok(v) => unary_value(host, operator, v, r.state),
        },
    }
}

/// Evaluates the value, assigns it to the variable, and gives the value.
pub open spec fn assign_variable(
    host: Seq<Exchange>,
    name: TokenView,
    value: ExprView,
    depth: Depth,
    s: State,
) -> Option<Step>
    decreases s.fuel, 6nat,
{
    match kept(evaluate(host, value, s), s) {
        None => None,
        Some(r) => match r.result {
            Err(_) => Some(r),
            Ok(v) => match variable_assigned(r.state, name, depth, v) {
                Ok(scopes) => finished(Ok(v), r.state.with_scopes(scopes)),
                Err(e) => finished(Err(e), r.state),
            },
        },
    }
}

/// Evaluates `left and right` (`conjunction`) or `left or right`: the left
/// operand decides alone where it can, and the right one is then never
/// evaluated.
pub open spec fn logic(
    host: Seq<Exchange>,
    conjunction: bool,
    left: ExprView,
    right: ExprView,
    s: State,
) -> Option<Step>
    decreases s.fuel, 6nat,
{
    match kept(evaluate(host, left, s), s) {
        None => None,
        Some(l) => match l.result {
            Err(_) => Some(l),
            Ok(a) => if a.is_truthy() != conjunction {
                Some(l)
            } else {
                kept(evaluate(host, right, l.state), s)
            },
        },
    }
}

/// Evaluates the arguments from the `i`th on, left to right. The result
/// holds no value: the values are those of [`evaluated`].
pub open spec fn evaluate_arguments(
    host: Seq<Exchange>,
    arguments: Seq<ExprView>,
    i: int,
    s: State,
) -> Option<Step>
    decreases s.fuel, 1nat,
{
    if i < 0 || i >= arguments.len() {
        finished(Ok(ValueView::Nil), s)
    } else {
        match spent(evaluate(host, arguments[i], s), s) {
            None => None,
            Some(r) => match r.result {
                Err(_) => Some(r),
                Ok(_) => evaluate_arguments(host, arguments, i + 1, r.state),
            },
        }
    }
}

/// The values of the arguments from the `i`th on, evaluated left to right
/// from the state `s`, as far as they can be evaluated.
pub open spec fn evaluated(host: Seq<Exchange>, arguments: Seq<ExprView>, i: int, s: State) -> Seq<
    ValueView,
>
    decreases s.fuel, 1nat,
{
    if i < 0 || i >= arguments.len() {
        Seq::empty()
    } else {
        match spent(evaluate(host, arguments[i], s), s) {
            None => Seq::empty(),
            Some(r) => match r.result {
                Err(_) => Seq::empty(),
                Ok(v) => seq![v] + evaluated(host, arguments, i + 1, r.state),
            },
        }
    }
}

/// Evaluates a call: the callee, which must be callable; then the arguments,
/// left to right; then, if their number is the callee's arity, the call
/// itself.
pub open spec fn call_expr(
    host: Seq<Exchange>,
    callee: ExprView,
    paren: TokenView,
    arguments: Seq<ExprView>,
    s: State,
) -> Option<Step>
    decreases s.fuel, 6nat,
{
    match kept(evaluate(host, callee, s), s) {
        None => None,
        Some(c) => match c.result {
            Err(_) => Some(c),
            Ok(target) => if !(target is Callable) {
                finished(Err(call_error(target, paren, 0).unwrap()), c.state)
            } else {
                match kept(evaluate_arguments(host, arguments, 0, c.state), s) {
                    None => None,
                    Some(a) => match a.result {
                        Err(_) => Some(a),
                        Ok(_) => match call_error(target, paren, arguments.len()) {
                            Some(e) => finished(Err(e), a.state),
                            None => kept(
                                invoke(
                                    host,
                                    target->Callable_0,
                                    evaluated(host, arguments, 0, c.state),
                                    a.state,
                                ),
                                s,
                            ),
                        },
                    },
                }
            },
        },
    }
}

/// Calls a callable with as many arguments as it takes. The clock gives
/// what the host says the time is.
pub open spec fn invoke(
    host: Seq<Exchange>,
    callable: CallableView,
    arguments: Seq<ValueView>,
    s: State,
) -> Option<Step>
    decreases s.fuel, 5nat,
{
    match callable {
        CallableView::Function(f) => call_function(host, f, arguments, s),
        CallableView::Clock => match ask_number(host, s, Request::Clock) {
            Some((now, t)) => finished(Ok(ValueView::Float(now)), t),
            None => None,
        },
    }
}

/// Calls a function: a new scope inside the function's own closure scope
/// takes the parameters, the body runs as a block inside that scope, and the
/// caller's scope is current again afterwards. A call with another number of
/// arguments than the function has parameters is an error.
pub open spec fn call_function(
    host: Seq<Exchange>,
    f: FunctionView,
    arguments: Seq<ValueView>,
    s: State,
) -> Option<Step>
    decreases s.fuel, 4nat,
{
    if arguments.len() != f.params.len() {
        finished(Err(failure(0, arity_message(f.params.len(), arguments.len()))), s)
    } else if f.closure >= s.scopes.len() {
        finished(Err(lost_closure()), s)
    } else {
        let frame = ScopeView {
            enclosing: Some(f.closure),
            bindings: bound(f.params, arguments, f.params.len()).bindings,
        };
        let inside = s.with_scopes(s.scopes.push(frame)).enter(s.scopes.len());
        match kept(execute_body(host, f.body, inside), s) {
            None => None,
            Some(b) => finished(returned(b.result), b.state.enter(s.current)),
        }
    }
}

/// Runs statements as a block: in a new scope inside the current one, which
/// is left again afterwards, however the block ends.
pub open spec fn execute_body(host: Seq<Exchange>, statements: Seq<StatementView>, s: State) -> Option<
    Step,
>
    decreases s.fuel, 3nat,
{
    let inner = s.scopes.len();
    let inside = s.with_scopes(s.scopes.push(ScopeView::empty(Some(s.current))));
    execute_block(host, statements, inner, inside)
}

/// Runs statements in the scope `scope`, and makes the scope that was
/// current before current again afterwards, however the statements end.
pub open spec fn execute_block(
    host: Seq<Exchange>,
    statements: Seq<StatementView>,
    scope: nat,
    s: State,
) -> Option<Step>
    decreases s.fuel, 2nat,
{
    match kept(execute_statements(host, statements, 0, s.enter(scope)), s) {
        None => None,
        Some(r) => finished(
            match r.result {
                Ok(_) => Ok(ValueView::Nil),
                Err(e) => Err(e),
            },
            r.state.enter(s.current),
        ),
    }
}

/// Runs the statements from the `i`th on, in order, up to the first that
/// ends in a signal.
pub open spec fn execute_statements(
    host: Seq<Exchange>,
    statements: Seq<StatementView>,
    i: int,
    s: State,
) -> Option<Step>
    decreases s.fuel, 1nat,
{
    if i < 0 || i >= statements.len() {
        finished(Ok(ValueView::Nil), s)
    } else {
        match spent(execute(host, statements[i], s), s) {
            None => None,
            Some(r) => match r.result {
                Err(_) => Some(r),
                Ok(_) => execute_statements(host, statements, i + 1, r.state),
            },
        }
    }
}

/// Runs a loop: the body again and again for as long as the condition is
/// truthy.
pub open spec fn execute_while(
    host: Seq<Exchange>,
    condition: ExprView,
    body: StatementView,
    s: State,
) -> Option<Step>
    decreases s.fuel, 1nat,
{
    match spent(evaluate(host, condition, s), s) {
        None => None,
        Some(c) => match c.result {
            Err(_) => Some(c),
            Ok(v) => if v.is_truthy() {
                match spent(execute(host, body, c.state), c.state) {
                    None => None,
                    Some(b) => match b.result {
                        Err(_) => Some(b),
                        Ok(_) => execute_while(host, condition, body, b.state),
                    },
                }
            } else {
                finished(Ok(ValueView::Nil), c.state)
            },
        },
    }
}

/// Runs `if`: the condition, then one branch or none.
pub open spec fn execute_if(
    host: Seq<Exchange>,
    condition: ExprView,
    then_branch: StatementView,
    else_branch: Option<Box<StatementView>>,
    s: State,
) -> Option<Step>
    decreases s.fuel, 6nat,
{
    match kept(evaluate(host, condition, s), s) {
        None => None,
        Some(c) => match c.result {
            Err(_) => Some(c),
            Ok(v) => if v.is_truthy() {
                kept(execute(host, then_branch, c.state), s)
            } else {
                match else_branch {
                    Some(other) => kept(execute(host, *other, c.state), s),
                    None => finished(Ok(ValueView::Nil), c.state),
                }
            },
        },
    }
}

/// The text of a value as `print` shows it. The text of a floating-point
/// number is the host's.
pub open spec fn shown(host: Seq<Exchange>, v: ValueView, s: State) -> Option<(Seq<char>, State)> {
    match v {
        ValueView::Float(f) => ask_text(host, s, Request::Show(f)),
        _ => Some((v.display(), s)),
    }
}

/// Runs `print`: the value, as text, becomes the next line of output.
pub open spec fn execute_print(host: Seq<Exchange>, expression: ExprView, s: State) -> Option<Step>
    decreases s.fuel, 6nat,
{
    match kept(evaluate(host, expression, s), s) {
        None => None,
        Some(r) => match r.result {
            Err(_) => Some(r),
            Ok(v) => match shown(host, v, r.state) {
                Some((text, t)) => finished(
                    Ok(ValueView::Nil),
                    State { output: t.output.push(text), ..t },
                ),
                None => None,
            },
        },
    }
}

/// Runs `var`: the initializer's value, or `nil`, is bound to the name in
/// the current scope.
pub open spec fn execute_var(
    host: Seq<Exchange>,
    name: TokenView,
    initializer: Option<ExprView>,
    s: State,
) -> Option<Step>
    decreases s.fuel, 6nat,
{
    let value = match initializer {
        Some(e) => kept(evaluate(host, e, s), s),
        None => finished(Ok(ValueView::Nil), s),
    };
    match value {
        None => None,
        Some(r) => match r.result {
            Err(_) => Some(r),
            Ok(v) => finished(
                Ok(ValueView::Nil),
                r.state.with_scopes(
                    environment::define(r.state.scopes, r.state.current as int, name.lexeme, v),
                ),
            ),
        },
    }
}

/// Runs `return`: the value, or `nil`, leaves as a signal.
pub open spec fn execute_return(host: Seq<Exchange>, value: Option<ExprView>, s: State) -> Option<
    Step,
>
    decreases s.fuel, 6nat,
{
    let given = match value {
        Some(e) => kept(evaluate(host, e, s), s),
        None => finished(Ok(ValueView::Nil), s),
    };
    match given {
        None => None,
        Some(r) => match r.result {
            Err(_) => Some(r),
            Ok(v) => finished(Err(Signal::Return(v)), r.state),
        },
    }
}

/// Executes a statement.
pub open spec fn execute(host: Seq<Exchange>, statement: StatementView, s: State) -> Option<Step>
    decreases s.fuel, 0nat,
{
    if s.fuel == 0 {
        finished(Err(exhausted()), s)
    } else {
        let s = s.tick();
        match statement {
            StatementView::Expression { expression } => kept(evaluate(host, expression, s), s),
            StatementView::Print { expression } => execute_print(host, expression, s),
            StatementView::Var { name, initializer } => execute_var(host, name, initializer, s),
            StatementView::Block { statements } => execute_body(host, statements, s),
            StatementView::If { condition, then_branch, else_branch } => execute_if(
                host,
                condition,
                *then_branch,
                else_branch,
                s,
            ),
            StatementView::While { condition, body } => execute_while(host, condition, *body, s),
            StatementView::Function { name, params, body } => finished(
                Ok(ValueView::Nil),
                s.with_scopes(
                    environment::define(
                        s.scopes,
                        s.current as int,
                        name.lexeme,
                        closure(s, name.lexeme, params, body),
                    ),
                ),
            ),
            StatementView::Return { keyword, value } => execute_return(host, value, s),
        }
    }
}

/// Runs a program: the statements from the `i`th on, in order, up to the
/// first runtime error. The result is that error, if there is one.
pub open spec fn interpret(host: Seq<Exchange>, statements: Seq<StatementView>, i: int, s: State) -> Option<
    Step,
>
    decreases s.fuel,
{
    if i < 0 || i >= statements.len() {
        finished(Ok(ValueView::Nil), s)
    } else {
        match spent(execute(host, statements[i], s), s) {
            None => None,
            Some(r) => match r.result {
                Err(Signal::RuntimeError(_)) => Some(r),
                _ => if r.state.fuel < s.fuel {
                    interpret(host, statements, i + 1, r.state)
                } else {
                    None
                },
            },
        }
    }
}

} // verus!
