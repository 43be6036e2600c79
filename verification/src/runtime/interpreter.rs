//! The evaluator: it walks expressions and statements and does what the
//! semantics say.

use vstd::prelude::*;
use crate::ast::expr::{expr_views, lemma_expr_view_lists, Depth, Expr, ExprView};
use crate::ast::statement::{statement_views, Statement, StatementView};
use crate::lexer::scanner::token_views;
use crate::lexer::token::{contains_char, Keyword, Literal, Token, TokenType};
use crate::runtime::control_flow::{outcome_view, ControlFlow, Signal};
use crate::runtime::environment::{Environment, ScopeView};
use crate::runtime::function::{Callable, CallableView, Clock, EnvRef, Function};
use crate::runtime::host::{Arithmetic, Float, FloatOrder, Host};
use crate::runtime::runtime_error::RuntimeError;
use crate::runtime::semantics;
use crate::runtime::semantics::{Answer, Exchange, Request, State, Step};
use crate::runtime::value::{Value, ValueView};
use crate::text::{chars_of, push_decimal, push_text, str_equals};

verus! {

/// The views of a run of values.
pub open spec fn value_views(values: Seq<Value>) -> Seq<ValueView> {
    values.map_values(|v: Value| v@)
}

/// The view of an expression that may be missing.
pub open spec fn optional_view(e: Option<Expr>) -> Option<ExprView> {
    match e {
        Some(x) => Some(x@),
        None => None,
    }
}

/// The view of a branch that may be missing.
pub open spec fn branch_view(s: Option<Box<Statement>>) -> Option<Box<StatementView>> {
    match s {
        Some(x) => Some(Box::new(x@)),
        None => None,
    }
}

/// The views of a run of strings.
pub open spec fn line_views(lines: Seq<String>) -> Seq<Seq<char>> {
    lines.map_values(|l: String| l@)
}

/// The runtime error reported at `token`.
pub fn error<'a>(token: &Token, message: &str) -> (r: ControlFlow<'a>)
    ensures
        r@ == semantics::error_at(token@, message@),
{
    let mut text = String::new();
    if token.token_type == TokenType::Eof {
        push_text(&mut text, "Error at end: ");
    } else {
        push_text(&mut text, "Error at '");
        push_text(&mut text, token.lexeme.as_str());
        push_text(&mut text, "': ");
    }
    push_text(&mut text, message);
    assert(text@ =~= semantics::error_at(token@, message@)->RuntimeError_0.message);
    ControlFlow::RuntimeError(RuntimeError::new(token.line, text))
}

/// A runtime error on `line`.
pub(crate) fn failure<'a>(line: usize, message: &str) -> (r: ControlFlow<'a>)
    ensures
        r@ == semantics::failure(line as nat, message@),
{
    let mut text = String::new();
    push_text(&mut text, message);
    assert(text@ =~= message@);
    ControlFlow::RuntimeError(RuntimeError::new(line, text))
}

/// The integer that a numeral without a fraction stands for; the largest
/// integer if the numeral denotes a larger number.
pub fn integer_of(numeral: &str) -> (r: i64)
    ensures
        r == semantics::integer_value(numeral@),
{
    let chars = chars_of(numeral);
    let mut value: i64 = 0;
    let mut i: usize = 0;
    assert(chars@.subrange(0, 0) =~= Seq::<char>::empty());
    while i < chars.len()
        invariant
            i <= chars.len(),
            chars@ == numeral@,
            0 <= value,
            value == semantics::integer_value(chars@.subrange(0, i as int)),
            value < i64::MAX ==> value == semantics::digits_value(chars@.subrange(0, i as int)),
        decreases chars.len() - i,
    {
        let c = chars[i];
        let digit: i64 = if c >= '0' && c <= '9' {
            (c as u32 - '0' as u32) as i64
        } else {
            0
        };
        proof {
            let upto = chars@.subrange(0, i + 1);
            assert(upto.drop_last() =~= chars@.subrange(0, i as int));
            assert(upto.last() == c);
            assert(digit == semantics::digit_value(c));
        }
        if value > (i64::MAX - digit) / 10 {
            value = i64::MAX;
        } else {
            value = value * 10 + digit;
        }
        i = i + 1;
    }
    assert(chars@.subrange(0, i as int) =~= chars@);
    value
}

/// Whether `a operator b` holds, given how `a` compares to `b`. Nothing
/// holds of numbers that are unordered.
pub fn ordering_holds(kind: TokenType, order: FloatOrder) -> (r: bool)
    ensures
        r == semantics::ordering_holds(kind, order),
{
    match order {
        FloatOrder::Less => kind == TokenType::Less || kind == TokenType::LessEqual,
        FloatOrder::Equal => kind == TokenType::LessEqual || kind == TokenType::GreaterEqual,
        FloatOrder::Greater => kind == TokenType::Greater || kind == TokenType::GreaterEqual,
        FloatOrder::Unordered => false,
    }
}

/// The result of `+`, `-` or `*` on two integers: the exact result, or an
/// overflow error at `operator` if it is out of range.
pub fn integer_operation<'a>(operator: &Token, a: i64, b: i64) -> (r: Result<
    Value<'a>,
    ControlFlow<'a>,
>)
    requires
        operator.token_type == TokenType::Plus || operator.token_type == TokenType::Minus
            || operator.token_type == TokenType::Star,
    ensures
        outcome_view(r) == semantics::integer_result(
            operator@,
            semantics::integer_arithmetic(operator.token_type, a as int, b as int),
        ),
{
    let exact = if operator.token_type == TokenType::Plus {
        a.checked_add(b)
    } else if operator.token_type == TokenType::Minus {
        a.checked_sub(b)
    } else {
        a.checked_mul(b)
    };
    match exact {
        Some(i) => Ok(Value::Integer(i)),
        None => Err(error(operator, "Integer overflow.")),
    }
}

/// Whether `a operator b` holds of two integers, for an ordering operator.
pub fn integer_comparison(kind: TokenType, a: i64, b: i64) -> (r: bool)
    ensures
        r == semantics::integer_ordering(kind, a as int, b as int),
{
    if kind == TokenType::Less {
        a < b
    } else if kind == TokenType::LessEqual {
        a <= b
    } else if kind == TokenType::Greater {
        a > b
    } else {
        a >= b
    }
}

/// The interpreter: the scopes of the running program, the current scope,
/// the lines printed so far, what is left of the evaluation budget, and the
/// host.
pub struct Interpreter<'a, H: Host> {
    /// The global scope, which is the first scope.
    pub globals: EnvRef,
    /// The current scope.
    pub environment: EnvRef,
    pub scopes: Environment<'a>,
    /// The lines printed so far, oldest first.
    pub output: Vec<String>,
    /// How many more expressions and statements may be evaluated.
    pub fuel: u64,
    pub host: H,
    /// What has been asked of the host so far, and what it answered.
    pub conversation: Ghost<Seq<Exchange>>,
}

impl<'a, H: Host> Interpreter<'a, H> {
    /// The state of the interpreter.
    pub open spec fn view(&self) -> State {
        State {
            scopes: self.scopes@,
            current: self.environment as nat,
            output: line_views(self.output@),
            fuel: self.fuel as nat,
            asked: self.conversation@.len(),
        }
    }

    /// The state is consistent: the global scope is the first scope and the
    /// current scope exists.
    pub open spec fn wf(&self) -> bool {
        &&& self.globals == 0
        &&& self.environment < self.scopes@.len()
    }

    /// What holds after every step that started in `before`: the state is
    /// consistent, the budget has not grown, the current scope is the same,
    /// no scope has gone, and the conversation with the host has gone on
    /// from where it was.
    pub open spec fn proceeds(&self, before: Self) -> bool {
        &&& self.wf()
        &&& self.fuel <= before.fuel
        &&& self.environment == before.environment
        &&& self.scopes@.len() >= before.scopes@.len()
        &&& semantics::extends(self.conversation@, before.conversation@)
    }

    /// What holds after a step that did nothing but talk to the host.
    pub open spec fn talked(&self, before: Self) -> bool {
        &&& self.globals == before.globals
        &&& self.environment == before.environment
        &&& self.scopes == before.scopes
        &&& self.output == before.output
        &&& self.fuel == before.fuel
        &&& semantics::extends(self.conversation@, before.conversation@)
    }

    /// What holds after one request to the host: nothing has changed but the
    /// conversation, which is one exchange longer.
    pub open spec fn asked(&self, before: Self, request: Request, answer: Answer) -> bool {
        &&& self.globals == before.globals
        &&& self.environment == before.environment
        &&& self.scopes == before.scopes
        &&& self.output == before.output
        &&& self.fuel == before.fuel
        &&& self.conversation@ == before.conversation@.push(Exchange { request, answer })
    }

    /// Whether `host` is a conversation that starts as the one had so far.
    pub open spec fn heard(&self, host: Seq<Exchange>) -> bool {
        semantics::extends(host, self.conversation@)
    }

    /// The step gave `r` and left this state, as `run` says.
    pub open spec fn realizes(&self, r: Result<Value<'a>, ControlFlow<'a>>, run: Option<Step>) -> bool {
        run == Some(Step { result: outcome_view(r), state: self@ })
    }

    /// The state in which programs start: one scope, the global one, which
    /// binds `clock` to the built-in clock.
    pub open spec fn initial(fuel: nat) -> State {
        State {
            scopes: seq![
                ScopeView::empty(None).define(
                    "clock"@,
                    ValueView::Callable(CallableView::Clock),
                ),
            ],
            current: 0,
            output: Seq::empty(),
            fuel,
            asked: 0,
        }
    }

    /// An interpreter with a budget that no program will spend.
    pub fn new(host: H) -> (r: Self)
        ensures
            r.wf(),
            r@ == Self::initial(u64::MAX as nat),
            r.conversation@ == Seq::<Exchange>::empty(),
    {
        Self::with_budget(host, u64::MAX)
    }

    /// An interpreter that evaluates at most `fuel` expressions and
    /// statements.
    pub fn with_budget(host: H, fuel: u64) -> (r: Self)
        ensures
            r.wf(),
            r@ == Self::initial(fuel as nat),
            r.conversation@ == Seq::<Exchange>::empty(),
    {
        let mut scopes = Environment::new();
        let mut name = String::new();
        push_text(&mut name, "clock");
        assert(name@ =~= "clock"@);
        scopes.define(0, name, Value::Callable(Callable::Clock(Clock)));
        let r = Interpreter {
            globals: 0,
            environment: 0,
            scopes,
            output: Vec::new(),
            fuel,
            host,
            conversation: Ghost(Seq::empty()),
        };
        assert(r@.output =~= Seq::<Seq<char>>::empty());
        assert(r@.scopes =~= Self::initial(fuel as nat).scopes);
        r
    }

    /// Whether a value counts as true in a condition.
    pub fn is_truthy(v: &Value<'a>) -> (r: bool)
        ensures
            r == v@.is_truthy(),
    {
        v.is_truthy()
    }

    /// The runtime error reported at `token`.
    pub fn error(token: &Token, message: &str) -> (r: ControlFlow<'a>)
        ensures
            r@ == semantics::error_at(token@, message@),
    {
        self::error(token, message)
    }

    /// Asks the host for the number that a numeral denotes.
    fn ask_numeral(&mut self, numeral: &str) -> (r: Float)
        ensures
            final(self).asked(*old(self), Request::FromNumeral(numeral@), Answer::Number(r)),
    {
        let r = self.host.float_from_numeral(numeral);
        proof {
            self.conversation@ = self.conversation@.push(
                Exchange { request: Request::FromNumeral(numeral@), answer: Answer::Number(r) },
            );
        }
        r
    }

    /// Asks the host for the floating-point number nearest to an integer.
    fn ask_integer(&mut self, value: i64) -> (r: Float)
        ensures
            final(self).asked(*old(self), Request::FromInteger(value as int), Answer::Number(r)),
    {
        let r = self.host.float_from_integer(value);
        proof {
            self.conversation@ = self.conversation@.push(
                Exchange { request: Request::FromInteger(value as int), answer: Answer::Number(r) },
            );
        }
        r
    }

    /// Asks the host for the result of an arithmetic operation.
    fn ask_arithmetic(&mut self, operation: Arithmetic, left: Float, right: Float) -> (r: Float)
        ensures
            final(self).asked(
                *old(self),
                Request::Arithmetic(operation, left, right),
                Answer::Number(r),
            ),
    {
        let r = self.host.float_arithmetic(operation, left, right);
        proof {
            self.conversation@ = self.conversation@.push(
                Exchange {
                    request: Request::Arithmetic(operation, left, right),
                    answer: Answer::Number(r),
                },
            );
        }
        r
    }

    /// Asks the host for the negation of a number.
    fn ask_negation(&mut self, value: Float) -> (r: Float)
        ensures
            final(self).asked(*old(self), Request::Negate(value), Answer::Number(r)),
    {
        let r = self.host.float_negate(value);
        proof {
            self.conversation@ = self.conversation@.push(
                Exchange { request: Request::Negate(value), answer: Answer::Number(r) },
            );
        }
        r
    }

    /// Asks the host how two numbers compare.
    fn ask_order(&mut self, left: Float, right: Float) -> (r: FloatOrder)
        ensures
            final(self).asked(*old(self), Request::Compare(left, right), Answer::Order(r)),
    {
        let r = self.host.float_compare(left, right);
        proof {
            self.conversation@ = self.conversation@.push(
                Exchange { request: Request::Compare(left, right), answer: Answer::Order(r) },
            );
        }
        r
    }

    /// Asks the host for a number as text.
    pub(crate) fn ask_text(&mut self, value: Float) -> (r: String)
        ensures
            final(self).asked(*old(self), Request::Show(value), Answer::Text(r@)),
    {
        let r = self.host.float_to_string(value);
        proof {
            self.conversation@ = self.conversation@.push(
                Exchange { request: Request::Show(value), answer: Answer::Text(r@) },
            );
        }
        r
    }

    /// Asks the host for the time.
    fn ask_clock(&mut self) -> (r: Float)
        ensures
            final(self).asked(*old(self), Request::Clock, Answer::Number(r)),
    {
        let r = self.host.clock();
        proof {
            self.conversation@ = self.conversation@.push(
                Exchange { request: Request::Clock, answer: Answer::Number(r) },
            );
        }
        r
    }

    /// A number as a floating-point number. An integer is converted by the
    /// host.
    fn as_number(&mut self, v: &Value<'a>) -> (r: Float)
        requires
            v@.is_number(),
        ensures
            final(self).talked(*old(self)),
            forall|host: Seq<Exchange>|
                final(self).heard(host) ==> #[trigger] semantics::as_number(host, v@, old(self)@)
                    == Some((r, final(self)@)),
    {
        match v {
            Value::Float(f) => *f,
            Value::Integer(i) => self.ask_integer(*i),
            _ => Float { bits: 0 },
        }
    }

    /// Two numbers as floating-point numbers, the left one first.
    fn as_numbers(&mut self, left: &Value<'a>, right: &Value<'a>) -> (r: (Float, Float))
        requires
            left@.is_number(),
            right@.is_number(),
        ensures
            final(self).talked(*old(self)),
            forall|host: Seq<Exchange>|
                final(self).heard(host) ==> #[trigger] semantics::as_numbers(
                    host,
                    left@,
                    right@,
                    old(self)@,
                ) == Some((r.0, r.1, final(self)@)),
    {
        let a = self.as_number(left);
        let b = self.as_number(right);
        (a, b)
    }

    /// The error for an operator the evaluator does not know.
    fn unsupported(what: &str, operator: &Token) -> (r: ControlFlow<'a>)
        ensures
            r@ == semantics::error_at(operator@, semantics::unsupported(what@, operator@)),
    {
        let mut message = String::new();
        push_text(&mut message, what);
        push_text(&mut message, operator.token_type.name());
        assert(message@ =~= semantics::unsupported(what@, operator@));
        self::error(operator, message.as_str())
    }

    /// The value of a literal token. A numeral with a fraction is read by the
    /// host.
    pub fn visit_literal(&mut self, value: &Token) -> (r: Result<Value<'a>, ControlFlow<'a>>)
        ensures
            final(self).talked(*old(self)),
            forall|host: Seq<Exchange>|
                final(self).heard(host) ==> final(self).realizes(
                    r,
                    #[trigger] semantics::literal_value(host, value@, old(self)@),
                ),
    {
        let v = match &value.literal {
            Some(Literal::Number(n)) => {
                if contains_char(n.as_str(), '.') {
                    Value::Float(self.ask_numeral(n.as_str()))
                } else {
                    Value::Integer(integer_of(n.as_str()))
                }
            },
            Some(Literal::String(s)) => Value::Str(s.clone()),
            Some(Literal::Boolean(b)) => Value::Bool(*b),
            Some(Literal::Nil) => Value::Nil,
            None => {
                if value.token_type == TokenType::Keyword(Keyword::True) {
                    Value::Bool(true)
                } else if value.token_type == TokenType::Keyword(Keyword::False) {
                    Value::Bool(false)
                } else {
                    Value::Nil
                }
            },
        };
        Ok(v)
    }

    /// Applies a unary operator to a value. The negation of a floating-point
    /// number is the host's.
    pub fn unary_operation(&mut self, operator: &Token, right: Value<'a>) -> (r: Result<
        Value<'a>,
        ControlFlow<'a>,
    >)
        ensures
            final(self).talked(*old(self)),
            forall|host: Seq<Exchange>|
                final(self).heard(host) ==> final(self).realizes(
                    r,
                    #[trigger] semantics::unary_value(host, operator@, right@, old(self)@),
                ),
    {
        if operator.token_type == TokenType::Minus {
            match right {
                Value::Float(f) => Ok(Value::Float(self.ask_negation(f))),
                Value::Integer(i) => {
                    if i == i64::MIN {
                        Err(self::error(operator, "Integer overflow."))
                    } else {
                        Ok(Value::Integer(-i))
                    }
                },
                _ => Err(self::error(operator, "Operand must be a number for unary '-'")),
            }
        } else if operator.token_type == TokenType::Bang {
            Ok(Value::Bool(!right.is_truthy()))
        } else {
            Err(Self::unsupported("Unsupported unary operator: ", operator))
        }
    }

    /// Whether two values are equal. Values of different kinds never are.
    /// Whether two floating-point numbers are is the host's to say.
    pub fn is_equal(&mut self, a: &Value<'a>, b: &Value<'a>) -> (r: bool)
        ensures
            final(self).talked(*old(self)),
            forall|host: Seq<Exchange>|
                final(self).heard(host) ==> #[trigger] semantics::values_equal(
                    host,
                    a@,
                    b@,
                    old(self)@,
                ) == Some((r, final(self)@)),
    {
        match (a, b) {
            (Value::Nil, Value::Nil) => true,
            (Value::Bool(x), Value::Bool(y)) => *x == *y,
            (Value::Float(x), Value::Float(y)) => {
                let order = self.ask_order(*x, *y);
                order == FloatOrder::Equal
            },
            (Value::Integer(x), Value::Integer(y)) => *x == *y,
            (Value::Str(x), Value::Str(y)) => str_equals(x.as_str(), y.as_str()),
            _ => false,
        }
    }

    /// Whether a value is a number of either kind.
    fn is_number(v: &Value<'a>) -> (r: bool)
        ensures
            r == v@.is_number(),
    {
        match v {
            Value::Integer(_) => true,
            Value::Float(_) => true,
            _ => false,
        }
    }

    /// Applies an arithmetic operator to two values.
    fn arithmetic_operation(&mut self, operator: &Token, left: Value<'a>, right: Value<'a>) -> (r:
        Result<Value<'a>, ControlFlow<'a>>)
        requires
            semantics::is_arithmetic(operator.token_type),
        ensures
            final(self).talked(*old(self)),
            forall|host: Seq<Exchange>|
                final(self).heard(host) ==> final(self).realizes(
                    r,
                    #[trigger] semantics::binary_value(host, operator@, left@, right@, old(self)@),
                ),
    {
        let kind = operator.token_type;
        if Self::is_number(&left) && Self::is_number(&right) {
            match (&left, &right) {
                (Value::Integer(a), Value::Integer(b)) => {
                    if kind != TokenType::Slash {
                        return integer_operation(operator, *a, *b);
                    }
                },
                _ => {},
            }
            let (a, b) = self.as_numbers(&left, &right);
            let operation = if kind == TokenType::Plus {
                Arithmetic::Add
            } else if kind == TokenType::Minus {
                Arithmetic::Subtract
            } else if kind == TokenType::Star {
                Arithmetic::Multiply
            } else {
                Arithmetic::Divide
            };
            Ok(Value::Float(self.ask_arithmetic(operation, a, b)))
        } else {
            match (&left, &right) {
                (Value::Str(a), Value::Str(b)) => {
                    if kind == TokenType::Plus {
                        let mut joined = a.clone();
                        push_text(&mut joined, b.as_str());
                        return Ok(Value::Str(joined));
                    }
                },
                _ => {},
            }
            let message = if kind == TokenType::Plus {
                "Operands must be two numbers or two strings for '+'"
            } else if kind == TokenType::Minus {
                "Operands must be two numbers for '-'"
            } else if kind == TokenType::Star {
                "Operands must be two numbers for '*'"
            } else {
                "Operands must be two numbers for '/'"
            };
            Err(self::error(operator, message))
        }
    }

    /// Applies an ordering operator to two values.
    fn ordering_operation(&mut self, operator: &Token, left: Value<'a>, right: Value<'a>) -> (r:
        Result<Value<'a>, ControlFlow<'a>>)
        requires
            semantics::is_ordering(operator.token_type),
        ensures
            final(self).talked(*old(self)),
            forall|host: Seq<Exchange>|
                final(self).heard(host) ==> final(self).realizes(
                    r,
                    #[trigger] semantics::binary_value(host, operator@, left@, right@, old(self)@),
                ),
    {
        let kind = operator.token_type;
        if Self::is_number(&left) && Self::is_number(&right) {
            match (&left, &right) {
                (Value::Integer(a), Value::Integer(b)) => {
                    return Ok(Value::Bool(integer_comparison(kind, *a, *b)));
                },
                _ => {},
            }
            let (a, b) = self.as_numbers(&left, &right);
            let order = self.ask_order(a, b);
            Ok(Value::Bool(ordering_holds(kind, order)))
        } else {
            let mut message = String::new();
            push_text(&mut message, "Operand must be a number for ");
            push_text(&mut message, operator.lexeme.as_str());
            assert(message@ =~= semantics::operand_message(operator@));
            Err(self::error(operator, message.as_str()))
        }
    }

    /// Applies a binary operator to two values. What involves a
    /// floating-point number, and every division, is computed by the host.
    pub fn binary_operation(&mut self, operator: &Token, left: Value<'a>, right: Value<'a>) -> (r:
        Result<Value<'a>, ControlFlow<'a>>)
        ensures
            final(self).talked(*old(self)),
            forall|host: Seq<Exchange>|
                final(self).heard(host) ==> final(self).realizes(
                    r,
                    #[trigger] semantics::binary_value(host, operator@, left@, right@, old(self)@),
                ),
    {
        let kind = operator.token_type;
        if kind == TokenType::Plus || kind == TokenType::Minus || kind == TokenType::Star || kind
            == TokenType::Slash {
            self.arithmetic_operation(operator, left, right)
        } else if kind == TokenType::Less || kind == TokenType::LessEqual || kind
            == TokenType::Greater || kind == TokenType::GreaterEqual {
            self.ordering_operation(operator, left, right)
        } else if kind == TokenType::EqualEqual {
            let equal = self.is_equal(&left, &right);
            Ok(Value::Bool(equal))
        } else if kind == TokenType::BangEqual {
            let equal = self.is_equal(&left, &right);
            Ok(Value::Bool(!equal))
        } else {
            Err(Self::unsupported("Unsupported binary operator: ", operator))
        }
    }

    /// Writes the resolution distance into a variable reference or an
    /// assignment; any other expression is left as it is.
    pub fn resolve(&mut self, expression: &mut Expr, depth: usize)
        ensures
            *final(self) == *old(self),
            final(expression)@ == match old(expression)@ {
                ExprView::Variable { name, .. } => ExprView::Variable {
                    name,
                    depth: Depth::Resolved(depth),
                },
                ExprView::Assign { name, value, .. } => ExprView::Assign {
                    name,
                    value,
                    depth: Depth::Resolved(depth),
                },
                other => other,
            },
    {
        match expression {
            Expr::Variable { depth: slot, .. } => {
                *slot = Depth::Resolved(depth);
            },
            Expr::Assign { depth: slot, .. } => {
                *slot = Depth::Resolved(depth);
            },
            _ => {},
        }
    }
}


impl<'a, H: Host> Interpreter<'a, H> {
    /// Evaluates an expression.
    ///
    /// For every conversation that starts as the one with the host went, the
    /// semantics give the result returned and the state left.
    pub fn evaluate(&mut self, expression: &'a Expr) -> (r: Result<Value<'a>, ControlFlow<'a>>)
        requires
            old(self).wf(),
        ensures
            final(self).proceeds(*old(self)),
            r is Ok ==> final(self).fuel < old(self).fuel,
            old(self).fuel > 0 ==> final(self).fuel < old(self).fuel,
            forall|host: Seq<Exchange>|
                final(self).heard(host) ==> final(self).realizes(
                    r,
                    #[trigger] semantics::evaluate(host, expression@, old(self)@),
                ),
        decreases old(self).fuel, 0nat,
    {
        if self.fuel == 0 {
            return Err(failure(0, "Evaluation budget exhausted."));
        }
        self.fuel = self.fuel - 1;
        let ghost ticked = self@;
        let r = match expression {
            Expr::Binary { left, operator, right } => self.visit_binary(left, operator, right),
            Expr::Literal { value } => self.visit_literal(value),
            Expr::Grouping { expression } => self.visit_grouping(expression),
            Expr::Unary { operator, right } => self.visit_unary(operator, right),
            Expr::Variable { name, depth } => self.lookup_variable(name, *depth),
            Expr::Assign { name, value, depth } => self.assign_variable(name, value, *depth),
            Expr::LogicOr { left, right } => self.logic_or(left, right),
            Expr::LogicAnd { left, right } => self.logic_and(left, right),
            Expr::Call { callee, paren, arguments } => self.call_expr(callee, paren, arguments),
            Expr::Lambda { params, body } => self.lambda_expression(params, body),
        };
        proof {
            lemma_expr_view_lists(*expression);
            assert forall|host: Seq<Exchange>| self.heard(host) implies self.realizes(
                r,
                #[trigger] semantics::evaluate(host, expression@, old(self)@),
            ) by {
                match expression {
                    Expr::Binary { left, operator, right } => {
                        assert(self.realizes(
                            r,
                            semantics::visit_binary(host, left@, operator@, right@, ticked),
                        ));
                    },
                    Expr::Literal { value } => {
                        assert(self.realizes(r, semantics::literal_value(host, value@, ticked)));
                    },
                    Expr::Grouping { expression: inner } => {
                        assert(self.realizes(r, semantics::evaluate(host, inner@, ticked)));
                    },
                    Expr::Unary { operator, right } => {
                        assert(self.realizes(
                            r,
                            semantics::visit_unary(host, operator@, right@, ticked),
                        ));
                    },
                    Expr::Variable { name, depth } => {},
                    Expr::Assign { name, value, depth } => {
                        assert(self.realizes(
                            r,
                            semantics::assign_variable(host, name@, value@, *depth, ticked),
                        ));
                    },
                    Expr::LogicOr { left, right } => {
                        assert(self.realizes(
                            r,
                            semantics::logic(host, false, left@, right@, ticked),
                        ));
                    },
                    Expr::LogicAnd { left, right } => {
                        assert(self.realizes(r, semantics::logic(host, true, left@, right@, ticked)));
                    },
                    Expr::Call { callee, paren, arguments } => {
                        assert(self.realizes(
                            r,
                            semantics::call_expr(
                                host,
                                callee@,
                                paren@,
                                expr_views(arguments@),
                                ticked,
                            ),
                        ));
                    },
                    Expr::Lambda { params, body } => {},
                }
            }
        }
        r
    }

    fn visit_binary(&mut self, left: &'a Expr, operator: &'a Token, right: &'a Expr) -> (r: Result<
        Value<'a>,
        ControlFlow<'a>,
    >)
        requires
            old(self).wf(),
        ensures
            final(self).proceeds(*old(self)),
            forall|host: Seq<Exchange>|
                final(self).heard(host) ==> final(self).realizes(
                    r,
                    #[trigger] semantics::visit_binary(host, left@, operator@, right@, old(self)@),
                ),
        decreases old(self).fuel, 6nat,
    {
        let ghost start = self@;
        let left_value = match self.evaluate(left) {
            Ok(v) => v,
            Err(e) => {
                proof {
                    assert forall|host: Seq<Exchange>| self.heard(host) implies self.realizes(
                        Err(e),
                        #[trigger] semantics::visit_binary(host, left@, operator@, right@, start),
                    ) by {
                        assert(self.realizes(Err(e), semantics::evaluate(host, left@, start)));
                    }
                }
                return Err(e);
            },
        };
        let ghost heard_left = self.conversation@;
        let ghost after_left = self@;
        let right_value = match self.evaluate(right) {
            Ok(v) => v,
            Err(e) => {
                proof {
                    assert forall|host: Seq<Exchange>| self.heard(host) implies self.realizes(
                        Err(e),
                        #[trigger] semantics::visit_binary(host, left@, operator@, right@, start),
                    ) by {
                        semantics::lemma_extends(host, self.conversation@, heard_left);
                        assert(semantics::evaluate(host, left@, start) == Some(
                            Step { result: Ok(left_value@), state: after_left },
                        ));
                        assert(self.realizes(Err(e), semantics::evaluate(host, right@, after_left)));
                    }
                }
                return Err(e);
            },
        };
        let ghost heard_right = self.conversation@;
        let ghost after_right = self@;
        let ghost a = left_value@;
        let ghost b = right_value@;
        let r = self.binary_operation(operator, left_value, right_value);
        proof {
            assert forall|host: Seq<Exchange>| self.heard(host) implies self.realizes(
                r,
                #[trigger] semantics::visit_binary(host, left@, operator@, right@, start),
            ) by {
                semantics::lemma_extends(host, self.conversation@, heard_right);
                semantics::lemma_extends(host, heard_right, heard_left);
                assert(semantics::evaluate(host, left@, start) == Some(
                    Step { result: Ok(a), state: after_left },
                ));
                assert(semantics::evaluate(host, right@, after_left) == Some(
                    Step { result: Ok(b), state: after_right },
                ));
                assert(self.realizes(
                    r,
                    semantics::binary_value(host, operator@, a, b, after_right),
                ));
            }
        }
        r
    }

    fn visit_grouping(&mut self, expression: &'a Expr) -> (r: Result<Value<'a>, ControlFlow<'a>>)
        requires
            old(self).wf(),
        ensures
            final(self).proceeds(*old(self)),
            forall|host: Seq<Exchange>|
                final(self).heard(host) ==> final(self).realizes(
                    r,
                    semantics::kept(
                        #[trigger] semantics::evaluate(host, expression@, old(self)@),
                        old(self)@,
                    ),
                ),
        decreases old(self).fuel, 6nat,
    {
        self.evaluate(expression)
    }

    fn visit_unary(&mut self, operator: &'a Token, right: &'a Expr) -> (r: Result<
        Value<'a>,
        ControlFlow<'a>,
    >)
        requires
            old(self).wf(),
        ensures
            final(self).proceeds(*old(self)),
            forall|host: Seq<Exchange>|
                final(self).heard(host) ==> final(self).realizes(
                    r,
                    #[trigger] semantics::visit_unary(host, operator@, right@, old(self)@),
                ),
        decreases old(self).fuel, 6nat,
    {
        let ghost start = self@;
        let right_value = match self.evaluate(right) {
            Ok(v) => v,
            Err(e) => {
                proof {
                    assert forall|host: Seq<Exchange>| self.heard(host) implies self.realizes(
                        Err(e),
                        #[trigger] semantics::visit_unary(host, operator@, right@, start),
                    ) by {
                        assert(self.realizes(Err(e), semantics::evaluate(host, right@, start)));
                    }
                }
                return Err(e);
            },
        };
        let ghost heard_right = self.conversation@;
        let ghost after_right = self@;
        let ghost v = right_value@;
        let r = self.unary_operation(operator, right_value);
        proof {
            assert forall|host: Seq<Exchange>| self.heard(host) implies self.realizes(
                r,
                #[trigger] semantics::visit_unary(host, operator@, right@, start),
            ) by {
                semantics::lemma_extends(host, self.conversation@, heard_right);
                assert(semantics::evaluate(host, right@, start) == Some(
                    Step { result: Ok(v), state: after_right },
                ));
                assert(self.realizes(r, semantics::unary_value(host, operator@, v, after_right)));
            }
        }
        r
    }

    fn lookup_variable(&mut self, name: &Token, depth: Depth) -> (r: Result<
        Value<'a>,
        ControlFlow<'a>,
    >)
        requires
            old(self).wf(),
        ensures
            *final(self) == *old(self),
            outcome_view(r) == semantics::variable_value(old(self)@, name@, depth),
    {
        match depth {
            Depth::Unresolved => self.scopes.get(self.globals, name.lexeme.as_str(), name.line),
            Depth::Resolved(distance) => self.scopes.get_at(
                self.environment,
                distance,
                name.lexeme.as_str(),
                name.line,
            ),
        }
    }

    fn assign_variable(&mut self, name: &'a Token, value_expr: &'a Expr, depth: Depth) -> (r:
        Result<Value<'a>, ControlFlow<'a>>)
        requires
            old(self).wf(),
        ensures
            final(self).proceeds(*old(self)),
            forall|host: Seq<Exchange>|
                final(self).heard(host) ==> final(self).realizes(
                    r,
                    #[trigger] semantics::assign_variable(
                        host,
                        name@,
                        value_expr@,
                        depth,
                        old(self)@,
                    ),
                ),
        decreases old(self).fuel, 6nat,
    {
        let ghost start = self@;
        let evaluated_value = match self.evaluate(value_expr) {
            Ok(v) => v,
            Err(e) => {
                proof {
                    assert forall|host: Seq<Exchange>| self.heard(host) implies self.realizes(
                        Err(e),
                        #[trigger] semantics::assign_variable(
                            host,
                            name@,
                            value_expr@,
                            depth,
                            start,
                        ),
                    ) by {
                        assert(self.realizes(Err(e), semantics::evaluate(host, value_expr@, start)));
                    }
                }
                return Err(e);
            },
        };
        let ghost after_value = self@;
        let assigned = match depth {
            Depth::Unresolved => self.scopes.assign(
                self.globals,
                name.lexeme.as_str(),
                evaluated_value.clone(),
                name.line,
            ),
            Depth::Resolved(distance) => self.scopes.assign_at(
                self.environment,
                distance,
                name.lexeme.as_str(),
                evaluated_value.clone(),
                name.line,
            ),
        };
        let r = match assigned {
            Ok(_) => Ok(evaluated_value),
            Err(e) => Err(e),
        };
        proof {
            assert forall|host: Seq<Exchange>| self.heard(host) implies self.realizes(
                r,
                #[trigger] semantics::assign_variable(host, name@, value_expr@, depth, start),
            ) by {
                assert(semantics::evaluate(host, value_expr@, start) == Some(
                    Step { result: Ok(evaluated_value@), state: after_value },
                ));
            }
        }
        r
    }

    /// Evaluates `left and right` (`conjunction`) or `left or right`.
    fn logic(&mut self, conjunction: bool, left: &'a Expr, right: &'a Expr) -> (r: Result<
        Value<'a>,
        ControlFlow<'a>,
    >)
        requires
            old(self).wf(),
        ensures
            final(self).proceeds(*old(self)),
            forall|host: Seq<Exchange>|
                final(self).heard(host) ==> final(self).realizes(
                    r,
                    #[trigger] semantics::logic(host, conjunction, left@, right@, old(self)@),
                ),
        decreases old(self).fuel, 5nat,
    {
        let ghost start = self@;
        let left_value = match self.evaluate(left) {
            Ok(v) => v,
            Err(e) => {
                proof {
                    assert forall|host: Seq<Exchange>| self.heard(host) implies self.realizes(
                        Err(e),
                        #[trigger] semantics::logic(host, conjunction, left@, right@, start),
                    ) by {
                        assert(self.realizes(Err(e), semantics::evaluate(host, left@, start)));
                    }
                }
                return Err(e);
            },
        };
        let ghost heard_left = self.conversation@;
        let ghost after_left = self@;
        let ghost a = left_value@;
        if left_value.is_truthy() != conjunction {
            proof {
                assert forall|host: Seq<Exchange>| self.heard(host) implies self.realizes(
                    Ok(left_value),
                    #[trigger] semantics::logic(host, conjunction, left@, right@, start),
                ) by {
                    assert(self.realizes(Ok(left_value), semantics::evaluate(host, left@, start)));
                }
            }
            Ok(left_value)
        } else {
            let r = self.evaluate(right);
            proof {
                assert forall|host: Seq<Exchange>| self.heard(host) implies self.realizes(
                    r,
                    #[trigger] semantics::logic(host, conjunction, left@, right@, start),
                ) by {
                    semantics::lemma_extends(host, self.conversation@, heard_left);
                    assert(semantics::evaluate(host, left@, start) == Some(
                        Step { result: Ok(a), state: after_left },
                    ));
                    assert(self.realizes(r, semantics::evaluate(host, right@, after_left)));
                }
            }
            r
        }
    }

    fn logic_or(&mut self, left: &'a Expr, right: &'a Expr) -> (r: Result<
        Value<'a>,
        ControlFlow<'a>,
    >)
        requires
            old(self).wf(),
        ensures
            final(self).proceeds(*old(self)),
            forall|host: Seq<Exchange>|
                final(self).heard(host) ==> final(self).realizes(
                    r,
                    #[trigger] semantics::logic(host, false, left@, right@, old(self)@),
                ),
        decreases old(self).fuel, 6nat,
    {
        self.logic(false, left, right)
    }

    fn logic_and(&mut self, left: &'a Expr, right: &'a Expr) -> (r: Result<
        Value<'a>,
        ControlFlow<'a>,
    >)
        requires
            old(self).wf(),
        ensures
            final(self).proceeds(*old(self)),
            forall|host: Seq<Exchange>|
                final(self).heard(host) ==> final(self).realizes(
                    r,
                    #[trigger] semantics::logic(host, true, left@, right@, old(self)@),
                ),
        decreases old(self).fuel, 6nat,
    {
        self.logic(true, left, right)
    }

    /// The error for a call with the wrong number of arguments.
    pub(crate) fn arity_error(paren: Option<&Token>, expected: usize, got: usize) -> (r:
        ControlFlow<'a>)
        ensures
            r@ == match paren {
                Some(token) => semantics::error_at(
                    token@,
                    semantics::arity_message(expected as nat, got as nat),
                ),
                None => semantics::failure(
                    0,
                    semantics::arity_message(expected as nat, got as nat),
                ),
            },
    {
        let mut message = String::new();
        push_text(&mut message, "Expected ");
        push_decimal(&mut message, expected as u64);
        push_text(&mut message, " arguments but got ");
        push_decimal(&mut message, got as u64);
        push_text(&mut message, ".");
        assert(message@ =~= semantics::arity_message(expected as nat, got as nat));
        match paren {
            Some(token) => self::error(token, message.as_str()),
            None => failure(0, message.as_str()),
        }
    }

    /// Evaluates the arguments of a call, left to right.
    fn evaluate_arguments(&mut self, arguments: &'a Vec<Expr>) -> (r: Result<
        Vec<Value<'a>>,
        ControlFlow<'a>,
    >)
        requires
            old(self).wf(),
        ensures
            final(self).proceeds(*old(self)),
            r matches Ok(values) ==> values@.len() == arguments@.len(),
            forall|host: Seq<Exchange>|
                final(self).heard(host) ==> #[trigger] semantics::evaluate_arguments(
                    host,
                    expr_views(arguments@),
                    0,
                    old(self)@,
                ) == Some(
                    Step {
                        result: match r {
                            Ok(_) => Ok(ValueView::Nil),
                            Err(e) => Err(e@),
                        },
                        state: final(self)@,
                    },
                ),
            forall|host: Seq<Exchange>|
                final(self).heard(host) && r is Ok ==> #[trigger] semantics::evaluated(
                    host,
                    expr_views(arguments@),
                    0,
                    old(self)@,
                ) == value_views(r->Ok_0@),
        decreases old(self).fuel, 1nat,
    {
        let ghost items = expr_views(arguments@);
        let ghost start = self@;
        let mut arg_values: Vec<Value<'a>> = Vec::new();
        let mut i: usize = 0;
        proof {
            assert(value_views(arg_values@) =~= Seq::<ValueView>::empty());
            assert forall|host: Seq<Exchange>| self.heard(host) implies #[trigger] semantics::evaluated(
                host,
                items,
                0,
                start,
            ) == value_views(arg_values@) + semantics::evaluated(host, items, 0, self@) by {
                assert(value_views(arg_values@) + semantics::evaluated(host, items, 0, self@)
                    =~= semantics::evaluated(host, items, 0, self@));
            }
        }
        while i < arguments.len()
            invariant
                self.proceeds(*old(self)),
                i <= arguments.len(),
                arg_values.len() == i,
                items == expr_views(arguments@),
                start == old(self)@,
                forall|host: Seq<Exchange>|
                    self.heard(host) ==> #[trigger] semantics::evaluate_arguments(
                        host,
                        items,
                        0,
                        start,
                    ) == semantics::evaluate_arguments(host, items, i as int, self@),
                forall|host: Seq<Exchange>|
                    self.heard(host) ==> #[trigger] semantics::evaluated(host, items, 0, start)
                        == value_views(arg_values@) + semantics::evaluated(
                        host,
                        items,
                        i as int,
                        self@,
                    ),
            decreases arguments.len() - i,
        {
            let ghost so_far = value_views(arg_values@);
            let ghost here = self@;
            let ghost heard_here = self.conversation@;
            let arg_value = match self.evaluate(&arguments[i]) {
                Ok(v) => v,
                Err(e) => {
                    proof {
                        assert forall|host: Seq<Exchange>| self.heard(host) implies #[trigger] semantics::evaluate_arguments(
                            host,
                            items,
                            0,
                            start,
                        ) == Some(Step { result: Err(e@), state: self@ }) by {
                            semantics::lemma_extends(host, self.conversation@, heard_here);
                            assert(self.realizes(
                                Err(e),
                                semantics::evaluate(host, items[i as int], here),
                            ));
                            assert(semantics::evaluate_arguments(host, items, i as int, here)
                                == Some(Step { result: Err(e@), state: self@ }));
                        }
                    }
                    return Err(e);
                },
            };
            arg_values.push(arg_value);
            proof {
                assert(value_views(arg_values@) =~= so_far.push(arg_value@));
                assert forall|host: Seq<Exchange>| self.heard(host) implies #[trigger] semantics::evaluate_arguments(
                    host,
                    items,
                    0,
                    start,
                ) == semantics::evaluate_arguments(host, items, i + 1, self@) by {
                    semantics::lemma_extends(host, self.conversation@, heard_here);
                    assert(self.realizes(
                        Ok(arg_value),
                        semantics::evaluate(host, items[i as int], here),
                    ));
                    assert(semantics::evaluate_arguments(host, items, i as int, here)
                        == semantics::evaluate_arguments(host, items, i + 1, self@));
                }
                assert forall|host: Seq<Exchange>| self.heard(host) implies #[trigger] semantics::evaluated(
                    host,
                    items,
                    0,
                    start,
                ) == value_views(arg_values@) + semantics::evaluated(
                    host,
                    items,
                    i + 1,
                    self@,
                ) by {
                    semantics::lemma_extends(host, self.conversation@, heard_here);
                    assert(self.realizes(
                        Ok(arg_value),
                        semantics::evaluate(host, items[i as int], here),
                    ));
                    let rest = semantics::evaluated(host, items, i + 1, self@);
                    assert(semantics::evaluated(host, items, i as int, here) == seq![
                        arg_value@,
                    ] + rest);
                    assert(so_far.push(arg_value@) + rest =~= so_far + (seq![arg_value@] + rest));
                }
            }
            i = i + 1;
        }
        proof {
            assert forall|host: Seq<Exchange>| self.heard(host) implies #[trigger] semantics::evaluated(
                host,
                items,
                0,
                start,
            ) == value_views(arg_values@) by {
                assert(semantics::evaluated(host, items, i as int, self@) =~= Seq::<
                    ValueView,
                >::empty());
                assert(value_views(arg_values@) + Seq::<ValueView>::empty() =~= value_views(
                    arg_values@,
                ));
            }
        }
        Ok(arg_values)
    }

    #[verifier::rlimit(50)]
    fn call_expr(&mut self, callee: &'a Expr, paren: &'a Token, arguments: &'a Vec<Expr>) -> (r:
        Result<Value<'a>, ControlFlow<'a>>)
        requires
            old(self).wf(),
        ensures
            final(self).proceeds(*old(self)),
            forall|host: Seq<Exchange>|
                final(self).heard(host) ==> final(self).realizes(
                    r,
                    #[trigger] semantics::call_expr(
                        host,
                        callee@,
                        paren@,
                        expr_views(arguments@),
                        old(self)@,
                    ),
                ),
        decreases old(self).fuel, 6nat,
    {
        let ghost start = self@;
        let ghost items = expr_views(arguments@);
        let target = match self.evaluate(callee) {
            Ok(v) => v,
            Err(e) => {
                proof {
                    assert forall|host: Seq<Exchange>| self.heard(host) implies self.realizes(
                        Err(e),
                        #[trigger] semantics::call_expr(host, callee@, paren@, items, start),
                    ) by {
                        assert(self.realizes(Err(e), semantics::evaluate(host, callee@, start)));
                    }
                }
                return Err(e);
            },
        };
        let ghost heard_callee = self.conversation@;
        let ghost after_callee = self@;
        let ghost found = target@;
        let function = match target {
            Value::Callable(c) => c,
            _ => {
                let refused = self::error(paren, "Can only call functions and classes.");
                proof {
                    assert forall|host: Seq<Exchange>| self.heard(host) implies self.realizes(
                        Err(refused),
                        #[trigger] semantics::call_expr(host, callee@, paren@, items, start),
                    ) by {
                        assert(semantics::evaluate(host, callee@, start) == Some(
                            Step { result: Ok(found), state: after_callee },
                        ));
                    }
                }
                return Err(refused);
            },
        };
        let arg_values = match self.evaluate_arguments(arguments) {
            Ok(values) => values,
            Err(e) => {
                proof {
                    assert forall|host: Seq<Exchange>| self.heard(host) implies self.realizes(
                        Err(e),
                        #[trigger] semantics::call_expr(host, callee@, paren@, items, start),
                    ) by {
                        semantics::lemma_extends(host, self.conversation@, heard_callee);
                        assert(semantics::evaluate(host, callee@, start) == Some(
                            Step { result: Ok(found), state: after_callee },
                        ));
                        assert(semantics::evaluate_arguments(host, items, 0, after_callee) == Some(
                            Step { result: Err(e@), state: self@ },
                        ));
                    }
                }
                return Err(e);
            },
        };
        let ghost heard_arguments = self.conversation@;
        let ghost after_arguments = self@;
        let ghost values = value_views(arg_values@);
        if arg_values.len() != function.arity() {
            let refused = Self::arity_error(Some(paren), function.arity(), arg_values.len());
            proof {
                assert forall|host: Seq<Exchange>| self.heard(host) implies self.realizes(
                    Err(refused),
                    #[trigger] semantics::call_expr(host, callee@, paren@, items, start),
                ) by {
                    semantics::lemma_extends(host, self.conversation@, heard_callee);
                    assert(semantics::evaluate(host, callee@, start) == Some(
                        Step { result: Ok(found), state: after_callee },
                    ));
                    assert(semantics::evaluate_arguments(host, items, 0, after_callee) == Some(
                        Step { result: Ok(ValueView::Nil), state: after_arguments },
                    ));
                }
            }
            return Err(refused);
        }
        let r = self.invoke(function, arg_values);
        proof {
            assert forall|host: Seq<Exchange>| self.heard(host) implies self.realizes(
                r,
                #[trigger] semantics::call_expr(host, callee@, paren@, items, start),
            ) by {
                semantics::lemma_extends(host, self.conversation@, heard_arguments);
                semantics::lemma_extends(host, heard_arguments, heard_callee);
                assert(semantics::evaluate(host, callee@, start) == Some(
                    Step { result: Ok(found), state: after_callee },
                ));
                assert(semantics::evaluate_arguments(host, items, 0, after_callee) == Some(
                    Step { result: Ok(ValueView::Nil), state: after_arguments },
                ));
                assert(semantics::evaluated(host, items, 0, after_callee) == values);
                assert(self.realizes(
                    r,
                    semantics::invoke(host, function@, values, after_arguments),
                ));
            }
        }
        r
    }

    /// Calls a callable with the given arguments.
    fn invoke(&mut self, callable: Callable<'a>, arguments: Vec<Value<'a>>) -> (r: Result<
        Value<'a>,
        ControlFlow<'a>,
    >)
        requires
            old(self).wf(),
        ensures
            final(self).proceeds(*old(self)),
            forall|host: Seq<Exchange>|
                final(self).heard(host) ==> final(self).realizes(
                    r,
                    #[trigger] semantics::invoke(
                        host,
                        callable@,
                        value_views(arguments@),
                        old(self)@,
                    ),
                ),
        decreases old(self).fuel, 5nat,
    {
        let ghost start = self@;
        let ghost values = value_views(arguments@);
        match callable {
            Callable::Function(f) => {
                let r = f.call(self, arguments);
                proof {
                    assert forall|host: Seq<Exchange>| self.heard(host) implies self.realizes(
                        r,
                        #[trigger] semantics::invoke(host, callable@, values, start),
                    ) by {
                        assert(self.realizes(
                            r,
                            semantics::call_function(host, f@, values, start),
                        ));
                    }
                }
                r
            },
            Callable::Clock(_) => Ok(Value::Float(self.ask_clock())),
        }
    }

    fn lambda_expression(&mut self, params: &'a Vec<Token>, body: &'a Vec<Statement>) -> (r: Result<
        Value<'a>,
        ControlFlow<'a>,
    >)
        ensures
            *final(self) == *old(self),
            outcome_view(r) == Ok::<ValueView, Signal>(
                semantics::closure(
                    old(self)@,
                    crate::runtime::function::lambda_name(),
                    token_views(params@),
                    statement_views(body@),
                ),
            ),
    {
        Ok(
            Value::Callable(
                Callable::Function(Function::new("<lambda>", params, body, self.environment)),
            ),
        )
    }
}

} // verus!
