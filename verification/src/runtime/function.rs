//! Callable values: user-defined functions and the built-in clock.

use vstd::prelude::*;
use crate::ast::statement::{statement_views, Statement, StatementView};
use crate::lexer::scanner::token_views;
use crate::lexer::token::{Token, TokenView};
use crate::text::push_text;

verus! {

/// A handle to one scope of an [`crate::runtime::environment::Environment`].
pub type EnvRef = usize;

/// A user-defined function: its declaration and the scope it was created in.
#[derive(Debug, Clone, Copy)]
pub struct Function<'a> {
    pub name: &'a str,
    pub params: &'a Vec<Token>,
    pub body: &'a Vec<Statement>,
    /// The scope that was current when the function value was created.
    pub closure: EnvRef,
}

/// The mathematical content of a [`Function`].
pub struct FunctionView {
    pub name: Seq<char>,
    pub params: Seq<TokenView>,
    pub body: Seq<StatementView>,
    pub closure: nat,
}

impl<'a> View for Function<'a> {
    type V = FunctionView;

    open spec fn view(&self) -> FunctionView {
        FunctionView {
            name: self.name@,
            params: token_views(self.params@),
            body: statement_views(self.body@),
            closure: self.closure as nat,
        }
    }
}

/// The name under which a function expression without a name goes.
pub open spec fn lambda_name() -> Seq<char> {
    "<lambda>"@
}

impl FunctionView {
    /// The function that the declaration `statement` makes in the scope
    /// `closure`, if `statement` declares a function.
    pub open spec fn declared(statement: StatementView, closure: nat) -> Option<FunctionView> {
        match statement {
            StatementView::Function { name, params, body } => Some(
                FunctionView { name: name.lexeme, params, body, closure },
            ),
            _ => None,
        }
    }

    /// The number of arguments the function takes.
    pub open spec fn arity(self) -> nat {
        self.params.len()
    }

    /// The display form of the function.
    pub open spec fn display(self) -> Seq<char> {
        "<fn "@ + self.name + ">"@
    }
}

impl<'a> Function<'a> {
    /// The function with the given parts.
    pub fn new(
        name: &'a str,
        params: &'a Vec<Token>,
        body: &'a Vec<Statement>,
        closure: EnvRef,
    ) -> (r: Self)
        ensures
            r@ == (FunctionView {
                name: name@,
                params: token_views(params@),
                body: statement_views(body@),
                closure: closure as nat,
            }),
    {
        Function { name, params, body, closure }
    }

    /// The function that a function declaration makes in the scope
    /// `closure`; nothing for any other statement.
    pub fn from_statement(stmt: &'a Statement, closure: EnvRef) -> (r: Option<Self>)
        ensures
            match r {
                Some(f) => FunctionView::declared(stmt@, closure as nat) == Some(f@),
                None => FunctionView::declared(stmt@, closure as nat).is_none(),
            },
    {
        match stmt {
            Statement::Function { name, params, body } => {
                proof {
                    crate::ast::statement::lemma_statement_view_lists(*stmt);
                }
                Some(Function { name: name.lexeme.as_str(), params, body, closure })
            },
            _ => None,
        }
    }

    /// The number of arguments the function takes.
    pub fn arity(&self) -> (r: usize)
        ensures
            r == self@.arity(),
    {
        self.params.len()
    }

    /// The name the function was declared under.
    pub fn name(&self) -> (r: &'a str)
        ensures
            r@ == self@.name,
    {
        self.name
    }

    /// The function as text, `<fn name>`.
    pub fn to_string(&self) -> (r: String)
        ensures
            r@ == self@.display(),
    {
        let mut out = String::new();
        push_text(&mut out, "<fn ");
        push_text(&mut out, self.name);
        push_text(&mut out, ">");
        assert(out@ =~= self@.display());
        out
    }
}

/// The built-in function that tells the time: the seconds since the Unix
/// epoch, as a floating-point number.
#[derive(Debug, Clone, Copy, PartialEq, Eq, Structural)]
pub struct Clock;

impl Clock {
    /// The clock takes no argument.
    pub fn arity(&self) -> (r: usize)
        ensures
            r == 0,
    {
        0
    }

    /// The name the clock is bound to in the global scope.
    pub fn name(&self) -> (r: &'static str)
        ensures
            r@ == "clock"@,
    {
        "clock"
    }

    /// The clock as text.
    pub fn to_string(&self) -> (r: String)
        ensures
            r@ == "<native fn clock>"@,
    {
        let mut out = String::new();
        push_text(&mut out, "<native fn clock>");
        assert(out@ =~= "<native fn clock>"@);
        out
    }
}

/// Something that can be called: a user-defined function or a built-in one.
#[derive(Debug, Clone, Copy)]
pub enum Callable<'a> {
    Function(Function<'a>),
    Clock(Clock),
}

/// The mathematical content of a [`Callable`].
pub enum CallableView {
    Function(FunctionView),
    Clock,
}

impl<'a> View for Callable<'a> {
    type V = CallableView;

    open spec fn view(&self) -> CallableView {
        match self {
            Callable::Function(f) => CallableView::Function(f@),
            Callable::Clock(_) => CallableView::Clock,
        }
    }
}

impl CallableView {
    /// The number of arguments the callable takes.
    pub open spec fn arity(self) -> nat {
        match self {
            CallableView::Function(f) => f.arity(),
            CallableView::Clock => 0,
        }
    }

    /// The name of the callable.
    pub open spec fn name(self) -> Seq<char> {
        match self {
            CallableView::Function(f) => f.name,
            CallableView::Clock => "clock"@,
        }
    }
}

impl<'a> Callable<'a> {
    /// The number of arguments the callable takes.
    pub fn arity(&self) -> (r: usize)
        ensures
            r == self@.arity(),
    {
        match self {
            Callable::Function(f) => f.arity(),
            Callable::Clock(c) => c.arity(),
        }
    }

    /// The name of the callable.
    pub fn name(&self) -> (r: &'a str)
        ensures
            r@ == self@.name(),
    {
        match self {
            Callable::Function(f) => f.name(),
            Callable::Clock(c) => c.name(),
        }
    }
}

} // verus!
