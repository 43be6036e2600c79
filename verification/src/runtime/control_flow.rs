//! The two ways in which evaluation leaves its normal course.

use vstd::prelude::*;
use crate::runtime::runtime_error::{RuntimeError, RuntimeErrorView};
use crate::runtime::value::{Value, ValueView};

verus! {

/// A signal that unwinds evaluation: a `return`, which the nearest function
/// call catches, or a runtime error, which nothing catches.
#[derive(Debug)]
pub enum ControlFlow<'a> {
    Return(Value<'a>),
    RuntimeError(RuntimeError),
}

/// The mathematical content of a [`ControlFlow`].
pub enum Signal {
    Return(ValueView),
    RuntimeError(RuntimeErrorView),
}

impl<'a> View for ControlFlow<'a> {
    type V = Signal;

    open spec fn view(&self) -> Signal {
        match self {
            ControlFlow::Return(v) => Signal::Return(v@),
            ControlFlow::RuntimeError(e) => Signal::RuntimeError(e@),
        }
    }
}

/// The outcome of evaluating an expression or executing a statement.
pub type Outcome = Result<ValueView, Signal>;

/// The mathematical content of an executable outcome.
pub open spec fn outcome_view(r: Result<Value, ControlFlow>) -> Outcome {
    match r {
        Ok(v) => Ok(v@),
        Err(c) => Err(c@),
    }
}

} // verus!
