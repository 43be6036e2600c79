//! Errors raised during evaluation.

use vstd::prelude::*;
use crate::text::{decimal_nat, push_decimal, push_text};

verus! {

/// An error raised during evaluation, tagged with the line it arose on.
#[derive(Debug, PartialEq, Eq)]
pub struct RuntimeError {
    pub line: usize,
    pub message: String,
}

/// The mathematical content of a [`RuntimeError`].
pub struct RuntimeErrorView {
    pub line: nat,
    pub message: Seq<char>,
}

impl View for RuntimeError {
    type V = RuntimeErrorView;

    open spec fn view(&self) -> RuntimeErrorView {
        RuntimeErrorView { line: self.line as nat, message: self.message@ }
    }
}

impl RuntimeErrorView {
    /// The diagnostic line of the error.
    pub open spec fn display(self) -> Seq<char> {
        "[line "@ + decimal_nat(self.line) + "] RuntimeError: "@ + self.message
    }
}

impl RuntimeError {
    /// An error on `line` with the given message.
    pub fn new(line: usize, message: String) -> (r: Self)
        ensures
            r.line == line,
            r.message == message,
    {
        RuntimeError { line, message }
    }

    /// The error as a diagnostic line, `[line <n>] RuntimeError: <message>`.
    pub fn to_string(&self) -> (r: String)
        ensures
            r@ == self@.display(),
    {
        let mut out = String::new();
        push_text(&mut out, "[line ");
        push_decimal(&mut out, self.line as u64);
        push_text(&mut out, "] RuntimeError: ");
        push_text(&mut out, self.message.as_str());
        assert(out@ =~= self@.display());
        out
    }
}

impl Clone for RuntimeError {
    fn clone(&self) -> (r: Self)
        ensures
            r == *self,
    {
        RuntimeError { line: self.line, message: self.message.clone() }
    }
}

} // verus!
