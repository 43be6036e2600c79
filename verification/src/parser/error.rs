//! Syntax errors.

use vstd::prelude::*;
use crate::text::{decimal_nat, push_decimal, push_text};

verus! {

/// A syntax or resolution error, tagged with the line it was found on.
#[derive(Debug, PartialEq, Eq)]
pub struct ParseError {
    pub line: usize,
    pub message: String,
}

/// The mathematical content of a [`ParseError`].
pub struct ParseErrorView {
    pub line: nat,
    pub message: Seq<char>,
}

impl View for ParseError {
    type V = ParseErrorView;

    open spec fn view(&self) -> ParseErrorView {
        ParseErrorView { line: self.line as nat, message: self.message@ }
    }
}

impl ParseErrorView {
    /// The diagnostic line of the error.
    pub open spec fn display(self) -> Seq<char> {
        "[line "@ + decimal_nat(self.line) + "] ParseError: "@ + self.message
    }
}

impl ParseError {
    /// An error on `line` with the given message.
    pub fn new(line: usize, message: String) -> (r: Self)
        ensures
            r.line == line,
            r.message == message,
    {
        ParseError { line, message }
    }

    /// The error as a diagnostic line, `[line <n>] ParseError: <message>`.
    pub fn to_string(&self) -> (r: String)
        ensures
            r@ == self@.display(),
    {
        let mut out = String::new();
        push_text(&mut out, "[line ");
        push_decimal(&mut out, self.line as u64);
        push_text(&mut out, "] ParseError: ");
        push_text(&mut out, self.message.as_str());
        assert(out@ =~= self@.display());
        out
    }
}

} // verus!
