//! Runtime values.

use vstd::prelude::*;
use crate::runtime::function::{Callable, CallableView};
use crate::runtime::host::Float;
use crate::text::{decimal_int, decimal_of_signed, push_text};

verus! {

/// A value of the language. Integers and floating-point numbers are distinct
/// kinds of number.
#[derive(Debug)]
pub enum Value<'a> {
    Callable(Callable<'a>),
    Integer(i64),
    Float(Float),
    Str(String),
    Bool(bool),
    Nil,
}

/// The mathematical content of a [`Value`].
pub enum ValueView {
    Callable(CallableView),
    Integer(int),
    Float(Float),
    Str(Seq<char>),
    Bool(bool),
    Nil,
}

impl<'a> View for Value<'a> {
    type V = ValueView;

    open spec fn view(&self) -> ValueView {
        match self {
            Value::Callable(c) => ValueView::Callable(c@),
            Value::Integer(i) => ValueView::Integer(*i as int),
            Value::Float(f) => ValueView::Float(*f),
            Value::Str(s) => ValueView::Str(s@),
            Value::Bool(b) => ValueView::Bool(*b),
            Value::Nil => ValueView::Nil,
        }
    }
}

impl<'a> Clone for Value<'a> {
    fn clone(&self) -> (r: Self)
        ensures
            r == *self,
    {
        match self {
            Value::Callable(c) => Value::Callable(*c),
            Value::Integer(i) => Value::Integer(*i),
            Value::Float(f) => Value::Float(*f),
            Value::Str(s) => Value::Str(s.clone()),
            Value::Bool(b) => Value::Bool(*b),
            Value::Nil => Value::Nil,
        }
    }
}

impl ValueView {
    /// Whether the value counts as true in a condition: everything but `nil`
    /// and `false` does.
    pub open spec fn is_truthy(self) -> bool {
        match self {
            ValueView::Nil => false,
            ValueView::Bool(b) => b,
            _ => true,
        }
    }

    /// Whether the value is a number of either kind.
    pub open spec fn is_number(self) -> bool {
        self is Integer || self is Float
    }

    /// The display form of a value that holds no floating-point number.
    pub open spec fn display(self) -> Seq<char>
        recommends
            !(self is Float),
    {
        match self {
            ValueView::Integer(i) => decimal_int(i),
            ValueView::Float(_) => Seq::empty(),
            ValueView::Str(s) => s,
            ValueView::Bool(b) => if b {
                "true"@
            } else {
                "false"@
            },
            ValueView::Nil => "nil"@,
            ValueView::Callable(c) => "<fn "@ + c.name() + ">"@,
        }
    }
}

impl<'a> Value<'a> {
    /// Whether the value counts as true in a condition.
    pub fn is_truthy(&self) -> (r: bool)
        ensures
            r == self@.is_truthy(),
    {
        match self {
            Value::Nil => false,
            Value::Bool(b) => *b,
            _ => true,
        }
    }

    /// The value as text, unless it is a floating-point number, whose text
    /// only the host can give.
    pub fn to_string(&self) -> (r: Option<String>)
        ensures
            match r {
                Some(s) => !(self@ is Float) && s@ == self@.display(),
                None => self@ is Float,
            },
    {
        match self {
            Value::Integer(i) => Some(decimal_of_signed(*i)),
            Value::Float(_) => None,
            Value::Str(s) => Some(s.clone()),
            Value::Bool(b) => {
                let mut out = String::new();
                if *b {
                    push_text(&mut out, "true");
                } else {
                    push_text(&mut out, "false");
                }
                assert(out@ =~= self@.display());
                Some(out)
            },
            Value::Nil => {
                let mut out = String::new();
                push_text(&mut out, "nil");
                assert(out@ =~= self@.display());
                Some(out)
            },
            Value::Callable(c) => {
                let mut out = String::new();
                push_text(&mut out, "<fn ");
                push_text(&mut out, c.name());
                push_text(&mut out, ">");
                assert(out@ =~= self@.display());
                Some(out)
            },
        }
    }
}

} // verus!
