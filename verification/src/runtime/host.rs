//! What the interpreter asks of the program that embeds it: arithmetic on
//! floating-point numbers, which this library carries but never inspects, and
//! the wall clock.

use vstd::prelude::*;

verus! {

/// A floating-point number, carried as the bit pattern of an IEEE 754
/// double. The library never looks inside: every operation on it is the
/// host's.
#[derive(Debug, Clone, Copy, PartialEq, Eq, Structural)]
pub struct Float {
    pub bits: u64,
}

/// The four arithmetic operations.
#[derive(Debug, Clone, Copy, PartialEq, Eq, Structural)]
pub enum Arithmetic {
    Add,
    Subtract,
    Multiply,
    Divide,
}

/// How two floating-point numbers compare. A comparison with a NaN is
/// unordered.
#[derive(Debug, Clone, Copy, PartialEq, Eq, Structural)]
pub enum FloatOrder {
    Less,
    Equal,
    Greater,
    Unordered,
}

/// The capabilities the embedding program lends to the interpreter. Nothing
/// is assumed of an implementation: whatever it answers is carried through.
pub trait Host {
    /// The number that the numeral `numeral` denotes.
    fn float_from_numeral(&mut self, numeral: &str) -> Float;

    /// The number nearest to `value`.
    fn float_from_integer(&mut self, value: i64) -> Float;

    /// `left operation right`.
    fn float_arithmetic(&mut self, operation: Arithmetic, left: Float, right: Float) -> Float;

    /// `-value`.
    fn float_negate(&mut self, value: Float) -> Float;

    /// How `left` compares to `right`.
    fn float_compare(&mut self, left: Float, right: Float) -> FloatOrder;

    /// The number as text.
    fn float_to_string(&mut self, value: Float) -> String;

    /// The seconds elapsed since the Unix epoch.
    fn clock(&mut self) -> Float;
}

} // verus!
