//! The arithmetic that the evaluator asks of its caller.
//!
//! The library carries numbers as binary64 bit patterns and computes nothing
//! on them but equality and order. Everything else on numbers is done by
//! three functions that the caller supplies in a [`Host`].

use vstd::prelude::*;
use crate::literals::MathOperators;

verus! {

/// The functions of one number.
#[derive(Debug, Clone, Copy, PartialEq, Eq, Structural)]
pub enum MathFunction {
    Sqrt,
    Sin,
    Cos,
    Tan,
    Abs,
    Log10,
    Floor,
    Ceil,
    Round,
}

/// A computation whose result is a number.
#[derive(Debug, Clone, Copy, PartialEq, Eq, Structural)]
pub enum Calculation {
    /// The operator applied to a left and a right operand.
    Arithmetic(MathOperators, u64, u64),
    /// The remainder of the first operand by the second, with the sign of
    /// the first.
    Remainder(u64, u64),
    /// The function applied to the operand.
    Function(MathFunction, u64),
    /// The number nearest to the integer.
    FromInteger(i64),
}

/// What the caller supplies: the calculations, the integer part of a number,
/// and the text of a number.
pub struct Host<C, T, R> {
    pub calculate: C,
    pub truncate: T,
    pub render: R,
}

/// The mathematical content of a host: what it answers to each question.
pub struct Numbers {
    pub calculate: spec_fn(Calculation) -> u64,
    pub truncate: spec_fn(u64) -> i64,
    pub render: spec_fn(u64) -> Seq<char>,
}

impl<C: Fn(Calculation) -> u64, T: Fn(u64) -> i64, R: Fn(u64) -> String> Host<C, T, R> {
    /// The host answers every question, and always the same to the same
    /// question.
    pub open spec fn well_formed(&self) -> bool {
        &&& forall|c: Calculation| call_requires(self.calculate, (c,))
        &&& forall|bits: u64| call_requires(self.truncate, (bits,))
        &&& forall|bits: u64| call_requires(self.render, (bits,))
        &&& forall|c: Calculation, a: u64, b: u64|
            call_ensures(self.calculate, (c,), a) && call_ensures(self.calculate, (c,), b) ==> a
                == b
        &&& forall|bits: u64, a: i64, b: i64|
            call_ensures(self.truncate, (bits,), a) && call_ensures(self.truncate, (bits,), b)
                ==> a == b
        &&& forall|bits: u64, a: String, b: String|
            call_ensures(self.render, (bits,), a) && call_ensures(self.render, (bits,), b)
                ==> a@ == b@
    }

    /// The answers of this host.
    pub open spec fn numbers(&self) -> Numbers {
        Numbers {
            calculate: |c: Calculation| choose|r: u64| call_ensures(self.calculate, (c,), r),
            truncate: |bits: u64| choose|r: i64| call_ensures(self.truncate, (bits,), r),
            render: |bits: u64| (choose|r: String| call_ensures(self.render, (bits,), r))@,
        }
    }

    /// Asks the host for a calculation.
    pub fn calculate(&self, c: Calculation) -> (r: u64)
        requires
            self.well_formed(),
        ensures
            call_ensures(self.calculate, (c,), r),
            r == (self.numbers().calculate)(c),
    {
        (self.calculate)(c)
    }

    /// Asks the host for the integer part of a number.
    pub fn truncate(&self, bits: u64) -> (r: i64)
        requires
            self.well_formed(),
        ensures
            call_ensures(self.truncate, (bits,), r),
            r == (self.numbers().truncate)(bits),
    {
        (self.truncate)(bits)
    }

    /// Asks the host for the text of a number.
    pub fn render(&self, bits: u64) -> (r: String)
        requires
            self.well_formed(),
        ensures
            call_ensures(self.render, (bits,), r),
            r@ == (self.numbers().render)(bits),
    {
        (self.render)(bits)
    }
}

} // verus!
