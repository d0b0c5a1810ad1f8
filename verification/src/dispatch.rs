//! The errors a dispatched call can end with.

use vstd::prelude::*;

verus! {

#[derive(Clone, Copy, Debug, PartialEq, Eq)]
pub enum ArithmeticError {
    Underflow,
    Overflow,
    DivisionByZero,
}

#[derive(Clone, Copy, Debug, PartialEq, Eq)]
pub enum DispatchError {
    /// Some error with a message.
    Other(&'static str),
    /// The origin is not allowed to make the call.
    BadOrigin,
    /// An arithmetic error.
    Arithmetic(ArithmeticError),
    /// An error of a pallet, by the pallet's index and the error's index.
    Module { index: u8, error: u8 },
}

} // verus!
