use vstd::prelude::*;

verus! {

/// Why an operation was refused. Every refusal leaves the state it was given untouched.
#[derive(Clone, Copy, Debug, PartialEq, Eq, Structural)]
pub enum LendError {
    /// The tokens handed in are not of the resource the operation expects.
    WrongAsset,
    /// The vault holds less than the operation would take out of it.
    InsufficientLiquidity,
    /// A fixed-point operation overflowed or divided by zero.
    ArithmeticOverflow,
    /// The operation does not apply to the current state.
    InvalidState,
}

} // verus!
