use vstd::prelude::*;

verus! {

/// A 30-byte ledger address (of a resource or a component), held as two integers:
/// `high` carries the first 14 bytes and `low` the last 16, both big-endian.
#[derive(Clone, Copy, Debug, PartialEq, Eq, Structural)]
pub struct Address {
    pub high: u128,
    pub low: u128,
}

/// A quantity of one resource, as handed to or returned by an operation.
#[derive(Clone, Copy, Debug, PartialEq, Eq, Structural)]
pub struct Tokens {
    pub resource: Address,
    pub amount: crate::decimal::Decimal,
}

} // verus!
