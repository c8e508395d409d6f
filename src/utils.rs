use vstd::prelude::*;
use crate::address::Address;
use crate::decimal::Decimal;
use crate::error::LendError;

verus! {

/// Direction of a rounding.
#[derive(Clone, Copy, Debug, PartialEq, Eq, Structural)]
pub enum Rounding {
    Up,
    Down,
}

/// Relies on scrypto's `Decimal::checked_round` at 18 decimal places: a decimal carries
/// exactly 18 places, so the remainder is zero and the value comes back unchanged.
#[verifier::external_body]
fn round_to_attos(attos: i128, mode: Rounding) -> (r: Option<i128>)
    ensures
        r == Some(attos),
{
    let d = scrypto::prelude::Decimal::from_attos(scrypto::prelude::I192::from(attos));
    let mode = match mode {
        Rounding::Up => scrypto::prelude::RoundingMode::ToPositiveInfinity,
        Rounding::Down => scrypto::prelude::RoundingMode::ToNegativeInfinity,
    };
    let rounded = d.checked_round(18, mode)?;
    i128::try_from(rounded.attos()).ok()
}

fn round(dec: Decimal, mode: Rounding) -> (r: Decimal)
    ensures
        r == dec,
{
    match round_to_attos(dec.attos, mode) {
        Some(v) => Decimal { attos: v },
        None => dec,
    }
}

/// `dec` rounded up to the finest representable place, which leaves it as it is.
pub fn ceil(dec: Decimal) -> (r: Decimal)
    ensures
        r == dec,
{
    round(dec, Rounding::Up)
}

/// `dec` rounded down to the finest representable place, which leaves it as it is.
pub fn floor(dec: Decimal) -> (r: Decimal)
    ensures
        r == dec,
{
    round(dec, Rounding::Down)
}

/// Refuses tokens of any resource but the expected one.
pub fn assert_resource(res_addr: &Address, expect_res_addr: &Address) -> (r: Result<(), LendError>)
    ensures
        r is Ok <==> *res_addr == *expect_res_addr,
        r is Err ==> r == Err::<(), LendError>(LendError::WrongAsset),
{
    if *res_addr == *expect_res_addr {
        Ok(())
    } else {
        Err(LendError::WrongAsset)
    }
}

/// Refuses when the vault holds less than `not_less_than`.
pub fn assert_vault_amount(vault_amount: Decimal, not_less_than: Decimal) -> (r: Result<
    (),
    LendError,
>)
    ensures
        r is Ok <==> vault_amount@ >= not_less_than@,
        r is Err ==> r == Err::<(), LendError>(LendError::InsufficientLiquidity),
{
    if not_less_than.le(&vault_amount) {
        Ok(())
    } else {
        Err(LendError::InsufficientLiquidity)
    }
}

/// Refuses when `v` lies below `not_less_than`.
pub fn assert_amount(v: Decimal, not_less_than: Decimal) -> (r: Result<(), LendError>)
    ensures
        r is Ok <==> v@ >= not_less_than@,
        r is Err ==> r == Err::<(), LendError>(LendError::InvalidState),
{
    if not_less_than.le(&v) {
        Ok(())
    } else {
        Err(LendError::InvalidState)
    }
}

} // verus!
