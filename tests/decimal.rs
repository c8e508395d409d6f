use dexian_lend::decimal::Decimal;
use dexian_lend::utils::{assert_amount, assert_resource, assert_vault_amount, ceil, floor};
use dexian_lend::address::Address;
use dexian_lend::error::LendError;

const UNIT: i128 = 1_000_000_000_000_000_000;

fn d(units: i128) -> Decimal {
    Decimal { attos: units * UNIT }
}

fn milli(m: i128) -> Decimal {
    Decimal { attos: m * (UNIT / 1000) }
}

#[test]
fn mul_is_fixed_point_product() {
    assert_eq!(milli(1500).checked_mul(&d(2)), Some(d(3)));
    assert_eq!(milli(100).checked_mul(&milli(100)), Some(milli(10)));
    let tiny = Decimal { attos: 1 };
    assert_eq!(tiny.checked_mul(&tiny), Some(Decimal { attos: 0 }));
}

#[test]
fn div_truncates_toward_zero() {
    assert_eq!(d(1).checked_div(&d(3)), Some(Decimal { attos: 333_333_333_333_333_333 }));
    assert_eq!(d(-1).checked_div(&d(3)), Some(Decimal { attos: -333_333_333_333_333_333 }));
    assert_eq!(d(2).checked_div(&d(3)), Some(Decimal { attos: 666_666_666_666_666_666 }));
}

#[test]
fn div_by_zero_is_none() {
    assert_eq!(d(1).checked_div(&d(0)), None);
}

#[test]
fn overflow_is_none() {
    let big = Decimal { attos: i128::MAX };
    assert_eq!(big.checked_add(&Decimal { attos: 1 }), None);
    assert_eq!(big.checked_mul(&d(2)), None);
    assert_eq!(Decimal { attos: i128::MIN }.checked_sub(&Decimal { attos: 1 }), None);
}

#[test]
fn powi_squares_and_fourth_powers() {
    assert_eq!(milli(500).checked_powi(2), Some(milli(250)));
    assert_eq!(milli(500).checked_powi(4), Some(Decimal { attos: 62_500_000_000_000_000 }));
    assert_eq!(d(3).checked_powi(4), Some(d(81)));
}

#[test]
fn from_u64_is_whole_units() {
    assert_eq!(Decimal::from_u64(15017), d(15017));
    assert_eq!(Decimal::one(), d(1));
    assert!(Decimal::zero().is_zero());
}

#[test]
fn rounding_keeps_every_place() {
    let x = Decimal { attos: 1_234_567_890_123_456_789 };
    assert_eq!(ceil(x), x);
    assert_eq!(floor(x), x);
    assert_eq!(floor(Decimal { attos: -7 }), Decimal { attos: -7 });
}

#[test]
fn resource_check() {
    let a = Address { high: 1, low: 2 };
    let b = Address { high: 1, low: 3 };
    assert_eq!(assert_resource(&a, &a), Ok(()));
    assert_eq!(assert_resource(&a, &b), Err(LendError::WrongAsset));
}

#[test]
fn vault_check() {
    assert_eq!(assert_vault_amount(d(10), d(10)), Ok(()));
    assert_eq!(assert_vault_amount(d(10), d(11)), Err(LendError::InsufficientLiquidity));
    assert_eq!(assert_vault_amount(d(0), d(0)), Ok(()));
}

#[test]
fn amount_check() {
    assert_eq!(assert_amount(d(2), d(2)), Ok(()));
    assert_eq!(assert_amount(d(3), d(2)), Ok(()));
    assert_eq!(assert_amount(d(1), d(2)), Err(LendError::InvalidState));
}
