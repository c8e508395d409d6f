use dexian_lend::decimal::Decimal;
use dexian_lend::error::LendError;
use dexian_lend::interest::{DefInterestModel, InterestModel};

const UNIT: i128 = 1_000_000_000_000_000_000;

fn d(units: i128) -> Decimal {
    Decimal { attos: units * UNIT }
}

fn milli(m: i128) -> Decimal {
    Decimal { attos: m * (UNIT / 1000) }
}

fn model() -> DefInterestModel {
    DefInterestModel::new(milli(200), milli(500), milli(550), milli(450))
}

#[test]
fn default_curve_boundaries() {
    let m = model();
    assert_eq!(m.get_variable_interest_rate(d(0), InterestModel::Default), Ok(d(0)));
    assert_eq!(m.get_variable_interest_rate(d(1), InterestModel::Default), Ok(milli(700)));
    assert_eq!(m.get_variable_interest_rate(d(2), InterestModel::Default), Ok(milli(700)));
}

#[test]
fn default_curve_half_utilization() {
    // 0.2 * 0.5 + 0.5 * 0.25
    let m = model();
    assert_eq!(m.get_variable_interest_rate(milli(500), InterestModel::Default), Ok(milli(225)));
}

#[test]
fn stable_coin_curve() {
    let m = model();
    assert_eq!(m.get_variable_interest_rate(d(1), InterestModel::StableCoin), Ok(d(1)));
    assert_eq!(m.get_variable_interest_rate(d(3), InterestModel::StableCoin), Ok(d(1)));
    // x = 0.25: 0.55 * 0.0625 + 0.45 * 0.00390625
    assert_eq!(
        m.get_variable_interest_rate(milli(500), InterestModel::StableCoin),
        Ok(Decimal { attos: 36_132_812_500_000_000 })
    );
    assert_eq!(m.get_variable_interest_rate(d(0), InterestModel::StableCoin), Ok(d(0)));
}

#[test]
fn stable_rate_is_floored_by_validator_yield() {
    let m = model();
    assert_eq!(
        m.get_stable_interest_rate(milli(500), d(0), InterestModel::Default, milli(300)),
        Ok(milli(300))
    );
    assert_eq!(
        m.get_stable_interest_rate(milli(500), d(0), InterestModel::Default, milli(100)),
        Ok(milli(225))
    );
}

#[test]
fn curve_overflow_is_reported() {
    let m = DefInterestModel::new(Decimal { attos: i128::MAX }, d(1), d(0), d(0));
    assert_eq!(
        m.get_variable_interest_rate(d(2), InterestModel::Default),
        Err(LendError::ArithmeticOverflow)
    );
}
