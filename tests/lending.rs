use dexian_lend::address::{Address, Tokens};
use dexian_lend::decimal::Decimal;
use dexian_lend::error::LendError;
use dexian_lend::interest::{DefInterestModel, InterestModel};
use dexian_lend::lending::{LendResourcePool, EPOCH_OF_YEAR};

const UNIT: i128 = 1_000_000_000_000_000_000;

fn d(units: i128) -> Decimal {
    Decimal { attos: units * UNIT }
}

fn milli(m: i128) -> Decimal {
    Decimal { attos: m * (UNIT / 1000) }
}

fn underlying() -> Address {
    Address { high: 1, low: 1 }
}

fn share_token() -> Address {
    Address { high: 2, low: 2 }
}

fn tokens(resource: Address, amount: Decimal) -> Tokens {
    Tokens { resource, amount }
}

fn pool() -> LendResourcePool {
    let model = DefInterestModel::new(milli(200), milli(500), milli(550), milli(450));
    LendResourcePool::instantiate(underlying(), share_token(), model, InterestModel::Default, milli(100))
        .unwrap()
}

#[test]
fn instantiate_starts_at_unit_indices() {
    let p = pool();
    assert_eq!(p.get_current_index(0), Ok((d(1), d(1))));
    assert_eq!(p.get_available(), d(0));
    assert_eq!(p.get_last_update(), 0);
    assert_eq!(p.get_deposit_share_quantity(), d(0));
    assert_eq!(p.get_variable_share_quantity(), d(0));
    assert_eq!(p.get_loan_value(), d(0));
}

#[test]
fn instantiate_refuses_full_insurance() {
    let model = DefInterestModel::new(milli(200), milli(500), milli(550), milli(450));
    let r = LendResourcePool::instantiate(underlying(), share_token(), model, InterestModel::Default, d(1));
    assert_eq!(r, Err(LendError::InvalidState));
}

#[test]
fn deposit_mints_at_index() {
    let mut p = pool();
    assert_eq!(p.add_liquity(tokens(underlying(), d(100)), 0), Ok(d(100)));
    assert_eq!(p.get_available(), d(100));
    assert_eq!(p.get_deposit_share_quantity(), d(100));
}

#[test]
fn deposit_of_wrong_asset_is_refused() {
    let mut p = pool();
    let before = p;
    assert_eq!(p.add_liquity(tokens(share_token(), d(100)), 0), Err(LendError::WrongAsset));
    assert_eq!(p, before);
}

#[test]
fn borrow_variable_reprices() {
    let mut p = pool();
    p.add_liquity(tokens(underlying(), d(100)), 0).unwrap();
    assert_eq!(p.borrow_variable(d(50), 0), Ok(d(50)));
    assert_eq!(p.get_available(), d(50));
    assert_eq!(p.get_variable_share_quantity(), d(50));
    // utilization 0.5: variable 0.2*0.5 + 0.5*0.25; deposit 50 * 0.225 * 0.9 / 100
    assert_eq!(p.variable_loan_interest_rate, milli(225));
    assert_eq!(p.deposit_interest_rate, Decimal { attos: 101_250_000_000_000_000 });
}

#[test]
fn borrow_beyond_vault_fails_unchanged() {
    let mut p = pool();
    p.add_liquity(tokens(underlying(), d(100)), 0).unwrap();
    let before = p;
    assert_eq!(p.borrow_variable(d(200), 5), Err(LendError::InsufficientLiquidity));
    assert_eq!(p, before);
}

#[test]
fn one_year_of_accrual() {
    let mut p = pool();
    p.add_liquity(tokens(underlying(), d(100)), 0).unwrap();
    p.borrow_variable(d(50), 0).unwrap();
    let (deposit_index, loan_index) = p.get_current_index(EPOCH_OF_YEAR).unwrap();
    assert_eq!(deposit_index, Decimal { attos: 1_101_250_000_000_000_000 });
    assert_eq!(loan_index, Decimal { attos: 1_225_000_000_000_000_000 });
    p.add_liquity(tokens(underlying(), d(0)), EPOCH_OF_YEAR).unwrap();
    assert_eq!(p.deposit_index, deposit_index);
    assert_eq!(p.loan_index, loan_index);
    assert_eq!(p.get_last_update(), EPOCH_OF_YEAR);
    // 50 * 0.225 of variable interest, 100 * 0.10125 of it passed to depositors
    assert_eq!(p.insurance_balance, Decimal { attos: 1_125_000_000_000_000_000 });
}

#[test]
fn indices_never_fall() {
    let mut p = pool();
    p.add_liquity(tokens(underlying(), d(1000)), 0).unwrap();
    p.borrow_variable(d(300), 10).unwrap();
    let mut last = (p.deposit_index, p.loan_index);
    for epoch in [20u64, 20, 500, 7000, 15017, 40000] {
        p.borrow_stable(d(10), milli(50), epoch).unwrap();
        assert!(p.deposit_index.attos >= last.0.attos);
        assert!(p.loan_index.attos >= last.1.attos);
        last = (p.deposit_index, p.loan_index);
    }
}

#[test]
fn deposit_then_withdraw_never_gains() {
    let mut p = pool();
    p.add_liquity(tokens(underlying(), d(100)), 0).unwrap();
    p.borrow_variable(d(50), 0).unwrap();
    let minted = p.add_liquity(tokens(underlying(), d(10)), EPOCH_OF_YEAR).unwrap();
    assert_eq!(minted, Decimal { attos: 9_080_590_238_365_493_757 });
    let paid = p.remove_liquity(tokens(share_token(), minted), EPOCH_OF_YEAR).unwrap();
    assert_eq!(paid, Decimal { attos: 9_999_999_999_999_999_999 });
    assert!(paid.attos <= d(10).attos);
}

#[test]
fn withdraw_pays_share_value() {
    let mut p = pool();
    p.add_liquity(tokens(underlying(), d(100)), 0).unwrap();
    assert_eq!(p.get_redemption_value(d(40), 0), Ok(d(40)));
    assert_eq!(p.remove_liquity(tokens(share_token(), d(40)), 0), Ok(d(40)));
    assert_eq!(p.get_available(), d(60));
    assert_eq!(p.get_deposit_share_quantity(), d(60));
}

#[test]
fn withdraw_beyond_vault_fails() {
    let mut p = pool();
    p.add_liquity(tokens(underlying(), d(100)), 0).unwrap();
    p.borrow_variable(d(80), 0).unwrap();
    let before = p;
    assert_eq!(
        p.remove_liquity(tokens(share_token(), d(50)), 0),
        Err(LendError::InsufficientLiquidity)
    );
    assert_eq!(p, before);
}

#[test]
fn withdraw_of_underlying_is_refused() {
    let mut p = pool();
    p.add_liquity(tokens(underlying(), d(100)), 0).unwrap();
    assert_eq!(p.remove_liquity(tokens(underlying(), d(10)), 0), Err(LendError::WrongAsset));
}

#[test]
fn withdraw_of_more_shares_than_exist_is_refused() {
    let mut p = pool();
    p.add_liquity(tokens(underlying(), d(100)), 0).unwrap();
    assert_eq!(p.remove_liquity(tokens(share_token(), d(101)), 0), Err(LendError::InvalidState));
}

#[test]
fn stable_rate_is_weighted_in_either_order() {
    let mut a = pool();
    a.add_liquity(tokens(underlying(), d(1000)), 0).unwrap();
    a.borrow_stable(d(100), milli(100), 0).unwrap();
    assert_eq!(a.stable_loan_interest_rate, milli(100));
    a.borrow_stable(d(300), milli(200), 0).unwrap();
    let mut b = pool();
    b.add_liquity(tokens(underlying(), d(1000)), 0).unwrap();
    b.borrow_stable(d(300), milli(200), 0).unwrap();
    b.borrow_stable(d(100), milli(100), 0).unwrap();
    assert_eq!(a.stable_loan_amount, d(400));
    assert_eq!(a.stable_loan_interest_rate, milli(175));
    assert_eq!(b.stable_loan_amount, d(400));
    assert_eq!(b.stable_loan_interest_rate, milli(175));
}

fn pool_with_stable_loan() -> LendResourcePool {
    let mut p = pool();
    p.add_liquity(tokens(underlying(), d(1000)), 0).unwrap();
    p.borrow_stable(d(100), milli(100), 0).unwrap();
    p
}

#[test]
fn repay_stable_underpayment_is_capitalized() {
    let mut p = pool_with_stable_loan();
    let r = p.repay_stable(tokens(underlying(), d(4)), d(100), milli(100), 0, EPOCH_OF_YEAR);
    assert_eq!(r, Ok((d(4), d(-6), d(10), EPOCH_OF_YEAR)));
    assert_eq!(p.stable_loan_amount, d(106));
    assert_eq!(p.stable_loan_interest_rate, milli(100));
    assert_eq!(p.get_available(), d(904));
}

#[test]
fn repay_stable_overpayment_is_clamped() {
    let mut p = pool_with_stable_loan();
    let r = p.repay_stable(tokens(underlying(), d(200)), d(100), milli(100), 0, EPOCH_OF_YEAR);
    assert_eq!(r, Ok((d(110), d(100), d(10), EPOCH_OF_YEAR)));
    assert_eq!(p.stable_loan_amount, d(0));
    assert_eq!(p.stable_loan_interest_rate, d(0));
    assert_eq!(p.get_available(), d(1010));
}

#[test]
fn repay_stable_partial_payoff() {
    let mut p = pool_with_stable_loan();
    let r = p.repay_stable(tokens(underlying(), d(50)), d(100), milli(100), 0, EPOCH_OF_YEAR);
    assert_eq!(r, Ok((d(50), d(40), d(10), EPOCH_OF_YEAR)));
    assert_eq!(p.stable_loan_amount, d(60));
    assert_eq!(p.stable_loan_interest_rate, milli(100));
}

#[test]
fn repay_stable_of_wrong_asset_is_refused() {
    let mut p = pool_with_stable_loan();
    let r = p.repay_stable(tokens(share_token(), d(50)), d(100), milli(100), 0, EPOCH_OF_YEAR);
    assert_eq!(r, Err(LendError::WrongAsset));
}

#[test]
fn repay_variable_retires_shares() {
    let mut p = pool();
    p.add_liquity(tokens(underlying(), d(100)), 0).unwrap();
    p.borrow_variable(d(50), 0).unwrap();
    assert_eq!(p.repay_variable(tokens(underlying(), d(20)), 0), Ok(d(20)));
    assert_eq!(p.get_variable_share_quantity(), d(30));
    assert_eq!(p.get_available(), d(70));
}

#[test]
fn repay_variable_beyond_debt_is_refused() {
    let mut p = pool();
    p.add_liquity(tokens(underlying(), d(100)), 0).unwrap();
    p.borrow_variable(d(50), 0).unwrap();
    let before = p;
    assert_eq!(p.repay_variable(tokens(underlying(), d(60)), 0), Err(LendError::InvalidState));
    assert_eq!(p, before);
}

#[test]
fn quoted_rates_preview_without_change() {
    let mut p = pool();
    p.add_liquity(tokens(underlying(), d(100)), 0).unwrap();
    p.borrow_variable(d(50), 0).unwrap();
    let before = p;
    let rates = p.get_interest_rate(0, milli(300)).unwrap();
    assert_eq!(rates, (milli(225), milli(300), Decimal { attos: 101_250_000_000_000_000 }));
    assert_eq!(p, before);
}

#[test]
fn underlying_value_at_index() {
    let mut p = pool();
    p.add_liquity(tokens(underlying(), d(100)), 0).unwrap();
    p.borrow_variable(d(50), 0).unwrap();
    assert_eq!(
        p.get_underlying_value(d(1000), EPOCH_OF_YEAR),
        Ok(Decimal { attos: 1_101_250_000_000_000_000_000 })
    );
}

#[test]
fn stable_interest_rounds_up() {
    let mut p = pool_with_stable_loan();
    let atto = Decimal { attos: 1 };
    let r = p.repay_stable(tokens(underlying(), d(0)), atto, atto, 0, EPOCH_OF_YEAR).unwrap();
    assert_eq!(r.2, atto);
    let r = p.repay_stable(tokens(underlying(), d(0)), d(1), milli(1), 0, 1).unwrap();
    // 0.001 / 15017 of a unit, rounded up
    assert_eq!(r.2, Decimal { attos: 66_591_196_644 });
}

#[test]
fn zero_amounts_on_an_empty_vault() {
    let mut p = pool();
    assert_eq!(p.borrow_variable(d(0), 0), Ok(d(0)));
    assert_eq!(p.remove_liquity(tokens(share_token(), d(0)), 0), Ok(d(0)));
    assert_eq!(p.get_available(), d(0));
}
