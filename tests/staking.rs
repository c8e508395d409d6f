use dexian_lend::address::{Address, Tokens};
use dexian_lend::decimal::Decimal;
use dexian_lend::error::LendError;
use dexian_lend::staking::StakingResourePool;

const UNIT: i128 = 1_000_000_000_000_000_000;

fn d(units: i128) -> Decimal {
    Decimal { attos: units * UNIT }
}

fn stake_token() -> Address {
    Address { high: 5, low: 1 }
}

fn share_token() -> Address {
    Address { high: 5, low: 2 }
}

fn validator() -> Address {
    Address { high: 9, low: 1 }
}

#[test]
fn first_contribution_mints_one_share_per_unit() {
    let mut p = StakingResourePool::instantiate(stake_token(), share_token());
    let r = p.contribute(Tokens { resource: stake_token(), amount: d(10) }, &vec![]);
    assert_eq!(r, Ok(d(10)));
    assert_eq!(p.share_supply, d(10));
}

#[test]
fn contribute_of_wrong_asset_is_refused() {
    let mut p = StakingResourePool::instantiate(stake_token(), share_token());
    let r = p.contribute(Tokens { resource: share_token(), amount: d(10) }, &vec![]);
    assert_eq!(r, Err(LendError::WrongAsset));
}

#[test]
fn contribute_mints_at_share_value() {
    let mut p = StakingResourePool::instantiate(stake_token(), share_token());
    p.share_supply = d(100);
    p.record_stake(&validator(), d(100), d(200), 7).unwrap();
    assert_eq!(p.get_vault_amount(&vec![d(200)]), Ok(d(200)));
    assert_eq!(p.get_redemption_value(d(10), &vec![d(200)]), Ok(d(20)));
    let r = p.contribute(Tokens { resource: stake_token(), amount: d(50) }, &vec![d(200)]);
    assert_eq!(r, Ok(d(25)));
    assert_eq!(p.share_supply, d(125));
}

#[test]
fn record_stake_accumulates_units() {
    let mut p = StakingResourePool::instantiate(stake_token(), share_token());
    p.record_stake(&validator(), d(100), d(100), 7).unwrap();
    p.record_stake(&validator(), d(50), d(160), 9).unwrap();
    assert_eq!(p.entries.len(), 1);
    assert_eq!(p.entries[0].lsu_amount, d(150));
    assert_eq!(p.entries[0].data.last_staked, d(160));
    assert_eq!(p.entries[0].data.last_lsu, d(100));
    assert_eq!(p.entries[0].data.last_stake_epoch, 9);
}

#[test]
fn redeem_from_unknown_validator_is_refused() {
    let mut p = StakingResourePool::instantiate(stake_token(), share_token());
    let r = p.redeem(Tokens { resource: share_token(), amount: d(1) }, &validator(), &vec![], d(0));
    assert_eq!(r, Err(LendError::InvalidState));
}

#[test]
fn redeem_against_a_holding_worth_less_is_refused() {
    let mut p = StakingResourePool::instantiate(stake_token(), share_token());
    p.share_supply = d(100);
    p.record_stake(&validator(), d(100), d(200), 7).unwrap();
    // 10 shares are worth 20; a holding worth 16 cannot pay them
    let r = p.redeem(Tokens { resource: share_token(), amount: d(10) }, &validator(), &vec![d(200)], d(16));
    assert_eq!(r, Err(LendError::InvalidState));
}

#[test]
fn redeem_takes_units_at_their_value() {
    let mut p = StakingResourePool::instantiate(stake_token(), share_token());
    p.share_supply = d(100);
    p.record_stake(&validator(), d(100), d(200), 7).unwrap();
    // 10 shares are worth 20; the holding, worth 200, is priced at 2 a unit: 10 units
    let r = p.redeem(Tokens { resource: share_token(), amount: d(10) }, &validator(), &vec![d(200)], d(200));
    assert_eq!(r, Ok(d(10)));
    assert_eq!(p.entries[0].lsu_amount, d(90));
    assert_eq!(p.share_supply, d(90));
}

#[test]
fn record_unstake_keeps_remaining_value() {
    let mut p = StakingResourePool::instantiate(stake_token(), share_token());
    p.record_stake(&validator(), d(100), d(200), 7).unwrap();
    assert_eq!(p.record_unstake(&validator(), d(200), d(50), 11), Ok(()));
    assert_eq!(p.entries[0].data.last_staked, d(150));
    assert_eq!(p.entries[0].data.last_stake_epoch, 11);
    assert_eq!(p.record_unstake(&Address { high: 0, low: 0 }, d(1), d(1), 12), Ok(()));
}
