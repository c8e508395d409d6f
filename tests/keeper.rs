use dexian_lend::address::Address;
use dexian_lend::decimal::Decimal;
use dexian_lend::error::LendError;
use dexian_lend::keeper::{
    StakeData, StakeObservation, ValidatorKeeper, A_WEEK_EPOCHS, BABYLON_START_EPOCH, RESERVE_WEEKS,
};

const UNIT: i128 = 1_000_000_000_000_000_000;

fn d(units: i128) -> Decimal {
    Decimal { attos: units * UNIT }
}

fn milli(m: i128) -> Decimal {
    Decimal { attos: m * (UNIT / 1000) }
}

fn validator(n: u128) -> Address {
    Address { high: 9, low: n }
}

fn series_len(k: &ValidatorKeeper, v: Address) -> usize {
    k.validator_map.iter().find(|s| s.validator == v).map(|s| s.snapshots.len()).unwrap_or(0)
}

const E1: u64 = BABYLON_START_EPOCH + 1;

#[test]
fn week_index_rounds_up() {
    assert_eq!(ValidatorKeeper::get_week_index(BABYLON_START_EPOCH), 0);
    assert_eq!(ValidatorKeeper::get_week_index(BABYLON_START_EPOCH + 1), 1);
    assert_eq!(ValidatorKeeper::get_week_index(BABYLON_START_EPOCH + A_WEEK_EPOCHS), 1);
    assert_eq!(ValidatorKeeper::get_week_index(BABYLON_START_EPOCH + A_WEEK_EPOCHS + 1), 2);
}

#[test]
fn same_week_observations_collapse() {
    let mut k = ValidatorKeeper::instantiate();
    let v = validator(1);
    k.set_validator_staking(&v, d(100), d(100), E1);
    k.set_validator_staking(&v, d(100), d(105), E1 + 10);
    assert_eq!(series_len(&k, v), 1);
    assert_eq!(
        k.validator_map[0].snapshots[0],
        StakeData { last_lsu: d(100), last_staked: d(105), last_stake_epoch: E1 + 10 }
    );
}

#[test]
fn consecutive_weeks_give_a_yield() {
    let mut k = ValidatorKeeper::instantiate();
    let v = validator(1);
    k.set_validator_staking(&v, d(100), d(100), E1);
    let e2 = E1 + A_WEEK_EPOCHS;
    k.set_validator_staking(&v, d(100), d(110), e2);
    assert_eq!(series_len(&k, v), 2);
    let week = ValidatorKeeper::get_week_index(e2);
    assert_eq!(ValidatorKeeper::get_validator_apy(&k.validator_map[0].snapshots, week), Ok(Some(milli(100))));
    assert_eq!(k.get_active_set_apy(e2), Ok(milli(100)));
}

#[test]
fn skipped_week_gives_no_yield() {
    let mut k = ValidatorKeeper::instantiate();
    let v = validator(1);
    k.set_validator_staking(&v, d(100), d(100), E1);
    k.set_validator_staking(&v, d(100), d(110), E1 + A_WEEK_EPOCHS);
    let e3 = E1 + 3 * A_WEEK_EPOCHS;
    k.set_validator_staking(&v, d(100), d(120), e3);
    assert_eq!(series_len(&k, v), 3);
    assert_eq!(k.get_active_set_apy(e3), Ok(d(0)));
    let e4 = E1 + 4 * A_WEEK_EPOCHS;
    k.set_validator_staking(&v, d(100), d(130), e4);
    assert_eq!(k.get_active_set_apy(e4), Ok(milli(100)));
}

#[test]
fn stale_validator_is_excluded_from_mean() {
    let mut k = ValidatorKeeper::instantiate();
    let fresh = validator(1);
    let stale = validator(2);
    k.set_validator_staking(&fresh, d(100), d(100), E1);
    k.set_validator_staking(&stale, d(100), d(100), E1);
    let e2 = E1 + A_WEEK_EPOCHS;
    k.set_validator_staking(&fresh, d(100), d(120), e2);
    k.set_validator_staking(&stale, d(100), d(200), e2);
    assert_eq!(k.get_active_set_apy(e2), Ok(milli(600)));
    assert_eq!(k.get_active_set_apy(e2 + A_WEEK_EPOCHS), Ok(d(0)));
}

#[test]
fn zero_supply_validator_contributes_nothing() {
    let mut k = ValidatorKeeper::instantiate();
    let v = validator(1);
    k.set_validator_staking(&v, d(0), d(100), E1);
    k.set_validator_staking(&v, d(0), d(110), E1 + A_WEEK_EPOCHS);
    assert_eq!(k.get_active_set_apy(E1 + A_WEEK_EPOCHS), Ok(d(0)));
}

#[test]
fn retention_is_one_year() {
    let mut k = ValidatorKeeper::instantiate();
    let v = validator(1);
    for week in 0..60u64 {
        k.set_validator_staking(&v, d(100), d(100), E1 + week * A_WEEK_EPOCHS);
    }
    assert_eq!(series_len(&k, v), RESERVE_WEEKS);
    assert_eq!(k.validator_map[0].snapshots[0].last_stake_epoch, E1 + 59 * A_WEEK_EPOCHS);
}

#[test]
fn log_removes_then_records() {
    let mut k = ValidatorKeeper::instantiate();
    let a = validator(1);
    let b = validator(2);
    let c = validator(3);
    let first = vec![
        StakeObservation { validator: a, lsu: d(10), staked: d(10) },
        StakeObservation { validator: b, lsu: d(20), staked: d(20) },
    ];
    assert_eq!(k.log_validator_staking(&first, &vec![], E1), Ok(()));
    assert_eq!(k.last_staked, d(30));
    let second = vec![
        StakeObservation { validator: a, lsu: d(10), staked: d(11) },
        StakeObservation { validator: c, lsu: d(5), staked: d(5) },
    ];
    assert_eq!(k.log_validator_staking(&second, &vec![b], E1 + A_WEEK_EPOCHS), Ok(()));
    assert_eq!(k.last_staked, d(16));
    assert_eq!(series_len(&k, a), 2);
    assert_eq!(series_len(&k, b), 0);
    assert_eq!(series_len(&k, c), 1);
}

#[test]
fn log_with_overflowing_total_changes_nothing() {
    let mut k = ValidatorKeeper::instantiate();
    let huge = Decimal { attos: i128::MAX };
    let obs = vec![
        StakeObservation { validator: validator(1), lsu: d(1), staked: huge },
        StakeObservation { validator: validator(2), lsu: d(1), staked: huge },
    ];
    assert_eq!(k.log_validator_staking(&obs, &vec![], E1), Err(LendError::ArithmeticOverflow));
    assert_eq!(k.validator_map.len(), 0);
}

#[test]
fn observed_validators_are_kept_then_added_once() {
    let mut k = ValidatorKeeper::instantiate();
    let a = validator(1);
    let b = validator(2);
    let c = validator(3);
    k.set_validator_staking(&a, d(1), d(1), E1);
    k.set_validator_staking(&b, d(1), d(1), E1);
    let r = k.validators_to_observe(&vec![c, a, c, b], &vec![b]);
    assert_eq!(r, vec![a, c, b]);
}
