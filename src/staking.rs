use vstd::prelude::*;
use crate::address::{Address, Tokens};
use crate::decimal::{add_opt, div_opt, mul_opt, opt_view, sub_opt, Decimal};
use crate::error::LendError;
use crate::keeper::StakeData;
use crate::utils::{assert_amount, assert_resource, floor};

verus! {

/// The pool's holding of one validator's stake units, with its last observation.
#[derive(Clone, Copy, Debug, PartialEq, Eq, Structural)]
pub struct StakeEntry {
    pub validator: Address,
    pub data: StakeData,
    pub lsu_amount: Decimal,
}

/// A pool of stake delegated across validators, owned through pool shares.
#[derive(Clone, Debug)]
pub struct StakingResourePool {
    pub stake_token: Address,
    pub staking_share_token: Address,
    /// Pool shares in circulation.
    pub share_supply: Decimal,
    /// One entry per validator staked to, in the order they were first staked to.
    pub entries: Vec<StakeEntry>,
}

/// The sum of `values`, `None` on overflow.
pub open spec fn total_of(values: Seq<Decimal>) -> Option<int>
    decreases values.len(),
{
    if values.len() == 0 {
        Some(0int)
    } else {
        add_opt(total_of(values.drop_last()), Some(values.last()@))
    }
}

/// Whether `entries` holds `validator`.
pub open spec fn holds(entries: Seq<StakeEntry>, validator: Address) -> bool {
    exists|i: int| 0 <= i < entries.len() && entries[i].validator == validator
}

/// The position of `validator` in `entries`, when held.
pub open spec fn entry_position(entries: Seq<StakeEntry>, validator: Address) -> int {
    choose|i: int| 0 <= i < entries.len() && entries[i].validator == validator
}

impl StakingResourePool {
    pub open spec fn wf(self) -> bool {
        forall|i: int, j: int|
            0 <= i < j < self.entries@.len() ==> (#[trigger] self.entries@[i]).validator != (
            #[trigger] self.entries@[j]).validator
    }

    /// The value of one pool share, given the current value of each entry's holding; one
    /// unit while no share is in circulation.
    pub open spec fn share_value(self, values: Seq<Decimal>) -> Option<int> {
        match total_of(values) {
            Some(t) => if self.share_supply@ == 0 {
                Some(crate::decimal::scale())
            } else {
                div_opt(Some(t), Some(self.share_supply@))
            },
            None => None,
        }
    }

    /// An empty pool.
    pub fn instantiate(stake_token: Address, staking_share_token: Address) -> (r: Self)
        ensures
            r.wf(),
            r.stake_token == stake_token,
            r.staking_share_token == staking_share_token,
            r.share_supply@ == 0,
            r.entries@.len() == 0,
    {
        StakingResourePool { stake_token, staking_share_token, share_supply: Decimal::zero(), entries: Vec::new() }
    }

    /// The total current value of the holdings, `redemption_values` giving one per entry.
    fn sum_current_staked(&self, redemption_values: &Vec<Decimal>) -> (r: Option<Decimal>)
        ensures
            opt_view(r) == total_of(redemption_values@),
    {
        let mut sum: Option<Decimal> = Some(Decimal::zero());
        let mut i: usize = 0;
        while i < redemption_values.len()
            invariant
                i <= redemption_values@.len(),
                opt_view(sum) == total_of(redemption_values@.subrange(0, i as int)),
            decreases redemption_values@.len() - i,
        {
            assert(redemption_values@.subrange(0, i + 1).drop_last() =~= redemption_values@.subrange(
                0,
                i as int,
            ));
            sum = match sum {
                Some(s) => s.checked_add(&redemption_values[i]),
                None => None,
            };
            i = i + 1;
        }
        assert(redemption_values@.subrange(0, redemption_values@.len() as int)
            =~= redemption_values@);
        sum
    }

    /// The total current value of the holdings, `redemption_values` giving one per entry.
    pub fn get_vault_amount(&self, redemption_values: &Vec<Decimal>) -> (r: Result<Decimal, LendError>)
        requires
            redemption_values@.len() == self.entries@.len(),
        ensures
            match total_of(redemption_values@) {
                Some(t) => r matches Ok(v) && v@ == t,
                None => r == Err::<Decimal, LendError>(LendError::ArithmeticOverflow),
            },
    {
        match self.sum_current_staked(redemption_values) {
            Some(v) => Ok(v),
            None => Err(LendError::ArithmeticOverflow),
        }
    }

    /// `(total value, shares in circulation, value of one share)`.
    fn get_values(&self, redemption_values: &Vec<Decimal>) -> (r: Option<(Decimal, Decimal, Decimal)>)
        requires
            redemption_values@.len() == self.entries@.len(),
        ensures
            match (total_of(redemption_values@), self.share_value(redemption_values@)) {
                (Some(t), Some(v)) => r matches Some((rt, rs, rv)) && rt@ == t && rs
                    == self.share_supply && rv@ == v,
                _ => r is None,
            },
    {
        let total_value = self.sum_current_staked(redemption_values)?;
        let value_per_share = if self.share_supply.is_zero() {
            Decimal::one()
        } else {
            total_value.checked_div(&self.share_supply)?
        };
        Some((total_value, self.share_supply, value_per_share))
    }

    /// The value of `amount_of_pool_units` pool shares.
    pub fn get_redemption_value(&self, amount_of_pool_units: Decimal, redemption_values: &Vec<Decimal>) -> (r:
        Result<Decimal, LendError>)
        requires
            redemption_values@.len() == self.entries@.len(),
        ensures
            match mul_opt(Some(amount_of_pool_units@), self.share_value(redemption_values@)) {
                Some(v) => r matches Ok(d) && d@ == v,
                None => r == Err::<Decimal, LendError>(LendError::ArithmeticOverflow),
            },
    {
        match self.get_values(redemption_values) {
            Some((_, _, value_per_share)) => match amount_of_pool_units.checked_mul(&value_per_share) {
                Some(v) => Ok(v),
                None => Err(LendError::ArithmeticOverflow),
            },
            None => Err(LendError::ArithmeticOverflow),
        }
    }

    /// Mints pool shares for the stake in `bucket` at the current value of one share, rounded
    /// down, and returns how many. Staking the tokens to a validator, and recording what that
    /// gave, is `record_stake`.
    pub fn contribute(&mut self, bucket: Tokens, redemption_values: &Vec<Decimal>) -> (r: Result<
        Decimal,
        LendError,
    >)
        requires
            old(self).wf(),
            redemption_values@.len() == old(self).entries@.len(),
        ensures
            final(self).wf(),
            final(self).entries@ == old(self).entries@,
            final(self).stake_token == old(self).stake_token,
            final(self).staking_share_token == old(self).staking_share_token,
            bucket.resource != old(self).stake_token ==> r == Err::<Decimal, LendError>(
                LendError::WrongAsset,
            ),
            bucket.resource == old(self).stake_token ==> match div_opt(
                Some(bucket.amount@),
                old(self).share_value(redemption_values@),
            ) {
                Some(minted) => match add_opt(Some(old(self).share_supply@), Some(minted)) {
                    Some(s) => r matches Ok(m) && m@ == minted && final(self).share_supply@ == s,
                    None => r == Err::<Decimal, LendError>(LendError::ArithmeticOverflow),
                },
                None => r == Err::<Decimal, LendError>(LendError::ArithmeticOverflow),
            },
            r is Err ==> final(self).share_supply == old(self).share_supply,
    {
        assert_resource(&bucket.resource, &self.stake_token)?;
        let (_, _, value_per_share) = match self.get_values(redemption_values) {
            Some(t) => t,
            None => return Err(LendError::ArithmeticOverflow),
        };
        let share_amount = match bucket.amount.checked_div(&value_per_share) {
            Some(v) => floor(v),
            None => return Err(LendError::ArithmeticOverflow),
        };
        self.share_supply = match self.share_supply.checked_add(&share_amount) {
            Some(v) => v,
            None => return Err(LendError::ArithmeticOverflow),
        };
        Ok(share_amount)
    }

    fn find(&self, validator_addr: &Address) -> (r: Option<usize>)
        requires
            self.wf(),
        ensures
            r matches Some(i) ==> i < self.entries@.len() && self.entries@[i as int].validator
                == *validator_addr && entry_position(self.entries@, *validator_addr) == i,
            r is None ==> !holds(self.entries@, *validator_addr),
    {
        let mut i: usize = 0;
        while i < self.entries.len()
            invariant
                self.wf(),
                i <= self.entries@.len(),
                forall|j: int| 0 <= j < i ==> self.entries@[j].validator != *validator_addr,
            decreases self.entries@.len() - i,
        {
            if self.entries[i].validator == *validator_addr {
                proof {
                    let m = self.entries@;
                    assert(holds(m, *validator_addr));
                    let k = entry_position(m, *validator_addr);
                    if k < i {
                        assert(m[k].validator != m[i as int].validator);
                    } else if k > i {
                        assert(m[i as int].validator != m[k].validator);
                    }
                }
                return Some(i);
            }
            i = i + 1;
        }
        None
    }

    /// Records that `lsu_amount` stake units of `validator_addr` were received at
    /// `current_epoch`, the whole holding of that validator then being worth `holding_value`.
    pub fn record_stake(
        &mut self,
        validator_addr: &Address,
        lsu_amount: Decimal,
        holding_value: Decimal,
        current_epoch: u64,
    ) -> (r: Result<(), LendError>)
        requires
            old(self).wf(),
        ensures
            final(self).wf(),
            final(self).share_supply == old(self).share_supply,
            holds(old(self).entries@, *validator_addr) ==> {
                let i = entry_position(old(self).entries@, *validator_addr);
                let e = old(self).entries@[i];
                match add_opt(Some(e.lsu_amount@), Some(lsu_amount@)) {
                    Some(total) => r is Ok && final(self).entries@ == old(self).entries@.update(
                        i,
                        StakeEntry {
                            validator: e.validator,
                            data: StakeData {
                                last_lsu: e.data.last_lsu,
                                last_staked: holding_value,
                                last_stake_epoch: current_epoch,
                            },
                            lsu_amount: crate::lending::dec(total),
                        },
                    ),
                    None => r == Err::<(), LendError>(LendError::ArithmeticOverflow)
                        && final(self).entries@ == old(self).entries@,
                }
            },
            !holds(old(self).entries@, *validator_addr) ==> r is Ok && final(self).entries@
                == old(self).entries@.push(
                StakeEntry {
                    validator: *validator_addr,
                    data: StakeData {
                        last_lsu: lsu_amount,
                        last_staked: holding_value,
                        last_stake_epoch: current_epoch,
                    },
                    lsu_amount,
                },
            ),
    {
        let ghost m = self.entries@;
        match self.find(validator_addr) {
            Some(i) => {
                let e = self.entries[i];
                let total = match e.lsu_amount.checked_add(&lsu_amount) {
                    Some(v) => v,
                    None => return Err(LendError::ArithmeticOverflow),
                };
                let updated = StakeEntry {
                    validator: e.validator,
                    data: StakeData {
                        last_lsu: e.data.last_lsu,
                        last_staked: holding_value,
                        last_stake_epoch: current_epoch,
                    },
                    lsu_amount: total,
                };
                self.entries.set(i, updated);
                assert forall|a: int, b: int| 0 <= a < b < self.entries@.len() implies (
                #[trigger] self.entries@[a]).validator != (#[trigger] self.entries@[b]).validator by {
                    assert(m[a].validator != m[b].validator);
                }
                Ok(())
            },
            None => {
                self.entries.push(
                    StakeEntry {
                        validator: *validator_addr,
                        data: StakeData {
                            last_lsu: lsu_amount,
                            last_staked: holding_value,
                            last_stake_epoch: current_epoch,
                        },
                        lsu_amount,
                    },
                );
                assert forall|a: int, b: int| 0 <= a < b < self.entries@.len() implies (
                #[trigger] self.entries@[a]).validator != (#[trigger] self.entries@[b]).validator by {
                    if b < m.len() {
                        assert(m[a].validator != m[b].validator);
                    } else {
                        assert(m[a].validator != *validator_addr);
                    }
                }
                Ok(())
            },
        }
    }
}


impl StakingResourePool {
    /// Stake units to unstake from `validator` for the pool shares in `bucket`, its holding
    /// being worth `lsu_value` and `redemption_values` giving the worth of each entry's holding.
    /// The holding must be worth at least the shares redeemed.
    pub open spec fn redeem_outcome(
        self,
        bucket: Tokens,
        validator: Address,
        redemption_values: Seq<Decimal>,
        lsu_value: Decimal,
    ) -> Result<int, LendError> {
        if bucket.resource != self.staking_share_token {
            Err(LendError::WrongAsset)
        } else if !holds(self.entries@, validator) || bucket.amount@ > self.share_supply@ {
            Err(LendError::InvalidState)
        } else {
            let e = self.entries@[entry_position(self.entries@, validator)];
            match mul_opt(Some(bucket.amount@), self.share_value(redemption_values)) {
                Some(redeem_value) => if lsu_value@ < redeem_value {
                    Err(LendError::InvalidState)
                } else {
                    match div_opt(
                        Some(redeem_value),
                        div_opt(Some(lsu_value@), Some(e.lsu_amount@)),
                    ) {
                        Some(take) => if take < 0 || take > e.lsu_amount@ {
                            Err(LendError::InsufficientLiquidity)
                        } else {
                            Ok(take)
                        },
                        None => Err(LendError::ArithmeticOverflow),
                    }
                },
                None => Err(LendError::ArithmeticOverflow),
            }
        }
    }

    /// Burns the pool shares in `bucket` against the holding of `validator_addr`, worth
    /// `lsu_value`, and returns the stake units to unstake for them. Unstaking, and recording
    /// the claim it gives, is `record_unstake`.
    pub fn redeem(
        &mut self,
        bucket: Tokens,
        validator_addr: &Address,
        redemption_values: &Vec<Decimal>,
        lsu_value: Decimal,
    ) -> (r: Result<Decimal, LendError>)
        requires
            old(self).wf(),
            bucket.amount@ >= 0,
            redemption_values@.len() == old(self).entries@.len(),
        ensures
            final(self).wf(),
            match old(self).redeem_outcome(bucket, *validator_addr, redemption_values@, lsu_value) {
                Ok(take) => {
                    let i = entry_position(old(self).entries@, *validator_addr);
                    let e = old(self).entries@[i];
                    &&& r matches Ok(t) && t@ == take
                    &&& final(self).share_supply@ == old(self).share_supply@ - bucket.amount@
                    &&& final(self).entries@ == old(self).entries@.update(
                        i,
                        StakeEntry { lsu_amount: crate::lending::dec(e.lsu_amount@ - take), ..e },
                    )
                },
                Err(err) => r == Err::<Decimal, LendError>(err) && final(self).share_supply
                    == old(self).share_supply && final(self).entries@ == old(self).entries@,
            },
    {
        assert_resource(&bucket.resource, &self.staking_share_token)?;
        let i = match self.find(validator_addr) {
            Some(i) => i,
            None => return Err(LendError::InvalidState),
        };
        if self.share_supply.lt(&bucket.amount) {
            return Err(LendError::InvalidState);
        }
        let (_, _, value_per_share) = match self.get_values(redemption_values) {
            Some(t) => t,
            None => return Err(LendError::ArithmeticOverflow),
        };
        let redeem_value = match bucket.amount.checked_mul(&value_per_share) {
            Some(v) => v,
            None => return Err(LendError::ArithmeticOverflow),
        };
        let e = self.entries[i];
        assert_amount(lsu_value, redeem_value)?;
        let lsu_index = match lsu_value.checked_div(&e.lsu_amount) {
            Some(v) => v,
            None => return Err(LendError::ArithmeticOverflow),
        };
        let take = match redeem_value.checked_div(&lsu_index) {
            Some(v) => floor(v),
            None => return Err(LendError::ArithmeticOverflow),
        };
        if take.lt(&Decimal::zero()) || e.lsu_amount.lt(&take) {
            return Err(LendError::InsufficientLiquidity);
        }
        let ghost m = self.entries@;
        self.entries.set(i, StakeEntry { lsu_amount: Decimal { attos: e.lsu_amount.attos - take.attos }, ..e });
        self.share_supply = Decimal { attos: self.share_supply.attos - bucket.amount.attos };
        assert forall|a: int, b: int| 0 <= a < b < self.entries@.len() implies (
        #[trigger] self.entries@[a]).validator != (#[trigger] self.entries@[b]).validator by {
            assert(m[a].validator != m[b].validator);
        }
        Ok(take)
    }

    /// Records, at `current_epoch`, that unstaking from `validator_addr`, whose holding was
    /// worth `lsu_value`, gave a claim on `claim_amount`: the holding is now worth the
    /// difference. Nothing changes for a validator the pool does not hold.
    pub fn record_unstake(
        &mut self,
        validator_addr: &Address,
        lsu_value: Decimal,
        claim_amount: Decimal,
        current_epoch: u64,
    ) -> (r: Result<(), LendError>)
        requires
            old(self).wf(),
        ensures
            final(self).wf(),
            final(self).share_supply == old(self).share_supply,
            !holds(old(self).entries@, *validator_addr) ==> r is Ok && final(self).entries@
                == old(self).entries@,
            holds(old(self).entries@, *validator_addr) ==> {
                let i = entry_position(old(self).entries@, *validator_addr);
                let e = old(self).entries@[i];
                match sub_opt(Some(lsu_value@), Some(claim_amount@)) {
                    Some(v) => r is Ok && final(self).entries@ == old(self).entries@.update(
                        i,
                        StakeEntry {
                            data: StakeData {
                                last_staked: crate::lending::dec(v),
                                last_stake_epoch: current_epoch,
                                ..e.data
                            },
                            ..e
                        },
                    ),
                    None => r == Err::<(), LendError>(LendError::ArithmeticOverflow)
                        && final(self).entries@ == old(self).entries@,
                }
            },
    {
        let i = match self.find(validator_addr) {
            Some(i) => i,
            None => return Ok(()),
        };
        let staked = match lsu_value.checked_sub(&claim_amount) {
            Some(v) => v,
            None => return Err(LendError::ArithmeticOverflow),
        };
        let e = self.entries[i];
        let ghost m = self.entries@;
        self.entries.set(
            i,
            StakeEntry {
                data: StakeData { last_staked: staked, last_stake_epoch: current_epoch, ..e.data },
                ..e
            },
        );
        assert forall|a: int, b: int| 0 <= a < b < self.entries@.len() implies (
        #[trigger] self.entries@[a]).validator != (#[trigger] self.entries@[b]).validator by {
            assert(m[a].validator != m[b].validator);
        }
        Ok(())
    }
}

} // verus!
