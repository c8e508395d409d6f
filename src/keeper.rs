use vstd::prelude::*;
use crate::address::Address;
use crate::decimal::{add_opt, div_opt, mul_opt, opt_view, scale, sub_opt, Decimal};
use crate::error::LendError;

verus! {

/// First epoch of the network: week zero starts here.
pub const BABYLON_START_EPOCH: u64 = 32719;

/// Epochs in one week (one epoch every five minutes).
pub const A_WEEK_EPOCHS: u64 = 2016;

/// Weekly snapshots kept per validator, about one year.
pub const RESERVE_WEEKS: usize = 52;

/// One observation of a validator: its stake-unit supply, the stake behind it, and when.
#[derive(Clone, Copy, Debug, PartialEq, Eq, Structural)]
pub struct StakeData {
    pub last_lsu: Decimal,
    pub last_staked: Decimal,
    pub last_stake_epoch: u64,
}

/// A claim on unstaked tokens: `claim_amount` can be claimed from `claim_epoch` on.
#[derive(Clone, Debug)]
pub struct UnstakeData {
    pub name: String,
    pub claim_epoch: u64,
    pub claim_amount: Decimal,
}

/// A validator and its snapshots, newest first.
#[derive(Clone, Debug)]
pub struct ValidatorSeries {
    pub validator: Address,
    pub snapshots: Vec<StakeData>,
}

/// Current stake-unit supply and staked amount of one validator, read at the time of a log.
#[derive(Clone, Copy, Debug, PartialEq, Eq, Structural)]
pub struct StakeObservation {
    pub validator: Address,
    pub lsu: Decimal,
    pub staked: Decimal,
}

/// The week that `epoch` falls in, counted from the start epoch and rounded up.
pub open spec fn week_index(epoch: int) -> int {
    let elapsed = epoch - BABYLON_START_EPOCH;
    let week = elapsed / (A_WEEK_EPOCHS as int);
    if week * A_WEEK_EPOCHS < elapsed {
        week + 1
    } else {
        week
    }
}

/// A validator's series after observing `snap`: a new week is put in front (the oldest
/// beyond the retention window falls out); the same week overwrites the newest entry.
pub open spec fn recorded(series: Seq<StakeData>, snap: StakeData) -> Seq<StakeData> {
    if series.len() == 0 {
        seq![snap]
    } else if week_index(snap.last_stake_epoch as int) > week_index(
        series[0].last_stake_epoch as int,
    ) {
        let grown = seq![snap] + series;
        if grown.len() > RESERVE_WEEKS {
            grown.subrange(0, RESERVE_WEEKS as int)
        } else {
            grown
        }
    } else {
        series.update(0, snap)
    }
}

/// Whether `m` tracks `validator`.
pub open spec fn tracks(m: Seq<(Address, Seq<StakeData>)>, validator: Address) -> bool {
    exists|i: int| 0 <= i < m.len() && m[i].0 == validator
}

/// The position of `validator` in `m`, when tracked.
pub open spec fn position(m: Seq<(Address, Seq<StakeData>)>, validator: Address) -> int {
    choose|i: int| 0 <= i < m.len() && m[i].0 == validator
}

/// The tracked series after observing `snap` for `validator`; a validator seen for the first
/// time is added with that one snapshot.
pub open spec fn recorded_map(
    m: Seq<(Address, Seq<StakeData>)>,
    validator: Address,
    snap: StakeData,
) -> Seq<(Address, Seq<StakeData>)> {
    if tracks(m, validator) {
        let i = position(m, validator);
        m.update(i, (validator, recorded(m[i].1, snap)))
    } else {
        m.push((validator, seq![snap]))
    }
}

/// The tracked series without `validator`.
pub open spec fn removed_map(m: Seq<(Address, Seq<StakeData>)>, validator: Address) -> Seq<
    (Address, Seq<StakeData>),
> {
    if tracks(m, validator) {
        m.remove(position(m, validator))
    } else {
        m
    }
}

/// The tracked series after removing each of `removals` in turn.
pub open spec fn removed_all(m: Seq<(Address, Seq<StakeData>)>, removals: Seq<Address>) -> Seq<
    (Address, Seq<StakeData>),
>
    decreases removals.len(),
{
    if removals.len() == 0 {
        m
    } else {
        removed_map(removed_all(m, removals.drop_last()), removals.last())
    }
}

/// The tracked series after recording each of `obs` in turn at `epoch`.
pub open spec fn recorded_all(
    m: Seq<(Address, Seq<StakeData>)>,
    obs: Seq<StakeObservation>,
    epoch: u64,
) -> Seq<(Address, Seq<StakeData>)>
    decreases obs.len(),
{
    if obs.len() == 0 {
        m
    } else {
        let o = obs.last();
        recorded_map(
            recorded_all(m, obs.drop_last(), epoch),
            o.validator,
            StakeData { last_lsu: o.lsu, last_staked: o.staked, last_stake_epoch: epoch },
        )
    }
}

/// The total staked over `obs`, `None` on overflow.
pub open spec fn staked_total(obs: Seq<StakeObservation>) -> Option<int>
    decreases obs.len(),
{
    if obs.len() == 0 {
        Some(0int)
    } else {
        add_opt(staked_total(obs.drop_last()), Some(obs.last().staked@))
    }
}

/// The yield a validator's two newest snapshots show, when the newest is from week
/// `current_week` and the one before from the week just before; `None` when it is stale,
/// has no clean one-week baseline, or a stake-unit supply is zero. The index growth over
/// that week is scaled by the epochs of a week over the epochs between the snapshots.
pub open spec fn validator_apy(q: Seq<StakeData>, current_week: int) -> Result<Option<int>, LendError> {
    if q.len() < 2 || week_index(q[0].last_stake_epoch as int) != current_week || week_index(
        q[1].last_stake_epoch as int,
    ) != current_week - 1 {
        Ok(None)
    } else {
        let latest = q[0];
        let previous = q[1];
        match sub_opt(
            div_opt(Some(latest.last_staked@), Some(latest.last_lsu@)),
            div_opt(Some(previous.last_staked@), Some(previous.last_lsu@)),
        ) {
            Some(delta) => match div_opt(
                mul_opt(Some(delta), Some(A_WEEK_EPOCHS as int * scale())),
                Some((latest.last_stake_epoch - previous.last_stake_epoch) * scale()),
            ) {
                Some(apy) => Ok(Some(apy)),
                None => Err(LendError::ArithmeticOverflow),
            },
            None => Ok(None),
        }
    }
}

/// `(sum, count)` of the yields of the validators in `m` that have one, in order.
pub open spec fn apy_totals(m: Seq<(Address, Seq<StakeData>)>, current_week: int) -> Result<
    (int, int),
    LendError,
>
    decreases m.len(),
{
    if m.len() == 0 {
        Ok((0int, 0int))
    } else {
        match apy_totals(m.drop_last(), current_week) {
            Ok((sum, count)) => match validator_apy(m.last().1, current_week) {
                Ok(Some(apy)) => match (add_opt(Some(sum), Some(apy)), add_opt(Some(count), Some(scale()))) {
                    (Some(s), Some(c)) => Ok((s, c)),
                    _ => Err(LendError::ArithmeticOverflow),
                },
                Ok(None) => Ok((sum, count)),
                Err(e) => Err(e),
            },
            Err(e) => Err(e),
        }
    }
}

/// The mean yield of the validators in `m` that have one at week `current_week`; zero when
/// none has.
pub open spec fn active_set_apy(m: Seq<(Address, Seq<StakeData>)>, current_week: int) -> Result<int, LendError> {
    match apy_totals(m, current_week) {
        Ok((sum, count)) => if count == 0 {
            Ok(0int)
        } else {
            match div_opt(Some(sum), Some(count)) {
                Some(v) => Ok(v),
                None => Err(LendError::ArithmeticOverflow),
            }
        },
        Err(e) => Err(e),
    }
}

/// Tracks, per validator, a weekly series of stake snapshots, and estimates the network's
/// staking yield from it.
#[derive(Clone, Debug)]
pub struct ValidatorKeeper {
    pub validator_map: Vec<ValidatorSeries>,
    /// Total staked over the last log.
    pub last_staked: Decimal,
    pub last_stake_epoch: u64,
}

impl ValidatorKeeper {
    /// The tracked validators and their series, in the order they were first seen.
    pub open spec fn series(self) -> Seq<(Address, Seq<StakeData>)> {
        self.validator_map@.map_values(|s: ValidatorSeries| (s.validator, s.snapshots@))
    }

    pub open spec fn wf(self) -> bool {
        series_wf(self.series())
    }

    /// An empty keeper.
    pub fn instantiate() -> (r: ValidatorKeeper)
        ensures
            r.wf(),
            r.series() == Seq::<(Address, Seq<StakeData>)>::empty(),
            r.last_staked@ == 0,
            r.last_stake_epoch == 0,
    {
        let r = ValidatorKeeper {
            validator_map: Vec::new(),
            last_staked: Decimal::zero(),
            last_stake_epoch: 0,
        };
        assert(r.series() =~= Seq::<(Address, Seq<StakeData>)>::empty());
        r
    }

    /// The week that `epoch_at` falls in, counted from the start epoch and rounded up.
    pub fn get_week_index(epoch_at: u64) -> (r: u64)
        requires
            epoch_at >= BABYLON_START_EPOCH,
        ensures
            r == week_index(epoch_at as int),
    {
        let elapsed_epoch = epoch_at - BABYLON_START_EPOCH;
        let week_index = elapsed_epoch / A_WEEK_EPOCHS;
        if week_index * A_WEEK_EPOCHS < elapsed_epoch {
            week_index + 1
        } else {
            week_index
        }
    }

    fn new_stake_data(last_lsu: Decimal, last_staked: Decimal, last_stake_epoch: u64) -> (r: StakeData)
        ensures
            r == (StakeData { last_lsu, last_staked, last_stake_epoch }),
    {
        StakeData { last_stake_epoch, last_lsu, last_staked }
    }

    fn find(&self, validator_addr: &Address) -> (r: Option<usize>)
        requires
            self.wf(),
        ensures
            r matches Some(i) ==> i < self.series().len() && self.series()[i as int].0
                == *validator_addr && position(self.series(), *validator_addr) == i,
            r is None ==> !tracks(self.series(), *validator_addr),
    {
        let mut i: usize = 0;
        while i < self.validator_map.len()
            invariant
                self.wf(),
                i <= self.validator_map@.len(),
                self.series().len() == self.validator_map@.len(),
                forall|j: int| 0 <= j < i ==> self.series()[j].0 != *validator_addr,
            decreases self.validator_map@.len() - i,
        {
            if self.validator_map[i].validator == *validator_addr {
                proof {
                    let m = self.series();
                    assert(m[i as int].0 == *validator_addr);
                    assert(tracks(m, *validator_addr));
                    let k = position(m, *validator_addr);
                    assert(m[k].0 == *validator_addr);
                    if k < i {
                        assert(m[k].0 != m[i as int].0);
                    } else if k > i {
                        assert(m[i as int].0 != m[k].0);
                    }
                }
                return Some(i);
            }
            i = i + 1;
        }
        None
    }
}

/// Later epochs never fall in earlier weeks.
pub proof fn lemma_week_index_monotone(e1: int, e2: int)
    requires
        BABYLON_START_EPOCH <= e1 <= e2,
    ensures
        week_index(e1) <= week_index(e2),
{
    let w = A_WEEK_EPOCHS as int;
    let x1 = e1 - BABYLON_START_EPOCH;
    let x2 = e2 - BABYLON_START_EPOCH;
    assert(x1 / w <= x2 / w) by {
        vstd::arithmetic::div_mod::lemma_div_is_ordered(x1, x2, w);
    }
    assert((x1 / w) * w <= x1 && x1 < (x1 / w) * w + w) by {
        vstd::arithmetic::div_mod::lemma_fundamental_div_mod(x1, w);
        vstd::arithmetic::div_mod::lemma_mod_bound(x1, w);
    }
    assert((x2 / w) * w <= x2 && x2 < (x2 / w) * w + w) by {
        vstd::arithmetic::div_mod::lemma_fundamental_div_mod(x2, w);
        vstd::arithmetic::div_mod::lemma_mod_bound(x2, w);
    }
}

impl ValidatorKeeper {
    /// Records an observation of `validator_addr` at `current_epoch`: a new week is put in
    /// front of its series (the oldest beyond a year falls out), the same week overwrites the
    /// newest snapshot, and a validator seen for the first time starts a series. Returns
    /// `last_staked`.
    pub fn set_validator_staking(
        &mut self,
        validator_addr: &Address,
        last_lsu: Decimal,
        last_staked: Decimal,
        current_epoch: u64,
    ) -> (r: Decimal)
        requires
            old(self).wf(),
            current_epoch >= BABYLON_START_EPOCH,
        ensures
            final(self).wf(),
            final(self).series() == recorded_map(
                old(self).series(),
                *validator_addr,
                StakeData { last_lsu, last_staked, last_stake_epoch: current_epoch },
            ),
            final(self).last_staked == old(self).last_staked,
            final(self).last_stake_epoch == old(self).last_stake_epoch,
            r == last_staked,
    {
        let snap = Self::new_stake_data(last_lsu, last_staked, current_epoch);
        let ghost m = old(self).series();
        match self.find(validator_addr) {
            Some(i) => {
                let mut entry = self.validator_map.remove(i);
                let ghost before = entry.snapshots@;
                assert(before == m[i as int].1);
                let current_week_index = Self::get_week_index(current_epoch);
                let last_index = Self::get_week_index(entry.snapshots[0].last_stake_epoch);
                if current_week_index > last_index {
                    entry.snapshots.insert(0, snap);
                    entry.snapshots.truncate(RESERVE_WEEKS);
                    assert(entry.snapshots@ =~= recorded(before, snap));
                } else {
                    entry.snapshots.remove(0);
                    entry.snapshots.insert(0, snap);
                    assert(entry.snapshots@ =~= recorded(before, snap));
                }
                self.validator_map.insert(i, entry);
                assert(self.series() =~= m.update(i as int, (*validator_addr, recorded(before, snap))));
                let ghost n = self.series();
                assert forall|a: int, b: int| 0 <= a < b < n.len() implies (#[trigger] n[a]).0 != (
                #[trigger] n[b]).0 by {
                    assert(m[a].0 != m[b].0);
                }
                assert forall|a: int| 0 <= a < n.len() implies 1 <= (#[trigger] n[a]).1.len()
                    <= RESERVE_WEEKS by {
                    assert(1 <= m[a].1.len() <= RESERVE_WEEKS);
                }
                assert forall|a: int, k: int| 0 <= a < n.len() && 0 <= k < n[a].1.len() implies (
                #[trigger] n[a].1[k]).last_stake_epoch >= BABYLON_START_EPOCH by {
                    if a == i {
                        if k > 0 && current_week_index > last_index {
                            assert(n[a].1[k] == before[k - 1]);
                            assert(m[a].1[k - 1].last_stake_epoch >= BABYLON_START_EPOCH);
                        } else if k > 0 {
                            assert(m[a].1[k].last_stake_epoch >= BABYLON_START_EPOCH);
                        }
                    } else {
                        assert(m[a].1[k].last_stake_epoch >= BABYLON_START_EPOCH);
                    }
                }
            },
            None => {
                let mut snapshots = Vec::new();
                snapshots.push(snap);
                self.validator_map.push(ValidatorSeries { validator: *validator_addr, snapshots });
                assert(self.series() =~= m.push((*validator_addr, seq![snap])));
                let ghost n = self.series();
                assert forall|a: int, b: int| 0 <= a < b < n.len() implies (#[trigger] n[a]).0 != (
                #[trigger] n[b]).0 by {
                    if b < m.len() {
                        assert(m[a].0 != m[b].0);
                    } else {
                        assert(m[a].0 != *validator_addr);
                    }
                }
                assert forall|a: int| 0 <= a < n.len() implies 1 <= (#[trigger] n[a]).1.len()
                    <= RESERVE_WEEKS by {
                    if a < m.len() {
                        assert(1 <= m[a].1.len() <= RESERVE_WEEKS);
                    }
                }
                assert forall|a: int, k: int| 0 <= a < n.len() && 0 <= k < n[a].1.len() implies (
                #[trigger] n[a].1[k]).last_stake_epoch >= BABYLON_START_EPOCH by {
                    if a < m.len() {
                        assert(m[a].1[k].last_stake_epoch >= BABYLON_START_EPOCH);
                    }
                }
            },
        }
        last_staked
    }

    /// Stops tracking `validator_addr`.
    fn remove_validator(&mut self, validator_addr: &Address)
        requires
            old(self).wf(),
        ensures
            final(self).wf(),
            final(self).series() == removed_map(old(self).series(), *validator_addr),
            final(self).last_staked == old(self).last_staked,
            final(self).last_stake_epoch == old(self).last_stake_epoch,
    {
        let ghost m = old(self).series();
        if let Some(i) = self.find(validator_addr) {
            self.validator_map.remove(i);
            assert(self.series() =~= m.remove(i as int));
            let ghost n = self.series();
            assert forall|a: int, b: int| 0 <= a < b < n.len() implies (#[trigger] n[a]).0 != (
            #[trigger] n[b]).0 by {
                let a0 = if a < i { a } else { a + 1 };
                let b0 = if b < i { b } else { b + 1 };
                assert(m[a0].0 != m[b0].0);
            }
            assert forall|a: int| 0 <= a < n.len() implies 1 <= (#[trigger] n[a]).1.len()
                <= RESERVE_WEEKS by {
                let a0 = if a < i { a } else { a + 1 };
                assert(1 <= m[a0].1.len() <= RESERVE_WEEKS);
            }
            assert forall|a: int, k: int| 0 <= a < n.len() && 0 <= k < n[a].1.len() implies (
            #[trigger] n[a].1[k]).last_stake_epoch >= BABYLON_START_EPOCH by {
                let a0 = if a < i { a } else { a + 1 };
                assert(m[a0].1[k].last_stake_epoch >= BABYLON_START_EPOCH);
            }
        }
    }

    /// Logs one round of observations at `current_epoch`: drops the validators in
    /// `remove_validator_list`, then records each of `observations` in turn, and keeps their
    /// total stake. Refused, with nothing changed, when that total overflows.
    pub fn log_validator_staking(
        &mut self,
        observations: &Vec<StakeObservation>,
        remove_validator_list: &Vec<Address>,
        current_epoch: u64,
    ) -> (r: Result<(), LendError>)
        requires
            old(self).wf(),
            current_epoch >= BABYLON_START_EPOCH,
        ensures
            final(self).wf(),
            match staked_total(observations@) {
                Some(total) => r is Ok && final(self).series() == recorded_all(
                    removed_all(old(self).series(), remove_validator_list@),
                    observations@,
                    current_epoch,
                ) && final(self).last_staked@ == total,
                None => r == Err::<(), LendError>(LendError::ArithmeticOverflow) && *final(self)
                    == *old(self),
            },
    {
        let mut total: Option<Decimal> = Some(Decimal::zero());
        let mut i: usize = 0;
        while i < observations.len()
            invariant
                i <= observations@.len(),
                staked_total(observations@.subrange(0, i as int)) == opt_view(total),
            decreases observations@.len() - i,
        {
            assert(observations@.subrange(0, i + 1).drop_last() =~= observations@.subrange(
                0,
                i as int,
            ));
            total = match total {
                Some(t) => t.checked_add(&observations[i].staked),
                None => None,
            };
            i = i + 1;
        }
        assert(observations@.subrange(0, observations@.len() as int) =~= observations@);
        let current_staked = match total {
            Some(t) => t,
            None => return Err(LendError::ArithmeticOverflow),
        };
        let ghost start = self.series();
        let mut j: usize = 0;
        while j < remove_validator_list.len()
            invariant
                self.wf(),
                j <= remove_validator_list@.len(),
                self.series() == removed_all(start, remove_validator_list@.subrange(0, j as int)),
            decreases remove_validator_list@.len() - j,
        {
            assert(remove_validator_list@.subrange(0, j + 1).drop_last()
                =~= remove_validator_list@.subrange(0, j as int));
            self.remove_validator(&remove_validator_list[j]);
            j = j + 1;
        }
        assert(remove_validator_list@.subrange(0, remove_validator_list@.len() as int)
            =~= remove_validator_list@);
        let ghost kept = self.series();
        let mut k: usize = 0;
        while k < observations.len()
            invariant
                self.wf(),
                current_epoch >= BABYLON_START_EPOCH,
                k <= observations@.len(),
                self.series() == recorded_all(kept, observations@.subrange(0, k as int), current_epoch),
            decreases observations@.len() - k,
        {
            assert(observations@.subrange(0, k + 1).drop_last() =~= observations@.subrange(
                0,
                k as int,
            ));
            let o = observations[k];
            self.set_validator_staking(&o.validator, o.lsu, o.staked, current_epoch);
            k = k + 1;
        }
        self.last_staked = current_staked;
        Ok(())
    }
}

impl ValidatorKeeper {
    /// The yield that `queue`'s two newest snapshots show at week `current_week_index`; `None`
    /// when the validator is stale, lacks a snapshot from the week before, or has a zero
    /// stake-unit supply.
    pub fn get_validator_apy(queue: &Vec<StakeData>, current_week_index: u64) -> (r: Result<
        Option<Decimal>,
        LendError,
    >)
        requires
            forall|k: int|
                0 <= k < queue@.len() ==> (#[trigger] queue@[k]).last_stake_epoch
                    >= BABYLON_START_EPOCH,
        ensures
            match validator_apy(queue@, current_week_index as int) {
                Ok(Some(v)) => r matches Ok(Some(d)) && d@ == v,
                Ok(None) => r == Ok::<Option<Decimal>, LendError>(None),
                Err(e) => r == Err::<Option<Decimal>, LendError>(e),
            },
    {
        if queue.len() < 2 {
            return Ok(None);
        }
        let latest = queue[0];
        let latest_week_index = Self::get_week_index(latest.last_stake_epoch);
        if latest_week_index != current_week_index {
            return Ok(None);
        }
        let previous = queue[1];
        let previous_week_index = Self::get_week_index(previous.last_stake_epoch);
        if latest_week_index == 0 || previous_week_index != latest_week_index - 1 {
            return Ok(None);
        }
        let latest_index = match latest.last_staked.checked_div(&latest.last_lsu) {
            Some(v) => v,
            None => return Ok(None),
        };
        let previous_index = match previous.last_staked.checked_div(&previous.last_lsu) {
            Some(v) => v,
            None => return Ok(None),
        };
        let delta_index = match latest_index.checked_sub(&previous_index) {
            Some(v) => v,
            None => return Ok(None),
        };
        if latest.last_stake_epoch < previous.last_stake_epoch {
            proof {
                lemma_week_index_monotone(
                    latest.last_stake_epoch as int,
                    previous.last_stake_epoch as int,
                );
            }
        }
        let delta_epoch = Decimal::from_u64(latest.last_stake_epoch - previous.last_stake_epoch);
        let scaled = match delta_index.checked_mul(&Decimal::from_u64(A_WEEK_EPOCHS)) {
            Some(v) => v,
            None => return Err(LendError::ArithmeticOverflow),
        };
        match scaled.checked_div(&delta_epoch) {
            Some(v) => Ok(Some(v)),
            None => Err(LendError::ArithmeticOverflow),
        }
    }

    /// The network's staking yield at `current_epoch`: the mean of the yields of the
    /// validators that have one, zero when none has.
    pub fn get_active_set_apy(&self, current_epoch: u64) -> (r: Result<Decimal, LendError>)
        requires
            self.wf(),
            current_epoch >= BABYLON_START_EPOCH,
        ensures
            match active_set_apy(self.series(), week_index(current_epoch as int)) {
                Ok(v) => r matches Ok(d) && d@ == v,
                Err(e) => r == Err::<Decimal, LendError>(e),
            },
    {
        let current_week_index = Self::get_week_index(current_epoch);
        let ghost m = self.series();
        let mut acc: Result<(Decimal, Decimal), LendError> = Ok((Decimal::zero(), Decimal::zero()));
        let mut i: usize = 0;
        while i < self.validator_map.len()
            invariant
                self.wf(),
                m == self.series(),
                current_week_index == week_index(current_epoch as int),
                i <= m.len(),
                m.len() == self.validator_map@.len(),
                match apy_totals(m.subrange(0, i as int), current_week_index as int) {
                    Ok((s, c)) => acc matches Ok((a, b)) && a@ == s && b@ == c,
                    Err(e) => acc == Err::<(Decimal, Decimal), LendError>(e),
                },
            decreases m.len() - i,
        {
            assert(m.subrange(0, i + 1).drop_last() =~= m.subrange(0, i as int));
            assert(m.subrange(0, i + 1).last() == m[i as int]);
            let queue = &self.validator_map[i].snapshots;
            assert(queue@ == m[i as int].1);
            assert forall|k: int| 0 <= k < queue@.len() implies (
            #[trigger] queue@[k]).last_stake_epoch >= BABYLON_START_EPOCH by {
                assert(m[i as int].1[k].last_stake_epoch >= BABYLON_START_EPOCH);
            }
            acc = match acc {
                Ok((sum, count)) => match Self::get_validator_apy(queue, current_week_index) {
                    Ok(Some(apy)) => match (sum.checked_add(&apy), count.checked_add(&Decimal::one())) {
                        (Some(s), Some(c)) => Ok((s, c)),
                        _ => Err(LendError::ArithmeticOverflow),
                    },
                    Ok(None) => Ok((sum, count)),
                    Err(e) => Err(e),
                },
                Err(e) => Err(e),
            };
            i = i + 1;
        }
        assert(m.subrange(0, m.len() as int) =~= m);
        let (sum, count) = acc?;
        if count.is_zero() {
            Ok(Decimal::zero())
        } else {
            match sum.checked_div(&count) {
                Some(v) => Ok(v),
                None => Err(LendError::ArithmeticOverflow),
            }
        }
    }
}

/// Two observations of a validator in the same week collapse into one snapshot, the later
/// one. An observation in the following week is put in front of the first, and the pair then
/// gives a yield unless a stake-unit supply is zero or the index growth does not fit. An
/// observation after a skipped week is put in front as well, but gives no yield: its week
/// has no snapshot from the week before.
pub proof fn lemma_weekly_collapse(s1: StakeData, s2: StakeData, s3: StakeData)
    ensures
        week_index(s2.last_stake_epoch as int) == week_index(s1.last_stake_epoch as int)
            ==> recorded(recorded(Seq::empty(), s1), s2) == seq![s2],
        week_index(s2.last_stake_epoch as int) == week_index(s1.last_stake_epoch as int) + 1
            ==> recorded(recorded(Seq::empty(), s1), s2) == seq![s2, s1] && ((validator_apy(
            seq![s2, s1],
            week_index(s2.last_stake_epoch as int),
        ) == Ok::<Option<int>, LendError>(None)) <==> sub_opt(
            div_opt(Some(s2.last_staked@), Some(s2.last_lsu@)),
            div_opt(Some(s1.last_staked@), Some(s1.last_lsu@)),
        ) is None),
        week_index(s3.last_stake_epoch as int) > week_index(s2.last_stake_epoch as int) + 1
            ==> recorded(seq![s2, s1], s3) == seq![s3, s2, s1] && validator_apy(
            seq![s3, s2, s1],
            week_index(s3.last_stake_epoch as int),
        ) == Ok::<Option<int>, LendError>(None),
{
    assert(recorded(Seq::empty(), s1) == seq![s1]);
    assert(seq![s1].update(0, s2) =~= seq![s2]);
    assert(seq![s2] + seq![s1] =~= seq![s2, s1]);
    assert(seq![s3] + seq![s2, s1] =~= seq![s3, s2, s1]);
}

/// Whether `v` is in `list`.
fn listed(list: &Vec<Address>, v: &Address) -> (r: bool)
    ensures
        r == list@.contains(*v),
{
    let mut i: usize = 0;
    while i < list.len()
        invariant
            i <= list@.len(),
            forall|j: int| 0 <= j < i ==> list@[j] != *v,
        decreases list@.len() - i,
    {
        if list[i] == *v {
            assert(list@[i as int] == *v);
            return true;
        }
        i = i + 1;
    }
    false
}

impl ValidatorKeeper {
    /// The validators whose stake a log at this point reads, each once: the tracked ones
    /// not in `remove_validator_list`, in order, then those of `add_validator_list` not among
    /// them. A validator both removed and added is read again, as a new one.
    pub fn validators_to_observe(
        &self,
        add_validator_list: &Vec<Address>,
        remove_validator_list: &Vec<Address>,
    ) -> (r: Vec<Address>)
        requires
            self.wf(),
        ensures
            forall|v: Address|
                r@.contains(v) <==> ((tracks(self.series(), v) && !remove_validator_list@.contains(
                    v,
                )) || add_validator_list@.contains(v)),
            forall|a: int, b: int| 0 <= a < b < r@.len() ==> r@[a] != r@[b],
    {
        let ghost m = self.series();
        let mut r: Vec<Address> = Vec::new();
        let mut i: usize = 0;
        while i < self.validator_map.len()
            invariant
                self.wf(),
                m == self.series(),
                m.len() == self.validator_map@.len(),
                i <= m.len(),
                forall|x: int|
                    #![trigger r@[x]]
                    0 <= x < r@.len() ==> exists|k: int|
                        0 <= k < i && (#[trigger] m[k]).0 == r@[x]
                            && !remove_validator_list@.contains(r@[x]),
                forall|k: int|
                    0 <= k < i && !remove_validator_list@.contains((#[trigger] m[k]).0)
                        ==> r@.contains(m[k].0),
                forall|a: int, b: int| 0 <= a < b < r@.len() ==> r@[a] != r@[b],
            decreases m.len() - i,
        {
            let v = self.validator_map[i].validator;
            assert(v == m[i as int].0);
            if !listed(remove_validator_list, &v) {
                assert forall|x: int| 0 <= x < r@.len() implies r@[x] != v by {
                    let k = choose|k: int|
                        0 <= k < i && (#[trigger] m[k]).0 == r@[x]
                            && !remove_validator_list@.contains(r@[x]);
                    assert(m[k].0 != m[i as int].0);
                }
                let ghost old_r = r@;
                r.push(v);
                assert forall|k: int|
                    0 <= k < i + 1 && !remove_validator_list@.contains((#[trigger] m[k]).0)
                        implies r@.contains(m[k].0) by {
                    if k < i {
                        let x = choose|x: int| 0 <= x < old_r.len() && old_r[x] == m[k].0;
                        assert(r@[x] == m[k].0);
                    } else {
                        assert(r@[old_r.len() as int] == m[k].0);
                    }
                }
                assert forall|x: int|
                    #![trigger r@[x]]
                    0 <= x < r@.len() implies exists|k: int|
                        0 <= k < i + 1 && (#[trigger] m[k]).0 == r@[x]
                            && !remove_validator_list@.contains(r@[x]) by {
                    if x < old_r.len() {
                        let k = choose|k: int|
                            0 <= k < i && (#[trigger] m[k]).0 == old_r[x]
                                && !remove_validator_list@.contains(old_r[x]);
                        assert(m[k].0 == r@[x]);
                    } else {
                        assert(m[i as int].0 == r@[x]);
                    }
                }
            }
            i = i + 1;
        }
        let ghost kept = r@;
        assert forall|v: Address|
            kept.contains(v) <==> (tracks(m, v) && !remove_validator_list@.contains(v)) by {
            if kept.contains(v) {
                let x = choose|x: int| 0 <= x < kept.len() && kept[x] == v;
                let k = choose|k: int|
                    0 <= k < m.len() && (#[trigger] m[k]).0 == kept[x]
                        && !remove_validator_list@.contains(kept[x]);
                assert(m[k].0 == v);
            }
            if tracks(m, v) && !remove_validator_list@.contains(v) {
                let k = choose|k: int| 0 <= k < m.len() && m[k].0 == v;
                assert(!remove_validator_list@.contains(m[k].0));
            }
        }
        let mut j: usize = 0;
        while j < add_validator_list.len()
            invariant
                j <= add_validator_list@.len(),
                forall|v: Address|
                    #![trigger r@.contains(v)]
                    r@.contains(v) <==> (kept.contains(v) || exists|t: int|
                        0 <= t < j && add_validator_list@[t] == v),
                forall|a: int, b: int| 0 <= a < b < r@.len() ==> r@[a] != r@[b],
            decreases add_validator_list@.len() - j,
        {
            let v = add_validator_list[j];
            let ghost old_r = r@;
            assert(forall|w: Address|
                #![trigger old_r.contains(w)]
                old_r.contains(w) <==> (kept.contains(w) || exists|t: int|
                    0 <= t < j && add_validator_list@[t] == w));
            if !listed(&r, &v) {
                r.push(v);
                assert forall|w: Address|
                    #![trigger r@.contains(w)]
                    r@.contains(w) <==> (kept.contains(w) || exists|t: int|
                        0 <= t < j + 1 && add_validator_list@[t] == w) by {
                    if r@.contains(w) {
                        let x = choose|x: int| 0 <= x < r@.len() && r@[x] == w;
                        if x < old_r.len() {
                            assert(old_r[x] == w);
                            assert(old_r.contains(w));
                        } else {
                            assert(add_validator_list@[j as int] == w);
                        }
                    }
                    if exists|t: int| 0 <= t < j + 1 && add_validator_list@[t] == w {
                        let t = choose|t: int| 0 <= t < j + 1 && add_validator_list@[t] == w;
                        if t == j {
                            assert(r@[old_r.len() as int] == w);
                        } else {
                            assert(exists|t2: int| 0 <= t2 < j && add_validator_list@[t2] == w);
                            assert(old_r.contains(w));
                            let x = choose|x: int| 0 <= x < old_r.len() && old_r[x] == w;
                            assert(r@[x] == w);
                        }
                    }
                    if kept.contains(w) {
                        assert(old_r.contains(w));
                        let x = choose|x: int| 0 <= x < old_r.len() && old_r[x] == w;
                        assert(r@[x] == w);
                    }
                }
            } else {
                assert forall|w: Address|
                    #![trigger r@.contains(w)]
                    r@.contains(w) <==> (kept.contains(w) || exists|t: int|
                        0 <= t < j + 1 && add_validator_list@[t] == w) by {
                    if exists|t: int| 0 <= t < j + 1 && add_validator_list@[t] == w {
                        let t = choose|t: int| 0 <= t < j + 1 && add_validator_list@[t] == w;
                        if t < j {
                            assert(exists|t2: int| 0 <= t2 < j && add_validator_list@[t2] == w);
                        } else {
                            assert(w == v);
                        }
                    }
                    if r@.contains(w) {
                        if !kept.contains(w) {
                            let t = choose|t: int| 0 <= t < j && add_validator_list@[t] == w;
                            assert(0 <= t < j + 1 && add_validator_list@[t] == w);
                        }
                    }
                }
            }
            j = j + 1;
        }
        assert forall|v: Address|
            add_validator_list@.contains(v) <==> exists|t: int|
                0 <= t < add_validator_list@.len() && add_validator_list@[t] == v by {}
        r
    }
}

/// Tracked validators are distinct; each has between one and a year of snapshots, all taken
/// from the start epoch on.
pub open spec fn series_wf(m: Seq<(Address, Seq<StakeData>)>) -> bool {
    &&& forall|i: int, j: int| 0 <= i < j < m.len() ==> (#[trigger] m[i]).0 != (#[trigger] m[j]).0
    &&& forall|i: int| 0 <= i < m.len() ==> 1 <= (#[trigger] m[i]).1.len() <= RESERVE_WEEKS
    &&& forall|i: int, k: int|
        0 <= i < m.len() && 0 <= k < m[i].1.len() ==> (#[trigger] m[i].1[k]).last_stake_epoch
            >= BABYLON_START_EPOCH
}

} // verus!
