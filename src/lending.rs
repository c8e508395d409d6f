use vstd::prelude::*;
use crate::address::{Address, Tokens};
use crate::decimal::{add_opt, div_opt, mul_opt, opt_view, scale, sub_opt, Decimal};
use crate::error::LendError;
use crate::interest::{DefInterestModel, InterestModel};
use crate::utils::{assert_resource, assert_vault_amount, floor};

verus! {

/// Epochs in one year of the lending clock.
pub const EPOCH_OF_YEAR: u64 = 15017;

/// The decimal holding `v` attos.
pub open spec fn dec(v: int) -> Decimal {
    Decimal { attos: v as i128 }
}

/// The fraction of a year that `delta` epochs make.
pub open spec fn years(delta: int) -> Option<int> {
    div_opt(Some(delta * scale()), Some(EPOCH_OF_YEAR as int * scale()))
}

/// `index * (1 + rate * years)`, the index grown at `rate` for `years`.
pub open spec fn grown(index: int, rate: int, years: Option<int>) -> Option<int> {
    mul_opt(Some(index), add_opt(Some(scale()), mul_opt(Some(rate), years)))
}

/// The pooled stable book `(amount, weighted rate)` after lending `amount` more at `rate`.
pub open spec fn stable_book_after(book_amount: int, book_rate: int, amount: int, rate: int) -> Option<
    (int, int),
> {
    let new_amount = add_opt(Some(book_amount), Some(amount));
    let new_rate = div_opt(
        add_opt(mul_opt(Some(book_amount), Some(book_rate)), mul_opt(Some(amount), Some(rate))),
        new_amount,
    );
    match (new_amount, new_rate) {
        (Some(a), Some(r)) => Some((a, r)),
        _ => None,
    }
}

/// A lending pool over one underlying resource.
#[derive(Clone, Copy, Debug, PartialEq, Eq, Structural)]
pub struct LendResourcePool {
    pub interest_model_cmp: DefInterestModel,
    pub interest_model: InterestModel,
    pub underlying_token: Address,
    pub deposit_share_token: Address,
    /// Underlying tokens held and not lent out.
    pub vault_balance: Decimal,
    /// Deposit shares in circulation.
    pub deposit_share_supply: Decimal,
    pub insurance_balance: Decimal,
    pub deposit_index: Decimal,
    pub loan_index: Decimal,
    pub last_update: u64,
    pub insurance_ratio: Decimal,
    pub deposit_interest_rate: Decimal,
    pub variable_loan_interest_rate: Decimal,
    pub variable_loan_share_quantity: Decimal,
    pub stable_loan_interest_rate: Decimal,
    pub stable_loan_amount: Decimal,
    pub stable_loan_last_update: u64,
}

impl LendResourcePool {
    pub open spec fn wf(self) -> bool {
        &&& self.vault_balance@ >= 0
        &&& self.stable_loan_amount@ >= 0
        &&& 0 <= self.insurance_ratio@ < scale()
    }

    /// The deposit index as it stands at `epoch`, accrued at the cached deposit rate.
    pub open spec fn current_deposit_index(self, epoch: int) -> Option<int> {
        if epoch == self.last_update {
            Some(self.deposit_index@)
        } else {
            grown(self.deposit_index@, self.deposit_interest_rate@, years(epoch - self.last_update))
        }
    }

    /// The loan index as it stands at `epoch`, accrued at the cached variable rate.
    pub open spec fn current_loan_index(self, epoch: int) -> Option<int> {
        if epoch == self.last_update {
            Some(self.loan_index@)
        } else {
            grown(
                self.loan_index@,
                self.variable_loan_interest_rate@,
                years(epoch - self.last_update),
            )
        }
    }

    /// The pool with its indices advanced to `epoch` and the interest spread moved into the
    /// insurance balance.
    pub open spec fn refreshed(self, epoch: int) -> Option<Self> {
        if epoch == self.last_update {
            Some(self)
        } else {
            let cs = self.current_deposit_index(epoch);
            let cb = self.current_loan_index(epoch);
            let variable_interest = mul_opt(
                Some(self.variable_loan_share_quantity@),
                sub_opt(cb, Some(self.loan_index@)),
            );
            let stable_interest = mul_opt(
                mul_opt(Some(self.stable_loan_amount@), Some(self.stable_loan_interest_rate@)),
                years(epoch - self.last_update),
            );
            let supply_interest = mul_opt(
                Some(self.deposit_share_supply@),
                sub_opt(cs, Some(self.deposit_index@)),
            );
            let insurance = add_opt(
                Some(self.insurance_balance@),
                sub_opt(add_opt(variable_interest, stable_interest), supply_interest),
            );
            match (cs, cb, insurance) {
                (Some(d), Some(l), Some(i)) => Some(
                    Self {
                        deposit_index: dec(d),
                        loan_index: dec(l),
                        insurance_balance: dec(i),
                        last_update: epoch as u64,
                        ..self
                    },
                ),
                _ => None,
            }
        }
    }

    /// Utilization, variable rate and deposit rate for the given supply, variable debt and
    /// stable debt.
    pub open spec fn rate_split(self, supply: int, variable_borrow: int, stable_borrow: int) -> Option<
        (int, int, int),
    > {
        let debt = add_opt(Some(variable_borrow), Some(stable_borrow));
        let u = if supply == 0 {
            Some(0int)
        } else {
            div_opt(debt, Some(supply))
        };
        let variable_rate = match u {
            Some(x) => self.interest_model_cmp.variable_rate(x, self.interest_model),
            None => None,
        };
        let overall = match debt {
            Some(d) => if d == 0 {
                Some(0int)
            } else {
                div_opt(
                    add_opt(
                        mul_opt(Some(variable_borrow), variable_rate),
                        mul_opt(Some(stable_borrow), Some(self.stable_loan_interest_rate@)),
                    ),
                    debt,
                )
            },
            None => None,
        };
        let interest = mul_opt(
            mul_opt(debt, overall),
            sub_opt(Some(scale()), Some(self.insurance_ratio@)),
        );
        let supply_rate = match interest {
            Some(i) => if supply == 0 {
                Some(0int)
            } else {
                div_opt(Some(i), Some(supply))
            },
            None => None,
        };
        match (u, variable_rate, supply_rate) {
            (Some(x), Some(v), Some(s)) => Some((x, v, s)),
            _ => None,
        }
    }

    /// The pool with its cached rates recomputed from its current balances.
    pub open spec fn repriced(self) -> Option<Self> {
        let supply = mul_opt(Some(self.deposit_share_supply@), Some(self.deposit_index@));
        let variable_borrow = mul_opt(
            Some(self.variable_loan_share_quantity@),
            Some(self.loan_index@),
        );
        match (supply, variable_borrow) {
            (Some(s), Some(v)) => match self.rate_split(s, v, self.stable_loan_amount@) {
                Some((_, vr, sr)) => Some(
                    Self {
                        deposit_interest_rate: dec(sr),
                        variable_loan_interest_rate: dec(vr),
                        ..self
                    },
                ),
                None => None,
            },
            _ => None,
        }
    }

    fn years_since(&self, current_epoch: u64) -> (r: Option<Decimal>)
        requires
            current_epoch >= self.last_update,
        ensures
            opt_view(r) == years(current_epoch - self.last_update),
    {
        let delta = Decimal::from_u64(current_epoch - self.last_update);
        delta.checked_div(&Decimal::from_u64(EPOCH_OF_YEAR))
    }

    fn grow(index: &Decimal, rate: &Decimal, years: &Decimal) -> (r: Option<Decimal>)
        ensures
            opt_view(r) == grown(index@, rate@, Some(years@)),
    {
        let delta_rate = rate.checked_mul(years)?;
        let factor = Decimal::one().checked_add(&delta_rate)?;
        index.checked_mul(&factor)
    }

    /// The deposit and loan indices as they stand at `current_epoch`.
    pub fn get_current_index(&self, current_epoch: u64) -> (r: Result<(Decimal, Decimal), LendError>)
        requires
            current_epoch >= self.last_update,
        ensures
            r matches Ok((d, l)) ==> self.current_deposit_index(current_epoch as int) == Some(d@)
                && self.current_loan_index(current_epoch as int) == Some(l@),
            r matches Err(e) ==> e == LendError::ArithmeticOverflow && (self.current_deposit_index(
                current_epoch as int,
            ) is None || self.current_loan_index(current_epoch as int) is None),
    {
        if current_epoch == self.last_update {
            return Ok((self.deposit_index, self.loan_index));
        }
        let years = match self.years_since(current_epoch) {
            Some(y) => y,
            None => return Err(LendError::ArithmeticOverflow),
        };
        let loan = Self::grow(&self.loan_index, &self.variable_loan_interest_rate, &years);
        let deposit = Self::grow(&self.deposit_index, &self.deposit_interest_rate, &years);
        match (deposit, loan) {
            (Some(d), Some(l)) => Ok((d, l)),
            _ => Err(LendError::ArithmeticOverflow),
        }
    }

    fn accrued(&self, current_epoch: u64) -> (r: Option<Self>)
        requires
            current_epoch >= self.last_update,
        ensures
            r == self.refreshed(current_epoch as int),
    {
        if current_epoch == self.last_update {
            return Some(*self);
        }
        let (supply_index, loan_index) = match self.get_current_index(current_epoch) {
            Ok(p) => p,
            Err(_) => return None,
        };
        let years = self.years_since(current_epoch)?;
        let variable_interest = self.variable_loan_share_quantity.checked_mul(
            &loan_index.checked_sub(&self.loan_index)?,
        )?;
        let stable_interest = self.stable_loan_amount.checked_mul(
            &self.stable_loan_interest_rate,
        )?.checked_mul(&years)?;
        let supply_interest = self.deposit_share_supply.checked_mul(
            &supply_index.checked_sub(&self.deposit_index)?,
        )?;
        let spread = variable_interest.checked_add(&stable_interest)?.checked_sub(
            &supply_interest,
        )?;
        let insurance = self.insurance_balance.checked_add(&spread)?;
        Some(
            Self {
                deposit_index: supply_index,
                loan_index,
                insurance_balance: insurance,
                last_update: current_epoch,
                ..*self
            },
        )
    }

    /// Advances the indices to `current_epoch`, moving the interest spread into the
    /// insurance balance.
    fn update_index(&mut self, current_epoch: u64) -> (r: Result<(), LendError>)
        requires
            current_epoch >= old(self).last_update,
        ensures
            match old(self).refreshed(current_epoch as int) {
                Some(p) => r is Ok && *final(self) == p,
                None => r == Err::<(), LendError>(LendError::ArithmeticOverflow) && *final(self)
                    == *old(self),
            },
    {
        match self.accrued(current_epoch) {
            Some(p) => {
                *self = p;
                Ok(())
            },
            None => Err(LendError::ArithmeticOverflow),
        }
    }

    fn split_rates(&self, supply: Decimal, variable_borrow: Decimal, stable_borrow: Decimal) -> (r:
        Option<(Decimal, Decimal, Decimal)>)
        ensures
            match self.rate_split(supply@, variable_borrow@, stable_borrow@) {
                Some((u, v, s)) => r matches Some((ru, rv, rs)) && ru@ == u && rv@ == v && rs@
                    == s,
                None => r is None,
            },
    {
        let total_debt = variable_borrow.checked_add(&stable_borrow);
        let borrow_ratio = if supply.is_zero() {
            Some(Decimal::zero())
        } else {
            match total_debt {
                Some(d) => d.checked_div(&supply),
                None => None,
            }
        };
        let total_debt = total_debt?;
        let borrow_ratio = borrow_ratio?;
        let variable_rate = match self.interest_model_cmp.get_variable_interest_rate(
            borrow_ratio,
            self.interest_model,
        ) {
            Ok(v) => v,
            Err(_) => return None,
        };
        let overall_borrow_rate = if total_debt.is_zero() {
            Decimal::zero()
        } else {
            let a = variable_borrow.checked_mul(&variable_rate)?;
            let b = stable_borrow.checked_mul(&self.stable_loan_interest_rate)?;
            a.checked_add(&b)?.checked_div(&total_debt)?
        };
        let kept = Decimal::one().checked_sub(&self.insurance_ratio)?;
        let interest = total_debt.checked_mul(&overall_borrow_rate)?.checked_mul(&kept)?;
        let supply_rate = if supply.is_zero() {
            Decimal::zero()
        } else {
            interest.checked_div(&supply)?
        };
        Some((borrow_ratio, variable_rate, supply_rate))
    }

    /// Recomputes the cached deposit and variable rates from the current balances.
    fn update_interest_rate(&mut self) -> (r: Result<(), LendError>)
        ensures
            match old(self).repriced() {
                Some(p) => r is Ok && *final(self) == p,
                None => r == Err::<(), LendError>(LendError::ArithmeticOverflow) && *final(self)
                    == *old(self),
            },
    {
        let supply = match self.deposit_share_supply.checked_mul(&self.deposit_index) {
            Some(v) => v,
            None => return Err(LendError::ArithmeticOverflow),
        };
        let variable_borrow = match self.variable_loan_share_quantity.checked_mul(
            &self.loan_index,
        ) {
            Some(v) => v,
            None => return Err(LendError::ArithmeticOverflow),
        };
        match self.split_rates(supply, variable_borrow, self.stable_loan_amount) {
            Some((_, variable_rate, supply_rate)) => {
                self.deposit_interest_rate = supply_rate;
                self.variable_loan_interest_rate = variable_rate;
                Ok(())
            },
            None => Err(LendError::ArithmeticOverflow),
        }
    }
}


/// `Ok` with the value, or the overflow error when there is none.
pub open spec fn or_overflow<T>(o: Option<T>) -> Result<T, LendError> {
    match o {
        Some(v) => Ok(v),
        None => Err(LendError::ArithmeticOverflow),
    }
}

/// Whether the vault balance `vault` can pay out `amount`.
pub open spec fn can_pay(vault: int, amount: int) -> bool {
    vault >= amount
}

/// The settlement of one stable loan: `(applied, principal_repaid, book_amount, book_rate)`,
/// where `applied` is the part of `repay` taken, `principal_repaid` is negative when unpaid
/// interest is added to the principal, and the last two give the pooled stable book after.
pub open spec fn stable_settlement(
    book_amount: int,
    previous_debt: int,
    repay: int,
    loan_amount: int,
    rate: int,
    interest: int,
) -> Option<(int, int, int, int)> {
    if repay < interest {
        let outstanding = sub_opt(Some(interest), Some(repay));
        let repaid = mul_opt(outstanding, Some(-scale()));
        let new_amount = add_opt(Some(book_amount), outstanding);
        let new_rate = div_opt(
            add_opt(Some(previous_debt), mul_opt(outstanding, Some(rate))),
            new_amount,
        );
        match (repaid, new_amount, new_rate) {
            (Some(p), Some(a), Some(r)) => Some((repay, p, a, r)),
            _ => None,
        }
    } else {
        match add_opt(Some(loan_amount), Some(interest)) {
            Some(total) => {
                let applied = if repay >= total {
                    total
                } else {
                    repay
                };
                let repaid = if repay >= total {
                    Some(loan_amount)
                } else {
                    sub_opt(Some(repay), Some(interest))
                };
                match repaid {
                    Some(rp) => if rp >= book_amount {
                        Some((applied, rp, 0, 0))
                    } else {
                        let new_amount = sub_opt(Some(book_amount), Some(rp));
                        let new_rate = div_opt(
                            sub_opt(Some(previous_debt), mul_opt(Some(rp), Some(rate))),
                            new_amount,
                        );
                        match (new_amount, new_rate) {
                            (Some(a), Some(r)) => Some((applied, rp, a, r)),
                            _ => None,
                        }
                    },
                    None => None,
                }
            },
            None => None,
        }
    }
}

/// `ceil(n / m)` for `n >= 0` and `m > 0`.
pub open spec fn ceil_div(n: int, m: int) -> int {
    (n + m - 1) / m
}

/// Interest owed on a stable loan of `loan_amount` at `rate` over `delta` epochs, rounded up to
/// the next atto: `ceil(loan_amount * rate * delta / EPOCH_OF_YEAR)`. `None` when the product
/// of principal and rate, or the interest itself, does not fit.
pub open spec fn stable_interest(loan_amount: int, rate: int, delta: int) -> Option<int> {
    match mul_opt(Some(loan_amount), Some(rate)) {
        Some(_) => crate::decimal::checked(
            ceil_div(loan_amount * rate * delta, EPOCH_OF_YEAR as int * scale()),
        ),
        None => None,
    }
}

/// `ceil_div` never charges less than the exact quotient, and less than one unit more.
pub proof fn lemma_ceil_div_bounds(n: int, m: int)
    requires
        n >= 0,
        m > 0,
    ensures
        ceil_div(n, m) * m >= n,
        ceil_div(n, m) * m < n + m,
{
    vstd::arithmetic::div_mod::lemma_fundamental_div_mod(n + m - 1, m);
    vstd::arithmetic::div_mod::lemma_mod_bound(n + m - 1, m);
    assert(m * ((n + m - 1) / m) == ceil_div(n, m) * m) by (nonlinear_arith);
}

/// Stable-loan interest is never undercharged: it is at least the exact
/// `loan_amount * rate * delta / EPOCH_OF_YEAR`, and less than one atto above it.
pub proof fn lemma_stable_interest_rounds_up(loan_amount: Decimal, rate: Decimal, delta: u64)
    requires
        loan_amount@ >= 0,
        rate@ >= 0,
    ensures
        stable_interest(loan_amount@, rate@, delta as int) matches Some(i) ==> i * (
        EPOCH_OF_YEAR as int * scale()) >= loan_amount@ * rate@ * delta && i * (EPOCH_OF_YEAR as int
            * scale()) < loan_amount@ * rate@ * delta + EPOCH_OF_YEAR as int * scale(),
{
    assert(loan_amount@ * rate@ * delta >= 0) by (nonlinear_arith)
        requires
            loan_amount@ >= 0,
            rate@ >= 0,
            delta >= 0,
    ;
    lemma_ceil_div_bounds(loan_amount@ * rate@ * delta, EPOCH_OF_YEAR as int * scale());
}

/// With `n == t * m + rest` and `0 <= rest < m`, the rounded-up quotient is `t`, plus one
/// when `rest` is not zero.
proof fn lemma_ceil_div_split(n: int, m: int, t: int, rest: int)
    requires
        m > 0,
        0 <= rest < m,
        n == t * m + rest,
    ensures
        ceil_div(n, m) == if rest == 0 { t } else { t + 1 },
{
    if rest == 0 {
        vstd::arithmetic::div_mod::lemma_fundamental_div_mod_converse(n + m - 1, m, t, m - 1);
    } else {
        assert(n + m - 1 == (t + 1) * m + (rest - 1)) by (nonlinear_arith)
            requires
                n == t * m + rest,
        ;
        vstd::arithmetic::div_mod::lemma_fundamental_div_mod_converse(
            n + m - 1,
            m,
            t + 1,
            rest - 1,
        );
    }
}

/// The interest of a stable loan, rounded up to the next atto; see `stable_interest`.
fn stable_loan_interest(loan_amount: Decimal, rate: Decimal, delta: u64) -> (r: Option<Decimal>)
    requires
        loan_amount@ >= 0,
        rate@ >= 0,
    ensures
        opt_view(r) == stable_interest(loan_amount@, rate@, delta as int),
        r matches Some(i) ==> i@ * (EPOCH_OF_YEAR as int * scale()) >= loan_amount@ * rate@
            * delta && i@ * (EPOCH_OF_YEAR as int * scale()) < loan_amount@ * rate@ * delta
            + EPOCH_OF_YEAR as int * scale(),
{
    let q1 = loan_amount.checked_mul(&rate)?;
    let s: u128 = 1_000_000_000_000_000_000;
    let e: u128 = EPOCH_OF_YEAR as u128;
    let d: u128 = delta as u128;
    let la: u128 = loan_amount.attos as u128;
    let ra: u128 = rate.attos as u128;
    let ghost big_a = loan_amount@;
    let ghost big_r = rate@;
    let ghost sc = scale();
    let ghost em = EPOCH_OF_YEAR as int * scale();
    let ghost n = big_a * big_r * (delta as int);
    assert((la % s) * (ra % s) < s * s) by (nonlinear_arith)
        requires
            la % s < s,
            ra % s < s,
            s == 1_000_000_000_000_000_000u128,
    ;
    let r1: u128 = ((la % s) * (ra % s)) % s;
    let q: u128 = q1.attos as u128;
    let a: u128 = q / e;
    let b: u128 = q % e;
    assert(r1 * d < s * 18446744073709551616) by (nonlinear_arith)
        requires
            r1 < s,
            d < 18446744073709551616u128,
    ;
    let rd: u128 = r1 * d;
    let g: u128 = rd / s;
    let h: u128 = rd % s;
    assert(b * d < e * 18446744073709551616) by (nonlinear_arith)
        requires
            b < e,
            d < 18446744073709551616u128,
    ;
    let y: u128 = b * d + g;
    let k: u128 = y / e;
    let m: u128 = y % e;
    let carry: u128 = if h != 0 || m != 0 {
        1
    } else {
        0
    };
    proof {
        assert(big_a * big_r >= 0) by (nonlinear_arith)
            requires
                big_a >= 0,
                big_r >= 0,
        ;
        assert(q == (big_a * big_r) / sc);
        vstd::arithmetic::div_mod::lemma_mul_mod_noop(big_a, big_r, sc);
        assert(r1 == (big_a * big_r) % sc);
        vstd::arithmetic::div_mod::lemma_fundamental_div_mod(big_a * big_r, sc);
        assert(n == (a * d + k) * em + (sc * m + h)) by (nonlinear_arith)
            requires
                n == big_a * big_r * d,
                big_a * big_r == sc * q + r1,
                q == a * 15017 + b,
                rd == r1 * d,
                rd == g * sc + h,
                y == b * d + g,
                y == k * 15017 + m,
                em == 15017 * sc,
        ;
        lemma_ceil_div_split(n, em, a * d + k, sc * m + h);
        assert(ceil_div(n, em) == a * d + k + carry);
        lemma_ceil_div_bounds(n, em);
        assert(a * d + k + carry >= a * d) by (nonlinear_arith)
            requires
                k >= 0,
                carry >= 0,
        ;
    }
    let whole = match a.checked_mul(d) {
        Some(v) => v,
        None => return None,
    };
    let total = match whole.checked_add(k) {
        Some(v) => match v.checked_add(carry) {
            Some(t) => t,
            None => return None,
        },
        None => return None,
    };
    if total > 170141183460469231731687303715884105727u128 {
        return None;
    }
    Some(Decimal { attos: total as i128 })
}

impl LendResourcePool {
    /// Outcome of depositing `amount`: the pool after, and the deposit shares minted.
    pub open spec fn deposit_outcome(self, tokens: Tokens, epoch: int) -> Result<(Self, int), LendError> {
        if tokens.resource != self.underlying_token {
            Err(LendError::WrongAsset)
        } else {
            match self.refreshed(epoch) {
                Some(p) => {
                    let minted = div_opt(Some(tokens.amount@), Some(p.deposit_index@));
                    let vault = add_opt(Some(p.vault_balance@), Some(tokens.amount@));
                    let supply = add_opt(Some(p.deposit_share_supply@), minted);
                    match (minted, vault, supply) {
                        (Some(m), Some(v), Some(s)) => match (Self {
                            vault_balance: dec(v),
                            deposit_share_supply: dec(s),
                            ..p
                        }).repriced() {
                            Some(q) => Ok((q, m)),
                            None => Err(LendError::ArithmeticOverflow),
                        },
                        _ => Err(LendError::ArithmeticOverflow),
                    }
                },
                None => Err(LendError::ArithmeticOverflow),
            }
        }
    }

    /// Outcome of redeeming deposit shares: the pool after, and the underlying paid out.
    pub open spec fn withdraw_outcome(self, tokens: Tokens, epoch: int) -> Result<(Self, int), LendError> {
        if tokens.resource != self.deposit_share_token {
            Err(LendError::WrongAsset)
        } else if tokens.amount@ > self.deposit_share_supply@ {
            Err(LendError::InvalidState)
        } else {
            match self.refreshed(epoch) {
                Some(p) => match mul_opt(Some(tokens.amount@), Some(p.deposit_index@)) {
                    Some(w) => if !can_pay(p.vault_balance@, w) {
                        Err(LendError::InsufficientLiquidity)
                    } else {
                        match sub_opt(Some(p.vault_balance@), Some(w)) {
                            Some(v) => match (Self {
                                vault_balance: dec(v),
                                deposit_share_supply: dec(
                                    p.deposit_share_supply@ - tokens.amount@,
                                ),
                                ..p
                            }).repriced() {
                                Some(q) => Ok((q, w)),
                                None => Err(LendError::ArithmeticOverflow),
                            },
                            None => Err(LendError::ArithmeticOverflow),
                        }
                    },
                    None => Err(LendError::ArithmeticOverflow),
                },
                None => Err(LendError::ArithmeticOverflow),
            }
        }
    }

    /// Outcome of a variable-rate loan of `amount`: the pool after.
    pub open spec fn borrow_variable_outcome(self, amount: int, epoch: int) -> Result<Self, LendError> {
        if !can_pay(self.vault_balance@, amount) {
            Err(LendError::InsufficientLiquidity)
        } else {
            match self.refreshed(epoch) {
                Some(p) => match add_opt(
                    Some(p.variable_loan_share_quantity@),
                    div_opt(Some(amount), Some(p.loan_index@)),
                ) {
                    Some(shares) => or_overflow(
                        (Self {
                            vault_balance: dec(p.vault_balance@ - amount),
                            variable_loan_share_quantity: dec(shares),
                            ..p
                        }).repriced(),
                    ),
                    None => Err(LendError::ArithmeticOverflow),
                },
                None => Err(LendError::ArithmeticOverflow),
            }
        }
    }

    /// Outcome of a stable-rate loan of `amount` at `rate`: the pool after.
    pub open spec fn borrow_stable_outcome(self, amount: int, rate: int, epoch: int) -> Result<Self, LendError> {
        if !can_pay(self.vault_balance@, amount) {
            Err(LendError::InsufficientLiquidity)
        } else {
            match self.refreshed(epoch) {
                Some(p) => match stable_book_after(
                    p.stable_loan_amount@,
                    p.stable_loan_interest_rate@,
                    amount,
                    rate,
                ) {
                    Some((a, r)) => or_overflow(
                        (Self {
                            vault_balance: dec(p.vault_balance@ - amount),
                            stable_loan_amount: dec(a),
                            stable_loan_interest_rate: dec(r),
                            ..p
                        }).repriced(),
                    ),
                    None => Err(LendError::ArithmeticOverflow),
                },
                None => Err(LendError::ArithmeticOverflow),
            }
        }
    }

    /// Outcome of repaying variable-rate debt: the pool after, and the loan shares retired.
    pub open spec fn repay_variable_outcome(self, tokens: Tokens, epoch: int) -> Result<(Self, int), LendError> {
        if tokens.resource != self.underlying_token {
            Err(LendError::WrongAsset)
        } else {
            match self.refreshed(epoch) {
                Some(p) => {
                    let retired = div_opt(Some(tokens.amount@), Some(p.loan_index@));
                    let left = sub_opt(Some(p.variable_loan_share_quantity@), retired);
                    let vault = add_opt(Some(p.vault_balance@), Some(tokens.amount@));
                    match (retired, left, vault) {
                        (Some(s), Some(l), Some(v)) => if l < 0 {
                            Err(LendError::InvalidState)
                        } else {
                            match (Self {
                                vault_balance: dec(v),
                                variable_loan_share_quantity: dec(l),
                                ..p
                            }).repriced() {
                                Some(q) => Ok((q, s)),
                                None => Err(LendError::ArithmeticOverflow),
                            }
                        },
                        _ => Err(LendError::ArithmeticOverflow),
                    }
                },
                None => Err(LendError::ArithmeticOverflow),
            }
        }
    }

    /// Outcome of repaying one stable loan: the pool after, and `(applied, principal_repaid,
    /// interest)`.
    pub open spec fn repay_stable_outcome(
        self,
        tokens: Tokens,
        loan_amount: int,
        rate: int,
        last_epoch_at: int,
        epoch: int,
    ) -> Result<(Self, (int, int, int)), LendError> {
        if tokens.resource != self.underlying_token {
            Err(LendError::WrongAsset)
        } else {
            match self.refreshed(epoch) {
                Some(p) => match (
                    stable_interest(loan_amount, rate, epoch - last_epoch_at),
                    mul_opt(Some(p.stable_loan_amount@), Some(p.stable_loan_interest_rate@)),
                ) {
                    (Some(i), Some(d)) => match stable_settlement(
                        p.stable_loan_amount@,
                        d,
                        tokens.amount@,
                        loan_amount,
                        rate,
                        i,
                    ) {
                        Some((applied, repaid, a, r)) => match add_opt(
                            Some(p.vault_balance@),
                            Some(applied),
                        ) {
                            Some(v) => match (Self {
                                vault_balance: dec(v),
                                stable_loan_amount: dec(a),
                                stable_loan_interest_rate: dec(r),
                                ..p
                            }).repriced() {
                                Some(q) => Ok((q, (applied, repaid, i))),
                                None => Err(LendError::ArithmeticOverflow),
                            },
                            None => Err(LendError::ArithmeticOverflow),
                        },
                        None => Err(LendError::ArithmeticOverflow),
                    },
                    _ => Err(LendError::ArithmeticOverflow),
                },
                None => Err(LendError::ArithmeticOverflow),
            }
        }
    }

    /// Deposits `bucket` and returns the deposit shares minted for it, rounded down.
    pub fn add_liquity(&mut self, bucket: Tokens, current_epoch: u64) -> (r: Result<Decimal, LendError>)
        requires
            old(self).wf(),
            bucket.amount@ >= 0,
            current_epoch >= old(self).last_update,
        ensures
            final(self).wf(),
            r is Ok && old(self).accrues_forward() ==> old(self).indices_rise_to(*final(self)),
            match old(self).deposit_outcome(bucket, current_epoch as int) {
                Ok((p, minted)) => r matches Ok(m) && m@ == minted && *final(self) == p,
                Err(e) => r == Err::<Decimal, LendError>(e) && *final(self) == *old(self),
            },
    {
        proof {
            if self.accrues_forward() {
                lemma_refresh_keeps_indices_rising(*self, current_epoch);
            }
        }
        assert_resource(&bucket.resource, &self.underlying_token)?;
        let mut p = *self;
        p.update_index(current_epoch)?;
        let mint_amount = match bucket.amount.checked_div(&p.deposit_index) {
            Some(v) => floor(v),
            None => return Err(LendError::ArithmeticOverflow),
        };
        let vault = match p.vault_balance.checked_add(&bucket.amount) {
            Some(v) => v,
            None => return Err(LendError::ArithmeticOverflow),
        };
        let supply = match p.deposit_share_supply.checked_add(&mint_amount) {
            Some(v) => v,
            None => return Err(LendError::ArithmeticOverflow),
        };
        p.vault_balance = vault;
        p.deposit_share_supply = supply;
        p.update_interest_rate()?;
        *self = p;
        Ok(mint_amount)
    }

    /// Burns the deposit shares in `bucket` and pays out their value at the current index.
    pub fn remove_liquity(&mut self, bucket: Tokens, current_epoch: u64) -> (r: Result<Decimal, LendError>)
        requires
            old(self).wf(),
            bucket.amount@ >= 0,
            current_epoch >= old(self).last_update,
        ensures
            final(self).wf(),
            r is Ok && old(self).accrues_forward() ==> old(self).indices_rise_to(*final(self)),
            match old(self).withdraw_outcome(bucket, current_epoch as int) {
                Ok((p, paid)) => r matches Ok(m) && m@ == paid && *final(self) == p,
                Err(e) => r == Err::<Decimal, LendError>(e) && *final(self) == *old(self),
            },
    {
        proof {
            if self.accrues_forward() {
                lemma_refresh_keeps_indices_rising(*self, current_epoch);
            }
        }
        assert_resource(&bucket.resource, &self.deposit_share_token)?;
        if self.deposit_share_supply.lt(&bucket.amount) {
            return Err(LendError::InvalidState);
        }
        let mut p = *self;
        p.update_index(current_epoch)?;
        let withdraw_amount = p.get_redemption_value(bucket.amount, current_epoch)?;
        assert_vault_amount(p.vault_balance, withdraw_amount)?;
        p.vault_balance = match p.vault_balance.checked_sub(&withdraw_amount) {
            Some(v) => v,
            None => return Err(LendError::ArithmeticOverflow),
        };
        p.deposit_share_supply = Decimal {
            attos: p.deposit_share_supply.attos - bucket.amount.attos,
        };
        p.update_interest_rate()?;
        *self = p;
        Ok(withdraw_amount)
    }

    /// Lends `borrow_amount` at the variable rate, recording it as loan shares at the
    /// current loan index, and returns the amount taken out of the vault.
    pub fn borrow_variable(&mut self, borrow_amount: Decimal, current_epoch: u64) -> (r: Result<
        Decimal,
        LendError,
    >)
        requires
            old(self).wf(),
            borrow_amount@ >= 0,
            current_epoch >= old(self).last_update,
        ensures
            final(self).wf(),
            borrow_amount@ > old(self).vault_balance@ ==> r == Err::<Decimal, LendError>(
                LendError::InsufficientLiquidity,
            ) && *final(self) == *old(self),
            r is Ok && old(self).accrues_forward() ==> old(self).indices_rise_to(*final(self)),
            match old(self).borrow_variable_outcome(borrow_amount@, current_epoch as int) {
                Ok(p) => r == Ok::<Decimal, LendError>(borrow_amount) && *final(self) == p,
                Err(e) => r == Err::<Decimal, LendError>(e) && *final(self) == *old(self),
            },
    {
        proof {
            if self.accrues_forward() {
                lemma_refresh_keeps_indices_rising(*self, current_epoch);
            }
        }
        assert_vault_amount(self.vault_balance, borrow_amount)?;
        let mut p = *self;
        p.update_index(current_epoch)?;
        let shares = match borrow_amount.checked_div(&p.loan_index) {
            Some(v) => v,
            None => return Err(LendError::ArithmeticOverflow),
        };
        let total = match p.variable_loan_share_quantity.checked_add(&shares) {
            Some(v) => v,
            None => return Err(LendError::ArithmeticOverflow),
        };
        p.variable_loan_share_quantity = total;
        p.vault_balance = Decimal { attos: p.vault_balance.attos - borrow_amount.attos };
        p.update_interest_rate()?;
        *self = p;
        Ok(borrow_amount)
    }

    /// Lends `borrow_amount` at `stable_rate`, folding it into the pooled stable book with a
    /// principal-weighted average rate, and returns the amount taken out of the vault.
    pub fn borrow_stable(&mut self, borrow_amount: Decimal, stable_rate: Decimal, current_epoch: u64) -> (r:
        Result<Decimal, LendError>)
        requires
            old(self).wf(),
            borrow_amount@ >= 0,
            current_epoch >= old(self).last_update,
        ensures
            final(self).wf(),
            r is Ok && old(self).accrues_forward() ==> old(self).indices_rise_to(*final(self)),
            match old(self).borrow_stable_outcome(
                borrow_amount@,
                stable_rate@,
                current_epoch as int,
            ) {
                Ok(p) => r == Ok::<Decimal, LendError>(borrow_amount) && *final(self) == p,
                Err(e) => r == Err::<Decimal, LendError>(e) && *final(self) == *old(self),
            },
    {
        proof {
            if self.accrues_forward() {
                lemma_refresh_keeps_indices_rising(*self, current_epoch);
            }
        }
        assert_vault_amount(self.vault_balance, borrow_amount)?;
        let mut p = *self;
        p.update_index(current_epoch)?;
        let new_amount = match p.stable_loan_amount.checked_add(&borrow_amount) {
            Some(v) => v,
            None => return Err(LendError::ArithmeticOverflow),
        };
        let weighted = match (
            p.stable_loan_amount.checked_mul(&p.stable_loan_interest_rate),
            borrow_amount.checked_mul(&stable_rate),
        ) {
            (Some(a), Some(b)) => a.checked_add(&b),
            _ => None,
        };
        let new_rate = match weighted {
            Some(w) => w.checked_div(&new_amount),
            None => None,
        };
        let new_rate = match new_rate {
            Some(v) => v,
            None => return Err(LendError::ArithmeticOverflow),
        };
        p.stable_loan_interest_rate = new_rate;
        p.stable_loan_amount = new_amount;
        p.vault_balance = Decimal { attos: p.vault_balance.attos - borrow_amount.attos };
        p.update_interest_rate()?;
        *self = p;
        Ok(borrow_amount)
    }

    /// Takes `repay_bucket` into the vault against variable-rate debt and returns the loan
    /// shares it retires. Refused when more shares would be retired than are outstanding.
    pub fn repay_variable(&mut self, repay_bucket: Tokens, current_epoch: u64) -> (r: Result<Decimal, LendError>)
        requires
            old(self).wf(),
            repay_bucket.amount@ >= 0,
            current_epoch >= old(self).last_update,
        ensures
            final(self).wf(),
            r is Ok && old(self).accrues_forward() ==> old(self).indices_rise_to(*final(self)),
            match old(self).repay_variable_outcome(repay_bucket, current_epoch as int) {
                Ok((p, retired)) => r matches Ok(m) && m@ == retired && *final(self) == p,
                Err(e) => r == Err::<Decimal, LendError>(e) && *final(self) == *old(self),
            },
    {
        proof {
            if self.accrues_forward() {
                lemma_refresh_keeps_indices_rising(*self, current_epoch);
            }
        }
        assert_resource(&repay_bucket.resource, &self.underlying_token)?;
        let mut p = *self;
        p.update_index(current_epoch)?;
        let loan_share = match repay_bucket.amount.checked_div(&p.loan_index) {
            Some(v) => v,
            None => return Err(LendError::ArithmeticOverflow),
        };
        let left = match p.variable_loan_share_quantity.checked_sub(&loan_share) {
            Some(v) => v,
            None => return Err(LendError::ArithmeticOverflow),
        };
        let vault = match p.vault_balance.checked_add(&repay_bucket.amount) {
            Some(v) => v,
            None => return Err(LendError::ArithmeticOverflow),
        };
        if left.lt(&Decimal::zero()) {
            return Err(LendError::InvalidState);
        }
        p.variable_loan_share_quantity = left;
        p.vault_balance = vault;
        p.update_interest_rate()?;
        *self = p;
        Ok(loan_share)
    }

    /// The value of `amount_of_pool_units` deposit shares at the deposit index of
    /// `current_epoch`.
    pub fn get_redemption_value(&self, amount_of_pool_units: Decimal, current_epoch: u64) -> (r: Result<
        Decimal,
        LendError,
    >)
        requires
            current_epoch >= self.last_update,
        ensures
            match (
                self.current_deposit_index(current_epoch as int),
                self.current_loan_index(current_epoch as int),
            ) {
                (Some(index), Some(_)) => match mul_opt(Some(amount_of_pool_units@), Some(index)) {
                    Some(v) => r matches Ok(d) && d@ == v,
                    None => r == Err::<Decimal, LendError>(LendError::ArithmeticOverflow),
                },
                _ => r == Err::<Decimal, LendError>(LendError::ArithmeticOverflow),
            },
    {
        let (supply_index, _) = self.get_current_index(current_epoch)?;
        match amount_of_pool_units.checked_mul(&supply_index) {
            Some(v) => Ok(v),
            None => Err(LendError::ArithmeticOverflow),
        }
    }
}


impl LendResourcePool {
    /// The pooled stable debt as it stands at `epoch`, accrued at the pooled stable rate.
    pub open spec fn stable_loan_value(self, epoch: int) -> Option<int> {
        if epoch == self.last_update {
            Some(self.stable_loan_amount@)
        } else {
            mul_opt(
                Some(self.stable_loan_amount@),
                add_opt(
                    Some(scale()),
                    div_opt(
                        mul_opt(
                            Some((epoch - self.last_update) * scale()),
                            Some(self.stable_loan_interest_rate@),
                        ),
                        Some(EPOCH_OF_YEAR as int * scale()),
                    ),
                ),
            )
        }
    }

    /// `(variable rate, stable rate, deposit rate)` for the given supply, variable debt and
    /// stable debt, with the stable rate floored by `validator_apy`.
    pub open spec fn interest_rates(
        self,
        supply: int,
        variable_borrow: int,
        stable_borrow: int,
        validator_apy: int,
    ) -> Option<(int, int, int)> {
        let stable_ratio = match add_opt(Some(variable_borrow), Some(stable_borrow)) {
            Some(d) => if d == 0 {
                Some(0int)
            } else {
                div_opt(Some(stable_borrow), Some(d))
            },
            None => None,
        };
        match (self.rate_split(supply, variable_borrow, stable_borrow), stable_ratio) {
            (Some((u, v, s)), Some(_)) => match self.interest_model_cmp.stable_rate(
                u,
                self.interest_model,
                validator_apy,
            ) {
                Some(st) => Some((v, st, s)),
                None => None,
            },
            _ => None,
        }
    }

    /// The rates that the pool would quote at `epoch`, without changing it.
    pub open spec fn quoted_rates(self, epoch: int, validator_apy: int) -> Option<(int, int, int)> {
        match (self.current_deposit_index(epoch), self.current_loan_index(epoch)) {
            (Some(d), Some(l)) => match (
                mul_opt(Some(self.deposit_share_supply@), Some(d)),
                mul_opt(Some(self.variable_loan_share_quantity@), Some(l)),
                self.stable_loan_value(epoch),
            ) {
                (Some(s), Some(v), Some(b)) => self.interest_rates(s, v, b, validator_apy),
                _ => None,
            },
            _ => None,
        }
    }

    /// Creates an empty pool: both indices at one, no balances, no rates. Refused unless
    /// `0 <= insurance_ratio < 1`.
    pub fn instantiate(
        underlying_token: Address,
        deposit_share_token: Address,
        interest_model_cmp: DefInterestModel,
        interest_model: InterestModel,
        insurance_ratio: Decimal,
    ) -> (r: Result<Self, LendError>)
        ensures
            r is Ok <==> 0 <= insurance_ratio@ < scale(),
            r is Err ==> r == Err::<Self, LendError>(LendError::InvalidState),
            r matches Ok(p) ==> {
                &&& p.wf()
                &&& p.underlying_token == underlying_token
                &&& p.deposit_share_token == deposit_share_token
                &&& p.interest_model_cmp == interest_model_cmp
                &&& p.interest_model == interest_model
                &&& p.insurance_ratio == insurance_ratio
                &&& p.deposit_index@ == scale() && p.loan_index@ == scale()
                &&& p.vault_balance@ == 0 && p.deposit_share_supply@ == 0
                &&& p.insurance_balance@ == 0
                &&& p.deposit_interest_rate@ == 0 && p.variable_loan_interest_rate@ == 0
                &&& p.variable_loan_share_quantity@ == 0
                &&& p.stable_loan_interest_rate@ == 0 && p.stable_loan_amount@ == 0
                &&& p.last_update == 0 && p.stable_loan_last_update == 0
            },
    {
        if insurance_ratio.lt(&Decimal::zero()) || !insurance_ratio.lt(&Decimal::one()) {
            return Err(LendError::InvalidState);
        }
        Ok(
            LendResourcePool {
                interest_model_cmp,
                interest_model,
                underlying_token,
                deposit_share_token,
                vault_balance: Decimal::zero(),
                deposit_share_supply: Decimal::zero(),
                insurance_balance: Decimal::zero(),
                deposit_index: Decimal::one(),
                loan_index: Decimal::one(),
                last_update: 0,
                insurance_ratio,
                deposit_interest_rate: Decimal::zero(),
                variable_loan_interest_rate: Decimal::zero(),
                variable_loan_share_quantity: Decimal::zero(),
                stable_loan_interest_rate: Decimal::zero(),
                stable_loan_amount: Decimal::zero(),
                stable_loan_last_update: 0,
            },
        )
    }

    fn settle(
        book_amount: Decimal,
        previous_debt: Decimal,
        repay: Decimal,
        loan_amount: Decimal,
        rate: Decimal,
        interest: Decimal,
    ) -> (r: Option<(Decimal, Decimal, Decimal, Decimal)>)
        ensures
            match stable_settlement(
                book_amount@,
                previous_debt@,
                repay@,
                loan_amount@,
                rate@,
                interest@,
            ) {
                Some((a, p, b, br)) => r matches Some((ra, rp, rb, rbr)) && ra@ == a && rp@ == p
                    && rb@ == b && rbr@ == br,
                None => r is None,
            },
    {
        if repay.lt(&interest) {
            let outstanding = interest.checked_sub(&repay)?;
            let minus_one = Decimal { attos: -crate::decimal::ATTOS_PER_UNIT };
            let repaid = outstanding.checked_mul(&minus_one)?;
            let new_amount = book_amount.checked_add(&outstanding)?;
            let weighted = previous_debt.checked_add(&outstanding.checked_mul(&rate)?)?;
            let new_rate = weighted.checked_div(&new_amount)?;
            Some((repay, repaid, new_amount, new_rate))
        } else {
            let total = loan_amount.checked_add(&interest)?;
            let (applied, repaid) = if total.le(&repay) {
                (total, loan_amount)
            } else {
                (repay, repay.checked_sub(&interest)?)
            };
            if book_amount.le(&repaid) {
                Some((applied, repaid, Decimal::zero(), Decimal::zero()))
            } else {
                let new_amount = book_amount.checked_sub(&repaid)?;
                let weighted = previous_debt.checked_sub(&repaid.checked_mul(&rate)?)?;
                let new_rate = weighted.checked_div(&new_amount)?;
                Some((applied, repaid, new_amount, new_rate))
            }
        }
    }

    /// Settles one stable loan of `loan_amount` at `rate`, last settled at `last_epoch_at`.
    /// The interest since then is charged first; a shortfall is added to the pooled principal,
    /// and anything beyond principal plus interest is left in the bucket. Returns
    /// `(applied, principal_repaid, interest, current_epoch)`, which the caller keeps as the
    /// loan's new state.
    pub fn repay_stable(
        &mut self,
        repay_bucket: Tokens,
        loan_amount: Decimal,
        rate: Decimal,
        last_epoch_at: u64,
        current_epoch: u64,
    ) -> (r: Result<(Decimal, Decimal, Decimal, u64), LendError>)
        requires
            old(self).wf(),
            repay_bucket.amount@ >= 0,
            loan_amount@ >= 0,
            rate@ >= 0,
            current_epoch >= old(self).last_update,
            current_epoch >= last_epoch_at,
        ensures
            final(self).wf(),
            r is Ok && old(self).accrues_forward() ==> old(self).indices_rise_to(*final(self)),
            match old(self).repay_stable_outcome(
                repay_bucket,
                loan_amount@,
                rate@,
                last_epoch_at as int,
                current_epoch as int,
            ) {
                Ok((p, (applied, repaid, interest))) => r matches Ok((a, rp, i, e)) && a@
                    == applied && rp@ == repaid && i@ == interest && e == current_epoch
                    && *final(self) == p,
                Err(e) => r == Err::<(Decimal, Decimal, Decimal, u64), LendError>(e)
                    && *final(self) == *old(self),
            },
    {
        proof {
            if self.accrues_forward() {
                lemma_refresh_keeps_indices_rising(*self, current_epoch);
            }
        }
        assert_resource(&repay_bucket.resource, &self.underlying_token)?;
        let mut p = *self;
        p.update_index(current_epoch)?;
        let interest = stable_loan_interest(loan_amount, rate, current_epoch - last_epoch_at);
        let previous_debt = p.stable_loan_amount.checked_mul(&p.stable_loan_interest_rate);
        let (interest, previous_debt) = match (interest, previous_debt) {
            (Some(i), Some(d)) => (i, d),
            _ => return Err(LendError::ArithmeticOverflow),
        };
        proof {
            crate::decimal::lemma_prod_nonneg(loan_amount@, rate@);
            assert(loan_amount@ * rate@ * (current_epoch - last_epoch_at) >= 0) by (nonlinear_arith)
                requires
                    loan_amount@ >= 0,
                    rate@ >= 0,
                    current_epoch >= last_epoch_at,
            ;
        }
        let (applied, repaid, book_amount, book_rate) = match Self::settle(
            p.stable_loan_amount,
            previous_debt,
            repay_bucket.amount,
            loan_amount,
            rate,
            interest,
        ) {
            Some(t) => t,
            None => return Err(LendError::ArithmeticOverflow),
        };
        let vault = match p.vault_balance.checked_add(&applied) {
            Some(v) => v,
            None => return Err(LendError::ArithmeticOverflow),
        };
        p.vault_balance = vault;
        p.stable_loan_amount = book_amount;
        p.stable_loan_interest_rate = book_rate;
        p.update_interest_rate()?;
        *self = p;
        Ok((applied, repaid, interest, current_epoch))
    }

    /// The pooled stable debt as it stands at `current_epoch`.
    fn get_stable_loan_value(&self, current_epoch: u64) -> (r: Option<Decimal>)
        requires
            current_epoch >= self.last_update,
        ensures
            opt_view(r) == self.stable_loan_value(current_epoch as int),
    {
        if current_epoch == self.last_update {
            return Some(self.stable_loan_amount);
        }
        let delta = Decimal::from_u64(current_epoch - self.last_update);
        let accrued = delta.checked_mul(&self.stable_loan_interest_rate)?.checked_div(
            &Decimal::from_u64(EPOCH_OF_YEAR),
        )?;
        let factor = Decimal::one().checked_add(&accrued)?;
        self.stable_loan_amount.checked_mul(&factor)
    }

    /// `(variable rate, stable rate, deposit rate)` for the given supply, variable debt and
    /// stable debt.
    fn calc_interest_rate(
        &self,
        supply: Decimal,
        variable_borrow: Decimal,
        stable_borrow: Decimal,
        validator_apy: Decimal,
    ) -> (r: Option<(Decimal, Decimal, Decimal)>)
        ensures
            match self.interest_rates(supply@, variable_borrow@, stable_borrow@, validator_apy@) {
                Some((v, st, s)) => r matches Some((rv, rst, rs)) && rv@ == v && rst@ == st
                    && rs@ == s,
                None => r is None,
            },
    {
        let split = self.split_rates(supply, variable_borrow, stable_borrow);
        let total_debt = variable_borrow.checked_add(&stable_borrow);
        let stable_ratio = match total_debt {
            Some(d) => if d.is_zero() {
                Some(Decimal::zero())
            } else {
                stable_borrow.checked_div(&d)
            },
            None => None,
        };
        let (borrow_ratio, variable_rate, supply_rate) = split?;
        let stable_ratio = stable_ratio?;
        let stable_rate = match self.interest_model_cmp.get_stable_interest_rate(
            borrow_ratio,
            stable_ratio,
            self.interest_model,
            validator_apy,
        ) {
            Ok(v) => v,
            Err(_) => return None,
        };
        Some((variable_rate, stable_rate, supply_rate))
    }

    /// `(variable rate, stable rate, deposit rate)` as the pool stands at `current_epoch`,
    /// with the stable rate floored by `validator_apy`; the pool is not changed.
    pub fn get_interest_rate(&self, current_epoch: u64, validator_apy: Decimal) -> (r: Result<
        (Decimal, Decimal, Decimal),
        LendError,
    >)
        requires
            current_epoch >= self.last_update,
        ensures
            match self.quoted_rates(current_epoch as int, validator_apy@) {
                Some((v, st, s)) => r matches Ok((rv, rst, rs)) && rv@ == v && rst@ == st && rs@
                    == s,
                None => r == Err::<(Decimal, Decimal, Decimal), LendError>(
                    LendError::ArithmeticOverflow,
                ),
            },
    {
        let (supply_index, variable_borrow_index) = self.get_current_index(current_epoch)?;
        let supply = self.deposit_share_supply.checked_mul(&supply_index);
        let variable_borrow = self.variable_loan_share_quantity.checked_mul(&variable_borrow_index);
        let stable_borrow = self.get_stable_loan_value(current_epoch);
        match (supply, variable_borrow, stable_borrow) {
            (Some(s), Some(v), Some(b)) => match self.calc_interest_rate(s, v, b, validator_apy) {
                Some(t) => Ok(t),
                None => Err(LendError::ArithmeticOverflow),
            },
            _ => Err(LendError::ArithmeticOverflow),
        }
    }

    /// The value of the whole `underlying_total_supply` at the deposit index of
    /// `current_epoch`.
    pub fn get_underlying_value(&self, underlying_total_supply: Decimal, current_epoch: u64) -> (r:
        Result<Decimal, LendError>)
        requires
            current_epoch >= self.last_update,
        ensures
            match (
                self.current_deposit_index(current_epoch as int),
                self.current_loan_index(current_epoch as int),
            ) {
                (Some(index), Some(_)) => match mul_opt(Some(underlying_total_supply@), Some(index)) {
                    Some(v) => r matches Ok(d) && d@ == v,
                    None => r == Err::<Decimal, LendError>(LendError::ArithmeticOverflow),
                },
                _ => r == Err::<Decimal, LendError>(LendError::ArithmeticOverflow),
            },
    {
        self.get_redemption_value(underlying_total_supply, current_epoch)
    }

    /// Underlying tokens held by the vault.
    pub fn get_available(&self) -> (r: Decimal)
        ensures
            r == self.vault_balance,
    {
        self.vault_balance
    }

    /// The epoch the indices were last advanced to.
    pub fn get_last_update(&self) -> (r: u64)
        ensures
            r == self.last_update,
    {
        self.last_update
    }

    /// Deposit shares in circulation.
    pub fn get_deposit_share_quantity(&self) -> (r: Decimal)
        ensures
            r == self.deposit_share_supply,
    {
        self.deposit_share_supply
    }

    /// The pool reports no loan value of its own: it is always zero.
    pub fn get_loan_value(&self) -> (r: Decimal)
        ensures
            r@ == 0,
    {
        Decimal::zero()
    }

    /// Variable-rate loan shares outstanding.
    pub fn get_variable_share_quantity(&self) -> (r: Decimal)
        ensures
            r == self.variable_loan_share_quantity,
    {
        self.variable_loan_share_quantity
    }
}


/// Advancing the indices to a later epoch never lowers them, as long as the indices and the
/// cached deposit and variable rates are not negative.
pub proof fn lemma_refresh_keeps_indices_rising(p: LendResourcePool, epoch: u64)
    requires
        epoch >= p.last_update,
        p.accrues_forward(),
    ensures
        p.refreshed(epoch as int) matches Some(q) ==> q.deposit_index@ >= p.deposit_index@
            && q.loan_index@ >= p.loan_index@,
{
    if epoch != p.last_update {
        let delta = epoch - p.last_update;
        let s = scale();
        let e = EPOCH_OF_YEAR as int;
        assert(delta * s >= 0 && (delta * s) * s >= 0) by (nonlinear_arith)
            requires
                delta >= 0,
                s > 0,
        ;
        vstd::arithmetic::div_mod::lemma_div_is_ordered(0, (delta * s) * s, e * s);
        if let Some(y) = years(delta) {
            crate::decimal::lemma_prod_nonneg(p.deposit_interest_rate@, y);
            crate::decimal::lemma_prod_nonneg(p.variable_loan_interest_rate@, y);
            crate::decimal::lemma_prod_grows(
                p.deposit_index@,
                crate::decimal::prod(p.deposit_interest_rate@, y),
            );
            crate::decimal::lemma_prod_grows(
                p.loan_index@,
                crate::decimal::prod(p.variable_loan_interest_rate@, y),
            );
        }
    }
}

/// Depositing an amount and at once, in the same epoch, redeeming the shares minted for it
/// pays out `floor(amount / index) * index` at the index both steps use, never more than the
/// amount; the vault always holds enough for it.
pub proof fn lemma_deposit_then_withdraw(p: LendResourcePool, tokens: Tokens, epoch: u64)
    requires
        p.wf(),
        tokens.amount@ >= 0,
        epoch >= p.last_update,
    ensures
        match p.deposit_outcome(tokens, epoch as int) {
            Ok((q, minted)) => {
                &&& minted == crate::decimal::ratio(tokens.amount@, q.deposit_index@)
                &&& match q.withdraw_outcome(
                    Tokens { resource: q.deposit_share_token, amount: dec(minted) },
                    epoch as int,
                ) {
                    Ok((_, paid)) => paid == crate::decimal::prod(minted, q.deposit_index@)
                        && paid <= tokens.amount@,
                    Err(e) => e != LendError::InsufficientLiquidity,
                }
            },
            Err(_) => true,
        },
{
    if let Ok((q, minted)) = p.deposit_outcome(tokens, epoch as int) {
        let r = p.refreshed(epoch as int).unwrap();
        assert(q.deposit_index == r.deposit_index);
        assert(q.last_update == epoch);
        assert(q.refreshed(epoch as int) == Some(q));
        assert(r.deposit_index@ != 0);
        crate::decimal::lemma_ratio_prod_round_trip(tokens.amount@, r.deposit_index@);
    }
}

/// Two stable loans `a1` at `r1` and `a2` at `r2` folded into an empty stable book leave the
/// principal-weighted mean rate `(a1*r1 + a2*r2) / (a1 + a2)`, whichever is taken first. Each
/// product `a*r` is taken to be exact at 18 decimal places: otherwise the rate kept after the
/// first loan is already rounded.
pub proof fn lemma_stable_rate_order_independent(a1: Decimal, r1: Decimal, a2: Decimal, r2: Decimal)
    requires
        a1@ > 0,
        a2@ > 0,
        r1@ >= 0,
        r2@ >= 0,
        (a1@ * r1@) % scale() == 0,
        (a2@ * r2@) % scale() == 0,
    ensures
        match (stable_book_after(0, 0, a1@, r1@), stable_book_after(0, 0, a2@, r2@)) {
            (Some((b1, s1)), Some((b2, s2))) => {
                &&& stable_book_after(b1, s1, a2@, r2@) == stable_book_after(b2, s2, a1@, r1@)
                &&& stable_book_after(b1, s1, a2@, r2@) matches Some((b, s)) ==> b == a1@ + a2@
                    && s == crate::decimal::ratio(
                    (a1@ * r1@ + a2@ * r2@) / scale(),
                    a1@ + a2@,
                )
            },
            _ => true,
        },
{
    crate::decimal::lemma_exact_prod(a1@, r1@);
    crate::decimal::lemma_exact_prod(a2@, r2@);
    let s = scale();
    let p1 = crate::decimal::prod(a1@, r1@);
    let p2 = crate::decimal::prod(a2@, r2@);
    assert((p1 * s + p2 * s) / s == p1 + p2) by {
        assert(p1 * s + p2 * s == s * (p1 + p2)) by (nonlinear_arith);
        vstd::arithmetic::div_mod::lemma_div_multiples_vanish(p1 + p2, s);
    }
    assert(crate::decimal::prod(0, 0) == 0);
}

impl LendResourcePool {
    /// Indices and the cached deposit and variable rates are not negative, so that accrual
    /// only raises the indices.
    pub open spec fn accrues_forward(self) -> bool {
        &&& self.deposit_index@ >= 0
        &&& self.loan_index@ >= 0
        &&& self.deposit_interest_rate@ >= 0
        &&& self.variable_loan_interest_rate@ >= 0
    }

    /// `next` has indices no lower than `self`.
    pub open spec fn indices_rise_to(self, next: Self) -> bool {
        next.deposit_index@ >= self.deposit_index@ && next.loan_index@ >= self.loan_index@
    }
}

} // verus!
