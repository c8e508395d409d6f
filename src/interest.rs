use vstd::prelude::*;
use crate::decimal::{add_opt, lemma_prod_by_one, mul_opt, opt_view, scale, Decimal};
use crate::error::LendError;

verus! {

/// Which utilization curve prices a pool.
#[derive(Clone, Copy, Debug, PartialEq, Eq, Structural)]
pub enum InterestModel {
    Default,
    StableCoin,
}

/// Default curve: `primary * u + quadratic * u^2`, flat at `primary + quadratic` above full
/// utilization.
pub open spec fn default_rate(primary: int, quadratic: int, u: int) -> Option<int> {
    if u > scale() {
        add_opt(Some(primary), Some(quadratic))
    } else {
        add_opt(
            mul_opt(Some(u), Some(primary)),
            mul_opt(mul_opt(Some(u), Some(u)), Some(quadratic)),
        )
    }
}

/// Stable-coin curve: with `x = min(u, 1)^2`, `primary * x^2 + quadratic * x^4`.
pub open spec fn stable_coin_rate(primary: int, quadratic: int, u: int) -> Option<int> {
    let r2 = if u > scale() {
        Some(scale())
    } else {
        mul_opt(Some(u), Some(u))
    };
    let r4 = mul_opt(r2, r2);
    let r8 = mul_opt(r4, r4);
    add_opt(mul_opt(Some(primary), r4), mul_opt(Some(quadratic), r8))
}

/// The coefficients of both curves.
#[derive(Clone, Copy, Debug, PartialEq, Eq, Structural)]
pub struct DefInterestModel {
    pub def_primary: Decimal,
    pub def_quadratic: Decimal,
    pub stable_coin_primary: Decimal,
    pub stable_coin_quadratic: Decimal,
}

impl DefInterestModel {
    /// The variable rate that `model` gives at utilization `u` (all as atto counts).
    pub open spec fn variable_rate(self, u: int, model: InterestModel) -> Option<int> {
        match model {
            InterestModel::Default => default_rate(self.def_primary@, self.def_quadratic@, u),
            InterestModel::StableCoin => stable_coin_rate(
                self.stable_coin_primary@,
                self.stable_coin_quadratic@,
                u,
            ),
        }
    }

    /// The stable rate: the variable rate, floored by the validator set's yield.
    pub open spec fn stable_rate(self, u: int, model: InterestModel, validator_apy: int) -> Option<
        int,
    > {
        match self.variable_rate(u, model) {
            Some(v) => Some(if v > validator_apy { v } else { validator_apy }),
            None => None,
        }
    }

    pub fn new(
        def_primary: Decimal,
        def_quadratic: Decimal,
        stable_coin_primary: Decimal,
        stable_coin_quadratic: Decimal,
    ) -> (r: DefInterestModel)
        ensures
            r.def_primary == def_primary,
            r.def_quadratic == def_quadratic,
            r.stable_coin_primary == stable_coin_primary,
            r.stable_coin_quadratic == stable_coin_quadratic,
    {
        DefInterestModel { def_primary, def_quadratic, stable_coin_primary, stable_coin_quadratic }
    }

    fn rate_of(&self, borrow_ratio: Decimal, model: InterestModel) -> (r: Option<Decimal>)
        ensures
            opt_view(r) == self.variable_rate(borrow_ratio@, model),
    {
        let one = Decimal::one();
        match model {
            InterestModel::Default => {
                if one.lt(&borrow_ratio) {
                    self.def_primary.checked_add(&self.def_quadratic)
                } else {
                    let linear = borrow_ratio.checked_mul(&self.def_primary)?;
                    let square = borrow_ratio.checked_powi(2)?;
                    let quadratic = square.checked_mul(&self.def_quadratic)?;
                    linear.checked_add(&quadratic)
                }
            },
            InterestModel::StableCoin => {
                let r2 = if one.lt(&borrow_ratio) {
                    one
                } else {
                    borrow_ratio.checked_powi(2)?
                };
                let r4 = r2.checked_powi(2)?;
                let r8 = r2.checked_powi(4)?;
                let a = self.stable_coin_primary.checked_mul(&r4)?;
                let b = self.stable_coin_quadratic.checked_mul(&r8)?;
                a.checked_add(&b)
            },
        }
    }

    /// The variable borrow rate at utilization `borrow_ratio`.
    pub fn get_variable_interest_rate(&self, borrow_ratio: Decimal, model: InterestModel) -> (r:
        Result<Decimal, LendError>)
        ensures
            r matches Ok(v) ==> self.variable_rate(borrow_ratio@, model) == Some(v@),
            r matches Err(e) ==> e == LendError::ArithmeticOverflow && self.variable_rate(
                borrow_ratio@,
                model,
            ) is None,
    {
        match self.rate_of(borrow_ratio, model) {
            Some(v) => Ok(v),
            None => Err(LendError::ArithmeticOverflow),
        }
    }

    /// The stable borrow rate: the variable rate at `borrow_ratio`, but never below
    /// `validator_apy`, the yield of delegating to the validator set. `stable_ratio` (the
    /// stable share of the debt) does not move either curve.
    pub fn get_stable_interest_rate(
        &self,
        borrow_ratio: Decimal,
        stable_ratio: Decimal,
        model: InterestModel,
        validator_apy: Decimal,
    ) -> (r: Result<Decimal, LendError>)
        ensures
            r matches Ok(v) ==> self.stable_rate(borrow_ratio@, model, validator_apy@) == Some(
                v@,
            ),
            r matches Err(e) ==> e == LendError::ArithmeticOverflow && self.stable_rate(
                borrow_ratio@,
                model,
                validator_apy@,
            ) is None,
    {
        let apy = self.get_variable_interest_rate(borrow_ratio, model)?;
        if validator_apy.lt(&apy) {
            Ok(apy)
        } else {
            Ok(validator_apy)
        }
    }
}


/// The default curve gives zero at no utilization and `primary + quadratic` at full
/// utilization, and stays at exactly that value above it (here at twice full utilization).
pub proof fn lemma_default_curve_boundary(m: DefInterestModel)
    ensures
        m.variable_rate(0, InterestModel::Default) == Some(0int),
        m.variable_rate(scale(), InterestModel::Default) == add_opt(
            Some(m.def_primary@),
            Some(m.def_quadratic@),
        ),
        m.variable_rate(2 * scale(), InterestModel::Default) == add_opt(
            Some(m.def_primary@),
            Some(m.def_quadratic@),
        ),
{
    lemma_prod_by_one(m.def_primary@);
    lemma_prod_by_one(m.def_quadratic@);
    lemma_prod_by_one(scale());
    assert(crate::decimal::prod(0, m.def_primary@) == 0);
    assert(crate::decimal::prod(0, 0) == 0);
    assert(crate::decimal::prod(0, m.def_quadratic@) == 0);
}

} // verus!
