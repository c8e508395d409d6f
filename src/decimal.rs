use vstd::prelude::*;
use vstd::arithmetic::div_mod::{
    lemma_div_is_ordered, lemma_div_multiples_vanish, lemma_fundamental_div_mod, lemma_mod_bound,
};
use scrypto::prelude::CheckedDiv as ScryptoCheckedDiv;
use scrypto::prelude::CheckedMul as ScryptoCheckedMul;

verus! {

/// Number of attos (the smallest unit) in one whole unit: values carry 18 decimal places.
pub const ATTOS_PER_UNIT: i128 = 1_000_000_000_000_000_000;

/// The scale factor as a mathematical integer.
pub open spec fn scale() -> int {
    1_000_000_000_000_000_000
}

/// Whether a count of attos is representable.
pub open spec fn fits(v: int) -> bool {
    i128::MIN <= v <= i128::MAX
}

pub open spec fn abs(a: int) -> int {
    if a < 0 { -a } else { a }
}

/// Integer division rounding toward zero.
pub open spec fn quot(a: int, b: int) -> int {
    if (a >= 0) == (b > 0) {
        abs(a) / abs(b)
    } else {
        -(abs(a) / abs(b))
    }
}

/// Fixed-point product of two atto counts, truncated toward zero.
pub open spec fn prod(a: int, b: int) -> int {
    quot(a * b, scale())
}

/// Fixed-point quotient of two atto counts, truncated toward zero.
pub open spec fn ratio(a: int, b: int) -> int {
    quot(a * scale(), b)
}

/// A value, or `None` when it is out of range.
pub open spec fn checked(v: int) -> Option<int> {
    if fits(v) { Some(v) } else { None }
}

pub open spec fn add_opt(a: Option<int>, b: Option<int>) -> Option<int> {
    match (a, b) {
        (Some(x), Some(y)) => checked(x + y),
        _ => None,
    }
}

pub open spec fn sub_opt(a: Option<int>, b: Option<int>) -> Option<int> {
    match (a, b) {
        (Some(x), Some(y)) => checked(x - y),
        _ => None,
    }
}

pub open spec fn mul_opt(a: Option<int>, b: Option<int>) -> Option<int> {
    match (a, b) {
        (Some(x), Some(y)) => checked(prod(x, y)),
        _ => None,
    }
}

pub open spec fn div_opt(a: Option<int>, b: Option<int>) -> Option<int> {
    match (a, b) {
        (Some(x), Some(y)) => if y == 0 { None } else { checked(ratio(x, y)) },
        _ => None,
    }
}

/// A signed fixed-point number with 18 decimal places, held as a count of attos.
#[derive(Clone, Copy, Debug, PartialEq, Eq, Structural)]
pub struct Decimal {
    pub attos: i128,
}

impl View for Decimal {
    type V = int;

    open spec fn view(&self) -> int {
        self.attos as int
    }
}

/// The mathematical value of an optional decimal.
pub open spec fn opt_view(r: Option<Decimal>) -> Option<int> {
    match r {
        Some(d) => Some(d@),
        None => None,
    }
}

pub open spec fn opt_i128(r: Option<i128>) -> Option<int> {
    match r {
        Some(v) => Some(v as int),
        None => None,
    }
}

/// Relies on scrypto's `Decimal::checked_mul`: the exact product of the attos over 256 bits,
/// divided by 10^18 with truncation toward zero, and `None` outside the 192-bit range.
#[verifier::external_body]
fn scrypto_mul(a: i128, b: i128) -> (r: Option<i128>)
    ensures
        r matches Some(v) ==> v == prod(a as int, b as int),
        r is None ==> !fits(prod(a as int, b as int)),
{
    let x = scrypto::prelude::Decimal::from_attos(scrypto::prelude::I192::from(a));
    let y = scrypto::prelude::Decimal::from_attos(scrypto::prelude::I192::from(b));
    let p = x.checked_mul(y)?;
    i128::try_from(p.attos()).ok()
}

/// Relies on scrypto's `Decimal::checked_powi` for the exponents 2 and 4: by squaring, each
/// square being the 256-bit product divided by 10^18 with truncation toward zero, and `None`
/// outside the 192-bit range.
#[verifier::external_body]
fn scrypto_powi(a: i128, exp: i64) -> (r: Option<i128>)
    requires
        exp == 2 || exp == 4,
    ensures
        exp == 2 ==> opt_i128(r) == mul_opt(Some(a as int), Some(a as int)),
        exp == 4 ==> opt_i128(r) == mul_opt(
            mul_opt(Some(a as int), Some(a as int)),
            mul_opt(Some(a as int), Some(a as int)),
        ),
{
    let x = scrypto::prelude::Decimal::from_attos(scrypto::prelude::I192::from(a));
    let p = x.checked_powi(exp)?;
    i128::try_from(p.attos()).ok()
}

/// Relies on scrypto's `Decimal::checked_div`: the attos of the dividend times 10^18 over
/// 256 bits, divided by the divisor's attos with truncation toward zero, and `None` on a
/// zero divisor or outside the 192-bit range.
#[verifier::external_body]
fn scrypto_div(a: i128, b: i128) -> (r: Option<i128>)
    ensures
        r matches Some(v) ==> b != 0 && v == ratio(a as int, b as int),
        r is None ==> b == 0 || !fits(ratio(a as int, b as int)),
{
    let x = scrypto::prelude::Decimal::from_attos(scrypto::prelude::I192::from(a));
    let y = scrypto::prelude::Decimal::from_attos(scrypto::prelude::I192::from(b));
    let q = x.checked_div(y)?;
    i128::try_from(q.attos()).ok()
}

impl Decimal {
    pub fn zero() -> (r: Decimal)
        ensures
            r@ == 0,
    {
        Decimal { attos: 0 }
    }

    pub fn one() -> (r: Decimal)
        ensures
            r@ == scale(),
    {
        Decimal { attos: ATTOS_PER_UNIT }
    }

    /// The whole number `n`.
    pub fn from_u64(n: u64) -> (r: Decimal)
        ensures
            r@ == n * scale(),
    {
        assert(n * scale() <= 18446744073709551615 * scale()) by (nonlinear_arith)
            requires
                n <= 18446744073709551615int,
        ;
        Decimal { attos: (n as i128) * ATTOS_PER_UNIT }
    }

    pub fn is_zero(&self) -> (r: bool)
        ensures
            r == (self@ == 0),
    {
        self.attos == 0
    }

    pub fn lt(&self, o: &Decimal) -> (r: bool)
        ensures
            r == (self@ < o@),
    {
        self.attos < o.attos
    }

    pub fn le(&self, o: &Decimal) -> (r: bool)
        ensures
            r == (self@ <= o@),
    {
        self.attos <= o.attos
    }

    pub fn checked_add(&self, o: &Decimal) -> (r: Option<Decimal>)
        ensures
            opt_view(r) == add_opt(Some(self@), Some(o@)),
    {
        match self.attos.checked_add(o.attos) {
            Some(v) => Some(Decimal { attos: v }),
            None => None,
        }
    }

    pub fn checked_sub(&self, o: &Decimal) -> (r: Option<Decimal>)
        ensures
            opt_view(r) == sub_opt(Some(self@), Some(o@)),
    {
        match self.attos.checked_sub(o.attos) {
            Some(v) => Some(Decimal { attos: v }),
            None => None,
        }
    }

    pub fn checked_mul(&self, o: &Decimal) -> (r: Option<Decimal>)
        ensures
            opt_view(r) == mul_opt(Some(self@), Some(o@)),
    {
        match scrypto_mul(self.attos, o.attos) {
            Some(v) => Some(Decimal { attos: v }),
            None => None,
        }
    }

    /// `self` squared (`exp == 2`) or to the fourth power (`exp == 4`), by repeated squaring.
    pub fn checked_powi(&self, exp: i64) -> (r: Option<Decimal>)
        requires
            exp == 2 || exp == 4,
        ensures
            exp == 2 ==> opt_view(r) == mul_opt(Some(self@), Some(self@)),
            exp == 4 ==> opt_view(r) == mul_opt(
                mul_opt(Some(self@), Some(self@)),
                mul_opt(Some(self@), Some(self@)),
            ),
    {
        match scrypto_powi(self.attos, exp) {
            Some(v) => Some(Decimal { attos: v }),
            None => None,
        }
    }

    pub fn checked_div(&self, o: &Decimal) -> (r: Option<Decimal>)
        ensures
            opt_view(r) == div_opt(Some(self@), Some(o@)),
    {
        match scrypto_div(self.attos, o.attos) {
            Some(v) => Some(Decimal { attos: v }),
            None => None,
        }
    }
}


/// Multiplying by one leaves a value as it is.
pub proof fn lemma_prod_by_one(a: int)
    ensures
        prod(scale(), a) == a,
        prod(a, scale()) == a,
{
    let s = scale();
    if a >= 0 {
        lemma_div_multiples_vanish(a, s);
    } else {
        lemma_div_multiples_vanish(-a, s);
    }
    assert(a * s == s * a) by (nonlinear_arith);
}

/// A product of non-negative values is not negative.
pub proof fn lemma_prod_nonneg(a: int, b: int)
    requires
        a >= 0,
        b >= 0,
    ensures
        prod(a, b) >= 0,
{
    assert(a * b >= 0) by (nonlinear_arith)
        requires
            a >= 0,
            b >= 0,
    ;
}

/// Scaling a non-negative value by `1 + x`, with `x` not negative, never lowers it.
pub proof fn lemma_prod_grows(a: int, x: int)
    requires
        a >= 0,
        x >= 0,
    ensures
        prod(a, scale() + x) >= a,
{
    let s = scale();
    assert(a * (s + x) >= a * s && a * s == s * a) by (nonlinear_arith)
        requires
            a >= 0,
            x >= 0,
            s > 0,
    ;
    lemma_div_is_ordered(s * a, a * (s + x), s);
    lemma_div_multiples_vanish(a, s);
}

/// Dividing by `d` and multiplying back by `d` never gains: `floor(a / d) * d <= a`.
pub proof fn lemma_ratio_prod_round_trip(a: int, d: int)
    requires
        a >= 0,
        d != 0,
    ensures
        prod(ratio(a, d), d) <= a,
        ratio(a, d) * d >= 0,
{
    let s = scale();
    let n = a * s;
    let k = abs(d);
    let q = n / k;
    assert(n >= 0 && a * s == s * a) by (nonlinear_arith)
        requires
            a >= 0,
            s > 0,
            n == a * s,
    ;
    lemma_fundamental_div_mod(n, k);
    lemma_mod_bound(n, k);
    assert(q >= 0) by {
        lemma_div_is_ordered(0, n, k);
    }
    assert(k * q <= n);
    assert(ratio(a, d) * d == q * k) by (nonlinear_arith)
        requires
            ratio(a, d) == (if d > 0 { q } else { -q }),
            k == (if d > 0 { d } else { -d }),
    ;
    assert(q * k >= 0 && q * k == k * q) by (nonlinear_arith)
        requires
            q >= 0,
            k > 0,
    ;
    lemma_div_is_ordered(q * k, n, s);
    lemma_div_multiples_vanish(a, s);
}

/// A product that is exact at 18 decimal places divides back to its factor.
pub proof fn lemma_exact_prod(a: int, r: int)
    requires
        a > 0,
        r >= 0,
        (a * r) % scale() == 0,
    ensures
        prod(a, r) * scale() == a * r,
        prod(a, r) >= 0,
        ratio(prod(a, r), a) == r,
{
    let s = scale();
    assert(a * r >= 0) by (nonlinear_arith)
        requires
            a > 0,
            r >= 0,
    ;
    lemma_fundamental_div_mod(a * r, s);
    assert((a * r) / s >= 0) by {
        lemma_div_is_ordered(0, a * r, s);
    }
    assert(prod(a, r) == (a * r) / s);
    assert(prod(a, r) * s == a * r);
    lemma_div_multiples_vanish(r, a);
}

} // verus!
