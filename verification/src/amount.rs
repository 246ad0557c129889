//! Fixed-point amounts.
//!
//! Signal strengths, probabilities and decision weights are counted in
//! millionths and held in an `i64`: [`UNIT`] stands for 1.0. Sums are exact
//! wherever the exact result fits and stop at the ends of the `i64` range
//! where it does not. A product with a fraction is cut off towards zero.

use vstd::prelude::*;

verus! {

/// The amount that stands for 1.0.
pub const UNIT: i64 = 1_000_000;

/// The amount nearest to `exact` that an `i64` can hold.
pub open spec fn saturated(exact: int) -> int {
    if exact < i64::MIN {
        i64::MIN as int
    } else if exact > i64::MAX {
        i64::MAX as int
    } else {
        exact
    }
}

/// `numerator / denominator`, cut off towards zero.
pub open spec fn truncated_quotient(numerator: int, denominator: int) -> int
    recommends
        denominator > 0,
{
    if numerator >= 0 {
        numerator / denominator
    } else {
        -((-numerator) / denominator)
    }
}

/// `amount` times the fraction `factor / UNIT`, cut off towards zero.
pub open spec fn scaled(amount: int, factor: int) -> int {
    truncated_quotient(amount * factor, UNIT as int)
}

/// The line through `(x0, y0)` with slope `rise / run`, at `x`.
pub open spec fn along(x0: int, y0: int, rise: int, run: int, x: int) -> int
    recommends
        run > 0,
{
    y0 + truncated_quotient((x - x0) * rise, run)
}

/// Brings an exact result back into the range of amounts.
pub fn saturate(exact: i128) -> (amount: i64)
    ensures
        amount == saturated(exact as int),
{
    if exact < i64::MIN as i128 {
        i64::MIN
    } else if exact > i64::MAX as i128 {
        i64::MAX
    } else {
        exact as i64
    }
}

/// `a + b`, saturated.
pub fn sum(a: i64, b: i64) -> (total: i64)
    ensures
        total == saturated(a + b),
{
    saturate(a as i128 + b as i128)
}

/// `a + b - c`, saturated once, at the end.
pub fn net(a: i64, b: i64, c: i64) -> (total: i64)
    ensures
        total == saturated(a + b - c),
{
    saturate(a as i128 + b as i128 - c as i128)
}

/// `amount` times the fraction `factor / UNIT`, for a fraction between 0 and 1.
pub fn scale(amount: i64, factor: i64) -> (part: i64)
    requires
        0 <= factor <= UNIT,
    ensures
        part == scaled(amount as int, factor as int),
{
    proof {
        lemma_scaled_bounds(amount as int, factor as int);
        assert(-0x8000_0000_0000_0000 * 1_000_000 <= (amount as int) * (factor as int)
            <= 0x8000_0000_0000_0000 * 1_000_000) by (nonlinear_arith)
            requires
                -0x8000_0000_0000_0000 <= amount as int <= 0x8000_0000_0000_0000,
                0 <= factor as int <= 1_000_000,
        ;
    }
    let product: i128 = (amount as i128) * (factor as i128);
    let part: i128 = product / (UNIT as i128);
    part as i64
}

/// A fraction of an amount lies between zero and the amount.
pub proof fn lemma_scaled_bounds(amount: int, factor: int)
    requires
        0 <= factor <= UNIT,
    ensures
        amount >= 0 ==> 0 <= scaled(amount, factor) <= amount,
        amount <= 0 ==> amount <= scaled(amount, factor) <= 0,
{
    if amount >= 0 {
        assert(0 <= amount * factor <= amount * 1_000_000) by (nonlinear_arith)
            requires
                amount >= 0,
                0 <= factor <= 1_000_000,
        ;
        assert(0 <= (amount * factor) / 1_000_000 <= amount) by (nonlinear_arith)
            requires
                0 <= amount * factor <= amount * 1_000_000,
        ;
    } else {
        assert(0 <= -(amount * factor) <= (-amount) * 1_000_000) by (nonlinear_arith)
            requires
                amount < 0,
                0 <= factor <= 1_000_000,
        ;
        assert(0 <= (-(amount * factor)) / 1_000_000 <= -amount) by (nonlinear_arith)
            requires
                0 <= -(amount * factor) <= (-amount) * 1_000_000,
        ;
    }
}

/// The whole of an amount is the amount.
pub proof fn lemma_scaled_by_unit(amount: int)
    ensures
        scaled(amount, UNIT as int) == amount,
{
    if amount >= 0 {
        assert((amount * 1_000_000) / 1_000_000 == amount) by (nonlinear_arith);
    } else {
        assert(-(amount * 1_000_000) == (-amount) * 1_000_000) by (nonlinear_arith);
        assert(((-amount) * 1_000_000) / 1_000_000 == -amount) by (nonlinear_arith);
    }
}

/// Cutting off towards zero keeps the order of the numerators.
pub proof fn lemma_truncated_quotient_monotone(m: int, n: int, denominator: int)
    requires
        m <= n,
        denominator > 0,
    ensures
        truncated_quotient(m, denominator) <= truncated_quotient(n, denominator),
{
    if m >= 0 {
        assert(m / denominator <= n / denominator) by (nonlinear_arith)
            requires
                0 <= m <= n,
                denominator > 0,
        ;
    } else if n >= 0 {
        assert(0 <= (-m) / denominator) by (nonlinear_arith)
            requires
                -m >= 0,
                denominator > 0,
        ;
        assert(0 <= n / denominator) by (nonlinear_arith)
            requires
                n >= 0,
                denominator > 0,
        ;
    } else {
        assert((-n) / denominator <= (-m) / denominator) by (nonlinear_arith)
            requires
                0 <= -n <= -m,
                denominator > 0,
        ;
    }
}

} // verus!
