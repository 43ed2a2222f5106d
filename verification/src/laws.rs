//! Laws relating the fee engine and the volatility tracker across calls,
//! stated over the same spec functions their executable contracts use.

use vstd::prelude::*;

use crate::constants::FEE_PRECISION;
use crate::lb_pair::{lemma_total_fee_rate_bounds, LbPair};
use crate::price::{abs_of, spec_base, spec_pow_mantissa, spec_price_from_id, spec_price_ok};

verus! {

/// Both fee formulas are non-decreasing in the amount they are computed
/// from.
pub proof fn lemma_fee_monotone(pool: LbPair, a1: u64, a2: u64)
    requires
        a1 <= a2,
    ensures
        pool.spec_compute_fee(a1) <= pool.spec_compute_fee(a2),
        pool.spec_compute_fee_from_amount(a1) <= pool.spec_compute_fee_from_amount(a2),
{
    lemma_total_fee_rate_bounds(pool);
    let rate = pool.spec_total_fee_rate();
    let denom = FEE_PRECISION - rate;
    vstd::arithmetic::mul::lemma_mul_inequality(a1 as int, a2 as int, rate);
    vstd::arithmetic::div_mod::lemma_div_is_ordered(
        a1 * rate + denom - 1,
        a2 * rate + denom - 1,
        denom,
    );
    vstd::arithmetic::div_mod::lemma_div_is_ordered(
        a1 * rate + (FEE_PRECISION - 1),
        a2 * rate + (FEE_PRECISION - 1),
        FEE_PRECISION as int,
    );
}

/// Both fee formulas round toward the pool: the charged fee, scaled back
/// by its denominator, never falls below the exact product, so the pool is
/// never underpaid.
pub proof fn lemma_fee_rounds_up(pool: LbPair, amount: u64)
    ensures
        pool.spec_compute_fee(amount) * (FEE_PRECISION - pool.spec_total_fee_rate()) >= amount
            * pool.spec_total_fee_rate(),
        pool.spec_compute_fee_from_amount(amount) * FEE_PRECISION >= amount
            * pool.spec_total_fee_rate(),
{
    lemma_total_fee_rate_bounds(pool);
    let rate = pool.spec_total_fee_rate();
    let denom = FEE_PRECISION - rate;
    vstd::arithmetic::mul::lemma_mul_nonnegative(amount as int, rate);
    lemma_ceil_mul_ge(amount * rate, denom);
    lemma_ceil_mul_ge(amount * rate, FEE_PRECISION as int);
}

/// Scaling an upward-rounded quotient back by the divisor reaches the
/// dividend.
proof fn lemma_ceil_mul_ge(x: int, d: int)
    requires
        0 <= x,
        0 < d,
    ensures
        ((x + d - 1) / d) * d >= x,
{
    vstd::arithmetic::div_mod::lemma_fundamental_div_mod(x + d - 1, d);
    vstd::arithmetic::div_mod::lemma_mod_division_less_than_divisor(x + d - 1, d);
    let q = (x + d - 1) / d;
    assert(q * d == d * q) by (nonlinear_arith);
}

/// Prices of opposite bin ids are exact Q64.64 reciprocals: the positive
/// side is the 128-bit division of `u128::MAX` by the negative side, so
/// their product falls short of `2^128` by less than one negative-side
/// unit.
pub proof fn lemma_price_reciprocal(id: i32, bin_step: u16)
    requires
        0 < id,
        spec_price_ok(id as int, bin_step),
    ensures
        spec_price_ok(-(id as int), bin_step),
        spec_price_from_id(id as int, bin_step) == u128::MAX as int / spec_price_from_id(
            -(id as int),
            bin_step,
        ),
        u128::MAX - spec_price_from_id(-(id as int), bin_step) < spec_price_from_id(
            id as int,
            bin_step,
        ) * spec_price_from_id(-(id as int), bin_step) <= u128::MAX,
{
    vstd::arithmetic::div_mod::lemma_div_pos_is_pos(
        bin_step as int * crate::price::ONE_Q64 as int,
        10000,
    );
    vstd::arithmetic::mul::lemma_mul_nonnegative(
        bin_step as int,
        crate::price::ONE_Q64 as int,
    );
    let m = spec_pow_mantissa(spec_base(bin_step), abs_of(id as int));
    assert(abs_of(id as int) == abs_of(-(id as int)));
    assert(spec_price_from_id(-(id as int), bin_step) == m);
    assert(spec_price_from_id(id as int, bin_step) == u128::MAX as int / m);
    vstd::arithmetic::div_mod::lemma_fundamental_div_mod(u128::MAX as int, m);
    vstd::arithmetic::div_mod::lemma_mod_division_less_than_divisor(u128::MAX as int, m);
    assert((u128::MAX as int / m) * m == m * (u128::MAX as int / m)) by (nonlinear_arith);
}

/// Updating the dynamic-fee references twice at one timestamp leaves the
/// same state as updating them once.
pub proof fn lemma_update_references_idempotent(pool: LbPair, now: i64)
    requires
        pool.spec_update_references_ok(now),
    ensures
        pool.spec_update_references(now).spec_update_references_ok(now),
        pool.spec_update_references(now).spec_update_references(now) == pool.spec_update_references(
            now,
        ),
{
}

} // verus!
