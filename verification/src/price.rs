//! Price model: the price of bin `id` is `(1 + bin_step / 10_000)^id` in
//! Q64.64, computed deterministically by exponentiation by squaring, taking
//! the Q64.64 reciprocal for negative ids.

use vstd::prelude::*;
use vstd::arithmetic::power2::pow2;
use vstd::arithmetic::div_mod::{lemma_div_pos_is_pos, lemma_multiply_divide_lt};
use vstd::arithmetic::mul::{lemma_mul_inequality, lemma_mul_nonnegative, lemma_mul_upper_bound};

use crate::errors::QuoteError;
use crate::math::lemma_pow2_128_val;

verus! {

/// Q64.64 representation of one.
pub const ONE_Q64: u128 = 0x1_0000_0000_0000_0000;

/// Largest absolute exponent the squaring loop accepts.
pub const MAX_EXPONENT: u32 = 0x100000;

/// The Q64.64 base `1 + bin_step / 10_000`.
pub open spec fn spec_base(bin_step: u16) -> int {
    ONE_Q64 + (bin_step * ONE_Q64) / 10000
}

/// One squaring pass: multiply the accumulator by the current square when
/// the low exponent bit is set, then square and halve.
pub open spec fn spec_pow_rec(sb: int, e: nat, acc: int) -> int
    decreases e,
{
    if e == 0 {
        acc
    } else {
        let acc2 = if e % 2 == 1 {
            (acc * sb) / pow2(64) as int
        } else {
            acc
        };
        spec_pow_rec((sb * sb) / pow2(64) as int, e / 2, acc2)
    }
}

/// The mantissa the squaring loop produces for `base^e`: bases of one or
/// more are first replaced by their reciprocal so squaring cannot overflow.
pub open spec fn spec_pow_mantissa(base: int, e: nat) -> int {
    if base >= ONE_Q64 {
        spec_pow_rec(u128::MAX as int / base, e, ONE_Q64 as int)
    } else {
        spec_pow_rec(base, e, ONE_Q64 as int)
    }
}

/// Whether the final mantissa stands for the reciprocal of the requested
/// power.
pub open spec fn spec_pow_inverted(base: int, exp: int) -> bool {
    (exp < 0) != (base >= ONE_Q64)
}

/// Whether the price of `id` is computable: the exponent is in range and
/// the mantissa does not underflow to zero.
pub open spec fn spec_price_ok(id: int, bin_step: u16) -> bool {
    &&& -(MAX_EXPONENT as int) < id < MAX_EXPONENT as int
    &&& (id != 0 ==> spec_pow_mantissa(spec_base(bin_step), abs_of(id)) > 0)
}

/// Absolute value of a bin id.
pub open spec fn abs_of(id: int) -> nat {
    if id < 0 {
        (-id) as nat
    } else {
        id as nat
    }
}

/// The Q64.64 price of bin `id` at the given bin step.
pub open spec fn spec_price_from_id(id: int, bin_step: u16) -> int {
    if id == 0 {
        ONE_Q64 as int
    } else {
        let m = spec_pow_mantissa(spec_base(bin_step), abs_of(id));
        if spec_pow_inverted(spec_base(bin_step), id) {
            u128::MAX as int / m
        } else {
            m
        }
    }
}

/// Computes `(1 + bin_step / 10_000)` in Q64.64.
fn get_base(bin_step: u16) -> (r: u128)
    ensures
        r as int == spec_base(bin_step),
        ONE_Q64 <= r,
{
    proof {
        lemma_div_pos_is_pos(bin_step as int * ONE_Q64 as int, 10000);
        lemma_mul_nonnegative(bin_step as int, ONE_Q64 as int);
        lemma_mul_upper_bound(bin_step as int, 0xffff, ONE_Q64 as int, ONE_Q64 as int);
    }
    ONE_Q64 + (bin_step as u128 * ONE_Q64) / 10000
}

/// The Q64.64 price of bin `active_id`: `(1 + bin_step / 10_000)^active_id`
/// by binary exponentiation, with the reciprocal taken for negative ids.
/// Fails when the exponent is out of range or the mantissa underflows to
/// zero.
pub fn get_price_from_id(active_id: i32, bin_step: u16) -> (r: Result<u128, QuoteError>)
    ensures
        match r {
            Ok(p) => spec_price_ok(active_id as int, bin_step) && p as int == spec_price_from_id(
                active_id as int,
                bin_step,
            ) && p >= 1,
            Err(e) => e == QuoteError::Overflow && !spec_price_ok(active_id as int, bin_step),
        },
{
    if active_id == 0 {
        return Ok(ONE_Q64);
    }
    let base = get_base(bin_step);
    let e64: i64 = active_id as i64;
    let abs64: i64 = if e64 < 0 {
        -e64
    } else {
        e64
    };
    if abs64 >= MAX_EXPONENT as i64 {
        return Err(QuoteError::Overflow);
    }
    let mut e: u32 = abs64 as u32;
    proof {
        lemma_pow2_128_val();
        // The base is at least one, so its reciprocal mantissa fits below
        // one in Q64.64.
        lemma_mul_inequality(ONE_Q64 as int, base as int, ONE_Q64 as int);
        lemma_multiply_divide_lt(u128::MAX as int, base as int, ONE_Q64 as int);
        lemma_div_pos_is_pos(u128::MAX as int, base as int);
    }
    let mut sb: u128 = u128::MAX / base;
    let mut acc: u128 = ONE_Q64;
    let ghost sb0: int = sb as int;
    let ghost e0: nat = e as nat;
    while e > 0
        invariant
            sb < ONE_Q64,
            acc <= ONE_Q64,
            pow2(64) == ONE_Q64,
            spec_pow_rec(sb as int, e as nat, acc as int) == spec_pow_rec(
                sb0,
                e0,
                ONE_Q64 as int,
            ),
        decreases e,
    {
        proof {
            lemma_mul_upper_bound(acc as int, ONE_Q64 as int, sb as int, ONE_Q64 as int - 1);
            lemma_mul_upper_bound(sb as int, ONE_Q64 as int - 1, sb as int, ONE_Q64 as int - 1);
            lemma_mul_nonnegative(acc as int, sb as int);
            lemma_mul_nonnegative(sb as int, sb as int);
            assert(ONE_Q64 as int * (ONE_Q64 as int - 1) < ONE_Q64 as int * ONE_Q64 as int)
                by (nonlinear_arith);
            lemma_mul_inequality(ONE_Q64 as int - 1, ONE_Q64 as int, ONE_Q64 as int - 1);
            lemma_multiply_divide_lt(acc as int * sb as int, ONE_Q64 as int, ONE_Q64 as int);
            lemma_multiply_divide_lt(sb as int * sb as int, ONE_Q64 as int, ONE_Q64 as int);
            lemma_div_pos_is_pos(acc as int * sb as int, ONE_Q64 as int);
            lemma_div_pos_is_pos(sb as int * sb as int, ONE_Q64 as int);
        }
        if e % 2 == 1 {
            acc = (acc * sb) / ONE_Q64;
        }
        sb = (sb * sb) / ONE_Q64;
        e = e / 2;
    }
    if acc == 0 {
        return Err(QuoteError::Overflow);
    }
    if active_id > 0 {
        proof {
            vstd::arithmetic::div_mod::lemma_div_basics(acc as int);
            lemma_div_is_ordered_local(acc as int, u128::MAX as int, acc as int);
            lemma_div_pos_is_pos(u128::MAX as int, acc as int);
        }
        Ok(u128::MAX / acc)
    } else {
        Ok(acc)
    }
}

proof fn lemma_div_is_ordered_local(x: int, y: int, z: int)
    requires
        x <= y,
        0 < z,
    ensures
        x / z <= y / z,
{
    vstd::arithmetic::div_mod::lemma_div_is_ordered(x, y, z);
}

} // verus!
