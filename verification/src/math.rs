//! Fixed-point integer primitives: multiply-shift, shift-divide and
//! multiply-divide over a 256-bit intermediate, each with explicit rounding
//! and a checked narrowing cast to 64 bits.

use vstd::prelude::*;
use vstd::arithmetic::power2::{
    pow2, lemma2_to64, lemma_pow2_adds, lemma_pow2_pos, lemma_pow2_strictly_increases,
};
use vstd::arithmetic::div_mod::{
    lemma_basic_div, lemma_div_denominator, lemma_div_is_ordered, lemma_div_nonincreasing,
    lemma_div_pos_is_pos, lemma_fundamental_div_mod, lemma_fundamental_div_mod_converse_div,
    lemma_fundamental_div_mod_converse_mod, lemma_hoist_over_denominator,
    lemma_mod_division_less_than_divisor, lemma_mod_multiples_vanish, lemma_multiply_divide_lt,
};
use vstd::arithmetic::mul::{
    lemma_mul_inequality, lemma_mul_nonnegative, lemma_mul_strict_inequality,
    lemma_mul_upper_bound,
};

use crate::errors::QuoteError;

verus! {

/// Direction in which a discarded remainder is rounded.
#[derive(Clone, Copy, Debug, PartialEq, Eq, Structural)]
pub enum Rounding {
    Up,
    Down,
}

/// Quotient of `v / d` rounded in the given direction; `Up` adds one
/// whenever any remainder is discarded.
pub open spec fn rounded_div(v: int, d: int, rounding: Rounding) -> int {
    if rounding is Up {
        if v % d == 0 {
            v / d
        } else {
            v / d + 1
        }
    } else {
        v / d
    }
}

/// An unsigned 256-bit value held as two 128-bit halves.
pub struct U256 {
    pub hi: u128,
    pub lo: u128,
}

impl U256 {
    /// The mathematical value `hi * 2^128 + lo`.
    pub open spec fn value(self) -> int {
        self.hi as int * pow2(128) as int + self.lo as int
    }
}

pub proof fn lemma_pow2_128_val()
    ensures
        pow2(64) == 0x1_0000_0000_0000_0000,
        pow2(128) == 0x1_0000_0000_0000_0000_0000_0000_0000_0000,
{
    lemma2_to64();
    lemma_pow2_adds(64, 64);
}

/// 2^k as a 128-bit value.
pub fn pow2_u128(k: u32) -> (r: u128)
    requires
        k < 128,
    ensures
        r as nat == pow2(k as nat),
{
    let mut r: u128 = 1;
    let mut i: u32 = 0;
    proof {
        lemma2_to64();
        lemma_pow2_128_val();
    }
    while i < k
        invariant
            i <= k < 128,
            r as nat == pow2(i as nat),
            pow2(128) == 0x1_0000_0000_0000_0000_0000_0000_0000_0000,
        decreases k - i,
    {
        proof {
            lemma_pow2_adds(i as nat, 1);
            lemma2_to64();
            lemma_pow2_strictly_increases((i + 1) as nat, 128);
        }
        r = r * 2;
        i = i + 1;
    }
    r
}

/// Full 256-bit product of two 128-bit values.
pub fn mul_u256(a: u128, b: u128) -> (r: U256)
    ensures
        r.value() == a as int * b as int,
{
    let base: u128 = 0x1_0000_0000_0000_0000;
    proof {
        lemma_pow2_128_val();
        lemma_pow2_adds(64, 64);
        assert(base as int * base as int == pow2(128) as int);
        lemma_multiply_divide_lt(a as int, base as int, base as int);
        lemma_multiply_divide_lt(b as int, base as int, base as int);
        lemma_mod_division_less_than_divisor(a as int, base as int);
        lemma_mod_division_less_than_divisor(b as int, base as int);
    }
    let ah = a / base;
    let al = a % base;
    let bh = b / base;
    let bl = b % base;
    proof {
        lemma_mul_upper_bound(al as int, base as int - 1, bl as int, base as int - 1);
        lemma_mul_upper_bound(al as int, base as int - 1, bh as int, base as int - 1);
        lemma_mul_upper_bound(ah as int, base as int - 1, bl as int, base as int - 1);
        lemma_mul_upper_bound(ah as int, base as int - 1, bh as int, base as int - 1);
        lemma_mul_strict_inequality(base as int - 1, base as int, base as int - 1);
    }
    let ll = al * bl;
    let lh = al * bh;
    let hl = ah * bl;
    let hh = ah * bh;
    proof {
        // Each partial quotient stays below base - 1, which keeps the final
        // recombination inside 128 bits.
        lemma_multiply_divide_lt(ll as int, base as int, base as int - 1);
        lemma_multiply_divide_lt(lh as int, base as int, base as int - 1);
        lemma_multiply_divide_lt(hl as int, base as int, base as int - 1);
        lemma_mod_division_less_than_divisor(ll as int, base as int);
        lemma_mod_division_less_than_divisor(lh as int, base as int);
        lemma_mod_division_less_than_divisor(hl as int, base as int);
    }
    let mid = ll / base + lh % base + hl % base;
    proof {
        lemma_multiply_divide_lt(mid as int, base as int, 3);
        lemma_mod_division_less_than_divisor(mid as int, base as int);
        lemma_mul_inequality(mid as int % base as int, base as int - 1, base as int);
    }
    let lo = ll % base + (mid % base) * base;
    let hi = hh + lh / base + hl / base + mid / base;
    proof {
        let bi = base as int;
        lemma_fundamental_div_mod(a as int, bi);
        lemma_fundamental_div_mod(b as int, bi);
        lemma_fundamental_div_mod(ll as int, bi);
        lemma_fundamental_div_mod(lh as int, bi);
        lemma_fundamental_div_mod(hl as int, bi);
        lemma_fundamental_div_mod(mid as int, bi);
        let q1 = ll as int / bi;
        let r1 = ll as int % bi;
        let q2 = lh as int / bi;
        let r2 = lh as int % bi;
        let q3 = hl as int / bi;
        let r3 = hl as int % bi;
        let qm = mid as int / bi;
        let rm = mid as int % bi;
        assert(a as int * b as int == bi * bi * (hh as int) + bi * (lh as int) + bi * (hl as int)
            + ll as int) by (nonlinear_arith)
            requires
                a as int == bi * (ah as int) + al as int,
                b as int == bi * (bh as int) + bl as int,
                ll as int == al as int * bl as int,
                lh as int == al as int * bh as int,
                hl as int == ah as int * bl as int,
                hh as int == ah as int * bh as int,
        ;
        assert(bi * (lh as int) == bi * bi * q2 + bi * r2) by (nonlinear_arith)
            requires
                lh as int == bi * q2 + r2,
        ;
        assert(bi * (hl as int) == bi * bi * q3 + bi * r3) by (nonlinear_arith)
            requires
                hl as int == bi * q3 + r3,
        ;
        assert(bi * (mid as int) == bi * bi * qm + bi * rm) by (nonlinear_arith)
            requires
                mid as int == bi * qm + rm,
        ;
        assert(bi * (mid as int) == bi * q1 + bi * r2 + bi * r3) by (nonlinear_arith)
            requires
                mid as int == q1 + r2 + r3,
        ;
        assert(a as int * b as int == bi * bi * (hh as int + q2 + q3 + qm) + (bi * rm + r1))
            by (nonlinear_arith)
            requires
                a as int * b as int == bi * bi * (hh as int) + bi * (lh as int) + bi * (hl as int)
                    + ll as int,
                bi * (lh as int) == bi * bi * q2 + bi * r2,
                bi * (hl as int) == bi * bi * q3 + bi * r3,
                bi * (mid as int) == bi * bi * qm + bi * rm,
                bi * (mid as int) == bi * q1 + bi * r2 + bi * r3,
                ll as int == bi * q1 + r1,
        ;
        assert(hi as int * (bi * bi) == bi * bi * (hh as int + q2 + q3 + qm)) by (nonlinear_arith)
            requires
                hi as int == hh as int + q2 + q3 + qm,
        ;
        assert(lo as int == bi * rm + r1) by (nonlinear_arith)
            requires
                lo as int == r1 + rm * bi,
        ;
    }
    U256 { hi, lo }
}

/// Quotient and remainder of a 256-bit value divided by a 128-bit divisor,
/// by restoring division one bit at a time.
pub fn div_rem_u256(v: U256, d: u128) -> (r: Result<(u128, u128), QuoteError>)
    ensures
        match r {
            Ok(p) => d > 0 && p.0 as int == v.value() / d as int && p.1 as int == v.value()
                % d as int,
            Err(e) => (e == QuoteError::MathDomain && d == 0) || (e == QuoteError::Overflow && d
                > 0 && v.value() / d as int > u128::MAX),
        },
{
    if d == 0 {
        return Err(QuoteError::MathDomain);
    }
    proof {
        lemma_pow2_128_val();
        lemma_pow2_adds(128, 128);
    }
    if v.hi >= d {
        proof {
            // v >= d * 2^128, so the quotient does not fit 128 bits.
            lemma_mul_inequality(d as int, v.hi as int, pow2(128) as int);
            vstd::arithmetic::div_mod::lemma_div_multiples_vanish(pow2(128) as int, d as int);
            lemma_div_is_ordered(
                d as int * pow2(128) as int,
                v.value(),
                d as int,
            );
            assert(d as int * pow2(128) as int == pow2(128) as int * d as int) by (nonlinear_arith);
        }
        return Err(QuoteError::Overflow);
    }
    proof {
        // With hi < d the quotient fits 128 bits.
        lemma_mul_inequality(v.hi as int, d as int - 1, pow2(128) as int);
        assert((d as int - 1) * pow2(128) as int + pow2(128) as int == d as int * pow2(
            128,
        ) as int) by (nonlinear_arith);
        lemma_multiply_divide_lt(v.value(), d as int, pow2(128) as int);
        lemma_mul_inequality(v.hi as int, pow2(128) as int - 1, pow2(128) as int);
        assert((pow2(128) as int - 1) * pow2(128) as int + pow2(128) as int == pow2(256) as int)
            by (nonlinear_arith)
            requires
                pow2(256) == pow2(128) * pow2(128),
        ;
        lemma_basic_div(v.value(), pow2(256) as int);
        lemma_basic_div(0, d as int);
        lemma_small_mod_zero(d as nat);
    }
    let mut q: u128 = 0;
    let mut rem: u128 = 0;
    let mut i: usize = 0;
    while i < 256
        invariant
            0 < d,
            v.hi < d,
            i <= 256,
            (v.value() / d as int) < pow2(128) as int,
            v.value() < pow2(256) as int,
            pow2(128) == 0x1_0000_0000_0000_0000_0000_0000_0000_0000,
            q as int == (v.value() / pow2((256 - i) as nat) as int) / d as int,
            rem as int == (v.value() / pow2((256 - i) as nat) as int) % d as int,
            rem < d,
        decreases 256 - i,
    {
        let j: usize = 255 - i;
        let ghost p_old: int = v.value() / pow2((256 - i) as nat) as int;
        let ghost p_new: int = v.value() / pow2(j as nat) as int;
        proof {
            lemma_pow2_pos(j as nat);
            lemma2_to64();
            lemma_pow2_adds(j as nat, 1);
            lemma_div_denominator(v.value(), pow2(j as nat) as int, 2);
            assert(p_old == p_new / 2);
            lemma_fundamental_div_mod(p_new, 2);
            lemma_div_pos_is_pos(v.value(), pow2(j as nat) as int);
            lemma_mod_division_less_than_divisor(p_new, 2);
        }
        let b: u128;
        if j >= 128 {
            proof {
                lemma_fundamental_div_mod_converse_div(
                    v.value(),
                    pow2(128) as int,
                    v.hi as int,
                    v.lo as int,
                );
                lemma_pow2_pos((j - 128) as nat);
                lemma_pow2_adds(128, (j - 128) as nat);
                lemma_div_denominator(v.value(), pow2(128) as int, pow2((j - 128) as nat) as int);
            }
            let p = pow2_u128((j - 128) as u32);
            b = (v.hi / p) % 2;
            proof {
                assert(b as int == p_new % 2);
            }
        } else {
            let p = pow2_u128(j as u32);
            b = (v.lo / p) % 2;
            proof {
                // The high half contributes an even multiple at bit
                // positions below 128, so the bit comes from the low half.
                lemma_pow2_adds(j as nat, (128 - j) as nat);
                lemma_hoist_over_denominator(
                    v.lo as int,
                    v.hi as int * pow2((128 - j) as nat) as int,
                    pow2(j as nat),
                );
                assert(v.hi as int * pow2((128 - j) as nat) as int * pow2(j as nat) as int
                    == v.hi as int * pow2(128) as int) by (nonlinear_arith)
                    requires
                        pow2(j as nat) * pow2((128 - j) as nat) == pow2(128),
                ;
                assert(p_new == v.hi as int * pow2((128 - j) as nat) as int + v.lo as int / pow2(
                    j as nat,
                ) as int);
                lemma_pow2_adds((127 - j) as nat, 1);
                assert(v.hi as int * pow2((128 - j) as nat) as int == 2 * (v.hi as int * pow2(
                    (127 - j) as nat,
                ) as int)) by (nonlinear_arith)
                    requires
                        pow2((128 - j) as nat) == pow2((127 - j) as nat) * 2,
                ;
                lemma_mod_multiples_vanish(
                    v.hi as int * pow2((127 - j) as nat) as int,
                    v.lo as int / pow2(j as nat) as int,
                    2,
                );
                assert(b as int == p_new % 2);
            }
        }
        let ghost q0: int = q as int;
        let ghost rem0: int = rem as int;
        proof {
            lemma_fundamental_div_mod(p_old, d as int);
        }
        let qbit: u128;
        if rem >= 0x8000_0000_0000_0000_0000_0000_0000_0000 {
            // Doubling the remainder would overflow; it then certainly
            // reaches the divisor, so fold the subtraction in.
            let t = d - rem;
            rem = rem - t;
            rem = rem + b;
            qbit = 1;
        } else {
            let t = 2 * rem + b;
            if t >= d {
                rem = t - d;
                qbit = 1;
            } else {
                rem = t;
                qbit = 0;
            }
        }
        proof {
            assert(rem as int == 2 * rem0 + b - qbit as int * d as int);
            assert(p_new == (2 * q0 + qbit as int) * d as int + rem as int) by (nonlinear_arith)
                requires
                    p_new == 2 * p_old + b,
                    p_old == d as int * q0 + rem0,
                    rem as int == 2 * rem0 + b - qbit as int * d as int,
            ;
            lemma_fundamental_div_mod_converse_div(
                p_new,
                d as int,
                2 * q0 + qbit as int,
                rem as int,
            );
            lemma_fundamental_div_mod_converse_mod(
                p_new,
                d as int,
                2 * q0 + qbit as int,
                rem as int,
            );
            lemma_div_nonincreasing(v.value(), pow2(j as nat) as int);
            lemma_div_is_ordered(p_new, v.value(), d as int);
        }
        q = 2 * q + qbit;
        i = i + 1;
    }
    proof {
        lemma2_to64();
        vstd::arithmetic::div_mod::lemma_div_basics(v.value());
    }
    Ok((q, rem))
}

proof fn lemma_small_mod_zero(m: nat)
    requires
        0 < m,
    ensures
        0int % m as int == 0,
{
    vstd::arithmetic::div_mod::lemma_small_mod(0, m);
}

/// Rounds a quotient by its remainder and narrows it to 64 bits.
fn cast_round(q: u128, rem: u128, rounding: Rounding) -> (r: Result<u64, QuoteError>)
    ensures
        ({
            let rq: int = if rounding is Up && rem > 0 {
                q as int + 1
            } else {
                q as int
            };
            match r {
                Ok(x) => x as int == rq && rq <= u64::MAX,
                Err(e) => e == QuoteError::Overflow && rq > u64::MAX,
            }
        }),
{
    let adjusted: u128 = if rounding == Rounding::Up && rem > 0 {
        if q == u128::MAX {
            return Err(QuoteError::Overflow);
        }
        q + 1
    } else {
        q
    };
    if adjusted > u64::MAX as u128 {
        Err(QuoteError::Overflow)
    } else {
        Ok(adjusted as u64)
    }
}

/// Bounds `rounded_div` by the floor quotient on either side.
pub proof fn lemma_rounded_div_bounds(v: int, d: int, rounding: Rounding)
    requires
        0 <= v,
        0 < d,
    ensures
        v / d <= rounded_div(v, d, rounding) <= v / d + 1,
        rounded_div(v, d, rounding) >= 0,
{
    lemma_fundamental_div_mod(v, d);
    lemma_div_pos_is_pos(v, d);
}

/// An upward-rounded division of positive operands yields at least one.
pub proof fn lemma_rounded_div_up_pos(v: int, d: int)
    requires
        1 <= v,
        1 <= d,
    ensures
        rounded_div(v, d, Rounding::Up) >= 1,
{
    lemma_fundamental_div_mod(v, d);
    lemma_mod_division_less_than_divisor(v, d);
    lemma_div_pos_is_pos(v, d);
    if v % d == 0 {
        if v / d == 0 {
            assert(v == d * (v / d) + v % d);
        }
    }
}

/// `(a * b) >> shift`, rounded, then cast to 64 bits.
pub fn safe_mul_shr_cast(a: u128, b: u128, shift: u32, rounding: Rounding) -> (r: Result<
    u64,
    QuoteError,
>)
    requires
        shift < 128,
    ensures
        match r {
            Ok(x) => x as int == rounded_div(
                a as int * b as int,
                pow2(shift as nat) as int,
                rounding,
            ),
            Err(e) => e == QuoteError::Overflow && rounded_div(
                a as int * b as int,
                pow2(shift as nat) as int,
                rounding,
            ) > u64::MAX,
        },
{
    let p = mul_u256(a, b);
    let d = pow2_u128(shift);
    proof {
        lemma_pow2_pos(shift as nat);
        lemma_mul_nonnegative(a as int, b as int);
        lemma_rounded_div_bounds(p.value(), d as int, rounding);
    }
    match div_rem_u256(p, d) {
        Ok((q, rem)) => cast_round(q, rem, rounding),
        Err(_) => Err(QuoteError::Overflow),
    }
}

/// `(a << shift) / b`, rounded, then cast to 64 bits.
pub fn safe_shl_div_cast(a: u128, b: u128, shift: u32, rounding: Rounding) -> (r: Result<
    u64,
    QuoteError,
>)
    requires
        shift < 128,
    ensures
        match r {
            Ok(x) => b > 0 && x as int == rounded_div(
                a as int * pow2(shift as nat) as int,
                b as int,
                rounding,
            ),
            Err(e) => (e == QuoteError::MathDomain && b == 0) || (e == QuoteError::Overflow && b
                > 0 && rounded_div(a as int * pow2(shift as nat) as int, b as int, rounding)
                > u64::MAX),
        },
{
    let s = pow2_u128(shift);
    let p = mul_u256(a, s);
    proof {
        lemma_pow2_pos(shift as nat);
        lemma_mul_nonnegative(a as int, s as int);
        if b > 0 {
            lemma_rounded_div_bounds(p.value(), b as int, rounding);
        }
    }
    match div_rem_u256(p, b) {
        Ok((q, rem)) => cast_round(q, rem, rounding),
        Err(e) => {
            if b == 0 {
                Err(QuoteError::MathDomain)
            } else {
                Err(QuoteError::Overflow)
            }
        },
    }
}

/// `(a * b) / c`, rounded, then cast to 64 bits.
pub fn safe_mul_div_cast(a: u128, b: u128, c: u128, rounding: Rounding) -> (r: Result<
    u64,
    QuoteError,
>)
    ensures
        match r {
            Ok(x) => c > 0 && x as int == rounded_div(a as int * b as int, c as int, rounding),
            Err(e) => (e == QuoteError::MathDomain && c == 0) || (e == QuoteError::Overflow && c
                > 0 && rounded_div(a as int * b as int, c as int, rounding) > u64::MAX),
        },
{
    let p = mul_u256(a, b);
    proof {
        lemma_mul_nonnegative(a as int, b as int);
        if c > 0 {
            lemma_rounded_div_bounds(p.value(), c as int, rounding);
        }
    }
    match div_rem_u256(p, c) {
        Ok((q, rem)) => cast_round(q, rem, rounding),
        Err(e) => {
            if c == 0 {
                Err(QuoteError::MathDomain)
            } else {
                Err(QuoteError::Overflow)
            }
        },
    }
}

} // verus!
