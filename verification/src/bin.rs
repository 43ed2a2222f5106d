//! Bins and bin arrays: per-bin capacity, amount conversions at a fixed
//! Q64.64 price, and the single-bin swap.

use vstd::prelude::*;
use vstd::arithmetic::power2::pow2;

use crate::constants::{BASIS_POINT_MAX, BINS_PER_ARRAY, FEE_PRECISION, SCALE_OFFSET};
use crate::errors::QuoteError;
use crate::lb_pair::{lemma_fee_from_amount_le, LbPair};
use crate::math::{rounded_div, safe_mul_shr_cast, safe_shl_div_cast, safe_mul_div_cast, Rounding};
use crate::price::{get_price_from_id, spec_price_from_id, spec_price_ok};

verus! {

/// Outcome of a single-bin swap.
#[derive(Clone, Copy, Debug, PartialEq, Eq, Structural)]
pub struct SwapResult {
    /// What the trader pays into this bin, fee included.
    pub amount_in_with_fees: u64,
    /// What the trader receives from this bin.
    pub amount_out: u64,
    /// Total fee charged in this bin.
    pub fee: u64,
    /// Protocol part of the fee after the host took its share.
    pub protocol_fee_after_host_fee: u64,
    /// Host part of the protocol fee.
    pub host_fee: u64,
    /// Tag used by exact-out flows; the per-bin swap always clears it.
    pub is_exact_out_amount: bool,
}

/// One price bucket holding reserves of both assets at a fixed price.
#[derive(Clone, Copy, Debug, PartialEq, Eq, Structural)]
pub struct Bin {
    pub amount_x: u64,
    pub amount_y: u64,
    /// Memoized Q64.64 price; zero means not yet computed.
    pub price: u128,
    /// Total liquidity shares; read only by withdraw math.
    pub liquidity_supply: u128,
}

/// Reserve on the side the trader receives.
pub open spec fn spec_max_amount_out(bin: Bin, swap_for_y: bool) -> int {
    if swap_for_y {
        bin.amount_y as int
    } else {
        bin.amount_x as int
    }
}

/// Gross (pre-fee) input that drains the receive side, rounded up.
pub open spec fn spec_max_amount_in(bin: Bin, price: u128, swap_for_y: bool) -> int {
    if swap_for_y {
        rounded_div(bin.amount_y as int * pow2(64) as int, price as int, Rounding::Up)
    } else {
        rounded_div(bin.amount_x as int * price as int, pow2(64) as int, Rounding::Up)
    }
}

/// Output bought by a net input at the bin price, rounded down.
pub open spec fn spec_amount_out_calc(amount_in: u64, price: u128, swap_for_y: bool) -> int {
    if swap_for_y {
        rounded_div(price as int * amount_in as int, pow2(64) as int, Rounding::Down)
    } else {
        rounded_div(amount_in as int * pow2(64) as int, price as int, Rounding::Down)
    }
}

/// Net input required for a desired output at the bin price, rounded up.
pub open spec fn spec_amount_in_calc(amount_out: u64, price: u128, swap_for_y: bool) -> int {
    if swap_for_y {
        rounded_div(amount_out as int * pow2(64) as int, price as int, Rounding::Up)
    } else {
        rounded_div(amount_out as int * price as int, pow2(64) as int, Rounding::Up)
    }
}

/// Charged input, output and fee of a single-bin swap: either the trader
/// pays more than it costs to drain the bin and fills it whole, or the fee
/// comes out of the paid amount and the rest converts at the bin price,
/// clamped by the reserve.
pub open spec fn spec_swap_gross(
    bin: Bin,
    amount_in: u64,
    price: u128,
    pool: LbPair,
    swap_for_y: bool,
) -> (int, int, int) {
    let max_out = spec_max_amount_out(bin, swap_for_y);
    let max_in_gross = spec_max_amount_in(bin, price, swap_for_y);
    let max_fee = pool.spec_compute_fee(max_in_gross as u64);
    let max_in_total = max_in_gross + max_fee;
    if amount_in > max_in_total {
        (max_in_total, max_out, max_fee)
    } else {
        let fee = pool.spec_compute_fee_from_amount(amount_in);
        let out_raw = spec_amount_out_calc((amount_in - fee) as u64, price, swap_for_y);
        let out = if out_raw < max_out {
            out_raw
        } else {
            max_out
        };
        (amount_in as int, out, fee)
    }
}

/// Host share of a protocol fee.
pub open spec fn spec_host_fee(protocol_fee: int, host_fee_bps: Option<u16>) -> int {
    match host_fee_bps {
        Some(bps) => protocol_fee * bps / BASIS_POINT_MAX as int,
        None => 0,
    }
}

/// Every checked step of the single-bin swap stays in range: exactly then
/// the swap succeeds.
pub open spec fn spec_swap_ok(
    bin: Bin,
    amount_in: u64,
    price: u128,
    pool: LbPair,
    swap_for_y: bool,
    host_fee_bps: Option<u16>,
) -> bool {
    let max_in_gross = spec_max_amount_in(bin, price, swap_for_y);
    &&& pool.spec_total_fee_ok()
    &&& (swap_for_y ==> price > 0)
    &&& max_in_gross <= u64::MAX
    &&& max_in_gross + pool.spec_compute_fee(max_in_gross as u64) <= u64::MAX
    &&& ({
        let g = spec_swap_gross(bin, amount_in, price, pool, swap_for_y);
        let protocol = pool.spec_compute_protocol_fee(g.2 as u64);
        &&& (amount_in <= max_in_gross + pool.spec_compute_fee(max_in_gross as u64) ==> (
        !swap_for_y ==> price > 0) && spec_amount_out_calc(
            (amount_in - pool.spec_compute_fee_from_amount(amount_in)) as u64,
            price,
            swap_for_y,
        ) <= u64::MAX)
        &&& protocol <= u64::MAX
        &&& (match host_fee_bps {
            Some(bps) => protocol * bps <= u64::MAX && spec_host_fee(protocol, host_fee_bps)
                <= protocol,
            None => true,
        })
        &&& (if swap_for_y {
            bin.amount_x + (g.0 - g.2)
        } else {
            bin.amount_y + (g.0 - g.2)
        }) <= u64::MAX
    })
}

/// A swap against a bin with reserve on the receive side always charges at
/// least one unit, and never more than what was offered.
pub proof fn lemma_swap_consumes(
    bin: Bin,
    amount_in: u64,
    price: u128,
    pool: LbPair,
    swap_for_y: bool,
)
    requires
        price >= 1,
        amount_in >= 1,
        swap_for_y ==> bin.amount_y >= 1,
        !swap_for_y ==> bin.amount_x >= 1,
    ensures
        1 <= spec_swap_gross(bin, amount_in, price, pool, swap_for_y).0,
        spec_swap_gross(bin, amount_in, price, pool, swap_for_y).0 <= amount_in,
{
    vstd::arithmetic::power2::lemma_pow2_pos(64);
    let max_in_gross = spec_max_amount_in(bin, price, swap_for_y);
    if swap_for_y {
        vstd::arithmetic::mul::lemma_mul_inequality(1, bin.amount_y as int, pow2(64) as int);
        crate::math::lemma_rounded_div_up_pos(
            bin.amount_y as int * pow2(64) as int,
            price as int,
        );
    } else {
        vstd::arithmetic::mul::lemma_mul_inequality(1, bin.amount_x as int, price as int);
        crate::math::lemma_rounded_div_up_pos(
            bin.amount_x as int * price as int,
            pow2(64) as int,
        );
    }
    crate::lb_pair::lemma_total_fee_rate_bounds(pool);
    let rate = pool.spec_total_fee_rate();
    vstd::arithmetic::mul::lemma_mul_nonnegative((max_in_gross as u64) as int, rate);
    vstd::arithmetic::div_mod::lemma_div_pos_is_pos(
        (max_in_gross as u64) * rate + (FEE_PRECISION - rate) - 1,
        FEE_PRECISION - rate,
    );
}

/// Bin-array index that holds a bin id: the floor of `bin_id / BINS_PER_ARRAY`.
pub open spec fn spec_bin_id_to_bin_array_index(bin_id: int) -> int {
    bin_id / BINS_PER_ARRAY as int
}

/// A contiguous block of bins addressed by one bin-array index.
#[derive(Debug)]
pub struct BinArray {
    pub index: i64,
    pub bins: Vec<Bin>,
}

impl BinArray {
    /// Well-formed: exactly `BINS_PER_ARRAY` bins, and the covered bin-id
    /// range representable as 32-bit ids.
    pub open spec fn wf(self) -> bool {
        &&& self.bins@.len() == BINS_PER_ARRAY as nat
        &&& i32::MIN <= self.index * BINS_PER_ARRAY
        &&& self.index * BINS_PER_ARRAY + (BINS_PER_ARRAY - 1) <= i32::MAX
    }

    /// First bin id the array covers.
    pub open spec fn spec_lower_bin_id(self) -> int {
        self.index * BINS_PER_ARRAY as int
    }

    /// Last bin id the array covers.
    pub open spec fn spec_upper_bin_id(self) -> int {
        self.spec_lower_bin_id() + (BINS_PER_ARRAY - 1)
    }

    /// Whether a bin id falls inside this array.
    pub fn is_bin_id_within_range(&self, bin_id: i32) -> (r: bool)
        requires
            self.wf(),
        ensures
            r == (self.spec_lower_bin_id() <= bin_id <= self.spec_upper_bin_id()),
    {
        let lower = (self.index * BINS_PER_ARRAY as i64) as i32;
        let upper = lower + (BINS_PER_ARRAY - 1);
        lower <= bin_id && bin_id <= upper
    }

    /// Position of a bin id inside this array's bin vector.
    pub fn bin_position(&self, bin_id: i32) -> (r: usize)
        requires
            self.wf(),
            self.spec_lower_bin_id() <= bin_id <= self.spec_upper_bin_id(),
        ensures
            r == bin_id - self.spec_lower_bin_id(),
            r < self.bins@.len(),
    {
        let lower = (self.index * BINS_PER_ARRAY as i64) as i32;
        (bin_id - lower) as usize
    }

    /// Maps a bin id to the index of the bin array that holds it.
    pub fn bin_id_to_bin_array_index(bin_id: i32) -> (r: i32)
        ensures
            r as int == spec_bin_id_to_bin_array_index(bin_id as int),
    {
        if bin_id >= 0 {
            bin_id / BINS_PER_ARRAY
        } else {
            let a = (-(bin_id as i64)) as u64;
            let q = (a + (BINS_PER_ARRAY as u64 - 1)) / BINS_PER_ARRAY as u64;
            proof {
                vstd::arithmetic::div_mod::lemma_fundamental_div_mod(
                    a as int + (BINS_PER_ARRAY - 1),
                    BINS_PER_ARRAY as int,
                );
                vstd::arithmetic::div_mod::lemma_mod_division_less_than_divisor(
                    a as int + (BINS_PER_ARRAY - 1),
                    BINS_PER_ARRAY as int,
                );
                let rr = (BINS_PER_ARRAY as int) * (q as int) - a;
                assert(-(a as int) == (q as int) * (-1) * BINS_PER_ARRAY as int + rr)
                    by (nonlinear_arith)
                    requires
                        rr == (BINS_PER_ARRAY as int) * (q as int) - a,
                ;
                assert(0 <= rr < BINS_PER_ARRAY as int) by (nonlinear_arith)
                    requires
                        a as int + (BINS_PER_ARRAY - 1) == BINS_PER_ARRAY as int * (q as int) + (
                        a as int + (BINS_PER_ARRAY - 1)) % BINS_PER_ARRAY as int,
                        0 <= (a as int + (BINS_PER_ARRAY - 1)) % (BINS_PER_ARRAY as int),
                        ((a as int + (BINS_PER_ARRAY - 1)) % (BINS_PER_ARRAY as int)) < (
                        BINS_PER_ARRAY as int),
                        rr == (BINS_PER_ARRAY as int) * (q as int) - a,
                        a >= 1,
                ;
                vstd::arithmetic::div_mod::lemma_fundamental_div_mod_converse_div(
                    -(a as int),
                    BINS_PER_ARRAY as int,
                    (q as int) * (-1),
                    rr,
                );
                assert((q as int) * (-1) == -(q as int)) by (nonlinear_arith);
            }
            (-(q as i64)) as i32
        }
    }
}

impl Bin {
    /// Returns the memoized bin price, computing and storing it first when
    /// it is still zero.
    pub fn get_or_store_bin_price(&mut self, id: i32, bin_step: u16) -> (r: Result<
        u128,
        QuoteError,
    >)
        ensures
            match r {
                Ok(p) => p >= 1 && (if old(self).price != 0 {
                    p == old(self).price && *final(self) == *old(self)
                } else {
                    &&& spec_price_ok(id as int, bin_step)
                    &&& p as int == spec_price_from_id(id as int, bin_step)
                    &&& (*final(self) == Bin { price: p, ..*old(self) })
                }),
                Err(e) => e == QuoteError::Overflow && old(self).price == 0 && !spec_price_ok(
                    id as int,
                    bin_step,
                ) && *final(self) == *old(self),
            },
    {
        if self.price == 0 {
            let p = get_price_from_id(id, bin_step)?;
            self.price = p;
        }
        Ok(self.price)
    }

    /// True when the reserve of the asked side is zero.
    pub fn is_empty(&self, is_x: bool) -> (r: bool)
        ensures
            r == (if is_x {
                self.amount_x == 0
            } else {
                self.amount_y == 0
            }),
    {
        if is_x {
            self.amount_x == 0
        } else {
            self.amount_y == 0
        }
    }

    /// The whole reserve on the receive side.
    pub fn get_max_amount_out(&self, swap_for_y: bool) -> (r: u64)
        ensures
            r as int == spec_max_amount_out(*self, swap_for_y),
    {
        if swap_for_y {
            self.amount_y
        } else {
            self.amount_x
        }
    }

    /// Gross input that would drain the receive side, rounded up to protect
    /// the pool.
    pub fn get_max_amount_in(&self, price: u128, swap_for_y: bool) -> (r: Result<u64, QuoteError>)
        ensures
            match r {
                Ok(v) => (swap_for_y ==> price > 0) && v as int == spec_max_amount_in(
                    *self,
                    price,
                    swap_for_y,
                ),
                Err(e) => (e == QuoteError::MathDomain && swap_for_y && price == 0) || (e
                    == QuoteError::Overflow && (swap_for_y ==> price > 0) && spec_max_amount_in(
                    *self,
                    price,
                    swap_for_y,
                ) > u64::MAX),
            },
    {
        if swap_for_y {
            safe_shl_div_cast(self.amount_y as u128, price, SCALE_OFFSET, Rounding::Up)
        } else {
            safe_mul_shr_cast(self.amount_x as u128, price, SCALE_OFFSET, Rounding::Up)
        }
    }

    /// Net input required for `amount_out`, rounded up.
    pub fn get_amount_in(amount_out: u64, price: u128, swap_for_y: bool) -> (r: Result<
        u64,
        QuoteError,
    >)
        ensures
            match r {
                Ok(v) => (swap_for_y ==> price > 0) && v as int == spec_amount_in_calc(
                    amount_out,
                    price,
                    swap_for_y,
                ),
                Err(e) => (e == QuoteError::MathDomain && swap_for_y && price == 0) || (e
                    == QuoteError::Overflow && (swap_for_y ==> price > 0) && spec_amount_in_calc(
                    amount_out,
                    price,
                    swap_for_y,
                ) > u64::MAX),
            },
    {
        if swap_for_y {
            safe_shl_div_cast(amount_out as u128, price, SCALE_OFFSET, Rounding::Up)
        } else {
            safe_mul_shr_cast(amount_out as u128, price, SCALE_OFFSET, Rounding::Up)
        }
    }

    /// Output bought by `amount_in`, rounded down.
    pub fn get_amount_out(amount_in: u64, price: u128, swap_for_y: bool) -> (r: Result<
        u64,
        QuoteError,
    >)
        ensures
            match r {
                Ok(v) => (!swap_for_y ==> price > 0) && v as int == spec_amount_out_calc(
                    amount_in,
                    price,
                    swap_for_y,
                ),
                Err(e) => (e == QuoteError::MathDomain && !swap_for_y && price == 0) || (e
                    == QuoteError::Overflow && (!swap_for_y ==> price > 0)
                    && spec_amount_out_calc(amount_in, price, swap_for_y) > u64::MAX),
            },
    {
        if swap_for_y {
            safe_mul_shr_cast(price, amount_in as u128, SCALE_OFFSET, Rounding::Down)
        } else {
            safe_shl_div_cast(amount_in as u128, price, SCALE_OFFSET, Rounding::Down)
        }
    }

    /// Withdrawable amounts for a liquidity share, both rounded down.
    pub fn calculate_out_amount(&self, liquidity_share: u128) -> (r: Result<
        (u64, u64),
        QuoteError,
    >)
        ensures
            match r {
                Ok(p) => self.liquidity_supply > 0 && p.0 as int == rounded_div(
                    liquidity_share as int * self.amount_x as int,
                    self.liquidity_supply as int,
                    Rounding::Down,
                ) && p.1 as int == rounded_div(
                    liquidity_share as int * self.amount_y as int,
                    self.liquidity_supply as int,
                    Rounding::Down,
                ),
                Err(e) => (e == QuoteError::MathDomain && self.liquidity_supply == 0) || (e
                    == QuoteError::Overflow && self.liquidity_supply > 0 && (rounded_div(
                    liquidity_share as int * self.amount_x as int,
                    self.liquidity_supply as int,
                    Rounding::Down,
                ) > u64::MAX || rounded_div(
                    liquidity_share as int * self.amount_y as int,
                    self.liquidity_supply as int,
                    Rounding::Down,
                ) > u64::MAX)),
            },
    {
        let out_amount_x = safe_mul_div_cast(
            liquidity_share,
            self.amount_x as u128,
            self.liquidity_supply,
            Rounding::Down,
        )?;
        let out_amount_y = safe_mul_div_cast(
            liquidity_share,
            self.amount_y as u128,
            self.liquidity_supply,
            Rounding::Down,
        )?;
        Ok((out_amount_x, out_amount_y))
    }

    /// Swaps `amount_in` against this bin at the given price: drains the
    /// bin whole when the input covers its full cost, otherwise converts
    /// the fee-reduced input. Moves the paid amount (net of fee) onto the
    /// pay side and the output off the receive side.
    pub fn swap(
        &mut self,
        amount_in: u64,
        price: u128,
        swap_for_y: bool,
        lb_pair: &LbPair,
        host_fee_bps: Option<u16>,
    ) -> (r: Result<SwapResult, QuoteError>)
        ensures
            match r {
                Ok(res) => ({
                    let g = spec_swap_gross(*old(self), amount_in, price, *lb_pair, swap_for_y);
                    let protocol = lb_pair.spec_compute_protocol_fee(res.fee);
                    &&& spec_swap_ok(
                        *old(self),
                        amount_in,
                        price,
                        *lb_pair,
                        swap_for_y,
                        host_fee_bps,
                    )
                    &&& res.amount_in_with_fees as int == g.0
                    &&& res.amount_out as int == g.1
                    &&& res.fee as int == g.2
                    &&& res.host_fee as int == spec_host_fee(protocol, host_fee_bps)
                    &&& res.protocol_fee_after_host_fee as int == protocol - res.host_fee
                    &&& !res.is_exact_out_amount
                    &&& res.fee <= res.amount_in_with_fees
                    &&& res.amount_out as int <= spec_max_amount_out(*old(self), swap_for_y)
                    &&& (if swap_for_y {
                        &&& final (self).amount_x as int == old(self).amount_x + (
                        res.amount_in_with_fees - res.fee)
                        &&& final (self).amount_y as int == old(self).amount_y - res.amount_out
                    } else {
                        &&& final (self).amount_y as int == old(self).amount_y + (
                        res.amount_in_with_fees - res.fee)
                        &&& final (self).amount_x as int == old(self).amount_x - res.amount_out
                    })
                    &&& final (self).price == old(self).price
                    &&& final (self).liquidity_supply == old(self).liquidity_supply
                }),
                Err(e) => !spec_swap_ok(
                    *old(self),
                    amount_in,
                    price,
                    *lb_pair,
                    swap_for_y,
                    host_fee_bps,
                ) && (e == QuoteError::Overflow || e == QuoteError::MathDomain) && (e
                    == QuoteError::MathDomain ==> price == 0) && *final(self) == *old(self),
            },
    {
        let max_amount_out = self.get_max_amount_out(swap_for_y);
        let max_amount_in_gross = match self.get_max_amount_in(price, swap_for_y) {
            Ok(v) => v,
            Err(e) => {
                return Err(e);
            },
        };
        let max_fee = match lb_pair.compute_fee(max_amount_in_gross) {
            Ok(v) => v,
            Err(e) => {
                return Err(e);
            },
        };
        if max_amount_in_gross > u64::MAX - max_fee {
            return Err(QuoteError::Overflow);
        }
        let max_amount_in = max_amount_in_gross + max_fee;
        let amount_in_with_fees: u64;
        let amount_out: u64;
        let fee: u64;
        if amount_in > max_amount_in {
            amount_in_with_fees = max_amount_in;
            amount_out = max_amount_out;
            fee = max_fee;
        } else {
            let partial_fee = match lb_pair.compute_fee_from_amount(amount_in) {
                Ok(v) => v,
                Err(e) => {
                    return Err(e);
                },
            };
            proof {
                lemma_fee_from_amount_le(*lb_pair, amount_in);
            }
            let amount_in_after_fee = amount_in - partial_fee;
            let out_raw = match Bin::get_amount_out(amount_in_after_fee, price, swap_for_y) {
                Ok(v) => v,
                Err(e) => {
                    return Err(e);
                },
            };
            amount_in_with_fees = amount_in;
            amount_out = if out_raw < max_amount_out {
                out_raw
            } else {
                max_amount_out
            };
            fee = partial_fee;
        }
        let protocol_fee = match lb_pair.compute_protocol_fee(fee) {
            Ok(v) => v,
            Err(e) => {
                return Err(e);
            },
        };
        let host_fee: u64;
        match host_fee_bps {
            Some(bps) => {
                let bps64 = bps as u64;
                if bps64 > 0 && protocol_fee > u64::MAX / bps64 {
                    proof {
                        crate::lb_pair::lemma_mul_div_gt(
                            u64::MAX as int,
                            protocol_fee as int,
                            bps64 as int,
                        );
                    }
                    return Err(QuoteError::Overflow);
                }
                proof {
                    if bps64 > 0 {
                        crate::lb_pair::lemma_mul_div_le(
                            u64::MAX as int,
                            protocol_fee as int,
                            bps64 as int,
                        );
                    }
                    vstd::arithmetic::div_mod::lemma_div_pos_is_pos(
                        protocol_fee as int * bps64 as int,
                        BASIS_POINT_MAX as int,
                    );
                    vstd::arithmetic::div_mod::lemma_div_nonincreasing(
                        protocol_fee as int * bps64 as int,
                        BASIS_POINT_MAX as int,
                    );
                    vstd::arithmetic::mul::lemma_mul_nonnegative(
                        protocol_fee as int,
                        bps64 as int,
                    );
                    vstd::arithmetic::mul::lemma_mul_upper_bound(
                        protocol_fee as int,
                        u64::MAX as int,
                        bps64 as int,
                        0xffff,
                    );
                }
                host_fee = (protocol_fee * bps64) / BASIS_POINT_MAX;
            },
            None => {
                host_fee = 0;
            },
        }
        if host_fee > protocol_fee {
            return Err(QuoteError::Overflow);
        }
        let protocol_fee_after_host_fee = protocol_fee - host_fee;
        let amount_into_bin = amount_in_with_fees - fee;
        if swap_for_y {
            if self.amount_x > u64::MAX - amount_into_bin {
                return Err(QuoteError::Overflow);
            }
            self.amount_x = self.amount_x + amount_into_bin;
            self.amount_y = self.amount_y - amount_out;
        } else {
            if self.amount_y > u64::MAX - amount_into_bin {
                return Err(QuoteError::Overflow);
            }
            self.amount_y = self.amount_y + amount_into_bin;
            self.amount_x = self.amount_x - amount_out;
        }
        Ok(
            SwapResult {
                amount_in_with_fees,
                amount_out,
                fee,
                protocol_fee_after_host_fee,
                host_fee,
                is_exact_out_amount: false,
            },
        )
    }
}

} // verus!
