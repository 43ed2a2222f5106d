//! Mint descriptors: the optional transfer fee a mint charges on every
//! transfer, and the pre/post adjustment of amounts around a quote.

use vstd::prelude::*;

use crate::constants::BASIS_POINT_MAX;
use crate::errors::QuoteError;
use crate::math::{rounded_div, Rounding};

verus! {

/// One transfer-fee schedule entry, in force from its epoch on.
#[derive(Clone, Copy, Debug, PartialEq, Eq, Structural)]
pub struct TransferFee {
    pub epoch: u64,
    pub maximum_fee: u64,
    pub transfer_fee_basis_points: u16,
}

/// A mint's transfer-fee configuration: the newer entry applies from its
/// epoch on, the older one before that.
#[derive(Clone, Copy, Debug, PartialEq, Eq, Structural)]
pub struct TransferFeeConfig {
    pub older_transfer_fee: TransferFee,
    pub newer_transfer_fee: TransferFee,
}

/// What a quote needs to know about a mint: its transfer fee, if it has
/// one.
#[derive(Clone, Copy, Debug, PartialEq, Eq, Structural)]
pub struct MintInfo {
    pub transfer_fee_config: Option<TransferFeeConfig>,
}

impl MintInfo {
    /// A mint that charges no transfer fee.
    pub fn plain() -> (r: MintInfo)
        ensures
            r.transfer_fee_config is None,
    {
        MintInfo { transfer_fee_config: None }
    }
}

/// The schedule entry in force at an epoch.
pub open spec fn spec_epoch_fee(c: TransferFeeConfig, epoch: u64) -> TransferFee {
    if epoch >= c.newer_transfer_fee.epoch {
        c.newer_transfer_fee
    } else {
        c.older_transfer_fee
    }
}

/// Fee withheld from a transferred amount: basis points rounded up, capped
/// at the entry's maximum.
pub open spec fn spec_fee_amount(f: TransferFee, amount: u64) -> int {
    if f.transfer_fee_basis_points == 0 || amount == 0 {
        0
    } else {
        let raw = rounded_div(
            amount as int * f.transfer_fee_basis_points as int,
            BASIS_POINT_MAX as int,
            Rounding::Up,
        );
        if raw > f.maximum_fee as int {
            f.maximum_fee as int
        } else {
            raw
        }
    }
}

/// Fee to add on top of a desired received amount so that the fee leaves
/// exactly that amount, capped at the entry's maximum. A schedule of
/// `BASIS_POINT_MAX` or more basis points withholds its maximum outright.
pub open spec fn spec_inverse_fee(f: TransferFee, post_amount: u64) -> int {
    if f.transfer_fee_basis_points == 0 || post_amount == 0 {
        0
    } else if f.transfer_fee_basis_points >= BASIS_POINT_MAX {
        f.maximum_fee as int
    } else {
        let raw = rounded_div(
            post_amount as int * f.transfer_fee_basis_points as int,
            BASIS_POINT_MAX - f.transfer_fee_basis_points as int,
            Rounding::Up,
        );
        if raw > f.maximum_fee as int {
            f.maximum_fee as int
        } else {
            raw
        }
    }
}

/// What arrives after the mint's transfer fee is withheld.
pub open spec fn spec_transfer_fee_excluded(m: MintInfo, amount: u64, epoch: u64) -> int {
    match m.transfer_fee_config {
        Option::None => amount as int,
        Option::Some(c) => amount - spec_fee_amount(spec_epoch_fee(c, epoch), amount),
    }
}

/// The gross amount to send so that `amount` arrives after the fee.
pub open spec fn spec_transfer_fee_included(m: MintInfo, amount: u64, epoch: u64) -> int {
    match m.transfer_fee_config {
        Option::None => amount as int,
        Option::Some(c) => amount + spec_inverse_fee(spec_epoch_fee(c, epoch), amount),
    }
}

/// Fee withheld from `amount` under the entry in force at `epoch`.
fn calculate_fee(f: &TransferFee, amount: u64) -> (r: u64)
    ensures
        r as int == spec_fee_amount(*f, amount),
        r <= amount || r <= f.maximum_fee,
{
    if f.transfer_fee_basis_points == 0 || amount == 0 {
        0
    } else {
        proof {
            vstd::arithmetic::mul::lemma_mul_upper_bound(
                amount as int,
                u64::MAX as int,
                f.transfer_fee_basis_points as int,
                0xffff,
            );
            vstd::arithmetic::mul::lemma_mul_nonnegative(
                amount as int,
                f.transfer_fee_basis_points as int,
            );
            vstd::arithmetic::div_mod::lemma_div_pos_is_pos(
                amount as int * f.transfer_fee_basis_points as int + (BASIS_POINT_MAX as int - 1),
                BASIS_POINT_MAX as int,
            );
            vstd::arithmetic::div_mod::lemma_fundamental_div_mod(
                amount as int * f.transfer_fee_basis_points as int,
                BASIS_POINT_MAX as int,
            );
            vstd::arithmetic::div_mod::lemma_mod_division_less_than_divisor(
                amount as int * f.transfer_fee_basis_points as int,
                BASIS_POINT_MAX as int,
            );
        }
        let num = amount as u128 * f.transfer_fee_basis_points as u128;
        let raw = (num + (BASIS_POINT_MAX as u128 - 1)) / BASIS_POINT_MAX as u128;
        proof {
            lemma_ceil_is_rounded_up(
                amount as int * f.transfer_fee_basis_points as int,
                BASIS_POINT_MAX as int,
            );
        }
        if raw > f.maximum_fee as u128 {
            f.maximum_fee
        } else {
            raw as u64
        }
    }
}

/// The `(v + d - 1) / d` form computes `rounded_div(v, d, Up)`.
pub proof fn lemma_ceil_is_rounded_up(v: int, d: int)
    requires
        0 <= v,
        0 < d,
    ensures
        (v + d - 1) / d == rounded_div(v, d, Rounding::Up),
{
    vstd::arithmetic::div_mod::lemma_fundamental_div_mod(v, d);
    vstd::arithmetic::div_mod::lemma_mod_division_less_than_divisor(v, d);
    let q = v / d;
    let m = v % d;
    if m == 0 {
        assert(v + d - 1 == q * d + (d - 1)) by (nonlinear_arith)
            requires
                v == d * q + m,
                m == 0,
        ;
        vstd::arithmetic::div_mod::lemma_fundamental_div_mod_converse_div(
            v + d - 1,
            d,
            q,
            d - 1,
        );
    } else {
        assert(v + d - 1 == (q + 1) * d + (m - 1)) by (nonlinear_arith)
            requires
                v == d * q + m,
        ;
        vstd::arithmetic::div_mod::lemma_fundamental_div_mod_converse_div(
            v + d - 1,
            d,
            q + 1,
            m - 1,
        );
    }
}

/// Amount actually received after the mint's transfer fee; the amount
/// itself for a mint without one. Fails when the configured fee exceeds
/// the amount.
pub fn transfer_fee_excluded_amount(mint: &MintInfo, amount: u64, epoch: u64) -> (r: Result<
    u64,
    QuoteError,
>)
    ensures
        match r {
            Ok(v) => v as int == spec_transfer_fee_excluded(*mint, amount, epoch) && v <= amount,
            Err(e) => e == QuoteError::Overflow && spec_transfer_fee_excluded(*mint, amount, epoch)
                < 0,
        },
{
    match &mint.transfer_fee_config {
        Option::None => Ok(amount),
        Option::Some(c) => {
            let entry = if epoch >= c.newer_transfer_fee.epoch {
                c.newer_transfer_fee
            } else {
                c.older_transfer_fee
            };
            let fee = calculate_fee(&entry, amount);
            if fee > amount {
                Err(QuoteError::Overflow)
            } else {
                Ok(amount - fee)
            }
        },
    }
}

/// Gross amount to send so that `amount` arrives after the mint's transfer
/// fee; the amount itself for a mint without one. Fails when the gross
/// amount leaves 64 bits.
pub fn transfer_fee_included_amount(mint: &MintInfo, amount: u64, epoch: u64) -> (r: Result<
    u64,
    QuoteError,
>)
    ensures
        match r {
            Ok(v) => v as int == spec_transfer_fee_included(*mint, amount, epoch) && v >= amount,
            Err(e) => e == QuoteError::Overflow && spec_transfer_fee_included(*mint, amount, epoch)
                > u64::MAX,
        },
{
    match &mint.transfer_fee_config {
        Option::None => Ok(amount),
        Option::Some(c) => {
            let entry = if epoch >= c.newer_transfer_fee.epoch {
                c.newer_transfer_fee
            } else {
                c.older_transfer_fee
            };
            let fee: u64;
            if entry.transfer_fee_basis_points == 0 || amount == 0 {
                fee = 0;
            } else if entry.transfer_fee_basis_points as u64 >= BASIS_POINT_MAX {
                fee = entry.maximum_fee;
            } else {
                let bps = entry.transfer_fee_basis_points as u128;
                let denom = BASIS_POINT_MAX as u128 - bps;
                proof {
                    vstd::arithmetic::mul::lemma_mul_upper_bound(
                        amount as int,
                        u64::MAX as int,
                        entry.transfer_fee_basis_points as int,
                        0xffff,
                    );
                    vstd::arithmetic::mul::lemma_mul_nonnegative(
                        amount as int,
                        entry.transfer_fee_basis_points as int,
                    );
                    lemma_ceil_is_rounded_up(
                        amount as int * entry.transfer_fee_basis_points as int,
                        denom as int,
                    );
                    vstd::arithmetic::div_mod::lemma_div_pos_is_pos(
                        amount as int * entry.transfer_fee_basis_points as int + (denom as int
                            - 1),
                        denom as int,
                    );
                }
                let raw = (amount as u128 * bps + (denom - 1)) / denom;
                fee = if raw > entry.maximum_fee as u128 {
                    entry.maximum_fee
                } else {
                    raw as u64
                };
            }
            if amount > u64::MAX - fee {
                Err(QuoteError::Overflow)
            } else {
                Ok(amount + fee)
            }
        },
    }
}

} // verus!
