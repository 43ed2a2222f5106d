//! The pool snapshot: static and variable parameters, the fee engine, the
//! volatility tracker, and the internal bitmap navigator.

use vstd::prelude::*;
use vstd::arithmetic::power::{lemma_pow1, lemma_pow_adds, lemma_pow_increases, pow};
use vstd::arithmetic::div_mod::{
    lemma_fundamental_div_mod, lemma_mod_division_less_than_divisor, lemma_multiply_divide_lt,
};
use vstd::arithmetic::mul::{lemma_mul_inequality, lemma_mul_nonnegative, lemma_mul_upper_bound};

use crate::bitmap::{limb_bit, scan_bit_down, scan_bit_up};
use crate::constants::{BASIS_POINT_MAX, BIN_ARRAY_BITMAP_SIZE, FEE_PRECISION, MAX_BIN_ID,
    MAX_FEE_RATE, MIN_BIN_ID};
use crate::errors::QuoteError;

verus! {

/// Pool state machine tag: only enabled pools may be quoted.
#[derive(Clone, Copy, Debug, PartialEq, Eq, Structural)]
pub enum PairStatus {
    Enabled,
    Disabled,
}

/// Kind of pool; permissioned pools carry an activation point.
#[derive(Clone, Copy, Debug, PartialEq, Eq, Structural)]
pub enum PairType {
    Permissionless,
    Permission,
    CustomizablePermissionless,
    PermissionlessV2,
}

/// Unit of the activation point of a permissioned pool.
#[derive(Clone, Copy, Debug, PartialEq, Eq, Structural)]
pub enum ActivationType {
    Slot,
    Timestamp,
}

/// Which token program owns a mint.
#[derive(Clone, Copy, Debug, PartialEq, Eq, Structural)]
pub enum TokenProgramFlags {
    TokenProgram,
    TokenProgram2022,
}

/// Parameters fixed at pool creation.
#[derive(Clone, Copy, Debug, PartialEq, Eq, Structural)]
pub struct StaticParameters {
    pub base_factor: u16,
    pub filter_period: u16,
    pub decay_period: u16,
    pub reduction_factor: u16,
    pub variable_fee_control: u32,
    pub max_volatility_accumulator: u32,
    pub protocol_share: u16,
    pub base_fee_power_factor: u8,
}

/// Parameters the volatility tracker rewrites while trading.
#[derive(Clone, Copy, Debug, PartialEq, Eq, Structural)]
pub struct VariableParameters {
    pub volatility_accumulator: u32,
    pub volatility_reference: u32,
    pub index_reference: i32,
    pub last_update_timestamp: i64,
}

/// Immutable snapshot of a pool. The quote engine mutates only a local
/// copy of it.
#[derive(Clone, Copy, Debug)]
pub struct LbPair {
    pub active_id: i32,
    pub bin_step: u16,
    pub status: u8,
    pub pair_type: u8,
    pub activation_type: u8,
    pub activation_point: u64,
    pub token_mint_x_program_flag: u8,
    pub token_mint_y_program_flag: u8,
    pub parameters: StaticParameters,
    pub v_parameters: VariableParameters,
    pub bin_array_bitmap: [u64; 16],
}

/// `10^e`, or an error once it leaves 128 bits.
fn pow10_u128(e: u8) -> (r: Result<u128, QuoteError>)
    ensures
        match r {
            Ok(v) => pow(10, e as nat) <= u128::MAX && v as int == pow(10, e as nat),
            Err(er) => er == QuoteError::Overflow && pow(10, e as nat) > u128::MAX,
        },
{
    let mut acc: u128 = 1;
    let mut i: u8 = 0;
    proof {
        vstd::arithmetic::power::lemma_pow0(10);
    }
    while i < e
        invariant
            i <= e,
            acc as int == pow(10, i as nat),
            acc >= 1,
        decreases e - i,
    {
        proof {
            lemma_pow_adds(10, i as nat, 1);
            lemma_pow1(10);
        }
        if acc > u128::MAX / 10 {
            proof {
                lemma_fundamental_div_mod(u128::MAX as int, 10);
                lemma_mod_division_less_than_divisor(u128::MAX as int, 10);
                lemma_mul_inequality(u128::MAX as int / 10 + 1, acc as int, 10);
                lemma_pow_increases(10, (i + 1) as nat, e as nat);
            }
            return Err(QuoteError::Overflow);
        }
        proof {
            lemma_fundamental_div_mod(u128::MAX as int, 10);
            lemma_mod_division_less_than_divisor(u128::MAX as int, 10);
            lemma_mul_inequality(acc as int, u128::MAX as int / 10, 10);
        }
        acc = acc * 10;
        i = i + 1;
    }
    Ok(acc)
}

impl LbPair {
    /// Base fee rate over `FEE_PRECISION`:
    /// `base_factor * bin_step * 10 * 10^base_fee_power_factor`.
    pub open spec fn spec_base_fee_rate(self) -> int {
        self.parameters.base_factor * self.bin_step * 10 * pow(
            10,
            self.parameters.base_fee_power_factor as nat,
        )
    }

    /// Whether the base fee rate fits 128 bits, power factor included.
    pub open spec fn spec_base_fee_ok(self) -> bool {
        &&& pow(10, self.parameters.base_fee_power_factor as nat) <= u128::MAX
        &&& self.spec_base_fee_rate() <= u128::MAX
    }

    /// Variable fee rate for a given accumulator:
    /// `ceil(variable_fee_control * (vac * bin_step)^2 / 10^11)`.
    pub open spec fn spec_variable_fee_rate_from(self, vac: u32) -> int {
        if self.parameters.variable_fee_control > 0 {
            let square = (vac * self.bin_step) * (vac * self.bin_step);
            (self.parameters.variable_fee_control * square + 99_999_999_999) / 100_000_000_000
        } else {
            0
        }
    }

    /// Whether base and variable rates sum inside 128 bits.
    pub open spec fn spec_total_fee_ok(self) -> bool {
        &&& self.spec_base_fee_ok()
        &&& self.spec_base_fee_rate() + self.spec_variable_fee_rate_from(
            self.v_parameters.volatility_accumulator,
        ) <= u128::MAX
    }

    /// Total fee rate: base plus variable, capped at `MAX_FEE_RATE`.
    pub open spec fn spec_total_fee_rate(self) -> int {
        let total = self.spec_base_fee_rate() + self.spec_variable_fee_rate_from(
            self.v_parameters.volatility_accumulator,
        );
        if total < MAX_FEE_RATE as int {
            total
        } else {
            MAX_FEE_RATE as int
        }
    }

    /// Fee charged on top of a pre-fee amount:
    /// `ceil(amount * rate / (FEE_PRECISION - rate))`.
    pub open spec fn spec_compute_fee(self, amount: u64) -> int {
        let rate = self.spec_total_fee_rate();
        let denom = FEE_PRECISION - rate;
        (amount * rate + denom - 1) / denom
    }

    /// Fee contained in a fee-inclusive amount:
    /// `ceil(amount * rate / FEE_PRECISION)`.
    pub open spec fn spec_compute_fee_from_amount(self, amount_with_fees: u64) -> int {
        let rate = self.spec_total_fee_rate();
        (amount_with_fees * rate + (FEE_PRECISION - 1)) / FEE_PRECISION as int
    }

    /// Protocol share of a fee, truncating.
    pub open spec fn spec_compute_protocol_fee(self, fee_amount: u64) -> int {
        fee_amount * self.parameters.protocol_share / BASIS_POINT_MAX as int
    }

    /// The pair status named by the stored byte.
    pub fn status(&self) -> (r: Result<PairStatus, QuoteError>)
        ensures
            match r {
                Ok(s) => (self.status == 0 && s == PairStatus::Enabled) || (self.status == 1
                    && s == PairStatus::Disabled),
                Err(e) => e == QuoteError::TypeCastFailed && self.status > 1,
            },
    {
        match self.status {
            0 => Ok(PairStatus::Enabled),
            1 => Ok(PairStatus::Disabled),
            _ => Err(QuoteError::TypeCastFailed),
        }
    }

    /// The pair type named by the stored byte.
    pub fn pair_type(&self) -> (r: Result<PairType, QuoteError>)
        ensures
            match r {
                Ok(t) => (self.pair_type == 0 && t == PairType::Permissionless) || (self.pair_type
                    == 1 && t == PairType::Permission) || (self.pair_type == 2 && t
                    == PairType::CustomizablePermissionless) || (self.pair_type == 3 && t
                    == PairType::PermissionlessV2),
                Err(e) => e == QuoteError::TypeCastFailed && self.pair_type > 3,
            },
    {
        match self.pair_type {
            0 => Ok(PairType::Permissionless),
            1 => Ok(PairType::Permission),
            2 => Ok(PairType::CustomizablePermissionless),
            3 => Ok(PairType::PermissionlessV2),
            _ => Err(QuoteError::TypeCastFailed),
        }
    }

    /// The activation type named by the stored byte.
    pub fn activation_type(&self) -> (r: Result<ActivationType, QuoteError>)
        ensures
            match r {
                Ok(t) => (self.activation_type == 0 && t == ActivationType::Slot) || (
                self.activation_type == 1 && t == ActivationType::Timestamp),
                Err(e) => e == QuoteError::TypeCastFailed && self.activation_type > 1,
            },
    {
        match self.activation_type {
            0 => Ok(ActivationType::Slot),
            1 => Ok(ActivationType::Timestamp),
            _ => Err(QuoteError::TypeCastFailed),
        }
    }

    /// The token programs of the two mints, by their stored flags.
    pub fn get_token_programs(&self) -> (r: Result<
        (TokenProgramFlags, TokenProgramFlags),
        QuoteError,
    >)
        ensures
            match r {
                Ok(t) => self.token_mint_x_program_flag <= 1 && self.token_mint_y_program_flag
                    <= 1 && t.0 == (if self.token_mint_x_program_flag == 0 {
                    TokenProgramFlags::TokenProgram
                } else {
                    TokenProgramFlags::TokenProgram2022
                }) && t.1 == (if self.token_mint_y_program_flag == 0 {
                    TokenProgramFlags::TokenProgram
                } else {
                    TokenProgramFlags::TokenProgram2022
                }),
                Err(e) => e == QuoteError::TypeCastFailed && (self.token_mint_x_program_flag > 1
                    || self.token_mint_y_program_flag > 1),
            },
    {
        let x = match self.token_mint_x_program_flag {
            0 => TokenProgramFlags::TokenProgram,
            1 => TokenProgramFlags::TokenProgram2022,
            _ => { return Err(QuoteError::TypeCastFailed) },
        };
        let y = match self.token_mint_y_program_flag {
            0 => TokenProgramFlags::TokenProgram,
            1 => TokenProgramFlags::TokenProgram2022,
            _ => { return Err(QuoteError::TypeCastFailed) },
        };
        Ok((x, y))
    }

    /// Base fee rate of the pool, over `FEE_PRECISION`.
    pub fn get_base_fee(&self) -> (r: Result<u128, QuoteError>)
        ensures
            match r {
                Ok(v) => self.spec_base_fee_ok() && v as int == self.spec_base_fee_rate(),
                Err(e) => e == QuoteError::Overflow && !self.spec_base_fee_ok(),
            },
    {
        let p10 = match pow10_u128(self.parameters.base_fee_power_factor) {
            Ok(v) => v,
            Err(e) => {
                proof {
                    lemma_mul_nonnegative(
                        self.parameters.base_factor as int * self.bin_step as int * 10,
                        pow(10, self.parameters.base_fee_power_factor as nat),
                    );
                }
                return Err(QuoteError::Overflow);
            },
        };
        proof {
            lemma_mul_upper_bound(
                self.parameters.base_factor as int,
                0xffff,
                self.bin_step as int,
                0xffff,
            );
            lemma_mul_nonnegative(self.parameters.base_factor as int, self.bin_step as int);
        }
        let a = self.parameters.base_factor as u128 * self.bin_step as u128;
        let b = a * 10;
        proof {
            vstd::arithmetic::power::lemma_pow_positive(
                10,
                self.parameters.base_fee_power_factor as nat,
            );
        }
        if b > u128::MAX / p10 {
            proof {
                lemma_mul_div_gt(u128::MAX as int, b as int, p10 as int);
            }
            return Err(QuoteError::Overflow);
        }
        proof {
            lemma_mul_div_le(u128::MAX as int, b as int, p10 as int);
            lemma_mul_nonnegative(b as int, p10 as int);
        }
        Ok(b * p10)
    }

    /// Variable fee rate for the given accumulator; the intermediates
    /// always fit, so this cannot fail.
    pub fn compute_variable_fee(&self, volatility_accumulator: u32) -> (r: Result<
        u128,
        QuoteError,
    >)
        ensures
            match r {
                Ok(v) => v as int == self.spec_variable_fee_rate_from(volatility_accumulator),
                Err(_) => false,
            },
    {
        if self.parameters.variable_fee_control > 0 {
            let vac = volatility_accumulator as u128;
            let bs = self.bin_step as u128;
            let vfc = self.parameters.variable_fee_control as u128;
            proof {
                lemma_mul_upper_bound(vac as int, 0xffff_ffff, bs as int, 0xffff);
                lemma_mul_nonnegative(vac as int, bs as int);
            }
            let vb = vac * bs;
            proof {
                lemma_mul_upper_bound(
                    vb as int,
                    0xffff_ffff * 0xffff as int,
                    vb as int,
                    0xffff_ffff * 0xffff as int,
                );
                lemma_mul_nonnegative(vb as int, vb as int);
            }
            let square_vfa_bin = vb * vb;
            proof {
                lemma_mul_upper_bound(
                    vfc as int,
                    0xffff_ffff,
                    square_vfa_bin as int,
                    (0xffff_ffff * 0xffff as int) * (0xffff_ffff * 0xffff as int),
                );
                lemma_mul_nonnegative(vfc as int, square_vfa_bin as int);
            }
            let v_fee = vfc * square_vfa_bin;
            let scaled_v_fee = (v_fee + 99_999_999_999) / 100_000_000_000;
            Ok(scaled_v_fee)
        } else {
            Ok(0)
        }
    }

    /// Variable fee rate at the current accumulator.
    pub fn get_variable_fee(&self) -> (r: Result<u128, QuoteError>)
        ensures
            match r {
                Ok(v) => v as int == self.spec_variable_fee_rate_from(
                    self.v_parameters.volatility_accumulator,
                ),
                Err(_) => false,
            },
    {
        self.compute_variable_fee(self.v_parameters.volatility_accumulator)
    }

    /// Total fee rate: base plus variable, capped at `MAX_FEE_RATE`.
    pub fn get_total_fee(&self) -> (r: Result<u128, QuoteError>)
        ensures
            match r {
                Ok(v) => self.spec_total_fee_ok() && v as int == self.spec_total_fee_rate() && v
                    <= MAX_FEE_RATE as u128,
                Err(e) => e == QuoteError::Overflow && !self.spec_total_fee_ok(),
            },
    {
        let base_fee = match self.get_base_fee() {
            Ok(v) => v,
            Err(_) => {
                return Err(QuoteError::Overflow);
            },
        };
        let variable_fee = match self.get_variable_fee() {
            Ok(v) => v,
            Err(_) => {
                return Err(QuoteError::Overflow);
            },
        };
        if base_fee > u128::MAX - variable_fee {
            return Err(QuoteError::Overflow);
        }
        let total = base_fee + variable_fee;
        let cap = MAX_FEE_RATE as u128;
        if total < cap {
            Ok(total)
        } else {
            Ok(cap)
        }
    }

    /// Fee charged on top of the pre-fee `amount`; fails only when the
    /// total fee rate itself cannot be computed.
    pub fn compute_fee(&self, amount: u64) -> (r: Result<u64, QuoteError>)
        ensures
            match r {
                Ok(f) => self.spec_total_fee_ok() && f as int == self.spec_compute_fee(amount),
                Err(e) => e == QuoteError::Overflow && !self.spec_total_fee_ok(),
            },
    {
        let total_fee_rate = match self.get_total_fee() {
            Ok(v) => v,
            Err(e) => {
                return Err(e);
            },
        };
        let denominator = FEE_PRECISION as u128 - total_fee_rate;
        proof {
            lemma_mul_upper_bound(
                amount as int,
                u64::MAX as int,
                total_fee_rate as int,
                denominator as int,
            );
            lemma_mul_nonnegative(amount as int, total_fee_rate as int);
            assert(u64::MAX as int * denominator as int + denominator as int == (u64::MAX as int
                + 1) * denominator as int) by (nonlinear_arith);
            lemma_multiply_divide_lt(
                amount as int * total_fee_rate as int + denominator as int - 1,
                denominator as int,
                u64::MAX as int + 1,
            );
            vstd::arithmetic::div_mod::lemma_div_pos_is_pos(
                amount as int * total_fee_rate as int + denominator as int - 1,
                denominator as int,
            );
        }
        let fee = (amount as u128 * total_fee_rate + denominator - 1) / denominator;
        Ok(fee as u64)
    }

    /// Fee contained in the fee-inclusive `amount_with_fees`; fails only
    /// when the total fee rate itself cannot be computed.
    pub fn compute_fee_from_amount(&self, amount_with_fees: u64) -> (r: Result<u64, QuoteError>)
        ensures
            match r {
                Ok(f) => self.spec_total_fee_ok() && f as int == self.spec_compute_fee_from_amount(
                    amount_with_fees,
                ),
                Err(e) => e == QuoteError::Overflow && !self.spec_total_fee_ok(),
            },
    {
        let total_fee_rate = match self.get_total_fee() {
            Ok(v) => v,
            Err(e) => {
                return Err(e);
            },
        };
        proof {
            lemma_mul_upper_bound(
                amount_with_fees as int,
                u64::MAX as int,
                total_fee_rate as int,
                FEE_PRECISION as int,
            );
            lemma_mul_nonnegative(amount_with_fees as int, total_fee_rate as int);
            assert(u64::MAX as int * FEE_PRECISION as int + FEE_PRECISION as int == (
            u64::MAX as int + 1) * FEE_PRECISION as int) by (nonlinear_arith);
            lemma_multiply_divide_lt(
                amount_with_fees as int * total_fee_rate as int + FEE_PRECISION as int - 1,
                FEE_PRECISION as int,
                u64::MAX as int + 1,
            );
            vstd::arithmetic::div_mod::lemma_div_pos_is_pos(
                amount_with_fees as int * total_fee_rate as int + FEE_PRECISION as int - 1,
                FEE_PRECISION as int,
            );
        }
        let fee_amount = (amount_with_fees as u128 * total_fee_rate + (FEE_PRECISION as u128 - 1))
            / FEE_PRECISION as u128;
        Ok(fee_amount as u64)
    }

    /// Protocol share of a fee, truncating; fails when the share does not
    /// fit 64 bits.
    pub fn compute_protocol_fee(&self, fee_amount: u64) -> (r: Result<u64, QuoteError>)
        ensures
            match r {
                Ok(f) => f as int == self.spec_compute_protocol_fee(fee_amount) && (
                self.parameters.protocol_share <= BASIS_POINT_MAX ==> f <= fee_amount),
                Err(e) => e == QuoteError::Overflow && self.spec_compute_protocol_fee(fee_amount)
                    > u64::MAX,
            },
    {
        proof {
            lemma_mul_upper_bound(
                fee_amount as int,
                u64::MAX as int,
                self.parameters.protocol_share as int,
                0xffff,
            );
            lemma_mul_nonnegative(fee_amount as int, self.parameters.protocol_share as int);
            vstd::arithmetic::div_mod::lemma_div_pos_is_pos(
                fee_amount as int * self.parameters.protocol_share as int,
                BASIS_POINT_MAX as int,
            );
            if self.parameters.protocol_share <= BASIS_POINT_MAX {
                assert(fee_amount as int * self.parameters.protocol_share as int
                    <= BASIS_POINT_MAX as int * fee_amount as int) by (nonlinear_arith)
                    requires
                        self.parameters.protocol_share as int <= BASIS_POINT_MAX as int,
                        fee_amount as int >= 0,
                ;
                lemma_multiply_divide_le_local(
                    fee_amount as int * self.parameters.protocol_share as int,
                    BASIS_POINT_MAX as int,
                    fee_amount as int,
                );
            }
        }
        let protocol_fee = (fee_amount as u128 * self.parameters.protocol_share as u128)
            / BASIS_POINT_MAX as u128;
        if protocol_fee > u64::MAX as u128 {
            Err(QuoteError::Overflow)
        } else {
            Ok(protocol_fee as u64)
        }
    }
}

impl LbPair {
    /// Whether `update_references` can run without overflow at this
    /// timestamp.
    pub open spec fn spec_update_references_ok(self, current_timestamp: i64) -> bool {
        let elapsed = current_timestamp - self.v_parameters.last_update_timestamp;
        &&& i64::MIN <= elapsed <= i64::MAX
        &&& (elapsed >= self.parameters.filter_period && elapsed < self.parameters.decay_period
            ==> self.v_parameters.volatility_accumulator * self.parameters.reduction_factor
            <= u32::MAX)
    }

    /// Reference update: past the filter period the index reference snaps to
    /// the active bin and the volatility reference decays, or resets to zero
    /// past the decay period.
    pub open spec fn spec_update_references(self, current_timestamp: i64) -> LbPair {
        let elapsed = current_timestamp - self.v_parameters.last_update_timestamp;
        if elapsed >= self.parameters.filter_period {
            let vr: int = if elapsed < self.parameters.decay_period {
                self.v_parameters.volatility_accumulator * self.parameters.reduction_factor
                    / BASIS_POINT_MAX as int
            } else {
                0
            };
            LbPair {
                v_parameters: VariableParameters {
                    index_reference: self.active_id,
                    volatility_reference: vr as u32,
                    ..self.v_parameters
                },
                ..self
            }
        } else {
            self
        }
    }

    /// Updates the dynamic-fee references once per quote. Leaves the pool
    /// untouched on overflow.
    pub fn update_references(&mut self, current_timestamp: i64) -> (r: Result<(), QuoteError>)
        ensures
            match r {
                Ok(()) => old(self).spec_update_references_ok(current_timestamp) && *final(self)
                    == old(self).spec_update_references(current_timestamp),
                Err(e) => e == QuoteError::Overflow && !old(self).spec_update_references_ok(
                    current_timestamp,
                ) && *final(self) == *old(self),
            },
    {
        let elapsed_wide: i128 = current_timestamp as i128
            - self.v_parameters.last_update_timestamp as i128;
        if elapsed_wide > i64::MAX as i128 || elapsed_wide < i64::MIN as i128 {
            return Err(QuoteError::Overflow);
        }
        let elapsed: i64 = elapsed_wide as i64;
        if elapsed >= self.parameters.filter_period as i64 {
            let volatility_reference: u32;
            if elapsed < self.parameters.decay_period as i64 {
                proof {
                    lemma_mul_upper_bound(
                        self.v_parameters.volatility_accumulator as int,
                        0xffff_ffff,
                        self.parameters.reduction_factor as int,
                        0xffff,
                    );
                    lemma_mul_nonnegative(
                        self.v_parameters.volatility_accumulator as int,
                        self.parameters.reduction_factor as int,
                    );
                }
                let prod: u64 = self.v_parameters.volatility_accumulator as u64
                    * self.parameters.reduction_factor as u64;
                if prod > u32::MAX as u64 {
                    return Err(QuoteError::Overflow);
                }
                proof {
                    vstd::arithmetic::div_mod::lemma_div_nonincreasing(
                        prod as int,
                        BASIS_POINT_MAX as int,
                    );
                    vstd::arithmetic::div_mod::lemma_div_pos_is_pos(
                        prod as int,
                        BASIS_POINT_MAX as int,
                    );
                }
                volatility_reference = (prod / BASIS_POINT_MAX) as u32;
            } else {
                volatility_reference = 0;
            }
            self.v_parameters.index_reference = self.active_id;
            self.v_parameters.volatility_reference = volatility_reference;
        }
        Ok(())
    }

    /// Distance between the index reference and the active bin.
    pub open spec fn spec_delta_id(self) -> int {
        let d = self.v_parameters.index_reference - self.active_id;
        if d < 0 {
            -d
        } else {
            d
        }
    }

    /// The accumulator after one bin traversal: reference plus distance in
    /// basis points, clamped to the maximum.
    pub open spec fn spec_updated_volatility_accumulator(self) -> int {
        let va = self.v_parameters.volatility_reference + self.spec_delta_id()
            * BASIS_POINT_MAX;
        if va < self.parameters.max_volatility_accumulator {
            va
        } else {
            self.parameters.max_volatility_accumulator as int
        }
    }

    /// Updates the volatility accumulator, once per bin traversed. Cannot
    /// fail; the result never exceeds `max_volatility_accumulator`.
    pub fn update_volatility_accumulator(&mut self) -> (r: Result<(), QuoteError>)
        ensures
            (r is Ok),
            (*final(self) == LbPair {
                v_parameters: VariableParameters {
                    volatility_accumulator: final (self).v_parameters.volatility_accumulator,
                    ..old(self).v_parameters
                },
                ..*old(self)
            }),
            final (self).v_parameters.volatility_accumulator as int == old(
                self,
            ).spec_updated_volatility_accumulator(),
            final (self).v_parameters.volatility_accumulator <= old(
                self,
            ).parameters.max_volatility_accumulator,
    {
        let delta64: i64 = self.v_parameters.index_reference as i64 - self.active_id as i64;
        let delta: u64 = if delta64 < 0 {
            (-delta64) as u64
        } else {
            delta64 as u64
        };
        proof {
            lemma_mul_upper_bound(delta as int, 0x1_0000_0000, BASIS_POINT_MAX as int, 10000);
            lemma_mul_nonnegative(delta as int, BASIS_POINT_MAX as int);
        }
        let va: u64 = self.v_parameters.volatility_reference as u64 + delta * BASIS_POINT_MAX;
        let max = self.parameters.max_volatility_accumulator;
        let vac: u32 = if va < max as u64 {
            va as u32
        } else {
            max
        };
        self.v_parameters.volatility_accumulator = vac;
        Ok(())
    }

    /// Moves the active bin one step in the direction of the swap; fails
    /// when the step leaves the valid bin-id range.
    pub fn advance_active_bin(&mut self, swap_for_y: bool) -> (r: Result<(), QuoteError>)
        ensures
            ({
                let next = if swap_for_y {
                    old(self).active_id - 1
                } else {
                    old(self).active_id + 1
                };
                match r {
                    Ok(()) => MIN_BIN_ID <= next <= MAX_BIN_ID && *final(self) == LbPair {
                        active_id: next as i32,
                        ..*old(self)
                    },
                    Err(e) => *final(self) == *old(self) && ((e == QuoteError::Overflow && !(
                    i32::MIN <= next <= i32::MAX)) || (e == QuoteError::InsufficientLiquidity && (
                    i32::MIN <= next <= i32::MAX) && !(MIN_BIN_ID <= next <= MAX_BIN_ID))),
                }
            }),
    {
        if swap_for_y {
            if self.active_id == i32::MIN {
                return Err(QuoteError::Overflow);
            }
        } else {
            if self.active_id == i32::MAX {
                return Err(QuoteError::Overflow);
            }
        }
        let next_active_bin_id = if swap_for_y {
            self.active_id - 1
        } else {
            self.active_id + 1
        };
        if next_active_bin_id < MIN_BIN_ID || next_active_bin_id > MAX_BIN_ID {
            return Err(QuoteError::InsufficientLiquidity);
        }
        self.active_id = next_active_bin_id;
        Ok(())
    }

    /// The bin-array index range the internal bitmap covers.
    pub fn bitmap_range() -> (r: (i32, i32))
        ensures
            r.0 == -BIN_ARRAY_BITMAP_SIZE,
            r.1 == BIN_ARRAY_BITMAP_SIZE - 1,
    {
        (-BIN_ARRAY_BITMAP_SIZE, BIN_ARRAY_BITMAP_SIZE - 1)
    }

    /// Whether a bin-array index lies outside the internal bitmap.
    pub fn is_overflow_default_bin_array_bitmap(&self, bin_array_index: i32) -> (r: bool)
        ensures
            r == !(-BIN_ARRAY_BITMAP_SIZE <= bin_array_index < BIN_ARRAY_BITMAP_SIZE),
    {
        bin_array_index > BIN_ARRAY_BITMAP_SIZE - 1 || bin_array_index < -BIN_ARRAY_BITMAP_SIZE
    }

    /// Bit position of a bin-array index inside the internal bitmap.
    pub fn get_bin_array_offset(bin_array_index: i32) -> (r: usize)
        requires
            -BIN_ARRAY_BITMAP_SIZE <= bin_array_index < BIN_ARRAY_BITMAP_SIZE,
        ensures
            r == bin_array_index + BIN_ARRAY_BITMAP_SIZE,
    {
        (bin_array_index + BIN_ARRAY_BITMAP_SIZE) as usize
    }

    /// Liquidity bit of a bin-array index in the internal bitmap.
    pub open spec fn internal_bit(self, idx: int) -> bool {
        limb_bit(self.bin_array_bitmap@, idx + BIN_ARRAY_BITMAP_SIZE)
    }

    /// Nearest bin-array index with liquidity in the internal bitmap, in
    /// the direction of the swap, from `start_array_index` inclusive: the
    /// largest set index at or below the start when swapping for Y, the
    /// smallest at or above it otherwise. With the second component false
    /// no such index exists and the first is the sentinel one step past the
    /// bitmap boundary.
    pub fn next_bin_array_index_with_liquidity_internal(
        &self,
        swap_for_y: bool,
        start_array_index: i32,
    ) -> (r: (i32, bool))
        requires
            -BIN_ARRAY_BITMAP_SIZE <= start_array_index < BIN_ARRAY_BITMAP_SIZE,
        ensures
            swap_for_y ==> (if r.1 {
                &&& -BIN_ARRAY_BITMAP_SIZE <= r.0 <= start_array_index
                &&& self.internal_bit(r.0 as int)
                &&& forall|j: int| r.0 < j <= start_array_index ==> !self.internal_bit(j)
            } else {
                &&& r.0 == -BIN_ARRAY_BITMAP_SIZE - 1
                &&& forall|j: int|
                    -BIN_ARRAY_BITMAP_SIZE <= j <= start_array_index ==> !self.internal_bit(j)
            }),
            !swap_for_y ==> (if r.1 {
                &&& start_array_index <= r.0 < BIN_ARRAY_BITMAP_SIZE
                &&& self.internal_bit(r.0 as int)
                &&& forall|j: int| start_array_index <= j < r.0 ==> !self.internal_bit(j)
            } else {
                &&& r.0 == BIN_ARRAY_BITMAP_SIZE
                &&& forall|j: int|
                    start_array_index <= j < BIN_ARRAY_BITMAP_SIZE ==> !self.internal_bit(j)
            }),
    {
        let array_offset = (start_array_index + BIN_ARRAY_BITMAP_SIZE) as usize;
        if swap_for_y {
            match scan_bit_down(self.bin_array_bitmap.as_slice(), array_offset) {
                Some(k) => {
                    let idx = k as i32 - BIN_ARRAY_BITMAP_SIZE;
                    proof {
                        assert forall|j: int|
                            idx < j <= start_array_index implies !self.internal_bit(j) by {
                            assert(!limb_bit(self.bin_array_bitmap@, j + BIN_ARRAY_BITMAP_SIZE));
                        }
                    }
                    (idx, true)
                },
                None => {
                    proof {
                        assert forall|j: int|
                            -BIN_ARRAY_BITMAP_SIZE <= j <= start_array_index implies !self.internal_bit(
                            j,
                        ) by {
                            assert(!limb_bit(self.bin_array_bitmap@, j + BIN_ARRAY_BITMAP_SIZE));
                        }
                    }
                    (-BIN_ARRAY_BITMAP_SIZE - 1, false)
                },
            }
        } else {
            match scan_bit_up(self.bin_array_bitmap.as_slice(), array_offset) {
                Some(k) => {
                    let idx = k as i32 - BIN_ARRAY_BITMAP_SIZE;
                    proof {
                        assert forall|j: int|
                            start_array_index <= j < idx implies !self.internal_bit(j) by {
                            assert(!limb_bit(self.bin_array_bitmap@, j + BIN_ARRAY_BITMAP_SIZE));
                        }
                    }
                    (idx, true)
                },
                None => {
                    proof {
                        assert forall|j: int|
                            start_array_index <= j < BIN_ARRAY_BITMAP_SIZE implies !self.internal_bit(
                            j,
                        ) by {
                            assert(!limb_bit(self.bin_array_bitmap@, j + BIN_ARRAY_BITMAP_SIZE));
                        }
                    }
                    (BIN_ARRAY_BITMAP_SIZE, false)
                },
            }
        }
    }
}

/// The total fee rate always lies between zero and `MAX_FEE_RATE`.
pub proof fn lemma_total_fee_rate_bounds(pool: LbPair)
    ensures
        0 <= pool.spec_total_fee_rate() <= MAX_FEE_RATE,
{
    vstd::arithmetic::power::lemma_pow_positive(
        10,
        pool.parameters.base_fee_power_factor as nat,
    );
    lemma_mul_nonnegative(pool.parameters.base_factor as int, pool.bin_step as int);
    lemma_mul_nonnegative(pool.parameters.base_factor as int * pool.bin_step as int, 10);
    lemma_mul_nonnegative(
        pool.parameters.base_factor as int * pool.bin_step as int * 10,
        pow(10, pool.parameters.base_fee_power_factor as nat),
    );
    let vac = pool.v_parameters.volatility_accumulator;
    if pool.parameters.variable_fee_control > 0 {
        lemma_mul_nonnegative(vac as int, pool.bin_step as int);
        lemma_mul_nonnegative(vac as int * pool.bin_step as int, vac as int * pool.bin_step as int);
        lemma_mul_nonnegative(
            pool.parameters.variable_fee_control as int,
            (vac as int * pool.bin_step as int) * (vac as int * pool.bin_step as int),
        );
        vstd::arithmetic::div_mod::lemma_div_pos_is_pos(
            pool.parameters.variable_fee_control as int * ((vac as int * pool.bin_step as int) * (
            vac as int * pool.bin_step as int)) + 99_999_999_999,
            100_000_000_000,
        );
    }
}

/// Both fee formulas charge no more than the amount they are computed
/// from: the total fee rate stays below a tenth of `FEE_PRECISION`.
pub proof fn lemma_fee_from_amount_le(pool: LbPair, amount: u64)
    ensures
        0 <= pool.spec_compute_fee_from_amount(amount) <= amount,
{
    lemma_total_fee_rate_bounds(pool);
    let rate = pool.spec_total_fee_rate();
    let num = amount * rate + (FEE_PRECISION - 1);
    assert(num <= amount * FEE_PRECISION + (FEE_PRECISION - 1)) by (nonlinear_arith)
        requires
            0 <= rate <= FEE_PRECISION,
            amount >= 0,
            num == amount * rate + (FEE_PRECISION - 1),
    ;
    vstd::arithmetic::div_mod::lemma_fundamental_div_mod_converse_div(
        amount * FEE_PRECISION as int + (FEE_PRECISION - 1),
        FEE_PRECISION as int,
        amount as int,
        FEE_PRECISION - 1,
    );
    vstd::arithmetic::div_mod::lemma_div_is_ordered(
        num,
        amount * FEE_PRECISION as int + (FEE_PRECISION - 1),
        FEE_PRECISION as int,
    );
    lemma_mul_nonnegative(amount as int, rate);
    vstd::arithmetic::div_mod::lemma_div_pos_is_pos(num, FEE_PRECISION as int);
}

/// A factor above the quotient `x / d` pushes the product past `x`.
pub proof fn lemma_mul_div_gt(x: int, b: int, d: int)
    requires
        0 < d,
        0 <= x,
        b > x / d,
    ensures
        b * d > x,
{
    lemma_fundamental_div_mod(x, d);
    lemma_mod_division_less_than_divisor(x, d);
    lemma_mul_inequality(x / d + 1, b, d);
    assert((x / d + 1) * d == (x / d) * d + d && d * (x / d) == (x / d) * d) by (nonlinear_arith);
}

/// A factor at most the quotient `x / d` keeps the product within `x`.
pub proof fn lemma_mul_div_le(x: int, b: int, d: int)
    requires
        0 < d,
        0 <= x,
        b <= x / d,
        0 <= b,
    ensures
        b * d <= x,
{
    lemma_fundamental_div_mod(x, d);
    lemma_mod_division_less_than_divisor(x, d);
    lemma_mul_inequality(b, x / d, d);
    assert(d * (x / d) == (x / d) * d) by (nonlinear_arith);
}

/// `a <= b * c` implies `a / c <= b`, shaped for the protocol-fee bound.
proof fn lemma_multiply_divide_le_local(a: int, b: int, c: int)
    requires
        0 < b,
        a <= b * c,
        0 <= a,
    ensures
        a / b <= c,
{
    vstd::arithmetic::div_mod::lemma_div_multiples_vanish(c, b);
    vstd::arithmetic::div_mod::lemma_div_is_ordered(a, b * c, b);
}

} // verus!
