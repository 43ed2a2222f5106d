//! System-wide constants shared with the on-chain program.

use vstd::prelude::*;

verus! {

/// Number of fractional bits of a Q64.64 fixed-point price.
pub const SCALE_OFFSET: u32 = 64;

/// Denominator of basis-point fractions.
pub const BASIS_POINT_MAX: u64 = 10_000;

/// Denominator of fee rates.
pub const FEE_PRECISION: u64 = 1_000_000_000;

/// Upper cap on the total (base + variable) fee rate.
pub const MAX_FEE_RATE: u64 = 100_000_000;

/// Smallest valid bin id.
pub const MIN_BIN_ID: i32 = -443636;

/// Largest valid bin id.
pub const MAX_BIN_ID: i32 = 443636;

/// Number of bins held by one bin array.
pub const BINS_PER_ARRAY: i32 = 70;

/// Half-width of the pool's internal bin-array bitmap: it covers bin-array
/// indices in `[-BIN_ARRAY_BITMAP_SIZE, BIN_ARRAY_BITMAP_SIZE - 1]`.
pub const BIN_ARRAY_BITMAP_SIZE: i32 = 512;

/// Number of 64-bit limbs of the internal bitmap.
pub const BIN_ARRAY_BITMAP_LIMBS: usize = 16;

/// Number of bits one side of the bitmap extension covers.
pub const EXTENSION_BITMAP_BITS: i32 = 6144;

/// Number of 64-bit limbs of one side of the bitmap extension.
pub const EXTENSION_BITMAP_LIMBS: usize = 96;

} // verus!
