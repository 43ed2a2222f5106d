//! Error kinds of the quoting engine. Every checked arithmetic site surfaces
//! `Overflow` instead of wrapping; all errors terminate a quote.

use vstd::prelude::*;

verus! {

#[derive(Clone, Copy, Debug, PartialEq, Eq, Structural)]
pub enum QuoteError {
    /// The pair is not enabled, or a permissioned pair is not activated yet.
    PairDisabled,
    /// A checked arithmetic step overflowed, or a result did not fit its
    /// target width.
    Overflow,
    /// No bin array with liquidity is left in the direction of the swap.
    PoolOutOfLiquidity,
    /// The supplied bin-array map lacks a bin array the swap must traverse.
    BinArrayNotFound,
    /// Advancing the active bin would leave the valid bin-id range.
    InsufficientLiquidity,
    /// Division by zero or an impossible rounding step.
    MathDomain,
    /// A stored discriminant byte does not name a known variant.
    TypeCastFailed,
}

} // verus!
