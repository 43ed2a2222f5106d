//! Quoting engine for a discretized constant-sum AMM of the liquidity-book
//! family. Liquidity sits in discrete price bins; a swap walks across
//! consecutive bins in the direction of trade, draining reserves bin by bin.
//! The crate computes exact-in and exact-out quotes over an immutable pool
//! snapshot: fixed-point price arithmetic, per-bin swap math, the dynamic-fee
//! state update, bin-array discovery over a sparse bitmap, and the outer
//! quote loops.

pub mod bin;
pub mod bitmap;
pub mod constants;
pub mod errors;
pub mod laws;
pub mod lb_pair;
pub mod math;
pub mod price;
pub mod quote;
pub mod token;
