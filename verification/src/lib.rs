//! Deterministic fixed-point numerical kernel for AMM analytics.
//!
//! All quantities are unsigned fixed-width integers; fractional values are
//! represented with an explicit scale factor (`SCALE_18` for high-precision
//! ratios, basis points for fees and percentages). Every computation is pure
//! integer arithmetic, so identical inputs always produce identical outputs.
//!
//! The layers, leaves first: `muldiv` holds the overflow-safe
//! multiply-divide primitive every scaled computation rests on; `sqrt`,
//! `exp` and `ln` approximate the square root, exponential and logarithm in
//! fixed point; `amm`, `fee`, `liquidity`, `optimize`, `routes` and
//! `volatility` build the market formulas on top of them.

use vstd::prelude::*;

pub mod muldiv;
pub mod sqrt;
pub mod exp;
pub mod ln;
pub mod amm;
pub mod fee;
pub mod liquidity;
pub mod optimize;
pub mod routes;
pub mod volatility;

verus! {

/// Fixed-point scale for high-precision ratios: 1.0 is represented as `10^18`.
pub const SCALE_18: u128 = 1_000_000_000_000_000_000;

/// Secondary scale for percentage-style quantities: 1.0 is `10^6`.
pub const SCALE_6: u128 = 1_000_000;

/// Basis points denominator: 10000 basis points are 100%.
pub const BASIS_POINTS: u128 = 10_000;

/// `ln(2)` scaled by `SCALE_18`.
pub const LN2_SCALED: u128 = 693_147_180_559_945_309;

} // verus!
