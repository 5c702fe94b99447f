//! Dynamic fee: a 30-basis-point base fee with three market adjustments.
//!
//! A volatility surcharge grows exponentially with the volatility excess
//! over 100 basis points and is capped at +50 bps; a volume discount grows
//! logarithmically with the 24-hour volume once it exceeds one whole unit
//! and is capped at 10 bps; deep liquidity (over ten whole units) takes a
//! flat 5 bps off. The combined fee is clamped into [5, 100] basis points.

use vstd::prelude::*;
use vstd::arithmetic::div_mod::lemma_div_nonincreasing;
use crate::amm::{DynamicFeeParams, MathematicalEngine};
use crate::exp::{exp_fixed, exp_spec, EXP_INPUT_CAP};
use crate::ln::{ln_fixed, ln_spec};
use crate::muldiv::{lemma_mul_div_spec_pos, mul_div};
use crate::SCALE_18;

verus! {

/// The fee, in basis points, that `calculate_dynamic_fee` charges for the
/// given market conditions.
pub open spec fn dynamic_fee_spec(volatility: int, volume_24h: int, liquidity_depth: int) -> int {
    let base = 30int;
    let with_volatility = if volatility > 100 {
        let excess = volatility - 100;
        let exp_input = if excess >= 200_000_000 {
            EXP_INPUT_CAP as int
        } else {
            excess * SCALE_18 / 10_000_000
        };
        let raw = exp_spec(exp_input) * 50 / SCALE_18 as int;
        let surcharge = if raw > 50 {
            50int
        } else {
            raw
        };
        base + surcharge
    } else {
        base
    };
    let with_volume = if volume_24h > SCALE_18 {
        let raw = ln_spec(volume_24h) * 2 / SCALE_18 as int;
        let discount = if raw > 10 {
            10int
        } else {
            raw
        };
        with_volatility - discount
    } else {
        with_volatility
    };
    let with_depth = if liquidity_depth > 10 * SCALE_18 {
        with_volume - 5
    } else {
        with_volume
    };
    if with_depth < 5 {
        5int
    } else if with_depth > 100 {
        100int
    } else {
        with_depth
    }
}

impl MathematicalEngine {
    /// Fee in basis points for the given market conditions; always within
    /// [5, 100] whatever the inputs.
    pub fn calculate_dynamic_fee(&self, params: DynamicFeeParams) -> (r: u128)
        ensures
            r == dynamic_fee_spec(
                params.volatility as int,
                params.volume_24h as int,
                params.liquidity_depth as int,
            ),
            5 <= r <= 100,
    {
        // base fee: 30 basis points (0.3%)
        let mut fee: u128 = 30;

        // volatility surcharge through the exponential, capped at +50 bps
        if params.volatility > 100 {
            let excess = params.volatility - 100;
            let exp_input: u128;
            if excess >= 200_000_000 {
                // the scaled excess would reach the exponential's input
                // clamp anyway; feed the clamp itself
                exp_input = EXP_INPUT_CAP;
            } else {
                proof {
                    assert(excess * SCALE_18 <= 200_000_000_000_000_000_000_000_000)
                        by (nonlinear_arith)
                        requires
                            0 <= excess < 200_000_000 && SCALE_18 == 1_000_000_000_000_000_000u128,
                    ;
                    lemma_div_nonincreasing(excess * SCALE_18, 10_000_000);
                    lemma_mul_div_spec_pos(excess as int, SCALE_18 as int, 10_000_000);
                }
                exp_input = mul_div(excess, SCALE_18, 10_000_000);
            }
            let exp_result = exp_fixed(exp_input);
            proof {
                assert(exp_result * 50 <= 300_000_000_000_000_000_000_000_000) by (nonlinear_arith)
                    requires
                        0 <= exp_result <= 6_000_000_000_000_000_000_000_000,
                ;
                lemma_div_nonincreasing(exp_result * 50, SCALE_18 as int);
                lemma_mul_div_spec_pos(exp_result as int, 50, SCALE_18 as int);
            }
            let raw = mul_div(exp_result, 50, SCALE_18);
            let surcharge = if raw > 50 {
                50
            } else {
                raw
            };
            fee = fee + surcharge;
        }

        // volume discount through the logarithm, capped at 10 bps; applied
        // only above the one-unit materiality threshold
        if params.volume_24h > SCALE_18 {
            let log_volume = ln_fixed(params.volume_24h);
            proof {
                assert(log_volume * 2 <= 200_000_000_000_000_000_000) by (nonlinear_arith)
                    requires
                        0 <= log_volume < 100_000_000_000_000_000_000,
                ;
                lemma_div_nonincreasing(log_volume * 2, SCALE_18 as int);
                lemma_mul_div_spec_pos(log_volume as int, 2, SCALE_18 as int);
            }
            let raw = mul_div(log_volume, 2, SCALE_18);
            let discount = if raw > 10 {
                10
            } else {
                raw
            };
            fee = fee - discount;
        }

        // flat rebate for deep liquidity
        if params.liquidity_depth > 10 * SCALE_18 {
            fee = fee - 5;
        }

        // clamp into [5, 100] basis points
        if fee < 5 {
            5
        } else if fee > 100 {
            100
        } else {
            fee
        }
    }
}

} // verus!
