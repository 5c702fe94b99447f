//! Liquidity-provider mathematics: LP token minting and impermanent loss.

use vstd::prelude::*;
use vstd::arithmetic::div_mod::{
    lemma_div_is_ordered_by_denominator, lemma_div_by_multiple, lemma_div_nonincreasing,
    lemma_div_multiples_vanish,
};
use vstd::arithmetic::mul::lemma_mul_is_commutative;
use crate::amm::MathematicalEngine;
use crate::muldiv::{lemma_mul_div_spec_pos, mul_div};
use crate::sqrt::{isqrt_spec, lemma_isqrt_spec_is_sqrt, lemma_isqrt_unique, sqrt_fixed};
use crate::SCALE_18;

verus! {

/// The minimum-liquidity deduction a fresh pool pays: the first minting
/// keeps these units locked forever.
pub const MINIMUM_LIQUIDITY: u128 = 1000;

/// LP tokens minted for a deposit. A fresh pool (zero total supply) mints
/// the geometric mean of the two amounts less the minimum-liquidity
/// deduction, floored at zero. An existing pool mints in proportion to the
/// smaller of the two deposit-to-reserve ratios; a zero reserve yields zero.
pub open spec fn lp_tokens_spec(amount0: int, amount1: int, reserve0: int, reserve1: int, total_supply: int) -> int {
    if total_supply == 0 {
        let liquidity = isqrt_spec((amount0 * amount1) as nat);
        if liquidity > MINIMUM_LIQUIDITY {
            liquidity - MINIMUM_LIQUIDITY
        } else {
            0
        }
    } else if reserve0 <= 0 || reserve1 <= 0 {
        0
    } else {
        let liquidity0 = amount0 * total_supply / reserve0;
        let liquidity1 = amount1 * total_supply / reserve1;
        if liquidity0 <= liquidity1 {
            liquidity0
        } else {
            liquidity1
        }
    }
}

/// Impermanent loss in basis points for a price that moved from `initial`
/// to `current` (both scaled by `SCALE_18`): `1 - 2*sqrt(ratio)/(1+ratio)`
/// over the scaled price ratio, floored at zero. The square root of the
/// scaled ratio is rescaled by `10^9` so that it is again a `SCALE_18`
/// fixed-point value.
pub open spec fn impermanent_loss_spec(initial_price: int, current_price: int) -> int {
    if initial_price <= 0 || current_price <= 0 {
        0
    } else {
        impermanent_loss_of_ratio(current_price * SCALE_18 / initial_price)
    }
}

/// The loss for a given scaled price ratio.
pub open spec fn impermanent_loss_of_ratio(ratio: int) -> int {
    let sqrt_scaled = isqrt_spec(ratio as nat) * 1_000_000_000;
    let factor = (2 * sqrt_scaled) * SCALE_18 / (SCALE_18 + ratio);
    if factor < SCALE_18 {
        (SCALE_18 - factor) * 10000 / SCALE_18 as int
    } else {
        0
    }
}

/// For upward price moves, the loss never shrinks while the (integer) root
/// of the ratio stands still: between root increments, a larger ratio only
/// deepens the loss. (Across a root increment the last-place rounding of
/// the loss can dip, so this is the provable monotone core of the loss
/// curve above a ratio of 1.0.)
pub proof fn lemma_impermanent_loss_monotone_between_roots(r1: int, r2: int)
    requires
        SCALE_18 <= r1 <= r2,
        isqrt_spec(r1 as nat) == isqrt_spec(r2 as nat),
    ensures
        impermanent_loss_of_ratio(r1) <= impermanent_loss_of_ratio(r2),
{
    let num = 2 * (isqrt_spec(r1 as nat) * 1_000_000_000) * SCALE_18;
    let f1 = num / (SCALE_18 + r1);
    let f2 = num / (SCALE_18 + r2);
    assert(num >= 0) by (nonlinear_arith)
        requires
            num == 2 * (isqrt_spec(r1 as nat) * 1_000_000_000) * SCALE_18 && isqrt_spec(r1 as nat)
                >= 0 && SCALE_18 > 0,
    ;
    lemma_div_is_ordered_by_denominator(num, SCALE_18 + r1, SCALE_18 + r2);
    assert(f2 <= f1);
    if f1 < SCALE_18 {
        vstd::arithmetic::div_mod::lemma_div_is_ordered(
            (SCALE_18 - f1) * 10000,
            (SCALE_18 - f2) * 10000,
            SCALE_18 as int,
        );
    } else {
        if f2 < SCALE_18 {
            vstd::arithmetic::div_mod::lemma_div_pos_is_pos(
                (SCALE_18 - f2) * 10000,
                SCALE_18 as int,
            );
        }
    }
}

impl MathematicalEngine {
    /// LP tokens to mint for depositing `amount0`/`amount1` into a pool with
    /// the given reserves and LP total supply.
    pub fn calculate_lp_tokens(
        &self,
        amount0: u128,
        amount1: u128,
        reserve0: u128,
        reserve1: u128,
        total_supply: u128,
    ) -> (r: u128)
        requires
            total_supply == 0 ==> amount0 * amount1 <= u128::MAX,
            total_supply > 0 && reserve0 > 0 ==> amount0 * total_supply / (reserve0 as int)
                <= u128::MAX,
            total_supply > 0 && reserve1 > 0 ==> amount1 * total_supply / (reserve1 as int)
                <= u128::MAX,
        ensures
            r == lp_tokens_spec(
                amount0 as int,
                amount1 as int,
                reserve0 as int,
                reserve1 as int,
                total_supply as int,
            ),
    {
        if total_supply == 0 {
            // first provider: geometric mean, less the locked minimum
            let product = amount0 * amount1;
            let liquidity = sqrt_fixed(product);
            proof {
                lemma_isqrt_spec_is_sqrt(product as nat);
                lemma_isqrt_unique(
                    product as int,
                    liquidity as int,
                    isqrt_spec(product as nat) as int,
                );
            }
            if liquidity > MINIMUM_LIQUIDITY {
                liquidity - MINIMUM_LIQUIDITY
            } else {
                0
            }
        } else if reserve0 == 0 || reserve1 == 0 {
            0
        } else {
            // proportional minting against the current reserves
            proof {
                lemma_mul_div_spec_pos(amount0 as int, total_supply as int, reserve0 as int);
                lemma_mul_div_spec_pos(amount1 as int, total_supply as int, reserve1 as int);
            }
            let liquidity0 = mul_div(amount0, total_supply, reserve0);
            let liquidity1 = mul_div(amount1, total_supply, reserve1);
            if liquidity0 <= liquidity1 {
                liquidity0
            } else {
                liquidity1
            }
        }
    }

    /// Impermanent loss in basis points; exactly zero when the price has not
    /// moved.
    pub fn calculate_impermanent_loss(&self, initial_price: u128, current_price: u128) -> (r:
        u128)
        requires
            initial_price > 0 ==> current_price * SCALE_18 / (initial_price as int) + SCALE_18
                <= u128::MAX,
        ensures
            r == impermanent_loss_spec(initial_price as int, current_price as int),
            initial_price > 0 && current_price == initial_price ==> r == 0,
            r <= 10000,
    {
        if initial_price == 0 || current_price == 0 {
            return 0;
        }
        // price ratio, scaled by SCALE_18
        proof {
            lemma_mul_div_spec_pos(current_price as int, SCALE_18 as int, initial_price as int);
        }
        let ratio = mul_div(current_price, SCALE_18, initial_price);
        // sqrt of a SCALE_18-scaled value is scaled by 10^9; rescale it
        let root = sqrt_fixed(ratio);
        proof {
            lemma_isqrt_spec_is_sqrt(ratio as nat);
            lemma_isqrt_unique(ratio as int, root as int, isqrt_spec(ratio as nat) as int);
            assert(root < 0x2_0000_0000_0000_0000) by (nonlinear_arith)
                requires
                    root * root <= ratio && ratio <= u128::MAX && 0 <= root,
            ;
        }
        let sqrt_scaled = root * 1_000_000_000;
        let numerator = 2 * sqrt_scaled;
        let denominator = SCALE_18 + ratio;
        proof {
            lemma_div_is_ordered_by_denominator(
                numerator * SCALE_18,
                SCALE_18 as int,
                denominator as int,
            );
            lemma_mul_is_commutative(numerator as int, SCALE_18 as int);
            lemma_div_by_multiple(numerator as int, SCALE_18 as int);
            lemma_mul_div_spec_pos(numerator as int, SCALE_18 as int, denominator as int);
        }
        let factor = mul_div(numerator, SCALE_18, denominator);
        proof {
            // an unmoved price gives ratio exactly 1.0, whose root rescales
            // to exactly 1.0, so the loss factor is exactly 1.0: no loss
            if current_price == initial_price {
                lemma_mul_is_commutative(current_price as int, SCALE_18 as int);
                lemma_div_multiples_vanish(SCALE_18 as int, initial_price as int);
                assert(ratio == SCALE_18);
                assert(1_000_000_000int * 1_000_000_000int <= SCALE_18
                    < 1_000_000_001int * 1_000_000_001int) by (nonlinear_arith)
                    requires
                        SCALE_18 == 1_000_000_000_000_000_000u128,
                ;
                lemma_isqrt_unique(ratio as int, root as int, 1_000_000_000);
                assert(numerator == 2_000_000_000_000_000_000u128);
                lemma_div_multiples_vanish(SCALE_18 as int, denominator as int);
                lemma_mul_is_commutative(denominator as int, SCALE_18 as int);
                assert(factor == SCALE_18);
            }
        }
        if factor < SCALE_18 {
            let loss = SCALE_18 - factor;
            proof {
                assert(loss * 10000 <= 10_000_000_000_000_000_000_000) by (nonlinear_arith)
                    requires
                        0 <= loss <= 1_000_000_000_000_000_000,
                ;
                lemma_div_nonincreasing(loss * 10000, SCALE_18 as int);
                lemma_mul_div_spec_pos(loss as int, 10000, SCALE_18 as int);
                vstd::arithmetic::div_mod::lemma_multiply_divide_le(
                    loss * 10000,
                    SCALE_18 as int,
                    10000,
                );
            }
            mul_div(loss, 10000, SCALE_18)
        } else {
            0
        }
    }
}

} // verus!
