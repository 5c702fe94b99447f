//! Optimal swap sizing: the input amount that minimizes price impact on a
//! constant-product curve, with the expected output and the realized price
//! impact of trading that amount.

use vstd::prelude::*;
use vstd::arithmetic::div_mod::{lemma_fundamental_div_mod, lemma_multiply_divide_le};
use vstd::arithmetic::mul::lemma_mul_inequality;
use crate::amm::{swap_output_spec, MathematicalEngine, OptimizationResult};
use crate::muldiv::{lemma_div_frac_le, mul_div, mul_div_spec};
use crate::sqrt::{isqrt_spec, lemma_isqrt_spec_is_sqrt, lemma_isqrt_unique, sqrt_fixed};
use crate::SCALE_18;

verus! {

/// What `optimize_swap_amount` returns, as (optimal amount, expected output,
/// price impact in basis points). The optimal amount comes from the
/// first-order condition on the constant-product curve:
/// `min(total, sqrt(reserveIn * reserveOut * total * (10000-fee)/10000))`.
/// The price impact compares the spot price `reserveOut/reserveIn` with the
/// execution price `expectedOutput/optimalAmount`, both scaled by
/// `SCALE_18`.
pub open spec fn optimize_swap_spec(total: int, reserve_in: int, reserve_out: int, fee_bps: int) -> (int, int, int) {
    let inner = mul_div_spec(reserve_in * reserve_out, total * (10000 - fee_bps), 10000);
    let root = isqrt_spec(inner as nat) as int;
    let optimal = if root < total {
        root
    } else {
        total
    };
    let expected = swap_output_spec(optimal, reserve_in, reserve_out, fee_bps);
    let spot = mul_div_spec(reserve_out, SCALE_18 as int, reserve_in);
    let execution = mul_div_spec(expected, SCALE_18 as int, optimal);
    let impact = if spot > execution {
        mul_div_spec(spot - execution, 10000, spot)
    } else {
        0
    };
    (optimal, expected, impact)
}

impl MathematicalEngine {
    /// Split size that minimizes price impact, the output it buys, and that
    /// trade's price impact in basis points.
    pub fn optimize_swap_amount(
        &self,
        total_amount: u128,
        reserve_in: u128,
        reserve_out: u128,
        fee_rate: u128,
    ) -> (r: OptimizationResult)
        requires
            fee_rate <= 10000,
            reserve_in * reserve_out <= u128::MAX,
            total_amount * (10000 - fee_rate) <= u128::MAX,
            reserve_in * 10000 + total_amount * (10000 - fee_rate) <= u128::MAX,
            (reserve_in * reserve_out) * (total_amount * (10000 - fee_rate)) / 10000 <= u128::MAX,
            reserve_in > 0 ==> reserve_out * SCALE_18 / (reserve_in as int) <= u128::MAX,
        ensures
            r.optimal_amount == optimize_swap_spec(
                total_amount as int,
                reserve_in as int,
                reserve_out as int,
                fee_rate as int,
            ).0,
            r.expected_output == optimize_swap_spec(
                total_amount as int,
                reserve_in as int,
                reserve_out as int,
                fee_rate as int,
            ).1,
            r.price_impact == optimize_swap_spec(
                total_amount as int,
                reserve_in as int,
                reserve_out as int,
                fee_rate as int,
            ).2,
            r.optimal_amount <= total_amount,
            r.price_impact <= 10000,
    {
        let k = reserve_in * reserve_out;
        let fee_multiplier = 10000 - fee_rate;
        let amount_term = total_amount * fee_multiplier;
        let inner = mul_div(k, amount_term, 10000);
        let root = sqrt_fixed(inner);
        proof {
            lemma_isqrt_spec_is_sqrt(inner as nat);
            lemma_isqrt_unique(inner as int, root as int, isqrt_spec(inner as nat) as int);
        }
        let optimal_amount = if root < total_amount {
            root
        } else {
            total_amount
        };
        proof {
            lemma_mul_inequality(optimal_amount as int, total_amount as int, fee_multiplier as int);
        }
        let expected_output = self.calculate_swap_output(
            optimal_amount,
            reserve_in,
            reserve_out,
            fee_rate,
        );
        let spot_price = mul_div(reserve_out, SCALE_18, reserve_in);
        proof {
            // the execution price never exceeds the spot price by more than
            // rounding, so it stays within range: expected * reserve_in <=
            // optimal * reserve_out
            if optimal_amount > 0 && expected_output > 0 {
                let a = optimal_amount as int;
                let m = fee_multiplier as int;
                let aiwf = a * m;
                let den = reserve_in * 10000 + aiwf;
                lemma_fundamental_div_mod(aiwf * reserve_out, den);
                assert(expected_output * den <= aiwf * reserve_out) by (nonlinear_arith)
                    requires
                        expected_output == aiwf * reserve_out / den && den > 0 && aiwf
                            * reserve_out >= 0 && aiwf * reserve_out == den * (aiwf * reserve_out
                            / den) + (aiwf * reserve_out) % den && (aiwf * reserve_out) % den >= 0,
                ;
                assert((expected_output * SCALE_18) * reserve_in <= (reserve_out * SCALE_18) * a)
                    by (nonlinear_arith)
                    requires
                        expected_output * den <= aiwf * reserve_out && den == reserve_in * 10000
                            + aiwf && aiwf == a * m && 0 <= m <= 10000 && 0 < reserve_in && 0
                            <= reserve_out && 0 < a && 0 <= expected_output && SCALE_18 > 0,
                ;
                lemma_div_frac_le(
                    expected_output * SCALE_18,
                    a,
                    reserve_out * SCALE_18,
                    reserve_in as int,
                );
            }
        }
        let execution_price = mul_div(expected_output, SCALE_18, optimal_amount);
        let price_impact = if spot_price > execution_price {
            let diff = spot_price - execution_price;
            proof {
                lemma_mul_inequality(diff as int, spot_price as int, 10000);
                lemma_multiply_divide_le(diff * 10000, spot_price as int, 10000);
            }
            mul_div(diff, 10000, spot_price)
        } else {
            0
        };
        OptimizationResult { optimal_amount, expected_output, price_impact }
    }
}

} // verus!
