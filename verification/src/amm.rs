//! AMM formula layer: constant-product swap output and slippage.
//!
//! All quantities are unsigned fixed-width integers; fees and slippage are
//! basis points (10000 = 100%). A degenerate input (zero reserve, zero
//! amount, zero expected output) yields the defined neutral result `0`
//! rather than an error: in this domain a malformed pool is a recoverable
//! input condition.

use vstd::prelude::*;
use vstd::arithmetic::div_mod::{
    lemma_div_basics_4, lemma_multiply_divide_le, lemma_multiply_divide_lt,
};
use vstd::arithmetic::mul::lemma_mul_inequality;
use crate::muldiv::{lemma_div_frac_le, lemma_mul_div_spec_pos, mul_div};

verus! {

/// A pool snapshot: the two reserves a route hop trades against. Read-only
/// input to every formula; the engine has no notion of pool identity or
/// persistence.
#[derive(Clone, Copy, PartialEq, Eq, Structural, Debug)]
pub struct Pool {
    pub reserve_in: u128,
    pub reserve_out: u128,
}

/// Inputs of the slippage computation.
#[derive(Clone, Copy, PartialEq, Eq, Structural, Debug)]
pub struct SlippageParams {
    pub amount_in: u128,
    pub reserve_in: u128,
    pub reserve_out: u128,
    /// Fee in basis points (10000 = 100%).
    pub fee_rate: u128,
    /// The output the trader quoted; slippage is measured against it.
    pub expected_out: u128,
}

/// Inputs of the dynamic-fee computation.
#[derive(Clone, Copy, PartialEq, Eq, Structural, Debug)]
pub struct DynamicFeeParams {
    /// Price volatility in basis points.
    pub volatility: u128,
    /// 24-hour traded volume, scaled by `SCALE_18`.
    pub volume_24h: u128,
    /// Liquidity depth, scaled by `SCALE_18`.
    pub liquidity_depth: u128,
}

/// What a swap-amount optimization returns.
#[derive(Clone, Copy, PartialEq, Eq, Structural, Debug)]
pub struct OptimizationResult {
    pub optimal_amount: u128,
    pub expected_output: u128,
    /// Price impact in basis points.
    pub price_impact: u128,
}

/// The stateless fixed-point engine. Every method is a pure function of its
/// arguments, so identical inputs always produce identical outputs.
pub struct MathematicalEngine {}

/// Constant-product swap output with fee-on-input semantics: the fee is
/// taken from the input amount, and the remainder moves along the constant
/// product curve. Zero amount or zero reserves yield zero.
pub open spec fn swap_output_spec(amount_in: int, reserve_in: int, reserve_out: int, fee_bps: int) -> int {
    if amount_in <= 0 || reserve_in <= 0 || reserve_out <= 0 {
        0
    } else {
        let amount_with_fee = amount_in * (10000 - fee_bps);
        amount_with_fee * reserve_out / (reserve_in * 10000 + amount_with_fee)
    }
}

/// Slippage in basis points: how far the actual constant-product output
/// falls short of the quoted one, as a fraction of the quote. Zero whenever
/// the actual output meets the quote, and for degenerate inputs.
pub open spec fn slippage_spec(amount_in: int, reserve_in: int, reserve_out: int, fee_bps: int, expected_out: int) -> int {
    if reserve_in <= 0 || expected_out <= 0 {
        0
    } else {
        let actual = swap_output_spec(amount_in, reserve_in, reserve_out, fee_bps);
        if expected_out > actual {
            (expected_out - actual) * 10000 / expected_out
        } else {
            0
        }
    }
}

impl MathematicalEngine {
    /// The engine carries no state: deployment is pure construction.
    pub fn deploy() -> (engine: MathematicalEngine) {
        MathematicalEngine {  }
    }

    /// Floor square root of `value`; see `sqrt_fixed`.
    pub fn calculate_precise_square_root(&self, value: u128) -> (r: u128)
        ensures
            r * r <= value < (r + 1) * (r + 1),
    {
        crate::sqrt::sqrt_fixed(value)
    }

    /// Constant-product output for `amount_in` against the given reserves,
    /// after deducting `fee_bps` basis points from the input. The output is
    /// strictly below `reserve_out`: a pool is never fully drained.
    pub fn calculate_swap_output(
        &self,
        amount_in: u128,
        reserve_in: u128,
        reserve_out: u128,
        fee_bps: u128,
    ) -> (r: u128)
        requires
            fee_bps <= 10000,
            amount_in * (10000 - fee_bps) <= u128::MAX,
            reserve_in * 10000 + amount_in * (10000 - fee_bps) <= u128::MAX,
        ensures
            r == swap_output_spec(amount_in as int, reserve_in as int, reserve_out as int, fee_bps as int),
            reserve_in > 0 && reserve_out > 0 ==> r < reserve_out,
    {
        if amount_in == 0 || reserve_in == 0 || reserve_out == 0 {
            return 0;
        }
        let amount_with_fee = amount_in * (10000 - fee_bps);
        let denominator = reserve_in * 10000 + amount_with_fee;
        proof {
            assert(amount_with_fee * reserve_out <= denominator * reserve_out) by (nonlinear_arith)
                requires
                    0 <= amount_with_fee <= denominator && 0 <= reserve_out,
            ;
            lemma_multiply_divide_le(
                amount_with_fee * reserve_out,
                denominator as int,
                reserve_out as int,
            );
            assert(amount_with_fee * reserve_out < denominator * reserve_out) by (nonlinear_arith)
                requires
                    0 <= amount_with_fee < denominator && 0 < reserve_out,
            ;
            lemma_multiply_divide_lt(
                amount_with_fee * reserve_out,
                denominator as int,
                reserve_out as int,
            );
            lemma_mul_div_spec_pos(amount_with_fee as int, reserve_out as int, denominator as int);
        }
        mul_div(amount_with_fee, reserve_out, denominator)
    }

    /// The fixed 30-basis-point instance of the swap-output formula (the
    /// conventional 0.3% pool fee).
    pub fn calculate_constant_product_output(
        &self,
        amount_in: u128,
        reserve_in: u128,
        reserve_out: u128,
    ) -> (r: u128)
        requires
            amount_in * 9970 <= u128::MAX,
            reserve_in * 10000 + amount_in * 9970 <= u128::MAX,
        ensures
            r == swap_output_spec(amount_in as int, reserve_in as int, reserve_out as int, 30),
            reserve_in > 0 && reserve_out > 0 ==> r < reserve_out,
    {
        self.calculate_swap_output(amount_in, reserve_in, reserve_out, 30)
    }

    /// Slippage of a trade in basis points, measured against the quoted
    /// output `params.expected_out`; zero whenever the pool delivers the
    /// quote or better.
    pub fn calculate_precise_slippage(&self, params: SlippageParams) -> (r: u128)
        requires
            params.fee_rate <= 10000,
            params.amount_in * (10000 - params.fee_rate) <= u128::MAX,
            params.reserve_in * 10000 + params.amount_in * (10000 - params.fee_rate) <= u128::MAX,
        ensures
            r == slippage_spec(
                params.amount_in as int,
                params.reserve_in as int,
                params.reserve_out as int,
                params.fee_rate as int,
                params.expected_out as int,
            ),
            r <= 10000,
            swap_output_spec(
                params.amount_in as int,
                params.reserve_in as int,
                params.reserve_out as int,
                params.fee_rate as int,
            ) >= params.expected_out ==> r == 0,
    {
        if params.reserve_in == 0 || params.expected_out == 0 {
            return 0;
        }
        let actual = self.calculate_swap_output(
            params.amount_in,
            params.reserve_in,
            params.reserve_out,
            params.fee_rate,
        );
        if params.expected_out > actual {
            let shortfall = params.expected_out - actual;
            proof {
                lemma_mul_inequality(
                    shortfall as int,
                    params.expected_out as int,
                    10000,
                );
                lemma_multiply_divide_le(
                    shortfall * 10000,
                    params.expected_out as int,
                    10000,
                );
                lemma_mul_div_spec_pos(shortfall as int, 10000, params.expected_out as int);
            }
            mul_div(shortfall, 10000, params.expected_out)
        } else {
            0
        }
    }
}

/// The swap output never decreases when the input amount grows, for fixed
/// reserves and fee: trading more in can only bring more (or equally much)
/// out.
pub proof fn lemma_swap_output_monotone(a1: int, a2: int, reserve_in: int, reserve_out: int, fee_bps: int)
    requires
        0 <= a1 <= a2,
        0 <= reserve_in,
        0 <= reserve_out,
        0 <= fee_bps <= 10000,
    ensures
        swap_output_spec(a1, reserve_in, reserve_out, fee_bps) <= swap_output_spec(
            a2,
            reserve_in,
            reserve_out,
            fee_bps,
        ),
{
    if a1 <= 0 || reserve_in <= 0 || reserve_out <= 0 {
        if a2 > 0 && reserve_in > 0 && reserve_out > 0 {
            let m = 10000 - fee_bps;
            let n2 = a2 * m * reserve_out;
            let d2 = reserve_in * 10000 + a2 * m;
            assert(n2 >= 0 && d2 > 0) by (nonlinear_arith)
                requires
                    a2 > 0 && reserve_in > 0 && reserve_out > 0 && 0 <= m && n2 == a2 * m
                        * reserve_out && d2 == reserve_in * 10000 + a2 * m,
            ;
            lemma_div_basics_4(n2, d2);
        }
    } else {
        let m = 10000 - fee_bps;
        let n1 = a1 * m * reserve_out;
        let d1 = reserve_in * 10000 + a1 * m;
        let n2 = a2 * m * reserve_out;
        let d2 = reserve_in * 10000 + a2 * m;
        assert(0 <= n1 && 0 < d1 && 0 < d2 && n1 * d2 <= n2 * d1) by (nonlinear_arith)
            requires
                0 < a1 <= a2 && 0 < reserve_in && 0 < reserve_out && 0 <= m && n1 == a1 * m
                    * reserve_out && d1 == reserve_in * 10000 + a1 * m && n2 == a2 * m * reserve_out
                    && d2 == reserve_in * 10000 + a2 * m,
        ;
        lemma_div_frac_le(n1, d1, n2, d2);
    }
}

} // verus!
