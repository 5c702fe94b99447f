use mathematical_engine::amm::{DynamicFeeParams, MathematicalEngine, Pool, SlippageParams};
use mathematical_engine::exp::exp_fixed;
use mathematical_engine::ln::ln_fixed;
use mathematical_engine::muldiv::mul_div;
use mathematical_engine::sqrt::sqrt_fixed;
use mathematical_engine::{LN2_SCALED, SCALE_18};

#[test]
fn test_sqrt_floor_property_samples() {
    // r*r <= x < (r+1)*(r+1) at assorted magnitudes
    for x in [2u128, 3, 5, 15, 24, 99, 10_001, 1 << 40, (1 << 64) - 1, 1 << 64, u128::MAX] {
        let r = sqrt_fixed(x);
        assert!(r * r <= x);
        assert!(x - r * r <= 2 * r); // x < (r+1)^2 without overflowing
    }
    assert_eq!(sqrt_fixed(1 << 64), 4294967296);
    assert_eq!(sqrt_fixed(SCALE_18), 1_000_000_000);
}

#[test]
fn test_mul_div_zero_cases() {
    assert_eq!(mul_div(0, 5, 7), 0);
    assert_eq!(mul_div(5, 0, 7), 0);
    assert_eq!(mul_div(5, 7, 0), 0);
}

#[test]
fn test_mul_div_commutative_samples() {
    let cases = [
        (100u128, 200u128, 50u128),
        (SCALE_18, 3, 7),
        (u128::MAX, 2, 4),
        (123_456_789, 987_654_321, 1_000_000),
    ];
    for (a, b, c) in cases {
        assert_eq!(mul_div(a, b, c), mul_div(b, a, c));
    }
}

#[test]
fn test_mul_div_double_width_intermediate() {
    // the intermediate product exceeds 128 bits; no precision may be lost
    assert_eq!(mul_div(1 << 100, 1 << 27, 1 << 60), 1 << 67);
    assert_eq!(mul_div(u128::MAX, u128::MAX, u128::MAX), u128::MAX);
    assert_eq!(mul_div(SCALE_18 * 5, SCALE_18 * 7, SCALE_18), 35 * SCALE_18);
}

#[test]
fn test_exp_negligible_term_cutoff() {
    // a tiny exponent ends the series after its first term
    assert_eq!(exp_fixed(1), SCALE_18 + 1);
}

#[test]
fn test_ln_exact_values() {
    assert_eq!(ln_fixed(0), 0);
    assert_eq!(ln_fixed(SCALE_18), 0);
    // one halving, then a zero series offset: exactly ln(2)
    assert_eq!(ln_fixed(2 * SCALE_18), LN2_SCALED);
    // below 1.0 the true logarithm is negative: clamped to zero
    assert_eq!(ln_fixed(SCALE_18 / 2), 0);
}

#[test]
fn test_exp_ln_round_trip_near_one() {
    // exp(ln(x)) stays within 0.1% of x for x near 1.0
    for x in [11 * SCALE_18 / 10, 25 * SCALE_18 / 10, SCALE_18 + 1] {
        let back = exp_fixed(ln_fixed(x));
        let tolerance = x / 1000;
        assert!(back >= x - tolerance && back <= x + tolerance);
    }
}

#[test]
fn test_swap_output_formula() {
    let engine = MathematicalEngine::deploy();
    assert_eq!(engine.calculate_swap_output(1000, 1_000_000, 1_000_000, 30), 996);
    // the 30-bps convenience form agrees
    assert_eq!(engine.calculate_constant_product_output(1000, 1_000_000, 1_000_000), 996);
    // degenerate pools yield zero
    assert_eq!(engine.calculate_swap_output(1000, 0, 1_000_000, 30), 0);
    assert_eq!(engine.calculate_swap_output(1000, 1_000_000, 0, 30), 0);
    assert_eq!(engine.calculate_swap_output(0, 1_000_000, 1_000_000, 30), 0);
}

#[test]
fn test_swap_output_monotone_and_bounded() {
    let engine = MathematicalEngine::deploy();
    let mut previous = 0u128;
    for amount in [0u128, 1, 10, 100, 1_000, 10_000, 100_000, 1_000_000, 10_000_000] {
        let out = engine.calculate_swap_output(amount, 1_000_000, 500_000, 30);
        assert!(out >= previous);
        assert!(out < 500_000); // pool never fully drained
        previous = out;
    }
}

#[test]
fn test_slippage_zero_when_quote_met() {
    let engine = MathematicalEngine::deploy();
    // actual output is 996; any quote at or below it slips by nothing
    for expected in [1u128, 500, 996] {
        let params = SlippageParams {
            amount_in: 1000,
            reserve_in: 1_000_000,
            reserve_out: 1_000_000,
            fee_rate: 30,
            expected_out: expected,
        };
        assert_eq!(engine.calculate_precise_slippage(params), 0);
    }
}

#[test]
fn test_slippage_shortfall_in_basis_points() {
    let engine = MathematicalEngine::deploy();
    let params = SlippageParams {
        amount_in: 1000,
        reserve_in: 1_000_000,
        reserve_out: 1_000_000,
        fee_rate: 30,
        expected_out: 1992, // actual is 996: a 50% shortfall
    };
    assert_eq!(engine.calculate_precise_slippage(params), 5000);
    // degenerate inputs
    let zero_expected = SlippageParams { expected_out: 0, ..params };
    assert_eq!(engine.calculate_precise_slippage(zero_expected), 0);
    let zero_reserve = SlippageParams { reserve_in: 0, ..params };
    assert_eq!(engine.calculate_precise_slippage(zero_reserve), 0);
}

#[test]
fn test_dynamic_fee_values() {
    let engine = MathematicalEngine::deploy();
    let quiet = DynamicFeeParams { volatility: 0, volume_24h: 0, liquidity_depth: 0 };
    assert_eq!(engine.calculate_dynamic_fee(quiet), 30);
    // extreme volatility saturates the surcharge at +50
    let stormy = DynamicFeeParams { volatility: 10_000, volume_24h: 0, liquidity_depth: 0 };
    assert_eq!(engine.calculate_dynamic_fee(stormy), 80);
    // volatile but high-volume, deep pool
    let busy = DynamicFeeParams {
        volatility: 150,
        volume_24h: 1_000 * SCALE_18,
        liquidity_depth: 20 * SCALE_18,
    };
    assert_eq!(engine.calculate_dynamic_fee(busy), 65);
    // calm, high-volume, deep pool: discounts bottom out at 15
    let discounted = DynamicFeeParams {
        volatility: 0,
        volume_24h: 10_000_000 * SCALE_18,
        liquidity_depth: 20 * SCALE_18,
    };
    assert_eq!(engine.calculate_dynamic_fee(discounted), 15);
}

#[test]
fn test_dynamic_fee_always_clamped() {
    let engine = MathematicalEngine::deploy();
    for volatility in [0u128, 50, 100, 101, 5_000, u128::MAX] {
        for volume in [0u128, SCALE_18, 1_000_000 * SCALE_18, u128::MAX] {
            for liquidity in [0u128, 15 * SCALE_18, u128::MAX] {
                let fee = engine.calculate_dynamic_fee(DynamicFeeParams {
                    volatility,
                    volume_24h: volume,
                    liquidity_depth: liquidity,
                });
                assert!((5..=100).contains(&fee));
            }
        }
    }
}

#[test]
fn test_optimize_swap_amount() {
    let engine = MathematicalEngine::deploy();
    let result = engine.optimize_swap_amount(1000, 1_000_000, 1_000_000, 30);
    assert_eq!(result.optimal_amount, 1000);
    assert_eq!(result.expected_output, 996);
    assert_eq!(result.price_impact, 40);
}

#[test]
fn test_lp_tokens_fresh_pool() {
    let engine = MathematicalEngine::deploy();
    // geometric mean less the locked minimum liquidity
    assert_eq!(engine.calculate_lp_tokens(1_000_000, 1_000_000, 0, 0, 0), 999_000);
    // too small a deposit mints nothing
    assert_eq!(engine.calculate_lp_tokens(4, 9, 0, 0, 0), 0);
}

#[test]
fn test_lp_tokens_proportional() {
    let engine = MathematicalEngine::deploy();
    // both ratios give 50; the smaller side binds
    assert_eq!(engine.calculate_lp_tokens(100, 200, 1_000, 2_000, 500), 50);
    // unbalanced deposit: min(10*500/1000, 400*500/2000) = min(5, 100)
    assert_eq!(engine.calculate_lp_tokens(10, 400, 1_000, 2_000, 500), 5);
    // zero reserve with existing supply yields zero
    assert_eq!(engine.calculate_lp_tokens(100, 200, 0, 2_000, 500), 0);
}

#[test]
fn test_impermanent_loss_zero_at_equal_prices() {
    let engine = MathematicalEngine::deploy();
    assert_eq!(engine.calculate_impermanent_loss(SCALE_18, SCALE_18), 0);
    assert_eq!(engine.calculate_impermanent_loss(3 * SCALE_18, 3 * SCALE_18), 0);
    // undefined prices yield the neutral zero
    assert_eq!(engine.calculate_impermanent_loss(0, SCALE_18), 0);
    assert_eq!(engine.calculate_impermanent_loss(SCALE_18, 0), 0);
}

#[test]
fn test_impermanent_loss_grows_with_divergence() {
    let engine = MathematicalEngine::deploy();
    // upward price moves
    let up: Vec<u128> = [10u128, 11, 15, 20, 40]
        .iter()
        .map(|n| engine.calculate_impermanent_loss(SCALE_18, n * SCALE_18 / 10))
        .collect();
    assert_eq!(up, vec![0, 11, 202, 571, 2000]);
    // downward price moves lose just as much at the reciprocal ratio
    assert_eq!(engine.calculate_impermanent_loss(SCALE_18, SCALE_18 / 2), 571);
    assert_eq!(engine.calculate_impermanent_loss(SCALE_18, SCALE_18 / 4), 2000);
}

#[test]
fn test_evaluate_route_sequential_hops() {
    let engine = MathematicalEngine::deploy();
    let pools = vec![
        Pool { reserve_in: 1_000_000, reserve_out: 2_000_000 },
        Pool { reserve_in: 500_000, reserve_out: 1_000_000 },
    ];
    let fees = vec![30, 25];
    assert_eq!(engine.evaluate_route(1000, &pools, &fees), 3958);
    // empty route and mismatched fee list are degenerate
    assert_eq!(engine.evaluate_route(1000, &vec![], &vec![]), 0);
    assert_eq!(engine.evaluate_route(1000, &pools, &vec![30]), 0);
    // a dry hop short-circuits to zero
    let dry = vec![Pool { reserve_in: 0, reserve_out: 5 }, pools[1]];
    assert_eq!(engine.evaluate_route(1000, &dry, &fees), 0);
}

#[test]
fn test_route_search_picks_best_single_hop() {
    let engine = MathematicalEngine::deploy();
    let pools = vec![
        Pool { reserve_in: 100, reserve_out: 200 },
        Pool { reserve_in: 300, reserve_out: 100 },
    ];
    let fees = vec![30, 30];
    let (route, output) = engine.find_optimal_route(10, &pools, &fees);
    // the first pool alone yields 18, more than pool 1 (3) or either
    // two-hop combination (5 each)
    assert_eq!(route, vec![0]);
    assert_eq!(output, 18);
}

#[test]
fn test_exp_input_clamp_saturates() {
    // beyond the clamp every exponent evaluates like the clamp itself
    assert_eq!(exp_fixed(21 * SCALE_18), exp_fixed(20 * SCALE_18));
    assert_eq!(exp_fixed(100 * SCALE_18), exp_fixed(20 * SCALE_18));
}

#[test]
fn test_route_search_two_hop_wins_and_ties_break_early() {
    let engine = MathematicalEngine::deploy();
    // chaining the two cheap pools multiplies their rates: either order
    // yields 907760 against 9871 for a single hop, and the tie between the
    // orders keeps the pair found first
    let pools = vec![
        Pool { reserve_in: 1_000, reserve_out: 1_000_000 },
        Pool { reserve_in: 1_000, reserve_out: 1_000_000 },
    ];
    let fees = vec![30, 30];
    let (route, output) = engine.find_optimal_route(10, &pools, &fees);
    assert_eq!(route, vec![0, 1]);
    assert_eq!(output, 907_760);
}

#[test]
fn test_route_search_degenerate() {
    let engine = MathematicalEngine::deploy();
    let (route, output) = engine.find_optimal_route(10, &vec![], &vec![]);
    assert!(route.is_empty());
    assert_eq!(output, 0);
}

#[test]
fn test_volatility() {
    let engine = MathematicalEngine::deploy();
    // constant prices: zero volatility
    assert_eq!(engine.calculate_volatility(&vec![SCALE_18, SCALE_18, SCALE_18], 3), 0);
    // a doubling and a halving
    assert_eq!(engine.calculate_volatility(&vec![SCALE_18, 2 * SCALE_18, SCALE_18], 3), 936);
    // too short a window, or too few usable returns
    assert_eq!(engine.calculate_volatility(&vec![SCALE_18, 2 * SCALE_18], 1), 0);
    assert_eq!(engine.calculate_volatility(&vec![0, 2 * SCALE_18, SCALE_18], 3), 0);
}

#[test]
fn test_precise_square_root_method() {
    let engine = MathematicalEngine::deploy();
    assert_eq!(engine.calculate_precise_square_root(625), 25);
    assert_eq!(engine.calculate_precise_square_root(0), 0);
}
