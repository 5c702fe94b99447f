//! Exponential approximation under fixed-point scaling.
//!
//! `exp_fixed(x)` evaluates `e^x` for `x` and the result both scaled by
//! `SCALE_18`, via the truncated Taylor series
//! `1 + x + x^2/2! + x^3/3! + ...`. The input is clamped to `20 * SCALE_18`
//! so the series stays in range; a term below the negligible-term cutoff
//! `SCALE_18 / 10^6` ends the summation early, and at most eight terms are
//! accumulated.

use vstd::prelude::*;
use vstd::arithmetic::div_mod::{
    lemma_div_by_multiple, lemma_div_denominator, lemma_div_is_ordered,
};
use vstd::arithmetic::mul::lemma_mul_is_commutative;
use crate::muldiv::{mul_div, lemma_mul_div_spec_pos};
use crate::SCALE_18;

verus! {

/// Input clamp: exponents beyond `20.0` saturate rather than overflow.
pub const EXP_INPUT_CAP: u128 = 20 * SCALE_18;

/// A Taylor term below this threshold (`SCALE_18 / 10^6`) is negligible and
/// ends the summation.
pub const NEGLIGIBLE_TERM: u128 = 1_000_000_000_000;

/// The series tail from term `i` on, given the previous term and the sum so
/// far: each term is `term * x / (i * SCALE_18)` under truncating division,
/// and the sum stops after term 8 or once a term drops below the cutoff.
pub open spec fn exp_series(x: int, i: nat, term: int, acc: int) -> int
    decreases 9 - i,
{
    if i > 8 {
        acc
    } else {
        let t = term * x / (i * SCALE_18 as int);
        if t < NEGLIGIBLE_TERM {
            acc + t
        } else {
            exp_series(x, i + 1, t, acc + t)
        }
    }
}

/// What `exp_fixed` returns: `SCALE_18` (that is, 1.0) for a zero exponent,
/// otherwise the truncated Taylor sum over the clamped input.
pub open spec fn exp_spec(x: int) -> int {
    if x == 0 {
        SCALE_18 as int
    } else {
        let xc = if x > EXP_INPUT_CAP { EXP_INPUT_CAP as int } else { x };
        exp_series(xc, 1, SCALE_18 as int, SCALE_18 as int)
    }
}

/// The worst-case magnitude of Taylor term `j` over the clamped input range:
/// term `j` is at most `SCALE_18 * 20^j / j!`, accumulated with the same
/// truncating divisions as the series itself.
pub open spec fn exp_term_bound(j: nat) -> int
    decreases j,
{
    if j == 0 {
        SCALE_18 as int
    } else {
        20 * exp_term_bound((j - 1) as nat) / (j as int)
    }
}

/// Every term bound over the eight-term series is at most
/// `650_000 * SCALE_18` (the true peak, `20^8/8!`, is just below that).
proof fn lemma_exp_term_bound_concrete()
    ensures
        forall|j: nat| j <= 8 ==> 0 <= #[trigger] exp_term_bound(j) <= 650_000_000_000_000_000_000_000,
{
    assert(exp_term_bound(0) == SCALE_18 as int);
    assert(exp_term_bound(1) == 20 * exp_term_bound(0) / 1);
    assert(exp_term_bound(2) == 20 * exp_term_bound(1) / 2);
    assert(exp_term_bound(3) == 20 * exp_term_bound(2) / 3);
    assert(exp_term_bound(4) == 20 * exp_term_bound(3) / 4);
    assert(exp_term_bound(5) == 20 * exp_term_bound(4) / 5);
    assert(exp_term_bound(6) == 20 * exp_term_bound(5) / 6);
    assert(exp_term_bound(7) == 20 * exp_term_bound(6) / 7);
    assert(exp_term_bound(8) == 20 * exp_term_bound(7) / 8);
    assert forall|j: nat| j <= 8 implies 0 <= #[trigger] exp_term_bound(j) <= 650_000_000_000_000_000_000_000
    by {
        assert(j == 0 || j == 1 || j == 2 || j == 3 || j == 4 || j == 5 || j == 6 || j == 7 || j
            == 8);
    }
}

/// The series value at an exponent of exactly 1.0 lies strictly between
/// 2.0 and 3.0: the approximation brackets Euler's number.
pub proof fn lemma_exp_bounds_at_one()
    ensures
        2 * SCALE_18 < exp_spec(SCALE_18 as int) < 3 * SCALE_18,
{
    assert(1000000000000000000int * 1000000000000000000int / (1int * 1000000000000000000int)
        == 1000000000000000000int) by (nonlinear_arith);
    assert(1000000000000000000int * 1000000000000000000int / (2int * 1000000000000000000int)
        == 500000000000000000int) by (nonlinear_arith);
    assert(500000000000000000int * 1000000000000000000int / (3int * 1000000000000000000int)
        == 166666666666666666int) by (nonlinear_arith);
    assert(166666666666666666int * 1000000000000000000int / (4int * 1000000000000000000int)
        == 41666666666666666int) by (nonlinear_arith);
    assert(41666666666666666int * 1000000000000000000int / (5int * 1000000000000000000int)
        == 8333333333333333int) by (nonlinear_arith);
    assert(8333333333333333int * 1000000000000000000int / (6int * 1000000000000000000int)
        == 1388888888888888int) by (nonlinear_arith);
    assert(1388888888888888int * 1000000000000000000int / (7int * 1000000000000000000int)
        == 198412698412698int) by (nonlinear_arith);
    assert(198412698412698int * 1000000000000000000int / (8int * 1000000000000000000int)
        == 24801587301587int) by (nonlinear_arith);
    assert(exp_series(1000000000000000000int, 9, 24801587301587int, 2718278769841269838int)
        == 2718278769841269838int);
    assert(exp_series(1000000000000000000int, 8, 198412698412698int, 2718253968253968251int)
        == 2718278769841269838int);
    assert(exp_series(1000000000000000000int, 7, 1388888888888888int, 2718055555555555553int)
        == 2718278769841269838int);
    assert(exp_series(1000000000000000000int, 6, 8333333333333333int, 2716666666666666665int)
        == 2718278769841269838int);
    assert(exp_series(1000000000000000000int, 5, 41666666666666666int, 2708333333333333332int)
        == 2718278769841269838int);
    assert(exp_series(1000000000000000000int, 4, 166666666666666666int, 2666666666666666666int)
        == 2718278769841269838int);
    assert(exp_series(1000000000000000000int, 3, 500000000000000000int, 2500000000000000000int)
        == 2718278769841269838int);
    assert(exp_series(1000000000000000000int, 2, 1000000000000000000int, 2000000000000000000int)
        == 2718278769841269838int);
    assert(exp_series(1000000000000000000int, 1, 1000000000000000000int, 1000000000000000000int)
        == 2718278769841269838int);
}

/// Truncated-Taylor exponential; input and output scaled by `SCALE_18`.
pub fn exp_fixed(x: u128) -> (r: u128)
    ensures
        r == exp_spec(x as int),
        x == 0 ==> r == SCALE_18,
        r <= 6_000_000_000_000_000_000_000_000,
{
    if x == 0 {
        return SCALE_18;  // e^0 = 1
    }
    let x_clamped = if x > EXP_INPUT_CAP {
        EXP_INPUT_CAP
    } else {
        x
    };
    let mut result: u128 = SCALE_18;  // 1.0
    let mut term: u128 = SCALE_18;  // current term of the series
    let mut i: u128 = 1;
    proof {
        lemma_exp_term_bound_concrete();
    }
    while i <= 8
        invariant_except_break
            1 <= i <= 9,
            0 < x_clamped <= EXP_INPUT_CAP,
            term <= exp_term_bound((i - 1) as nat),
            result <= SCALE_18 + (i - 1) * 650_000_000_000_000_000_000_000,
            exp_series(x_clamped as int, i as nat, term as int, result as int) == exp_series(
                x_clamped as int, 1, SCALE_18 as int, SCALE_18 as int),
        ensures
            result == exp_series(x_clamped as int, 1, SCALE_18 as int, SCALE_18 as int),
            result <= 6_000_000_000_000_000_000_000_000,
        decreases 9 - i,
    {
        proof {
            lemma_exp_term_bound_concrete();
            // the new term is at most 20/i times the old bound, which is
            // exactly the next term bound
            assert(term * x_clamped <= (20 * exp_term_bound((i - 1) as nat)) * SCALE_18)
                by (nonlinear_arith)
                requires
                    0 <= term <= exp_term_bound((i - 1) as nat) && 0 < x_clamped <= 20 * SCALE_18,
            ;
            lemma_div_is_ordered(
                term * x_clamped,
                (20 * exp_term_bound((i - 1) as nat)) * SCALE_18,
                i as int * SCALE_18 as int,
            );
            lemma_mul_is_commutative(i as int, SCALE_18 as int);
            lemma_div_denominator(
                (20 * exp_term_bound((i - 1) as nat)) * SCALE_18,
                SCALE_18 as int,
                i as int,
            );
            lemma_mul_is_commutative(20 * exp_term_bound((i - 1) as nat), SCALE_18 as int);
            lemma_div_by_multiple(20 * exp_term_bound((i - 1) as nat), SCALE_18 as int);
            assert(exp_term_bound(i as nat) == 20 * exp_term_bound((i - 1) as nat) / (i as int));
            assert(term * x_clamped / (i as int * SCALE_18 as int) <= exp_term_bound(i as nat));
        }
        let t = mul_div(term, x_clamped, i * SCALE_18);
        proof {
            lemma_mul_div_spec_pos(term as int, x_clamped as int, i as int * SCALE_18 as int);
        }
        result = result + t;
        if t < NEGLIGIBLE_TERM {
            break ;
        }
        term = t;
        i = i + 1;
    }
    result
}

} // verus!
