//! Natural-logarithm approximation under fixed-point scaling.
//!
//! `ln_fixed(x)` evaluates `ln(x)` for `x` and the result both scaled by
//! `SCALE_18`. The input is first range-reduced: it is halved until it lies
//! below `2 * SCALE_18`, and each halving contributes one scaled `ln(2)`
//! constant to the result. The reduced value `y` is then fed to the Taylor
//! series for `ln(1+u)` around `u = y - SCALE_18`:
//! `u - u^2/2 + u^3/3 - u^4/4 + u^5/5`. The series is summed with separate
//! non-negative accumulators for the positive and negative contributions, so
//! a negative intermediate value is never coerced into an unsigned word; the
//! final result is clamped to zero exactly when the signed total would be
//! negative. `ln(0)` is mathematically undefined and is defined here as `0`.

use vstd::prelude::*;
use vstd::arithmetic::div_mod::{
    lemma_div_by_multiple, lemma_div_is_ordered,
};
use vstd::arithmetic::power2::{lemma_pow2_strictly_increases, lemma_pow2_unfold, pow2};
use crate::muldiv::lemma_pow2_concrete;
use crate::{LN2_SCALED, SCALE_18};

verus! {

/// How many times `x` is halved before it drops below `2 * SCALE_18`.
pub open spec fn ln_halvings(x: int) -> nat
    decreases x,
{
    if x < 2 * SCALE_18 {
        0
    } else {
        1 + ln_halvings(x / 2)
    }
}

/// The value that remains after the range reduction.
pub open spec fn ln_reduced(x: int) -> int
    decreases x,
{
    if x < 2 * SCALE_18 {
        x
    } else {
        ln_reduced(x / 2)
    }
}

/// Magnitude of the `k`-th Taylor power: `|u|^k / SCALE_18^(k-1)` under the
/// same truncating divisions the implementation performs.
pub open spec fn ln_term_mag(m: int, k: nat) -> int
    decreases k,
{
    if k <= 1 {
        m
    } else {
        ln_term_mag(m, (k - 1) as nat) * m / SCALE_18 as int
    }
}

/// Signed value of the series tail from term `k` on. For a non-negative `u`
/// the signs alternate starting positive; for a negative `u` (`neg` set,
/// `m == -u`) every contribution is negative.
pub open spec fn ln_series(m: int, neg: bool, k: nat) -> int
    decreases 6 - k,
{
    if k > 5 {
        0
    } else {
        let c = ln_term_mag(m, k) / k as int;
        let signed = if neg || k % 2 == 0 {
            -c
        } else {
            c
        };
        signed + ln_series(m, neg, k + 1)
    }
}

/// What `ln_fixed` returns: zero for the undefined input `0`, otherwise the
/// halving count times the scaled `ln(2)` plus the five-term Taylor series
/// over the reduced value, clamped at zero.
pub open spec fn ln_spec(x: int) -> int {
    if x <= 0 {
        0
    } else {
        let y = ln_reduced(x);
        let n = ln_halvings(x);
        let raw = if y >= SCALE_18 {
            n * LN2_SCALED + ln_series(y - SCALE_18, false, 1)
        } else {
            n * LN2_SCALED + ln_series(SCALE_18 - y, true, 1)
        };
        if raw >= 0 {
            raw
        } else {
            0
        }
    }
}

/// A zero offset contributes nothing: every series term over `m == 0`
/// vanishes, which settles `ln(SCALE_18) == 0`.
pub proof fn lemma_ln_series_zero()
    ensures
        ln_series(0, false, 1) == 0,
        ln_spec(SCALE_18 as int) == 0,
{
    assert(ln_term_mag(0, 1) == 0);
    assert(ln_term_mag(0, 2) == 0int * 0int / (SCALE_18 as int));
    assert(ln_term_mag(0, 2) == 0);
    assert(ln_term_mag(0, 3) == 0);
    assert(ln_term_mag(0, 4) == 0);
    assert(ln_term_mag(0, 5) == 0);
    assert(ln_series(0, false, 6) == 0);
    assert(ln_series(0, false, 5) == 0);
    assert(ln_series(0, false, 4) == 0);
    assert(ln_series(0, false, 3) == 0);
    assert(ln_series(0, false, 2) == 0);
    assert(ln_series(0, false, 1) == 0);
    assert(ln_reduced(SCALE_18 as int) == SCALE_18 as int);
    assert(ln_halvings(SCALE_18 as int) == 0);
}

/// Range reduction plus truncated Taylor series for the natural logarithm;
/// input and output scaled by `SCALE_18`.
pub fn ln_fixed(x: u128) -> (r: u128)
    ensures
        r == ln_spec(x as int),
        x == SCALE_18 ==> r == 0,
        x == 0 ==> r == 0,
        r < 100_000_000_000_000_000_000,
{
    if x == 0 {
        return 0;  // technically undefined; defined here as zero
    }
    if x == SCALE_18 {
        proof {
            lemma_ln_series_zero();
        }
        return 0;  // ln(1) = 0
    }
    // range reduction: halve until y < 2, collecting ln(2) contributions
    let mut y = x;
    let mut n: u128 = 0;
    proof {
        lemma_pow2_concrete();
        vstd::arithmetic::mul::lemma_mul_basics(x as int);
        assert(pow2(0) * x <= x);
    }
    while y >= 2 * SCALE_18
        invariant
            1 <= y,
            n <= 127,
            pow2(n as nat) * y <= x,
            ln_reduced(y as int) == ln_reduced(x as int),
            ln_halvings(y as int) + n == ln_halvings(x as int),
        decreases y,
    {
        let ghost y0 = y as int;
        let ghost n0 = n as nat;
        proof {
            vstd::arithmetic::power2::lemma_pow2_pos(n0);
        }
        y = y / 2;
        n = n + 1;
        proof {
            lemma_pow2_unfold((n0 + 1) as nat);
            assert(pow2((n0 + 1) as nat) * y <= pow2(n0) * y0) by (nonlinear_arith)
                requires
                    pow2((n0 + 1) as nat) == 2 * pow2(n0) && 0 <= y && 2 * (y as int) <= y0
                        && pow2(n0) > 0,
            ;
            lemma_pow2_concrete();
            if n > 127 {
                if n > 128 {
                    lemma_pow2_strictly_increases(128, n as nat);
                }
                assert(pow2(n as nat) >= pow2(128));
                assert(pow2(n as nat) * y >= pow2(128) * 1) by (nonlinear_arith)
                    requires
                        y >= 1 && pow2(n as nat) >= pow2(128),
                ;
                assert(false);
            }
        }
    }
    // Taylor series around 1: u = y - 1, with |u| tracked as a magnitude so
    // every accumulator stays non-negative
    let neg: bool;
    let m: u128;
    if y >= SCALE_18 {
        neg = false;
        m = y - SCALE_18;
    } else {
        neg = true;
        m = SCALE_18 - y;
    }
    let mut pos: u128 = 0;
    let mut negative: u128 = 0;
    if neg {
        negative = m;
    } else {
        pos = m;
    }
    let mut mag: u128 = m;
    let mut k: u128 = 2;
    proof {
        assert(ln_term_mag(m as int, 1) == m);
        vstd::arithmetic::div_mod::lemma_div_basics_2(m as int);
        assert(ln_term_mag(m as int, 1) as int / 1 == m);
    }
    while k <= 5
        invariant
            2 <= k <= 6,
            m < SCALE_18,
            0 <= mag <= m,
            mag == ln_term_mag(m as int, (k - 1) as nat),
            pos <= (k - 1) * 1_000_000_000_000_000_000,
            negative <= (k - 1) * 1_000_000_000_000_000_000,
            pos - negative + ln_series(m as int, neg, k as nat) == ln_series(m as int, neg, 1),
        decreases 6 - k,
    {
        proof {
            assert(mag * m <= m * SCALE_18) by (nonlinear_arith)
                requires
                    0 <= mag <= m && m < SCALE_18,
            ;
            lemma_div_is_ordered(mag * m, m * SCALE_18 as int, SCALE_18 as int);
            lemma_div_by_multiple(m as int, SCALE_18 as int);
        }
        mag = mag * m / SCALE_18;
        let c = mag / k;
        if neg || k % 2 == 0 {
            negative = negative + c;
        } else {
            pos = pos + c;
        }
        k = k + 1;
    }
    let with_ln2 = n * LN2_SCALED + pos;
    proof {
        assert(n * LN2_SCALED <= 127 * 693_147_180_559_945_309) by (nonlinear_arith)
            requires
                n <= 127 && LN2_SCALED == 693_147_180_559_945_309u128,
        ;
        assert(ln_series(m as int, neg, 6) == 0);
    }
    if with_ln2 >= negative {
        with_ln2 - negative
    } else {
        0
    }
}

} // verus!
