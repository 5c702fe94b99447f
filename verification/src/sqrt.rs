//! Newton-Raphson integer square root.
//!
//! `sqrt_fixed(x)` returns the floor square root of `x`: the unique `r` with
//! `r*r <= x < (r+1)*(r+1)`. The initial guess is the smallest power-of-two
//! bracket (`2^64`, `2^32`, `2^16`, else `x/2`) that lies at or above the
//! root, which keeps the iteration count small; the iteration itself is
//! proven to terminate and to converge, so no iteration cap is needed.

use vstd::prelude::*;
use vstd::arithmetic::div_mod::{
    lemma_div_is_ordered, lemma_div_multiples_vanish, lemma_fundamental_div_mod,
};
use vstd::arithmetic::mul::{lemma_mul_inequality, lemma_mul_is_commutative};

verus! {

/// `r` is the floor square root of `x`.
pub open spec fn is_sqrt(x: int, r: int) -> bool {
    0 <= r && r * r <= x && x < (r + 1) * (r + 1)
}

/// The floor square root as a recursive definition, for use inside other
/// specifications.
pub open spec fn isqrt_spec(x: nat) -> nat
    decreases x,
{
    if x == 0 {
        0
    } else {
        let r = isqrt_spec((x - 1) as nat);
        if (r + 1) * (r + 1) <= x {
            r + 1
        } else {
            r
        }
    }
}

/// `isqrt_spec` really is the floor square root.
pub proof fn lemma_isqrt_spec_is_sqrt(x: nat)
    ensures
        is_sqrt(x as int, isqrt_spec(x) as int),
    decreases x,
{
    if x > 0 {
        lemma_isqrt_spec_is_sqrt((x - 1) as nat);
        let r = isqrt_spec((x - 1) as nat);
        if (r + 1) * (r + 1) <= x {
            assert((r + 2) * (r + 2) > x) by (nonlinear_arith)
                requires
                    (x - 1) < (r + 1) * (r + 1),
            ;
        }
    }
}

/// Two floor square roots of the same number coincide.
pub proof fn lemma_isqrt_unique(x: int, r1: int, r2: int)
    requires
        is_sqrt(x, r1),
        is_sqrt(x, r2),
    ensures
        r1 == r2,
{
    assert(r1 == r2) by (nonlinear_arith)
        requires
            0 <= r1 && 0 <= r2 && r1 * r1 <= x && x < (r1 + 1) * (r1 + 1) && r2 * r2 <= x && x < (
            r2 + 1) * (r2 + 1),
    ;
}

/// One Newton step `(y + x/y) / 2` from any positive iterate lands at or
/// above the floor square root of `x`.
proof fn lemma_newton_step_above_root(x: int, y: int, s: int)
    requires
        1 <= y,
        0 <= x,
        0 <= s,
        s * s <= x,
    ensures
        (y + x / y) / 2 >= s,
{
    let q = x / y;
    lemma_fundamental_div_mod(x, y);
    assert(0 <= x % y < y) by {
        vstd::arithmetic::div_mod::lemma_mod_bound(x, y);
    }
    assert(y + q >= 2 * s) by (nonlinear_arith)
        requires
            1 <= y && 0 <= s && s * s <= x && x == y * q + x % y && 0 <= x % y < y,
    ;
    lemma_div_is_ordered(2 * s, y + q, 2);
    lemma_div_multiples_vanish(s, 2);
}

/// Floor square root by Newton-Raphson iteration.
pub fn sqrt_fixed(x: u128) -> (r: u128)
    ensures
        r * r <= x < (r + 1) * (r + 1),
{
    if x == 0 {
        return 0;
    }
    if x <= 3 {
        // integer truncation: the square root of 1, 2 and 3 is 1
        return 1;
    }
    // power-of-two bracket at or above the root, to shorten the iteration
    let mut y: u128;
    if x >= 0x1_0000_0000_0000_0000 {
        y = 0x1_0000_0000_0000_0000;
        proof {
            assert(x < (y + 1) * (y + 1)) by (nonlinear_arith)
                requires
                    y == 0x1_0000_0000_0000_0000u128 && x <= u128::MAX,
            ;
        }
    } else if x >= 0x1_0000_0000 {
        y = 0x1_0000_0000;
        proof {
            assert(x < (y + 1) * (y + 1)) by (nonlinear_arith)
                requires
                    y == 0x1_0000_0000u128 && x < 0x1_0000_0000_0000_0000,
            ;
        }
    } else if x >= 0x1_0000 {
        y = 0x1_0000;
        proof {
            assert(x < (y + 1) * (y + 1)) by (nonlinear_arith)
                requires
                    y == 0x1_0000u128 && x < 0x1_0000_0000,
            ;
        }
    } else {
        y = x / 2;
        proof {
            lemma_fundamental_div_mod(x as int, 2);
            assert(x < (y + 1) * (y + 1)) by (nonlinear_arith)
                requires
                    4 <= x && x == 2 * (y as int) + x % 2 && 0 <= x % 2 < 2,
            ;
        }
    }
    loop
        invariant
            4 <= x,
            1 <= y <= 0x1_0000_0000_0000_0000,
            x < (y + 1) * (y + 1),
        decreases y,
    {
        let z = y;
        proof {
            // x < (y+1)^2 bounds the quotient: x/y <= y + 2, so the Newton
            // step cannot overflow
            lemma_mul_is_commutative(y as int + 2, y as int);
            assert(x <= (y + 2) * y) by (nonlinear_arith)
                requires
                    x < (y + 1) * (y + 1) && 1 <= y,
            ;
            lemma_div_is_ordered(x as int, (y + 2) * (y as int), y as int);
            lemma_div_multiples_vanish(y as int + 2, y as int);
        }
        y = (y + x / y) / 2;
        proof {
            let s = isqrt_spec(x as nat);
            lemma_isqrt_spec_is_sqrt(x as nat);
            lemma_newton_step_above_root(x as int, z as int, s as int);
            assert(s >= 1 && x < (y + 1) * (y + 1)) by (nonlinear_arith)
                requires
                    s >= 0 && y >= s && x < (s + 1) * (s + 1) && x >= 4,
            ;
        }
        if y >= z {
            proof {
                // the step did not decrease: z <= x/z, hence z*z <= x
                lemma_fundamental_div_mod(z as int + x as int / z as int, 2);
                assert(z + x / z >= 2 * z);
                lemma_mul_inequality(z as int, x as int / z as int, z as int);
                lemma_fundamental_div_mod(x as int, z as int);
                lemma_mul_is_commutative(x as int / z as int, z as int);
            }
            return z;
        }
    }
}

} // verus!
