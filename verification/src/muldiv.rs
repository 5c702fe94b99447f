//! Overflow-safe multiply-divide primitive.
//!
//! `mul_div(a, b, c)` computes `(a * b) / c` through a full 256-bit
//! intermediate product, so no significant digit of `a * b` is ever lost to
//! the 128-bit word size. Division by zero (and a zero factor) yields the
//! neutral result `0` instead of aborting, since a malformed input such as an
//! empty pool reserve is a recoverable condition in this domain.

use vstd::prelude::*;
use vstd::arithmetic::div_mod::{
    lemma_div_is_ordered, lemma_div_multiples_vanish, lemma_fundamental_div_mod,
    lemma_fundamental_div_mod_converse, lemma_hoist_over_denominator, lemma_breakdown,
    lemma_mod_mod, lemma_mod_multiples_basic, lemma_div_denominator, lemma_multiply_divide_lt,
    lemma_multiply_divide_le,
};
use vstd::arithmetic::mul::{lemma_mul_is_commutative, lemma_mul_inequality};
use vstd::arithmetic::power2::{lemma_pow2_adds, lemma_pow2_pos, lemma_pow2_unfold, pow2};

verus! {

/// `2^64` as a `u128` value, used to split a `u128` into two 64-bit halves.
const TWO_64: u128 = 0x1_0000_0000_0000_0000;

/// `2^127` as a `u128` value: the weight of the top bit of a `u128`.
const TWO_127: u128 = 0x8000_0000_0000_0000_0000_0000_0000_0000;

/// `2^128` as a mathematical integer: the weight of the high half of a
/// 256-bit product.
pub open spec fn two_128() -> int {
    0x1_0000_0000_0000_0000_0000_0000_0000_0000int
}

/// What `mul_div` returns: `(a * b) / c` truncated toward zero, with the
/// defined neutral result `0` whenever `a`, `b` or `c` is zero.
pub open spec fn mul_div_spec(a: int, b: int, c: int) -> int {
    if a == 0 || b == 0 || c == 0 {
        0
    } else {
        (a * b) / c
    }
}

/// The two powers of two that the long division below steers by, as concrete
/// values, together with the weight `2^128` of the high product half.
pub(crate) proof fn lemma_pow2_concrete()
    ensures
        pow2(128) == two_128(),
        pow2(127) == 0x8000_0000_0000_0000_0000_0000_0000_0000,
        pow2(0) == 1,
{
    vstd::arithmetic::power2::lemma2_to64();
    vstd::arithmetic::power2::lemma2_to64_rest();
    lemma_pow2_adds(64, 64);
    lemma_pow2_adds(64, 63);
    assert(pow2(64) == 0x1_0000_0000_0000_0000);
    assert(pow2(63) == 0x8000_0000_0000_0000);
    assert(pow2(127) == pow2(64) * pow2(63));
    assert(pow2(128) == pow2(64) * pow2(64));
    assert(pow2(127) == 0x8000_0000_0000_0000_0000_0000_0000_0000) by (nonlinear_arith)
        requires
            pow2(127) == pow2(64) * pow2(63) && pow2(64) == 0x1_0000_0000_0000_0000 && pow2(63)
                == 0x8000_0000_0000_0000,
    ;
    assert(pow2(128) == 0x1_0000_0000_0000_0000_0000_0000_0000_0000) by (nonlinear_arith)
        requires
            pow2(128) == pow2(64) * pow2(64) && pow2(64) == 0x1_0000_0000_0000_0000,
    ;
}

/// Full 256-bit product of two 128-bit values, as (high, low) halves.
fn mul_wide(a: u128, b: u128) -> (r: (u128, u128))
    ensures
        r.0 * two_128() + r.1 == a * b,
{
    let a1 = a / TWO_64;
    let a0 = a % TWO_64;
    let b1 = b / TWO_64;
    let b0 = b % TWO_64;
    proof {
        assert(a1 < TWO_64 && b1 < TWO_64) by (nonlinear_arith)
            requires
                a1 == a / 0x1_0000_0000_0000_0000u128 && b1 == b / 0x1_0000_0000_0000_0000u128
                    && a <= u128::MAX && b <= u128::MAX,
        ;
        assert(a1 * b1 <= u128::MAX && a1 * b0 <= u128::MAX && a0 * b1 <= u128::MAX && a0 * b0
            <= u128::MAX) by (nonlinear_arith)
            requires
                a1 < 0x1_0000_0000_0000_0000 && b1 < 0x1_0000_0000_0000_0000 && a0
                    < 0x1_0000_0000_0000_0000 && b0 < 0x1_0000_0000_0000_0000,
        ;
    }
    let hh = a1 * b1;
    let hl = a1 * b0;
    let lh = a0 * b1;
    let ll = a0 * b0;
    let mid = ll / TWO_64 + hl % TWO_64 + lh % TWO_64;
    let lo = ll % TWO_64 + (mid % TWO_64) * TWO_64;
    proof {
        let p = 0x1_0000_0000_0000_0000int;
        lemma_fundamental_div_mod(a as int, p);
        lemma_fundamental_div_mod(b as int, p);
        lemma_fundamental_div_mod(ll as int, p);
        lemma_fundamental_div_mod(hl as int, p);
        lemma_fundamental_div_mod(lh as int, p);
        lemma_fundamental_div_mod(mid as int, p);
        assert(a * b == (a1 * b1) * two_128() + (a1 * b0) * p + (a0 * b1) * p + a0 * b0)
            by (nonlinear_arith)
            requires
                a == p * a1 + a0 && b == p * b1 + b0 && p == 0x1_0000_0000_0000_0000int
                    && two_128() == p * p,
        ;
        // the recombined halves carry the very same value ...
        let t = hh + hl as int / p + lh as int / p + mid as int / p;
        assert(t * two_128() + lo == hh * two_128() + hl * p + lh * p + ll);
        // ... so the high half is bounded by the high half of MAX * MAX
        assert(a * b <= u128::MAX * u128::MAX) by (nonlinear_arith)
            requires
                a <= u128::MAX && b <= u128::MAX,
        ;
        assert(t <= u128::MAX) by (nonlinear_arith)
            requires
                t * two_128() + lo == a * b && a * b <= u128::MAX * u128::MAX && lo >= 0,
        ;
    }
    let hi = hh + hl / TWO_64 + lh / TWO_64 + mid / TWO_64;
    proof {
        let p = 0x1_0000_0000_0000_0000int;
        assert(hi * two_128() + lo == hh * two_128() + hl * p + lh * p + ll);
    }
    (hi, lo)
}

/// 256-by-128-bit division: `(hi * 2^128 + lo) / c`, by binary long division.
/// The requirement `hi < c` is exactly the condition for the quotient to fit
/// in 128 bits.
fn div_wide(hi: u128, lo: u128, c: u128) -> (q: u128)
    requires
        hi < c,
    ensures
        q == (hi * two_128() + lo) / (c as int),
{
    let mut q: u128 = 0;
    let mut rem: u128 = hi;
    let mut cur: u128 = lo;
    let mut i: usize = 0;
    proof {
        lemma_pow2_concrete();
        vstd::arithmetic::div_mod::lemma_basic_div(lo as int, pow2(128) as int);
        vstd::arithmetic::div_mod::lemma_small_mod(lo as nat, pow2(128));
    }
    while i < 128
        invariant
            i <= 128,
            hi < c,
            rem < c,
            q * c + rem == hi * pow2(i as nat) + lo as int / pow2((128 - i) as nat) as int,
            cur == (lo as int % pow2((128 - i) as nat) as int) * pow2(i as nat),
            q < pow2(i as nat),
        decreases 128 - i,
    {
        let ghost k = (128 - i) as nat;
        let ghost prefix = lo as int / pow2(k) as int;
        proof {
            lemma_pow2_concrete();
            lemma_pow2_pos(k);
            lemma_pow2_pos((k - 1) as nat);
            lemma_pow2_pos(i as nat);
            lemma_pow2_unfold(k);
            assert(pow2(k) == 2 * pow2((k - 1) as nat));
        }
        let bit = cur / TWO_127;
        proof {
            // cur == (lo % 2^k) * 2^i and 2^127 == 2^i * 2^(k-1), so the top
            // bit of cur is (lo % 2^k) / 2^(k-1).
            let m = lo as int % pow2(k) as int;
            lemma_pow2_adds(i as nat, (k - 1) as nat);
            lemma_div_denominator(m * pow2(i as nat), pow2(i as nat) as int, pow2((k - 1) as nat) as int);
            lemma_mul_is_commutative(m, pow2(i as nat) as int);
            lemma_div_multiples_vanish(m, pow2(i as nat) as int);
            assert(bit == m / pow2((k - 1) as nat) as int);
            assert(bit <= 1) by {
                lemma_multiply_divide_lt(m, pow2((k - 1) as nat) as int, 2);
            }
            // the prefix of lo grows by that bit:
            // lo / 2^(k-1) == 2 * (lo / 2^k) + (lo % 2^k) / 2^(k-1)
            lemma_fundamental_div_mod(lo as int, pow2(k) as int);
            lemma_hoist_over_denominator(m, 2 * prefix, (pow2((k - 1) as nat)));
            assert(pow2(k) as int * prefix == (2 * prefix) * pow2((k - 1) as nat)) by (nonlinear_arith)
                requires
                    pow2(k) == 2 * pow2((k - 1) as nat),
            ;
            assert(lo as int / pow2((k - 1) as nat) as int == 2 * prefix + bit);
        }
        // shift the next dividend bit out of cur
        let cur_rest = cur % TWO_127;
        proof {
            // (m * 2^i) % (2^i * 2^(k-1)) == 2^i * (m % 2^(k-1)),
            // and (lo % 2^k) % 2^(k-1) == lo % 2^(k-1)
            let m = lo as int % pow2(k) as int;
            lemma_breakdown(m * pow2(i as nat), pow2(i as nat) as int, pow2((k - 1) as nat) as int);
            lemma_mul_is_commutative(m, pow2(i as nat) as int);
            lemma_div_multiples_vanish(m, pow2(i as nat) as int);
            lemma_mod_multiples_basic(m, pow2(i as nat) as int);
            lemma_mod_mod(lo as int, pow2((k - 1) as nat) as int, 2);
            assert(cur_rest == pow2(i as nat) * (lo as int % pow2((k - 1) as nat) as int));
            lemma_pow2_unfold((i + 1) as nat);
            assert(cur_rest * 2 == (lo as int % pow2((k - 1) as nat) as int) * pow2((i + 1) as nat))
                by (nonlinear_arith)
                requires
                    cur_rest == pow2(i as nat) * (lo as int % pow2((k - 1) as nat) as int)
                        && pow2((i + 1) as nat) == 2 * pow2(i as nat),
            ;
            assert(cur_rest < pow2((k - 1) as nat) as int * pow2(i as nat) as int) by (nonlinear_arith)
                requires
                    cur_rest == pow2(i as nat) * (lo as int % pow2((k - 1) as nat) as int)
                        && (lo as int % pow2((k - 1) as nat) as int) < pow2((k - 1) as nat)
                        && pow2(i as nat) > 0,
            ;
            lemma_pow2_adds((k - 1) as nat, i as nat);
            assert(pow2(((k - 1) + i) as nat) <= pow2(127)) by {
                if (k - 1) + i < 127 {
                    vstd::arithmetic::power2::lemma_pow2_strictly_increases(
                        ((k - 1) + i) as nat, 127);
                }
            }
            assert(cur_rest * 2 <= u128::MAX);
        }
        cur = cur_rest * 2;
        // one step of restoring division on (rem, bit)
        let ghost old_rem = rem as int;
        let ghost old_q = q as int;
        proof {
            lemma_pow2_unfold((i + 1) as nat);
            assert(q < TWO_127) by {
                if i < 127 {
                    vstd::arithmetic::power2::lemma_pow2_strictly_increases(i as nat, 127);
                }
            }
        }
        if rem >= TWO_127 {
            // 2*rem + bit surely exceeds c, but 2*rem would overflow a u128;
            // subtracting c/2 before doubling keeps every intermediate in range.
            proof {
                lemma_fundamental_div_mod(c as int, 2);
                lemma_div_is_ordered(c as int, u128::MAX as int, 2);
            }
            let t = rem - c / 2;
            rem = (t * 2 + bit) - c % 2;
            q = q * 2 + 1;
            proof {
                assert(rem == 2 * old_rem + bit - c);
                assert(q * c == 2 * (old_q * c) + c) by (nonlinear_arith)
                    requires
                        q == 2 * old_q + 1,
                ;
            }
        } else {
            let d = rem * 2 + bit;
            if d >= c {
                rem = d - c;
                q = q * 2 + 1;
                proof {
                    assert(rem == 2 * old_rem + bit - c);
                    assert(q * c == 2 * (old_q * c) + c) by (nonlinear_arith)
                        requires
                            q == 2 * old_q + 1,
                    ;
                }
            } else {
                rem = d;
                q = q * 2;
                proof {
                    assert(q * c == 2 * (old_q * c)) by (nonlinear_arith)
                        requires
                            q == 2 * old_q,
                    ;
                }
            }
        }
        proof {
            assert(q * c + rem == 2 * (old_q * c + old_rem) + bit);
            assert(hi * pow2((i + 1) as nat) == 2 * (hi * pow2(i as nat))) by (nonlinear_arith)
                requires
                    pow2((i + 1) as nat) == 2 * pow2(i as nat),
            ;
            assert(q * c + rem == hi * pow2((i + 1) as nat) + lo as int / pow2((k - 1) as nat) as int);
            assert(q < pow2((i + 1) as nat));
        }
        i = i + 1;
    }
    proof {
        assert(lo as int / pow2(0) as int == lo) by {
            vstd::arithmetic::div_mod::lemma_div_basics_2(lo as int);
        }
        lemma_mul_is_commutative(q as int, c as int);
        lemma_fundamental_div_mod_converse(hi * pow2(128) + lo, c as int, q as int, rem as int);
    }
    q
}

/// `(a * b) / c` with a full double-width intermediate product, truncating
/// toward zero; returns `0` when `c == 0` (or when either factor is zero)
/// rather than aborting. The only demand on callers is the machine limit
/// that the true quotient fits the 128-bit result width.
pub fn mul_div(a: u128, b: u128, c: u128) -> (r: u128)
    requires
        c > 0 ==> a * b / (c as int) <= u128::MAX,
    ensures
        r == mul_div_spec(a as int, b as int, c as int),
{
    if c == 0 || a == 0 || b == 0 {
        return 0;
    }
    let (hi, lo) = mul_wide(a, b);
    proof {
        // were hi >= c, the quotient would need more than 128 bits
        if hi >= c {
            lemma_mul_inequality(c as int, hi as int, two_128());
            lemma_div_multiples_vanish(two_128(), c as int);
            lemma_mul_is_commutative(c as int, two_128());
            lemma_div_is_ordered(c as int * two_128(), a * b, c as int);
            assert(false);
        }
    }
    let q = div_wide(hi, lo, c);
    q
}

/// The multiply-divide primitive is symmetric in its two multiplicands:
/// `mul_div(a, b, c)` and `mul_div(b, a, c)` agree on all inputs.
pub proof fn lemma_mul_div_commutative(a: int, b: int, c: int)
    ensures
        mul_div_spec(a, b, c) == mul_div_spec(b, a, c),
{
    lemma_mul_is_commutative(a, b);
}

/// The multiply-divide primitive yields the neutral result `0` whenever any
/// of its three arguments is zero.
pub proof fn lemma_mul_div_zero(a: int, b: int, c: int)
    requires
        a == 0 || b == 0 || c == 0,
    ensures
        mul_div_spec(a, b, c) == 0,
{
}

/// With a positive divisor, the zero-factor cases of `mul_div_spec` agree
/// with the plain quotient, so the result is `(a * b) / c` outright.
pub proof fn lemma_mul_div_spec_pos(a: int, b: int, c: int)
    requires
        0 <= a,
        0 <= b,
        0 < c,
    ensures
        mul_div_spec(a, b, c) == a * b / c,
{
    if a == 0 || b == 0 {
        assert(a * b == 0);
        vstd::arithmetic::div_mod::lemma_div_basics_1(c);
    }
}

/// Floor division is monotone even across different denominators: if
/// `n1 / d1 <= n2 / d2` holds for the exact rationals (cross-multiplied),
/// it holds for the truncated quotients.
pub proof fn lemma_div_frac_le(n1: int, d1: int, n2: int, d2: int)
    requires
        0 <= n1,
        0 < d1,
        0 < d2,
        n1 * d2 <= n2 * d1,
    ensures
        n1 / d1 <= n2 / d2,
{
    let q1 = n1 / d1;
    lemma_fundamental_div_mod(n1, d1);
    assert(q1 * d1 <= n1);
    assert(q1 * d2 <= n2) by (nonlinear_arith)
        requires
            q1 * d1 <= n1 && n1 * d2 <= n2 * d1 && 0 < d1 && 0 < d2 && 0 <= n1 && q1 == n1 / d1
                && n1 == d1 * (n1 / d1) + n1 % d1,
    ;
    lemma_mul_is_commutative(q1, d2);
    lemma_multiply_divide_le(d2 * q1, d2, q1);
    assert(q1 <= n2 / d2) by {
        lemma_div_is_ordered(d2 * q1, n2, d2);
        lemma_div_multiples_vanish(q1, d2);
    }
}

} // verus!
