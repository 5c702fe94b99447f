//! Volatility statistics over a price history.
//!
//! The volatility of a price window is the annualized standard deviation of
//! the logarithmic returns between consecutive prices, all in `SCALE_18`
//! fixed point: each return is `ln(p[i] / p[i-1])`, the variance is the mean
//! squared deviation from the mean return (over `n - 1`, the sample
//! convention), and the result is `sqrt(365 * variance)`, rescaled to a
//! whole-percent figure. A window with fewer than two usable returns has no
//! sample variance and yields the neutral result `0`.

use vstd::prelude::*;
use vstd::arithmetic::div_mod::{
    lemma_div_nonincreasing, lemma_multiply_divide_le,
};
use crate::amm::MathematicalEngine;
use crate::ln::{ln_fixed, ln_spec};
use crate::muldiv::{lemma_mul_div_spec_pos, mul_div, mul_div_spec};
use crate::sqrt::{isqrt_spec, lemma_isqrt_spec_is_sqrt, lemma_isqrt_unique, sqrt_fixed};
use crate::SCALE_18;

verus! {

/// The logarithmic returns over `prices[0 .. i]`: one entry for each
/// consecutive pair whose earlier price is positive.
pub open spec fn vol_returns(prices: Seq<u128>, i: nat) -> Seq<int>
    decreases i,
{
    if i <= 1 {
        Seq::<int>::empty()
    } else {
        let prev = vol_returns(prices, (i - 1) as nat);
        if prices[i - 2] > 0 {
            prev.push(ln_spec(prices[i - 1] * SCALE_18 / (prices[i - 2] as int)))
        } else {
            prev
        }
    }
}

/// Sum of a sequence of integers.
pub open spec fn seq_sum(s: Seq<int>) -> int
    decreases s.len(),
{
    if s.len() == 0 {
        0
    } else {
        seq_sum(s.drop_last()) + s.last()
    }
}

/// Sum of the squared deviations from `mean`, each rescaled by `SCALE_18`.
pub open spec fn sq_dev_sum(s: Seq<int>, mean: int) -> int
    decreases s.len(),
{
    if s.len() == 0 {
        0
    } else {
        let d = if s.last() >= mean {
            s.last() - mean
        } else {
            mean - s.last()
        };
        sq_dev_sum(s.drop_last(), mean) + d * d / SCALE_18 as int
    }
}

/// What `calculate_volatility` yields for a price history and window.
pub open spec fn volatility_spec(prices: Seq<u128>, window: nat) -> int {
    if prices.len() < window || window < 2 {
        0
    } else {
        let log_returns = vol_returns(prices, window);
        if log_returns.len() < 2 {
            0
        } else {
            let mean = seq_sum(log_returns) / log_returns.len() as int;
            let variance = sq_dev_sum(log_returns, mean) / (log_returns.len() - 1);
            let root = isqrt_spec((variance * 365) as nat) as int;
            mul_div_spec(root * 1_000_000_000, 100, SCALE_18 as int)
        }
    }
}

impl MathematicalEngine {
    /// Annualized volatility of the first `window` prices, as a whole-percent
    /// figure; zero when the window is too short for a sample variance.
    pub fn calculate_volatility(&self, price_history: &Vec<u128>, window: usize) -> (r: u128)
        requires
            window <= 1_000_000_000,
            forall|i: int|
                #![trigger price_history@[i]]
                1 <= i < window && price_history@[i - 1] > 0 ==> price_history@[i] * SCALE_18 / (
                price_history@[i - 1] as int) <= u128::MAX,
        ensures
            r == volatility_spec(price_history@, window as nat),
    {
        if price_history.len() < window || window < 2 {
            return 0;
        }
        // logarithmic returns between consecutive prices
        let mut log_returns: Vec<u128> = Vec::new();
        let mut i: usize = 1;
        while i < window
            invariant
                1 <= i <= window,
                window <= price_history@.len(),
                window <= 1_000_000_000,
                log_returns@.len() == vol_returns(price_history@, i as nat).len(),
                log_returns@.len() < i,
                forall|k: int|
                    0 <= k < log_returns@.len() ==> #[trigger] log_returns@[k] == vol_returns(
                        price_history@,
                        i as nat,
                    )[k],
                forall|k: int|
                    0 <= k < log_returns@.len() ==> #[trigger] log_returns@[k]
                        < 100_000_000_000_000_000_000,
                forall|k: int|
                    #![trigger price_history@[k]]
                    1 <= k < window && price_history@[k - 1] > 0 ==> price_history@[k] * SCALE_18
                        / (price_history@[k - 1] as int) <= u128::MAX,
            decreases window - i,
        {
            let previous = price_history[i - 1];
            let current = price_history[i];
            if previous > 0 {
                proof {
                    lemma_mul_div_spec_pos(current as int, SCALE_18 as int, previous as int);
                }
                let ratio = mul_div(current, SCALE_18, previous);
                let log_return = ln_fixed(ratio);
                log_returns.push(log_return);
            }
            i = i + 1;
        }
        let ghost rseq = vol_returns(price_history@, window as nat);
        if log_returns.len() < 2 {
            // fewer than two usable returns: no sample variance to take
            return 0;
        }
        let count = log_returns.len();

        // mean of the returns
        let mut sum: u128 = 0;
        let mut j: usize = 0;
        while j < count
            invariant
                j <= count,
                count == log_returns@.len(),
                count == rseq.len(),
                count <= 1_000_000_000,
                forall|k: int| 0 <= k < count ==> #[trigger] log_returns@[k] == rseq[k],
                forall|k: int|
                    0 <= k < count ==> #[trigger] log_returns@[k] < 100_000_000_000_000_000_000,
                sum == seq_sum(rseq.take(j as int)),
                sum <= j * 100_000_000_000_000_000_000,
            decreases count - j,
        {
            proof {
                assert(rseq.take(j + 1).drop_last() =~= rseq.take(j as int));
                assert(rseq.take(j + 1).last() == rseq[j as int]);
            }
            sum = sum + log_returns[j];
            j = j + 1;
        }
        proof {
            assert(rseq.take(count as int) =~= rseq);
        }
        let mean = sum / (count as u128);
        proof {
            lemma_multiply_divide_le(sum as int, count as int, 100_000_000_000_000_000_000);
        }

        // sample variance of the returns
        let mut dev_sum: u128 = 0;
        let mut j2: usize = 0;
        while j2 < count
            invariant
                j2 <= count,
                count == log_returns@.len(),
                count == rseq.len(),
                count <= 1_000_000_000,
                mean <= 100_000_000_000_000_000_000,
                forall|k: int| 0 <= k < count ==> #[trigger] log_returns@[k] == rseq[k],
                forall|k: int|
                    0 <= k < count ==> #[trigger] log_returns@[k] < 100_000_000_000_000_000_000,
                dev_sum == sq_dev_sum(rseq.take(j2 as int), mean as int),
                dev_sum <= j2 * 10_000_000_000_000_000_000_000,
            decreases count - j2,
        {
            let ret = log_returns[j2];
            let diff = if ret >= mean {
                ret - mean
            } else {
                mean - ret
            };
            proof {
                assert(diff * diff <= 10_000_000_000_000_000_000_000_000_000_000_000_000_000)
                    by (nonlinear_arith)
                    requires
                        0 <= diff <= 100_000_000_000_000_000_000,
                ;
                lemma_multiply_divide_le(
                    diff * diff,
                    SCALE_18 as int,
                    10_000_000_000_000_000_000_000,
                );
                lemma_div_nonincreasing(diff * diff, SCALE_18 as int);
                lemma_mul_div_spec_pos(diff as int, diff as int, SCALE_18 as int);
                assert(rseq.take(j2 + 1).drop_last() =~= rseq.take(j2 as int));
                assert(rseq.take(j2 + 1).last() == rseq[j2 as int]);
            }
            let sq = mul_div(diff, diff, SCALE_18);
            dev_sum = dev_sum + sq;
            j2 = j2 + 1;
        }
        proof {
            assert(rseq.take(count as int) =~= rseq);
        }
        let variance = dev_sum / (count as u128 - 1);
        proof {
            lemma_div_nonincreasing(dev_sum as int, count as int - 1);
        }

        // annualize (daily data) and rescale the root back to SCALE_18
        let annualized = variance * 365;
        let root = sqrt_fixed(annualized);
        proof {
            lemma_isqrt_spec_is_sqrt(annualized as nat);
            lemma_isqrt_unique(annualized as int, root as int, isqrt_spec(annualized as nat) as int);
            assert(root <= 100_000_000_000_000_000) by (nonlinear_arith)
                requires
                    root * root <= annualized && annualized
                        <= 3_650_000_000_000_000_000_000_000_000_000_000 && 0 <= root,
            ;
            lemma_div_nonincreasing(root * 1_000_000_000 * 100, SCALE_18 as int);
        }
        mul_div(root * 1_000_000_000, 100, SCALE_18)
    }
}

} // verus!
