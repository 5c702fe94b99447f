//! Multi-hop route evaluation and bounded route search.
//!
//! A route is an ordered sequence of pool snapshots with associated fee
//! rates; the running amount out of one hop becomes the input of the next.
//! The search evaluates every single-hop route and every ordered pair of
//! distinct pools (depth two is a deliberate bound), keeping the route with
//! the strictly greatest output; ties go to the earliest candidate found.

use vstd::prelude::*;
use crate::amm::{swap_output_spec, MathematicalEngine, Pool};

verus! {

/// Uniform bound on amounts and reserves under which every intermediate
/// value of a route computation stays within the 128-bit word.
pub const MAX_ROUTE_VALUE: u128 = u128::MAX / 20_000;

/// Output of one pool for the given input amount.
pub open spec fn single_hop_output(pools: Seq<Pool>, fees: Seq<u128>, amount: int, i: int) -> int {
    swap_output_spec(
        amount,
        pools[i].reserve_in as int,
        pools[i].reserve_out as int,
        fees[i] as int,
    )
}

/// Output of pool `j` fed with the output of pool `i`.
pub open spec fn two_hop_output(pools: Seq<Pool>, fees: Seq<u128>, amount: int, i: int, j: int) -> int {
    single_hop_output(pools, fees, single_hop_output(pools, fees, amount, i), j)
}

/// Output of running `amount` through the hops from index `i` on.
pub open spec fn route_eval_from(pools: Seq<Pool>, fees: Seq<u128>, amount: int, i: nat) -> int
    decreases pools.len() - i,
{
    if i >= pools.len() {
        amount
    } else {
        route_eval_from(pools, fees, single_hop_output(pools, fees, amount, i as int), i + 1)
    }
}

/// What `evaluate_route` returns: the final amount after every hop, or zero
/// for an empty route or mismatched fee list.
pub open spec fn route_output_spec(amount: int, pools: Seq<Pool>, fees: Seq<u128>) -> int {
    if pools.len() == 0 || pools.len() != fees.len() {
        0
    } else {
        route_eval_from(pools, fees, amount, 0)
    }
}

/// A zero amount stays zero through any remaining hops: a dry hop
/// short-circuits the whole route.
pub proof fn lemma_route_eval_zero(pools: Seq<Pool>, fees: Seq<u128>, i: nat)
    requires
        i <= pools.len(),
    ensures
        route_eval_from(pools, fees, 0, i) == 0,
    decreases pools.len() - i,
{
    if i < pools.len() {
        lemma_route_eval_zero(pools, fees, i + 1);
    }
}

/// Best route after considering single hops through pools `0 .. i`: the
/// fold that scans candidates in index order and keeps a route only when it
/// is strictly better.
pub open spec fn search_singles(pools: Seq<Pool>, fees: Seq<u128>, amount: int, i: nat) -> (Seq<
    u32,
>, int)
    decreases i,
{
    if i == 0 {
        (Seq::<u32>::empty(), 0int)
    } else {
        let prev = search_singles(pools, fees, amount, (i - 1) as nat);
        let out = single_hop_output(pools, fees, amount, i - 1);
        if out > prev.1 {
            (seq![(i - 1) as u32], out)
        } else {
            prev
        }
    }
}

/// Best route after additionally considering the two-hop routes
/// `(i, 0) .. (i, j-1)`, starting from `state`.
pub open spec fn search_pairs_row(
    pools: Seq<Pool>,
    fees: Seq<u128>,
    amount: int,
    i: int,
    j: nat,
    state: (Seq<u32>, int),
) -> (Seq<u32>, int)
    decreases j,
{
    if j == 0 {
        state
    } else {
        let prev = search_pairs_row(pools, fees, amount, i, (j - 1) as nat, state);
        if i == j - 1 {
            prev
        } else {
            let out = two_hop_output(pools, fees, amount, i, j - 1);
            if out > prev.1 {
                (seq![i as u32, (j - 1) as u32], out)
            } else {
                prev
            }
        }
    }
}

/// Best route after considering all single hops and every two-hop route
/// whose first pool lies in `0 .. i`.
pub open spec fn search_pairs(pools: Seq<Pool>, fees: Seq<u128>, amount: int, i: nat) -> (Seq<
    u32,
>, int)
    decreases i,
{
    if i == 0 {
        search_singles(pools, fees, amount, pools.len())
    } else {
        search_pairs_row(
            pools,
            fees,
            amount,
            i - 1,
            pools.len(),
            search_pairs(pools, fees, amount, (i - 1) as nat),
        )
    }
}

/// What `find_optimal_route` returns: the scan over all single-hop and
/// ordered two-hop candidates, or the empty route for no candidates or a
/// mismatched fee list.
pub open spec fn route_search_spec(amount: int, pools: Seq<Pool>, fees: Seq<u128>) -> (Seq<
    u32,
>, int) {
    if pools.len() == 0 || pools.len() != fees.len() {
        (Seq::<u32>::empty(), 0int)
    } else {
        search_pairs(pools, fees, amount, pools.len())
    }
}

/// Route of a single hop index.
fn route_one(i: u32) -> (v: Vec<u32>)
    ensures
        v@ == seq![i],
{
    let mut v: Vec<u32> = Vec::new();
    v.push(i);
    proof {
        assert(v@ =~= seq![i]);
    }
    v
}

/// Route of two hop indices in order.
fn route_two(i: u32, j: u32) -> (v: Vec<u32>)
    ensures
        v@ == seq![i, j],
{
    let mut v: Vec<u32> = Vec::new();
    v.push(i);
    v.push(j);
    proof {
        assert(v@ =~= seq![i, j]);
    }
    v
}

impl MathematicalEngine {
    /// Run `amount_in` through the pools in order, each hop with its own fee
    /// rate; a dry hop short-circuits the route to zero, and so does an
    /// empty route or a fee list of the wrong length.
    pub fn evaluate_route(&self, amount_in: u128, pools: &Vec<Pool>, fee_rates: &Vec<u128>) -> (r:
        u128)
        requires
            amount_in <= MAX_ROUTE_VALUE,
            forall|i: int|
                0 <= i < pools@.len() ==> #[trigger] pools@[i].reserve_in <= MAX_ROUTE_VALUE
                    && pools@[i].reserve_out <= MAX_ROUTE_VALUE,
            forall|i: int| 0 <= i < fee_rates@.len() ==> #[trigger] fee_rates@[i] <= 10000,
        ensures
            r == route_output_spec(amount_in as int, pools@, fee_rates@),
    {
        if pools.len() == 0 || pools.len() != fee_rates.len() {
            return 0;
        }
        let ghost target = route_eval_from(pools@, fee_rates@, amount_in as int, 0);
        let mut current = amount_in;
        let mut i: usize = 0;
        while i < pools.len()
            invariant_except_break
                i <= pools@.len(),
                pools@.len() == fee_rates@.len(),
                current <= MAX_ROUTE_VALUE,
                route_eval_from(pools@, fee_rates@, current as int, i as nat) == target,
                forall|k: int|
                    0 <= k < pools@.len() ==> #[trigger] pools@[k].reserve_in <= MAX_ROUTE_VALUE
                        && pools@[k].reserve_out <= MAX_ROUTE_VALUE,
                forall|k: int| 0 <= k < fee_rates@.len() ==> #[trigger] fee_rates@[k] <= 10000,
            ensures
                current == target,
            decreases pools@.len() - i,
        {
            let pool = pools[i];
            let fee = fee_rates[i];
            proof {
                assert(current * (10000 - fee) <= u128::MAX && pool.reserve_in * 10000 + current * (
                10000 - fee) <= u128::MAX) by (nonlinear_arith)
                    requires
                        current <= u128::MAX / 20_000 && pool.reserve_in <= u128::MAX / 20_000 && fee
                            <= 10000,
                ;
            }
            let out = self.calculate_swap_output(current, pool.reserve_in, pool.reserve_out, fee);
            current = out;
            if current == 0 {
                proof {
                    lemma_route_eval_zero(pools@, fee_rates@, (i + 1) as nat);
                }
                break ;
            }
            i = i + 1;
        }
        current
    }

    /// Search every single-hop route and every ordered pair of distinct
    /// pools for the greatest final output; ties keep the earliest route
    /// found. Returns the chosen hop indices and that output.
    pub fn find_optimal_route(&self, amount_in: u128, pools: &Vec<Pool>, fee_rates: &Vec<u128>) -> (r: (
        Vec<u32>,
        u128,
    ))
        requires
            amount_in <= MAX_ROUTE_VALUE,
            pools@.len() <= 0xffff_ffff,
            forall|i: int|
                0 <= i < pools@.len() ==> #[trigger] pools@[i].reserve_in <= MAX_ROUTE_VALUE
                    && pools@[i].reserve_out <= MAX_ROUTE_VALUE,
            forall|i: int| 0 <= i < fee_rates@.len() ==> #[trigger] fee_rates@[i] <= 10000,
        ensures
            r.0@ == route_search_spec(amount_in as int, pools@, fee_rates@).0,
            r.1 == route_search_spec(amount_in as int, pools@, fee_rates@).1,
            pools@.len() == fee_rates@.len() ==> forall|i: int|
                0 <= i < pools@.len() ==> #[trigger] single_hop_output(
                    pools@,
                    fee_rates@,
                    amount_in as int,
                    i,
                ) <= r.1,
            pools@.len() == fee_rates@.len() ==> forall|i: int, j: int|
                0 <= i < pools@.len() && 0 <= j < pools@.len() && i != j ==> #[trigger] two_hop_output(
                    pools@,
                    fee_rates@,
                    amount_in as int,
                    i,
                    j,
                ) <= r.1,
    {
        let n = pools.len();
        if n == 0 || n != fee_rates.len() {
            return (Vec::new(), 0);
        }
        let mut best_route: Vec<u32> = Vec::new();
        let mut best_output: u128 = 0;

        // single-hop candidates first
        let mut i: usize = 0;
        while i < n
            invariant
                i <= n,
                n == pools@.len() == fee_rates@.len(),
                n <= 0xffff_ffff,
                amount_in <= MAX_ROUTE_VALUE,
                (best_route@, best_output as int) == search_singles(
                    pools@,
                    fee_rates@,
                    amount_in as int,
                    i as nat,
                ),
                forall|k: int|
                    0 <= k < i ==> #[trigger] single_hop_output(
                        pools@,
                        fee_rates@,
                        amount_in as int,
                        k,
                    ) <= best_output,
                forall|k: int|
                    0 <= k < pools@.len() ==> #[trigger] pools@[k].reserve_in <= MAX_ROUTE_VALUE
                        && pools@[k].reserve_out <= MAX_ROUTE_VALUE,
                forall|k: int| 0 <= k < fee_rates@.len() ==> #[trigger] fee_rates@[k] <= 10000,
            decreases n - i,
        {
            let pool = pools[i];
            let fee = fee_rates[i];
            proof {
                assert(amount_in * (10000 - fee) <= u128::MAX && pool.reserve_in * 10000 + amount_in
                    * (10000 - fee) <= u128::MAX) by (nonlinear_arith)
                    requires
                        amount_in <= u128::MAX / 20_000 && pool.reserve_in <= u128::MAX / 20_000
                            && fee <= 10000,
                ;
            }
            let out = self.calculate_swap_output(amount_in, pool.reserve_in, pool.reserve_out, fee);
            if out > best_output {
                best_output = out;
                best_route = route_one(i as u32);
            }
            i = i + 1;
        }

        // then every ordered pair of distinct pools
        let ghost after_singles = (best_route@, best_output as int);
        let mut oi: usize = 0;
        while oi < n
            invariant
                oi <= n,
                n == pools@.len() == fee_rates@.len(),
                n <= 0xffff_ffff,
                amount_in <= MAX_ROUTE_VALUE,
                (best_route@, best_output as int) == search_pairs(
                    pools@,
                    fee_rates@,
                    amount_in as int,
                    oi as nat,
                ),
                forall|k: int|
                    0 <= k < pools@.len() ==> #[trigger] single_hop_output(
                        pools@,
                        fee_rates@,
                        amount_in as int,
                        k,
                    ) <= best_output,
                forall|a: int, b: int|
                    0 <= a < oi && 0 <= b < pools@.len() && a != b ==> #[trigger] two_hop_output(
                        pools@,
                        fee_rates@,
                        amount_in as int,
                        a,
                        b,
                    ) <= best_output,
                forall|k: int|
                    0 <= k < pools@.len() ==> #[trigger] pools@[k].reserve_in <= MAX_ROUTE_VALUE
                        && pools@[k].reserve_out <= MAX_ROUTE_VALUE,
                forall|k: int| 0 <= k < fee_rates@.len() ==> #[trigger] fee_rates@[k] <= 10000,
            decreases n - oi,
        {
            let mut oj: usize = 0;
            while oj < n
                invariant
                    oi < n,
                    oj <= n,
                    n == pools@.len() == fee_rates@.len(),
                    n <= 0xffff_ffff,
                    amount_in <= MAX_ROUTE_VALUE,
                    (best_route@, best_output as int) == search_pairs_row(
                        pools@,
                        fee_rates@,
                        amount_in as int,
                        oi as int,
                        oj as nat,
                        search_pairs(pools@, fee_rates@, amount_in as int, oi as nat),
                    ),
                    forall|k: int|
                        0 <= k < pools@.len() ==> #[trigger] single_hop_output(
                            pools@,
                            fee_rates@,
                            amount_in as int,
                            k,
                        ) <= best_output,
                    forall|a: int, b: int|
                        0 <= a < oi && 0 <= b < pools@.len() && a != b ==> #[trigger] two_hop_output(
                            pools@,
                            fee_rates@,
                            amount_in as int,
                            a,
                            b,
                        ) <= best_output,
                    forall|b: int|
                        0 <= b < oj && oi != b ==> #[trigger] two_hop_output(
                            pools@,
                            fee_rates@,
                            amount_in as int,
                            oi as int,
                            b,
                        ) <= best_output,
                    forall|k: int|
                        0 <= k < pools@.len() ==> #[trigger] pools@[k].reserve_in <= MAX_ROUTE_VALUE
                            && pools@[k].reserve_out <= MAX_ROUTE_VALUE,
                    forall|k: int| 0 <= k < fee_rates@.len() ==> #[trigger] fee_rates@[k] <= 10000,
                decreases n - oj,
            {
                if oi != oj {
                    let pool_a = pools[oi];
                    let fee_a = fee_rates[oi];
                    proof {
                        assert(amount_in * (10000 - fee_a) <= u128::MAX && pool_a.reserve_in * 10000
                            + amount_in * (10000 - fee_a) <= u128::MAX) by (nonlinear_arith)
                            requires
                                amount_in <= u128::MAX / 20_000 && pool_a.reserve_in <= u128::MAX
                                    / 20_000 && fee_a <= 10000,
                        ;
                    }
                    let intermediate = self.calculate_swap_output(
                        amount_in,
                        pool_a.reserve_in,
                        pool_a.reserve_out,
                        fee_a,
                    );
                    let pool_b = pools[oj];
                    let fee_b = fee_rates[oj];
                    proof {
                        assert(intermediate == 0 || intermediate < pool_a.reserve_out);
                        assert(intermediate * (10000 - fee_b) <= u128::MAX && pool_b.reserve_in
                            * 10000 + intermediate * (10000 - fee_b) <= u128::MAX)
                            by (nonlinear_arith)
                            requires
                                intermediate <= u128::MAX / 20_000 && pool_b.reserve_in <= u128::MAX
                                    / 20_000 && fee_b <= 10000,
                        ;
                    }
                    let final_output = self.calculate_swap_output(
                        intermediate,
                        pool_b.reserve_in,
                        pool_b.reserve_out,
                        fee_b,
                    );
                    if final_output > best_output {
                        best_output = final_output;
                        best_route = route_two(oi as u32, oj as u32);
                    }
                }
                oj = oj + 1;
            }
            oi = oi + 1;
        }
        (best_route, best_output)
    }
}

} // verus!
