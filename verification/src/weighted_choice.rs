use crate::rng::lcg_next;
use crate::rng::lcg_output;
use crate::rng::Rng;
use vstd::prelude::*;

verus! {

/// Sum of the first `n` weights of `ws`.
pub open spec fn prefix_sum(ws: Seq<u64>, n: int) -> int
    decreases n,
{
    if n <= 0 {
        0
    } else {
        prefix_sum(ws, n - 1) + ws[n - 1]
    }
}

/// Total weight of an outcome set.
pub open spec fn total_weight(ws: Seq<u64>) -> int {
    prefix_sum(ws, ws.len() as int)
}

/// Prefix sums of non-negative weights never decrease.
pub proof fn lemma_prefix_sum_monotone(ws: Seq<u64>, a: int, b: int)
    requires
        0 <= a <= b <= ws.len(),
    ensures
        prefix_sum(ws, a) <= prefix_sum(ws, b),
    decreases b,
{
    if a < b {
        lemma_prefix_sum_monotone(ws, a, b - 1);
    }
}

/// Select the outcome whose cumulative weight interval contains `r`, by
/// a linear scan of the cumulative weights.
pub fn weighted_choice(ws: &Vec<u64>, r: u64) -> (idx: usize)
    requires
        r < total_weight(ws@),
        total_weight(ws@) <= u64::MAX,
    ensures
        idx < ws@.len(),
        prefix_sum(ws@, idx as int) <= r < prefix_sum(ws@, idx as int + 1),
        ws@[idx as int] > 0,
{
    let n = ws.len();
    let mut acc: u64 = 0;
    let mut i: usize = 0;
    loop
        invariant
            i <= n,
            n == ws@.len(),
            acc == prefix_sum(ws@, i as int),
            acc <= r,
            r < total_weight(ws@),
            total_weight(ws@) <= u64::MAX,
        ensures
            i < n,
            prefix_sum(ws@, i as int) <= r < prefix_sum(ws@, i as int + 1),
        decreases n - i,
    {
        proof {
            if i == n {
                assert(false);
            }
            lemma_prefix_sum_monotone(ws@, i as int + 1, n as int);
        }
        let w = ws[i];
        let next = acc + w;
        if r < next {
            proof {
                lemma_prefix_sum_monotone(ws@, 0, i as int);
            }
            break ;
        }
        acc = next;
        i = i + 1;
    }
    proof {
        if ws@[i as int] == 0 {
            assert(false);
        }
    }
    i
}

/// Draw one outcome with probability proportional to its weight, using
/// one draw of the uniform source. Fails, consuming nothing, exactly
/// when the total weight is zero (which includes an empty outcome set).
pub fn sample(ws: &Vec<u64>, rng: &mut Rng) -> (o: Option<usize>)
    requires
        total_weight(ws@) <= u64::MAX,
    ensures
        (o is None) <==> total_weight(ws@) == 0,
        o is None ==> *final(rng) == *old(rng),
        o matches Some(idx) ==> {
            let r = lcg_output(old(rng).state) % total_weight(ws@) as u64;
            &&& final(rng).state == lcg_next(old(rng).state)
            &&& idx < ws@.len()
            &&& prefix_sum(ws@, idx as int) <= r < prefix_sum(ws@, idx as int + 1)
            &&& ws@[idx as int] > 0
        },
{
    let n = ws.len();
    let mut total: u64 = 0;
    let mut i: usize = 0;
    while i < n
        invariant
            i <= n,
            n == ws@.len(),
            total == prefix_sum(ws@, i as int),
            total_weight(ws@) <= u64::MAX,
        decreases n - i,
    {
        proof {
            lemma_prefix_sum_monotone(ws@, i as int + 1, n as int);
        }
        total = total + ws[i];
        i = i + 1;
    }
    if total == 0 {
        None
    } else {
        let r = rng.next_below(total);
        Some(weighted_choice(ws, r))
    }
}

} // verus!
