use crate::weighted_choice::lemma_prefix_sum_monotone;
use crate::weighted_choice::prefix_sum;
use vstd::prelude::*;

verus! {

/// Sum of all occurrence counts of a bucket sequence.
pub open spec fn total_of(s: Seq<u64>) -> int {
    prefix_sum(s, s.len() as int)
}

/// Sum of `index * occurrences` over the first `n` buckets: the total
/// number of rolls spent by the observations they record.
pub open spec fn weighted_sum(s: Seq<u64>, n: int) -> int
    decreases n,
{
    if n <= 0 {
        0
    } else {
        weighted_sum(s, n - 1) + (n - 1) * s[n - 1]
    }
}

/// The bucket sequence after one observation of `rolls` is recorded:
/// buckets grow with zeros as needed, then the bucket for `rolls` is
/// incremented.
pub open spec fn recorded(s: Seq<u64>, rolls: int) -> Seq<u64> {
    let padded = if rolls < s.len() {
        s
    } else {
        s + Seq::new((rolls + 1 - s.len()) as nat, |i: int| 0u64)
    };
    padded.update(rolls, ((padded[rolls] + 1) as u64))
}

/// Two sequences agreeing on their first `n` entries have equal prefix
/// sums there.
proof fn lemma_prefix_sum_congruent(s: Seq<u64>, t: Seq<u64>, n: int)
    requires
        n <= s.len(),
        n <= t.len(),
        forall|j: int| 0 <= j < n ==> s[j] == t[j],
    ensures
        prefix_sum(s, n) == prefix_sum(t, n),
    decreases n,
{
    if n > 0 {
        lemma_prefix_sum_congruent(s, t, n - 1);
    }
}

/// Zero entries contribute nothing to a prefix sum.
proof fn lemma_prefix_sum_zero_ext(t: Seq<u64>, a: int, b: int)
    requires
        0 <= a <= b <= t.len(),
        forall|j: int| a <= j < b ==> t[j] == 0,
    ensures
        prefix_sum(t, b) == prefix_sum(t, a),
    decreases b,
{
    if a < b {
        lemma_prefix_sum_zero_ext(t, a, b - 1);
    }
}

/// Updating one entry shifts a covering prefix sum by the difference.
proof fn lemma_prefix_sum_update(s: Seq<u64>, i: int, v: u64, n: int)
    requires
        0 <= i < n <= s.len(),
    ensures
        prefix_sum(s.update(i, v), n) == prefix_sum(s, n) - s[i] + v,
    decreases n,
{
    if i < n - 1 {
        lemma_prefix_sum_update(s, i, v, n - 1);
    } else {
        lemma_prefix_sum_congruent(s.update(i, v), s, n - 1);
    }
}

/// No bucket exceeds the total occurrence count.
proof fn lemma_bucket_le_total(s: Seq<u64>, i: int)
    requires
        0 <= i < s.len(),
    ensures
        s[i] <= total_of(s),
    decreases s.len(),
{
    lemma_prefix_sum_monotone(s, 0, i);
    lemma_prefix_sum_monotone(s, i + 1, s.len() as int);
}

/// Recording one observation raises the total by exactly one.
pub proof fn lemma_recorded_total(s: Seq<u64>, rolls: int)
    requires
        0 <= rolls,
        total_of(s) < u64::MAX,
    ensures
        total_of(recorded(s, rolls)) == total_of(s) + 1,
        recorded(s, rolls).len() == if rolls < s.len() {
            s.len() as int
        } else {
            rolls + 1
        },
{
    let padded = if rolls < s.len() {
        s
    } else {
        s + Seq::new((rolls + 1 - s.len()) as nat, |i: int| 0u64)
    };
    if rolls >= s.len() {
        lemma_prefix_sum_congruent(s, padded, s.len() as int);
        lemma_prefix_sum_zero_ext(padded, s.len() as int, padded.len() as int);
    }
    assert(total_of(padded) == total_of(s));
    lemma_bucket_le_total(padded, rolls);
    assert(padded[rolls] + 1 <= u64::MAX);
    lemma_prefix_sum_update(padded, rolls, ((padded[rolls] + 1) as u64), padded.len() as int);
}

/// The bucket sequence after a whole series of observations is
/// recorded in order.
pub open spec fn recorded_all(s: Seq<u64>, obs: Seq<usize>) -> Seq<u64>
    decreases obs.len(),
{
    if obs.len() == 0 {
        s
    } else {
        recorded_all(recorded(s, obs[0] as int), obs.drop_first())
    }
}

/// Histogram conservation: recording a series of N observations into
/// any starting state raises the sum of all bucket occurrence counts
/// by exactly N (as long as the counter can still hold the total), so
/// a histogram filled from empty sums to exactly the number of
/// recorded trials.
pub proof fn lemma_histogram_conservation(s: Seq<u64>, obs: Seq<usize>)
    requires
        total_of(s) + obs.len() <= u64::MAX,
    ensures
        total_of(recorded_all(s, obs)) == total_of(s) + obs.len(),
    decreases obs.len(),
{
    if obs.len() > 0 {
        lemma_recorded_total(s, obs[0] as int);
        lemma_histogram_conservation(recorded(s, obs[0] as int), obs.drop_first());
    }
}

/// Growable counter of completed trials, indexed by roll count: bucket
/// `n` holds how many recorded trials took exactly `n` rolls.
pub struct ResultHistogram {
    buckets: Vec<u64>,
    count: u64,
}

impl View for ResultHistogram {
    type V = Seq<u64>;

    closed spec fn view(&self) -> Seq<u64> {
        self.buckets@
    }
}

impl ResultHistogram {
    /// Internal consistency: the cached observation count equals the
    /// sum of the buckets.
    pub closed spec fn inv(self) -> bool {
        self.count == total_of(self.buckets@)
    }

    /// Total number of observations recorded.
    pub open spec fn total(self) -> int {
        total_of(self@)
    }

    /// An empty histogram.
    pub fn new() -> (r: ResultHistogram)
        ensures
            r.inv(),
            r@.len() == 0,
            r.total() == 0,
    {
        ResultHistogram { buckets: Vec::new(), count: 0 }
    }

    /// Discard every recorded observation.
    pub fn clear(&mut self)
        ensures
            final(self).inv(),
            final(self)@.len() == 0,
            final(self).total() == 0,
    {
        self.buckets = Vec::new();
        self.count = 0;
    }

    /// Number of observations recorded so far.
    pub fn count(&self) -> (r: u64)
        requires
            self.inv(),
        ensures
            r == self.total(),
    {
        self.count
    }

    /// Record one completed trial that took `rolls` rolls, growing the
    /// bucket table as needed. The total rises by exactly one.
    pub fn record(&mut self, rolls: usize)
        requires
            old(self).inv(),
            old(self).total() < u64::MAX,
        ensures
            final(self).inv(),
            final(self)@ == recorded(old(self)@, rolls as int),
            final(self).total() == old(self).total() + 1,
    {
        let ghost orig = self.buckets@;
        while self.buckets.len() <= rolls
            invariant
                orig.len() <= self.buckets@.len(),
                forall|j: int| 0 <= j < orig.len() ==> self.buckets@[j] == orig[j],
                forall|j: int| orig.len() <= j < self.buckets@.len() ==> self.buckets@[j] == 0,
                self.count == old(self).count,
                orig.len() <= rolls + 1 ==> self.buckets@.len() <= rolls + 1,
                orig.len() > rolls ==> self.buckets@.len() == orig.len(),
            decreases rolls + 1 - self.buckets@.len(),
        {
            self.buckets.push(0);
        }
        proof {
            let padded = if (rolls as int) < orig.len() {
                orig
            } else {
                orig + Seq::new((rolls + 1 - orig.len()) as nat, |i: int| 0u64)
            };
            assert(self.buckets@ =~= padded);
            lemma_recorded_total(orig, rolls as int);
            lemma_bucket_le_total(self.buckets@, rolls as int);
            lemma_prefix_sum_congruent(orig, padded, orig.len() as int);
            if rolls >= orig.len() {
                lemma_prefix_sum_zero_ext(padded, orig.len() as int, padded.len() as int);
            }
        }
        let v = self.buckets[rolls];
        self.buckets.set(rolls, v + 1);
        self.count = self.count + 1;
        proof {
            assert(self.buckets@ =~= recorded(orig, rolls as int));
        }
    }

    /// The buckets as `(roll_count, occurrences)` pairs in increasing
    /// roll-count order.
    pub fn raw_buckets(&self) -> (r: Vec<(usize, u64)>)
        ensures
            r@.len() == self@.len(),
            forall|i: int| 0 <= i < r@.len() ==> #[trigger] r@[i] == (i as usize, self@[i]),
    {
        let n = self.buckets.len();
        let mut out: Vec<(usize, u64)> = Vec::new();
        let mut i: usize = 0;
        while i < n
            invariant
                i <= n,
                n == self.buckets@.len(),
                out@.len() == i,
                forall|j: int| 0 <= j < i ==> #[trigger] out@[j] == (j as usize, self.buckets@[j]),
            decreases n - i,
        {
            out.push((i, self.buckets[i]));
            i = i + 1;
        }
        out
    }
}

/// Summary statistics of a histogram, computed on demand. The mean is
/// `total_rolls / count` (the fields keep it exact).
pub struct Summary {
    /// Number of observations.
    pub count: u64,
    /// Sum of the roll counts of all observations.
    pub total_rolls: u128,
    /// 50th percentile roll count.
    pub median: usize,
    /// 90th percentile roll count.
    pub p90: usize,
}

/// The weighted sum of a bucket prefix is bounded by the prefix length
/// times the occurrence total.
proof fn lemma_weighted_le(s: Seq<u64>, n: int)
    requires
        0 <= n <= s.len(),
    ensures
        0 <= weighted_sum(s, n) <= n * prefix_sum(s, n),
    decreases n,
{
    if n > 0 {
        lemma_weighted_le(s, n - 1);
        lemma_prefix_sum_monotone(s, n - 1, n);
        lemma_prefix_sum_monotone(s, 0, n);
        assert(prefix_sum(s, 0) == 0);
        assert((n - 1) * prefix_sum(s, n - 1) + (n - 1) * s[n - 1] == (n - 1) * prefix_sum(s, n))
            by (nonlinear_arith)
            requires
                prefix_sum(s, n) == prefix_sum(s, n - 1) + s[n - 1],
        ;
        assert((n - 1) * prefix_sum(s, n) <= n * prefix_sum(s, n)) by (nonlinear_arith)
            requires
                prefix_sum(s, n) >= 0,
        ;
        assert(0 <= (n - 1) * s[n - 1]) by (nonlinear_arith)
            requires
                n >= 1,
                s[n - 1] >= 0,
        ;
    }
}

impl ResultHistogram {
    /// Smallest roll count whose cumulative occurrences reach `pct`
    /// percent of all observations.
    pub fn percentile(&self, pct: u8) -> (r: usize)
        requires
            self.inv(),
            self.total() > 0,
            pct <= 100,
        ensures
            r < self@.len(),
            prefix_sum(self@, r + 1) * 100 >= pct * self.total(),
            forall|m: int| 0 <= m < r ==> #[trigger] prefix_sum(self@, m + 1) * 100 < pct * self.total(),
    {
        let total = self.count;
        let n = self.buckets.len();
        let mut cum: u64 = 0;
        let mut i: usize = 0;
        loop
            invariant
                i < n,
                n == self.buckets@.len(),
                self.inv(),
                self.total() > 0,
                total == self.total(),
                pct <= 100,
                cum == prefix_sum(self.buckets@, i as int),
                forall|m: int|
                    0 <= m < i ==> #[trigger] prefix_sum(self.buckets@, m + 1) * 100 < pct * self.total(),
            ensures
                i < n,
                prefix_sum(self.buckets@, i as int + 1) * 100 >= pct * self.total(),
                forall|m: int|
                    0 <= m < i ==> #[trigger] prefix_sum(self.buckets@, m + 1) * 100 < pct * self.total(),
            decreases n - i,
        {
            proof {
                lemma_prefix_sum_monotone(self.buckets@, i as int + 1, n as int);
                lemma_prefix_sum_monotone(self.buckets@, 0, i as int + 1);
            }
            let next = cum + self.buckets[i];
            proof {
                assert((pct as int) * (total as int) <= 100 * 0xFFFF_FFFF_FFFF_FFFF)
                    by (nonlinear_arith)
                    requires
                        pct <= 100,
                        total <= 0xFFFF_FFFF_FFFF_FFFF,
                        total >= 0,
                ;
            }
            if (next as u128) * 100 >= (pct as u128) * (total as u128) {
                break ;
            }
            proof {
                if i + 1 == n {
                    assert(next == self.total());
                    assert(next * 100 >= pct * self.total()) by (nonlinear_arith)
                        requires
                            next == self.total(),
                            pct <= 100,
                            self.total() > 0,
                    ;
                    assert(false);
                }
            }
            cum = next;
            i = i + 1;
        }
        i
    }

    /// Sum of the roll counts of every recorded observation.
    pub fn total_rolls(&self) -> (r: u128)
        requires
            self.inv(),
        ensures
            r == weighted_sum(self@, self@.len() as int),
    {
        let n = self.buckets.len();
        let mut acc: u128 = 0;
        let mut i: usize = 0;
        while i < n
            invariant
                i <= n,
                n == self.buckets@.len(),
                self.inv(),
                acc == weighted_sum(self.buckets@, i as int),
                0 <= acc,
            decreases n - i,
        {
            proof {
                lemma_weighted_le(self.buckets@, i as int + 1);
                lemma_prefix_sum_monotone(self.buckets@, i as int + 1, n as int);
                lemma_prefix_sum_monotone(self.buckets@, 0, i as int + 1);
                assert(prefix_sum(self.buckets@, 0) == 0);
                lemma_bucket_le_total(self.buckets@, i as int);
                assert((i as int + 1) * prefix_sum(self.buckets@, i as int + 1) < 0x10000000000000000
                    * 0x10000000000000000) by (nonlinear_arith)
                    requires
                        0 <= i as int + 1 < 0x10000000000000000,
                        0 <= prefix_sum(self.buckets@, i as int + 1) < 0x10000000000000000,
                ;
            }
            acc = acc + (i as u128) * (self.buckets[i] as u128);
            i = i + 1;
        }
        acc
    }

    /// Summary of the recorded distribution: observation count, total
    /// rolls, and the 50th and 90th percentile roll counts. `None`
    /// exactly when nothing has been recorded.
    pub fn summary(&self) -> (r: Option<Summary>)
        requires
            self.inv(),
        ensures
            (r is None) <==> self.total() == 0,
            r matches Some(su) ==> {
                &&& su.count == self.total()
                &&& su.total_rolls == weighted_sum(self@, self@.len() as int)
                &&& su.median < self@.len()
                &&& prefix_sum(self@, su.median + 1) * 100 >= 50 * self.total()
                &&& su.p90 < self@.len()
                &&& prefix_sum(self@, su.p90 + 1) * 100 >= 90 * self.total()
            },
    {
        let count = self.count;
        if count == 0 {
            return None;
        }
        let total_rolls = self.total_rolls();
        let median = self.percentile(50);
        let p90 = self.percentile(90);
        Some(Summary { count: count, total_rolls: total_rolls, median: median, p90: p90 })
    }
}

} // verus!
