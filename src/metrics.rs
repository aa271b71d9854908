//! Run metrics: operation and error counts, and a latency histogram with
//! one-millisecond buckets from which the mean and percentiles are read.
use vstd::prelude::*;

verus! {

/// Number of one-millisecond latency buckets; the last one also holds every
/// slower operation.
pub const LATENCY_BUCKETS: usize = 60000;

/// Sum of a sequence of counters.
pub open spec fn sum_of(s: Seq<u64>) -> int
    decreases s.len(),
{
    if s.len() == 0 {
        0
    } else {
        sum_of(s.drop_last()) + s.last()
    }
}

/// Bucket that records a latency of `ms` milliseconds.
pub open spec fn bucket_of(ms: int) -> int {
    if ms < LATENCY_BUCKETS {
        ms
    } else {
        LATENCY_BUCKETS - 1
    }
}

/// Nearest rank of the `per_mille` percentile among `n` observations:
/// `ceil(n * per_mille / 1000)`.
pub open spec fn rank_of(n: int, per_mille: int) -> int {
    (n * per_mille + 999) / 1000
}

/// `b` is the first bucket at which the running count of observations
/// reaches `rank`.
pub open spec fn is_rank_bucket(h: Seq<u64>, rank: int, b: int) -> bool {
    &&& 0 <= b < h.len()
    &&& sum_of(h.take(b + 1)) >= rank
    &&& sum_of(h.take(b)) < rank
}

pub struct RunMetrics {
    requests: u64,
    errors: u64,
    latency_total_ms: u128,
    buckets: Vec<u64>,
}

proof fn lemma_sum_increment(s: Seq<u64>, i: int)
    requires
        0 <= i < s.len(),
        s[i] < u64::MAX,
    ensures
        sum_of(s.update(i, (s[i] + 1) as u64)) == sum_of(s) + 1,
    decreases s.len(),
{
    let t = s.update(i, (s[i] + 1) as u64);
    if i == s.len() - 1 {
        assert(t.drop_last() =~= s.drop_last());
    } else {
        assert(t.drop_last() =~= s.drop_last().update(i, (s[i] + 1) as u64));
        lemma_sum_increment(s.drop_last(), i);
    }
}

proof fn lemma_sum_bounds(s: Seq<u64>, k: int)
    requires
        0 <= k <= s.len(),
    ensures
        0 <= sum_of(s.take(k)) <= sum_of(s),
        s[k - 1] <= sum_of(s) || k == 0,
    decreases s.len(),
{
    if s.len() > 0 {
        if k == s.len() {
            assert(s.take(k) =~= s);
            lemma_sum_bounds(s.drop_last(), k - 1);
            assert(s.drop_last().take(k - 1) =~= s.take(k - 1));
        } else {
            lemma_sum_bounds(s.drop_last(), k);
            assert(s.drop_last().take(k) =~= s.take(k));
        }
    }
}

proof fn lemma_zeros(n: int)
    requires
        n >= 0,
    ensures
        sum_of(Seq::new(n as nat, |i: int| 0u64)) == 0,
    decreases n,
{
    if n > 0 {
        assert(Seq::new(n as nat, |i: int| 0u64).drop_last() =~= Seq::new(
            (n - 1) as nat,
            |i: int| 0u64,
        ));
        lemma_zeros(n - 1);
    }
}

/// What a `RunMetrics` holds, as numbers.
pub ghost struct MetricsView {
    pub requests: nat,
    pub errors: nat,
    /// Sum of all recorded latencies, in milliseconds.
    pub latency_total: nat,
    /// Count of recorded operations per latency bucket.
    pub histogram: Seq<u64>,
}

impl View for RunMetrics {
    type V = MetricsView;

    closed spec fn view(&self) -> MetricsView {
        MetricsView {
            requests: self.requests as nat,
            errors: self.errors as nat,
            latency_total: self.latency_total_ms as nat,
            histogram: self.buckets@,
        }
    }
}

impl RunMetrics {
    pub closed spec fn wf(&self) -> bool {
        &&& self.buckets@.len() == LATENCY_BUCKETS
        &&& sum_of(self.buckets@) == self.requests
        &&& self.errors <= self.requests
        &&& self.latency_total_ms <= self.requests * 0xffff_ffff_ffff_ffffu64
    }

    pub fn new() -> (r: RunMetrics)
        ensures
            r.wf(),
            r@.requests == 0,
            r@.errors == 0,
            r@.latency_total == 0,
            r@.histogram == Seq::new(LATENCY_BUCKETS as nat, |i: int| 0u64),
    {
        let mut buckets: Vec<u64> = Vec::new();
        let mut i: usize = 0;
        while i < LATENCY_BUCKETS
            invariant
                i <= LATENCY_BUCKETS,
                buckets@ == Seq::new(i as nat, |j: int| 0u64),
            decreases LATENCY_BUCKETS - i,
        {
            buckets.push(0);
            i = i + 1;
            assert(buckets@ =~= Seq::new(i as nat, |j: int| 0u64));
        }
        proof {
            lemma_zeros(LATENCY_BUCKETS as int);
        }
        RunMetrics { requests: 0, errors: 0, latency_total_ms: 0, buckets }
    }

    /// Records one finished operation and how long it ran.
    pub fn record(&mut self, failed: bool, latency_ms: u64)
        requires
            old(self).wf(),
            old(self)@.requests < u64::MAX,
        ensures
            final(self).wf(),
            final(self)@.requests == old(self)@.requests + 1,
            final(self)@.errors == old(self)@.errors + if failed {
                1int
            } else {
                0int
            },
            final(self)@.latency_total == old(self)@.latency_total + latency_ms,
            final(self)@.histogram == old(self)@.histogram.update(
                bucket_of(latency_ms as int),
                (old(self)@.histogram[bucket_of(latency_ms as int)] + 1) as u64,
            ),
    {
        let b: usize = if latency_ms < LATENCY_BUCKETS as u64 {
            latency_ms as usize
        } else {
            LATENCY_BUCKETS - 1
        };
        proof {
            lemma_sum_bounds(self.buckets@, b as int + 1);
            lemma_sum_increment(self.buckets@, b as int);
        }
        let c = self.buckets[b];
        self.buckets.set(b, c + 1);
        proof {
            assert((self.requests + 1) * 0xffff_ffff_ffff_ffffu64 == self.requests
                * 0xffff_ffff_ffff_ffffu64 + 0xffff_ffff_ffff_ffffu64) by (nonlinear_arith);
        }
        self.latency_total_ms = self.latency_total_ms + latency_ms as u128;
        self.requests = self.requests + 1;
        if failed {
            self.errors = self.errors + 1;
        }
    }

    pub fn requests(&self) -> (r: u64)
        ensures
            r == self@.requests,
    {
        self.requests
    }

    pub fn errors(&self) -> (r: u64)
        ensures
            r == self@.errors,
    {
        self.errors
    }

    /// Mean latency in whole milliseconds, rounded down; `None` before the
    /// first operation.
    pub fn mean_latency_ms(&self) -> (r: Option<u128>)
        requires
            self.wf(),
        ensures
            self@.requests == 0 ==> r is None,
            self@.requests > 0 ==> r == Some((self@.latency_total / self@.requests) as u128),
    {
        if self.requests == 0 {
            None
        } else {
            Some(self.latency_total_ms / self.requests as u128)
        }
    }

    /// The `per_mille` percentile of latency by nearest rank, as the bucket
    /// (whole milliseconds) where the running count reaches that rank; `None`
    /// before the first operation or for a fraction outside `1..=1000`.
    pub fn latency_percentile_ms(&self, per_mille: u64) -> (r: Option<u64>)
        requires
            self.wf(),
        ensures
            self@.requests == 0 || per_mille == 0 || per_mille > 1000 ==> r is None,
            self@.requests > 0 && 1 <= per_mille <= 1000 ==> r is Some && is_rank_bucket(
                self@.histogram,
                rank_of(self@.requests as int, per_mille as int),
                r->Some_0 as int,
            ),
    {
        if self.requests == 0 || per_mille == 0 || per_mille > 1000 {
            return None;
        }
        let ghost total = self.requests as int;
        proof {
            assert(total * per_mille <= 0xffff_ffff_ffff_ffffu64 * 1000) by (nonlinear_arith)
                requires
                    0 <= total <= 0xffff_ffff_ffff_ffffu64,
                    1 <= per_mille <= 1000,
            ;
        }
        let rank: u128 = (self.requests as u128 * per_mille as u128 + 999) / 1000;
        proof {
            assert(rank >= 1 && rank <= total) by (nonlinear_arith)
                requires
                    rank == (total * per_mille + 999) / 1000,
                    1 <= per_mille <= 1000,
                    total >= 1,
            ;
        }
        let mut acc: u128 = 0;
        let mut b: usize = 0;
        while b < LATENCY_BUCKETS
            invariant
                self.wf(),
                b <= LATENCY_BUCKETS,
                acc == sum_of(self.buckets@.take(b as int)),
                acc < rank,
                rank <= total,
                total == self.requests,
                total == self@.requests,
                1 <= per_mille <= 1000,
                rank == rank_of(total, per_mille as int),
            decreases LATENCY_BUCKETS - b,
        {
            proof {
                lemma_sum_bounds(self.buckets@, b as int + 1);
                assert(self.buckets@.take(b as int + 1).drop_last() =~= self.buckets@.take(
                    b as int,
                ));
            }
            acc = acc + self.buckets[b] as u128;
            if acc >= rank {
                return Some(b as u64);
            }
            b = b + 1;
        }
        proof {
            assert(self.buckets@.take(LATENCY_BUCKETS as int) =~= self.buckets@);
        }
        None
    }
}

} // verus!
