use vstd::prelude::*;

verus! {

/// Nanoseconds in the longest `std::time::Duration`.
pub const MAX_DURATION_NANOS: u128 = 18446744073709551615999999999;

/// The minimum latency that a tally starts from: `u64::MAX` seconds.
pub const INITIAL_MIN_LATENCY_NANOS: u128 = 18446744073709551615000000000;

/// The counts and latencies of a benchmark run on one chain.
pub struct BenchmarkTally {
    pub total_requests: u64,
    pub successful_requests: u64,
    pub failed_requests: u64,
    /// The sum of the latencies of the successful requests, in nanoseconds.
    pub total_latency_nanos: u128,
    pub max_latency_nanos: u128,
    pub min_latency_nanos: u128,
}

/// Every request of a tally is counted once, as a success or as a failure; with
/// no success the latencies are at their starting values, and otherwise the sum
/// of the latencies lies between the minimum and the maximum latency times the
/// number of successes.
pub open spec fn tally_wf(t: BenchmarkTally) -> bool {
    &&& t.successful_requests + t.failed_requests == t.total_requests
    &&& t.total_latency_nanos <= MAX_DURATION_NANOS
    &&& t.max_latency_nanos <= t.total_latency_nanos
    &&& t.successful_requests == 0 ==> {
        &&& t.total_latency_nanos == 0
        &&& t.max_latency_nanos == 0
        &&& t.min_latency_nanos == INITIAL_MIN_LATENCY_NANOS
    }
    &&& t.successful_requests > 0 ==> {
        &&& t.min_latency_nanos * t.successful_requests <= t.total_latency_nanos
        &&& t.total_latency_nanos <= t.max_latency_nanos * t.successful_requests
    }
}

/// The average latency of a tally's successes lies between its minimum and its
/// maximum latency.
pub proof fn lemma_average_between(t: BenchmarkTally)
    requires
        tally_wf(t),
        t.successful_requests > 0,
    ensures
        t.min_latency_nanos <= t.total_latency_nanos / (t.successful_requests as u128)
            <= t.max_latency_nanos,
{
    let s = t.successful_requests as int;
    let total = t.total_latency_nanos as int;
    let lo = t.min_latency_nanos as int;
    let hi = t.max_latency_nanos as int;
    assert(lo <= total / s <= hi) by (nonlinear_arith)
        requires
            s > 0,
            lo * s <= total,
            total <= hi * s,
            lo >= 0,
    {
        vstd::arithmetic::div_mod::lemma_div_is_ordered(lo * s, total, s);
        vstd::arithmetic::div_mod::lemma_div_multiples_vanish(lo, s);
        vstd::arithmetic::div_mod::lemma_div_is_ordered(total, hi * s, s);
        vstd::arithmetic::div_mod::lemma_div_multiples_vanish(hi, s);
    }
}

/// One more success keeps the latencies' sum between the minimum and maximum
/// latency times the number of successes.
proof fn lemma_record_success(t: BenchmarkTally, l: u128)
    requires
        tally_wf(t),
    ensures
        ({
            let s = t.successful_requests + 1;
            let total = t.total_latency_nanos + l;
            let hi = if l > t.max_latency_nanos { l } else { t.max_latency_nanos };
            let lo = if l < t.min_latency_nanos { l } else { t.min_latency_nanos };
            &&& lo * s <= total
            &&& total <= hi * s
            &&& hi <= total
        }),
{
    let s0 = t.successful_requests as int;
    let total0 = t.total_latency_nanos as int;
    let hi = if l > t.max_latency_nanos { l as int } else { t.max_latency_nanos as int };
    let lo = if l < t.min_latency_nanos { l as int } else { t.min_latency_nanos as int };
    let old_lo = t.min_latency_nanos as int;
    let old_hi = t.max_latency_nanos as int;
    let li = l as int;
    if s0 == 0 {
        assert(lo * 1 == lo);
        assert(hi * 1 == hi);
    } else {
        assert(lo * (s0 + 1) <= total0 + li) by (nonlinear_arith)
            requires
                lo <= old_lo,
                lo <= li,
                old_lo * s0 <= total0,
                s0 > 0,
                lo >= 0,
        ;
        assert(total0 + li <= hi * (s0 + 1)) by (nonlinear_arith)
            requires
                old_hi <= hi,
                li <= hi,
                total0 <= old_hi * s0,
                s0 > 0,
        ;
    }
}

impl BenchmarkTally {
    /// A tally of no requests.
    pub fn new() -> (r: BenchmarkTally)
        ensures
            tally_wf(r),
            r.total_requests == 0,
            r.successful_requests == 0,
            r.failed_requests == 0,
            r.total_latency_nanos == 0,
            r.max_latency_nanos == 0,
            r.min_latency_nanos == INITIAL_MIN_LATENCY_NANOS,
    {
        BenchmarkTally {
            total_requests: 0,
            successful_requests: 0,
            failed_requests: 0,
            total_latency_nanos: 0,
            max_latency_nanos: 0,
            min_latency_nanos: INITIAL_MIN_LATENCY_NANOS,
        }
    }

    /// Counts one request: a success with its latency in nanoseconds, or a failure.
    pub fn record(&mut self, latency_nanos: Option<u128>)
        requires
            tally_wf(*old(self)),
            old(self).total_requests < u64::MAX,
            latency_nanos matches Some(l) ==> old(self).total_latency_nanos + l <= MAX_DURATION_NANOS,
        ensures
            tally_wf(*final(self)),
            final(self).total_requests == old(self).total_requests + 1,
            match latency_nanos {
                Some(l) => {
                    &&& final(self).successful_requests == old(self).successful_requests + 1
                    &&& final(self).failed_requests == old(self).failed_requests
                    &&& final(self).total_latency_nanos == old(self).total_latency_nanos + l
                    &&& final(self).max_latency_nanos == if l > old(self).max_latency_nanos {
                        l
                    } else {
                        old(self).max_latency_nanos
                    }
                    &&& final(self).min_latency_nanos == if l < old(self).min_latency_nanos {
                        l
                    } else {
                        old(self).min_latency_nanos
                    }
                },
                None => {
                    &&& final(self).successful_requests == old(self).successful_requests
                    &&& final(self).failed_requests == old(self).failed_requests + 1
                    &&& final(self).total_latency_nanos == old(self).total_latency_nanos
                    &&& final(self).max_latency_nanos == old(self).max_latency_nanos
                    &&& final(self).min_latency_nanos == old(self).min_latency_nanos
                },
            },
    {
        let ghost before = *old(self);
        self.total_requests = self.total_requests + 1;
        match latency_nanos {
            Some(l) => {
                proof {
                    lemma_record_success(before, l);
                }
                self.successful_requests = self.successful_requests + 1;
                self.total_latency_nanos = self.total_latency_nanos + l;
                if l > self.max_latency_nanos {
                    self.max_latency_nanos = l;
                }
                if l < self.min_latency_nanos {
                    self.min_latency_nanos = l;
                }
            },
            None => {
                self.failed_requests = self.failed_requests + 1;
            },
        }
    }

    /// The average latency of the successful requests in nanoseconds (truncated to
    /// `u64` as `Duration::from_nanos` takes it), 0 when none succeeded.
    pub fn average_latency_nanos(&self) -> (r: u64)
        ensures
            self.successful_requests == 0 ==> r == 0,
            self.successful_requests > 0 ==> r == (self.total_latency_nanos / (
            self.successful_requests as u128)) as u64,
    {
        if self.successful_requests > 0 {
            let avg: u128 = self.total_latency_nanos / (self.successful_requests as u128);
            avg as u64
        } else {
            0
        }
    }
}

} // verus!
