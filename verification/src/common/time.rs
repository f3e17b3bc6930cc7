//! Timestamps in nanoseconds and latency statistics.
//!
//! The library reads no clock: whoever calls it passes the current time in.

use vstd::prelude::*;
use vstd::std_specs::ops::{AddSpecImpl, SubSpecImpl};
use vstd::std_specs::convert::FromSpecImpl;

verus! {

/// A point in time, in nanoseconds since an epoch of the caller's choice.
#[derive(Debug, Clone, Copy, PartialEq, Eq, PartialOrd, Ord, Structural)]
pub struct Nanos(pub u64);

impl Default for Nanos {
    fn default() -> (r: Nanos)
        ensures
            r == Nanos(0),
    {
        Nanos(0)
    }
}

/// `a - b`, or zero where `b` exceeds `a`.
pub open spec fn gap(a: u64, b: u64) -> u64 {
    if a >= b {
        (a - b) as u64
    } else {
        0
    }
}

/// `a + b`, or the largest value where the sum exceeds it.
pub open spec fn capped_sum(a: u64, b: u64) -> u64 {
    if a + b <= u64::MAX {
        (a + b) as u64
    } else {
        u64::MAX
    }
}

impl Nanos {
    /// Creates a timestamp from a nanosecond count.
    pub fn new(nanos: u64) -> (r: Nanos)
        ensures
            r == Nanos(nanos),
    {
        Nanos(nanos)
    }

    /// Returns the nanosecond count.
    pub fn as_u64(self) -> (r: u64)
        ensures
            r == self.0,
    {
        self.0
    }

    /// Returns the time from this timestamp to `now`, zero if `now` is
    /// earlier.
    pub fn elapsed_at(self, now: Nanos) -> (r: u64)
        ensures
            r == gap(now.0, self.0),
    {
        now.0.saturating_sub(self.0)
    }
}

/// Returns the time from `start` to `now`, zero if `now` is earlier.
pub fn nanos_between(start: Nanos, now: Nanos) -> (r: u64)
    ensures
        r == gap(now.0, start.0),
{
    now.0.saturating_sub(start.0)
}

impl SubSpecImpl<Nanos> for Nanos {
    open spec fn obeys_sub_spec() -> bool {
        true
    }

    open spec fn sub_req(self, rhs: Nanos) -> bool {
        true
    }

    open spec fn sub_spec(self, rhs: Nanos) -> u64 {
        gap(self.0, rhs.0)
    }
}

impl std::ops::Sub<Nanos> for Nanos {
    type Output = u64;

    /// The time from `rhs` to `self`, zero if `self` is earlier.
    fn sub(self, rhs: Nanos) -> (r: u64) {
        self.0.saturating_sub(rhs.0)
    }
}

impl AddSpecImpl<u64> for Nanos {
    open spec fn obeys_add_spec() -> bool {
        true
    }

    open spec fn add_req(self, rhs: u64) -> bool {
        true
    }

    open spec fn add_spec(self, rhs: u64) -> Nanos {
        Nanos(capped_sum(self.0, rhs))
    }
}

impl std::ops::Add<u64> for Nanos {
    type Output = Nanos;

    /// The timestamp `rhs` nanoseconds later, capped at the largest value.
    fn add(self, rhs: u64) -> (r: Nanos) {
        Nanos(self.0.saturating_add(rhs))
    }
}

impl FromSpecImpl<u64> for Nanos {
    open spec fn obeys_from_spec() -> bool {
        true
    }

    open spec fn from_spec(v: u64) -> Nanos {
        Nanos(v)
    }
}

impl From<u64> for Nanos {
    fn from(value: u64) -> (r: Nanos) {
        Nanos(value)
    }
}

impl FromSpecImpl<Nanos> for u64 {
    open spec fn obeys_from_spec() -> bool {
        true
    }

    open spec fn from_spec(v: Nanos) -> u64 {
        v.0
    }
}

impl From<Nanos> for u64 {
    fn from(value: Nanos) -> (r: u64) {
        value.0
    }
}

/// Count, sum, smallest and largest of the latencies recorded so far.
#[derive(Debug, Clone, Copy, PartialEq, Eq, Structural)]
pub struct LatencyStats {
    count: u64,
    sum: u64,
    min: u64,
    max: u64,
}

impl Default for LatencyStats {
    fn default() -> (r: LatencyStats)
        ensures
            r.is_fresh(),
    {
        LatencyStats::new()
    }
}

impl LatencyStats {
    /// The number of recorded latencies.
    pub closed spec fn spec_count(&self) -> u64 {
        self.count
    }

    /// The sum of the recorded latencies, capped at the largest value.
    pub closed spec fn spec_sum(&self) -> u64 {
        self.sum
    }

    /// The smallest recorded latency; the largest value if none was
    /// recorded.
    pub closed spec fn spec_min(&self) -> u64 {
        self.min
    }

    /// The largest recorded latency; zero if none was recorded.
    pub closed spec fn spec_max(&self) -> u64 {
        self.max
    }

    /// Whether nothing is recorded.
    pub open spec fn is_fresh(&self) -> bool {
        &&& self.spec_count() == 0
        &&& self.spec_sum() == 0
        &&& self.spec_min() == u64::MAX
        &&& self.spec_max() == 0
    }

    /// Creates statistics with nothing recorded.
    pub fn new() -> (r: LatencyStats)
        ensures
            r.is_fresh(),
    {
        LatencyStats { count: 0, sum: 0, min: u64::MAX, max: 0 }
    }

    /// Records one latency in nanoseconds.
    pub fn record(&mut self, latency_nanos: u64)
        requires
            old(self).spec_count() < u64::MAX,
        ensures
            final(self).spec_count() == old(self).spec_count() + 1,
            final(self).spec_sum() == capped_sum(old(self).spec_sum(), latency_nanos),
            final(self).spec_min() == (if latency_nanos < old(self).spec_min() {
                latency_nanos
            } else {
                old(self).spec_min()
            }),
            final(self).spec_max() == (if latency_nanos > old(self).spec_max() {
                latency_nanos
            } else {
                old(self).spec_max()
            }),
    {
        self.count = self.count + 1;
        self.sum = self.sum.saturating_add(latency_nanos);
        if latency_nanos < self.min {
            self.min = latency_nanos;
        }
        if latency_nanos > self.max {
            self.max = latency_nanos;
        }
    }

    /// Returns the number of recorded latencies.
    pub fn count(&self) -> (r: u64)
        ensures
            r == self.spec_count(),
    {
        self.count
    }

    /// Returns the sum of the recorded latencies, capped at the largest
    /// value.
    pub fn sum(&self) -> (r: u64)
        ensures
            r == self.spec_sum(),
    {
        self.sum
    }

    /// Returns the mean latency rounded down, zero if none was recorded.
    pub fn mean_floor(&self) -> (r: u64)
        ensures
            r == (if self.spec_count() == 0 {
                0
            } else {
                self.spec_sum() as int / self.spec_count() as int
            }),
    {
        if self.count == 0 {
            0
        } else {
            self.sum / self.count
        }
    }

    /// Returns the smallest recorded latency; the largest value if none was
    /// recorded.
    pub fn min(&self) -> (r: u64)
        ensures
            r == self.spec_min(),
    {
        self.min
    }

    /// Returns the largest recorded latency; zero if none was recorded.
    pub fn max(&self) -> (r: u64)
        ensures
            r == self.spec_max(),
    {
        self.max
    }

    /// Forgets everything recorded.
    pub fn reset(&mut self)
        ensures
            final(self).is_fresh(),
    {
        self.count = 0;
        self.sum = 0;
        self.min = u64::MAX;
        self.max = 0;
    }
}

} // verus!
