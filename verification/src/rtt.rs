//! Exponentially decayed round-trip-time statistics for one peer.
//!
//! Timings are carried as whole microseconds.  Each successful sample
//! updates a fast-moving average (30% weight per sample) and a
//! slow-moving baseline (10% weight); a failed measurement only counts
//! consecutive failures and leaves the timings untouched.

use vstd::arithmetic::div_mod::lemma_fundamental_div_mod;
use vstd::prelude::*;

verus! {

/// Upper bound on a round-trip measurement in microseconds, leaving
/// headroom for the fixed-ratio decay arithmetic.
pub const RTT_CEILING_MICROS: u64 = u64::MAX / 10;

/// One step of the fast decay: 70% of the old figure plus 30% of the
/// sample.
pub open spec fn decay_3_step(d: int, s: int) -> int {
    d * 7 / 10 + s * 3 / 10
}

/// One step of the slow decay: 90% of the old figure plus 10% of the
/// sample.
pub open spec fn decay_10_step(d: int, s: int) -> int {
    d * 9 / 10 + s / 10
}

/// Round-trip statistics: the last sample, two decayed averages and
/// the count of consecutive failed measurements.
#[derive(Clone, Copy, Debug, PartialEq, Eq, Structural)]
pub struct Rtt {
    /// The most recent successful sample.
    pub current: u64,
    /// The fast-moving decayed average.
    pub decay_3: u64,
    /// The slow-moving decayed average.
    pub decay_10: u64,
    /// Consecutive failed measurements since the last success.
    pub failures: u32,
}

impl Rtt {
    /// All timing figures within the ceiling the decay arithmetic
    /// needs.
    pub open spec fn wf(self) -> bool {
        self.current <= RTT_CEILING_MICROS && self.decay_3 <= RTT_CEILING_MICROS && self.decay_10
            <= RTT_CEILING_MICROS
    }

    /// Statistics from a first observed sample: all three timings
    /// start at the sample, with no failures.
    pub fn new(current: u64) -> (r: Self)
        requires
            current <= RTT_CEILING_MICROS,
        ensures
            r == (Rtt { current, decay_3: current, decay_10: current, failures: 0 }),
            r.wf(),
    {
        Self { current, decay_3: current, decay_10: current, failures: 0 }
    }

    /// Records a successful measurement: replaces the current figure,
    /// moves both decayed averages by their fixed ratios and resets
    /// the failure count.
    pub fn register(&mut self, current: u64)
        requires
            old(self).wf(),
            current <= RTT_CEILING_MICROS,
        ensures
            final(self).current == current,
            final(self).decay_3 == decay_3_step(old(self).decay_3 as int, current as int),
            final(self).decay_10 == decay_10_step(old(self).decay_10 as int, current as int),
            final(self).failures == 0,
            final(self).wf(),
    {
        proof {
            lemma_decay_step_le_ceiling(self.decay_3 as int, self.decay_10 as int, current as int);
        }
        self.current = current;
        self.decay_3 = self.decay_3 * 7 / 10 + current * 3 / 10;
        self.decay_10 = self.decay_10 * 9 / 10 + current / 10;
        self.failures = 0;
    }

    /// Records a failed measurement: counts it and leaves all timings
    /// untouched.
    pub fn register_failure(&mut self)
        requires
            old(self).failures < u32::MAX,
        ensures
            *final(self) == (Rtt { failures: (old(self).failures + 1) as u32, ..*old(self) }),
    {
        self.failures = self.failures + 1;
    }

    /// The most recent sample.
    pub fn current(&self) -> (r: u64)
        ensures
            r == self.current,
    {
        self.current
    }

    /// The fast-moving decayed average.
    pub fn decay_3(&self) -> (r: u64)
        ensures
            r == self.decay_3,
    {
        self.decay_3
    }

    /// The slow-moving decayed average.
    pub fn decay_10(&self) -> (r: u64)
        ensures
            r == self.decay_10,
    {
        self.decay_10
    }

    /// The number of consecutive failed measurements since the last
    /// success.
    pub fn failures(&self) -> (r: u32)
        ensures
            r == self.failures,
    {
        self.failures
    }
}

/// Both decay steps stay within the ceiling when their inputs do.
proof fn lemma_decay_step_le_ceiling(d3: int, d10: int, s: int)
    requires
        0 <= d3 <= RTT_CEILING_MICROS,
        0 <= d10 <= RTT_CEILING_MICROS,
        0 <= s <= RTT_CEILING_MICROS,
    ensures
        0 <= decay_3_step(d3, s) <= RTT_CEILING_MICROS,
        0 <= decay_10_step(d10, s) <= RTT_CEILING_MICROS,
{
    lemma_decay_step_bounds(d3, s);
    lemma_decay_step_bounds(d10, s);
    if d3 <= s {
        assert(decay_3_step(d3, s) <= s);
    } else {
        assert(decay_3_step(d3, s) <= d3);
    }
    if d10 <= s {
        assert(decay_10_step(d10, s) <= s);
    } else {
        assert(decay_10_step(d10, s) <= d10);
    }
}

/// Convergence of the decayed averages toward a constant stream of
/// identical samples, as far as whole-microsecond rounding allows: a
/// step never leaves the band between the old figure and the sample,
/// except that it may undershoot the lower end by one microsecond;
/// and while the figure is above the sample, every step strictly
/// decreases it.  Feeding the same sample repeatedly therefore drives
/// both averages down into the band one microsecond below the sample,
/// and from above they never fall past it.
pub proof fn lemma_decay_step_bounds(d: int, s: int)
    ensures
        0 <= d && 0 <= s ==> {
            let lo = if d <= s { d } else { s };
            let hi = if d >= s { d } else { s };
            lo - 1 <= decay_3_step(d, s) <= hi && lo - 1 <= decay_10_step(d, s) <= hi
        },
        0 <= s < d ==> decay_3_step(d, s) < d && decay_10_step(d, s) < d,
{
    if 0 <= d && 0 <= s {
        lemma_fundamental_div_mod(d * 7, 10);
        lemma_fundamental_div_mod(s * 3, 10);
        lemma_fundamental_div_mod(d * 9, 10);
        lemma_fundamental_div_mod(s, 10);
    }
}

} // verus!
