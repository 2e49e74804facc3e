//! Counts maintained by the address book, and the registry they are
//! announced to.
//!
//! The counts live as plain fields of the book so that every
//! increment and decrement point is fixed by the transition
//! contracts.  A registry models an external metrics collector: it
//! accepts each metric name once and reports a duplicate as a setup
//! error.

use vstd::prelude::*;

verus! {

/// A gauge moved up one step, saturating at the top.
pub open spec fn gauge_inc_spec(g: i64) -> i64 {
    if g == i64::MAX {
        g
    } else {
        (g + 1) as i64
    }
}

/// A gauge moved down one step, saturating at the bottom.
pub open spec fn gauge_dec_spec(g: i64) -> i64 {
    if g == i64::MIN {
        g
    } else {
        (g - 1) as i64
    }
}

/// A counter moved up one step, saturating at the top.
pub open spec fn counter_inc_spec(c: u64) -> u64 {
    if c == u64::MAX {
        c
    } else {
        (c + 1) as u64
    }
}

/// Moves a gauge up one step, saturating at the top.
pub fn gauge_inc(g: i64) -> (r: i64)
    ensures
        r == gauge_inc_spec(g),
{
    if g == i64::MAX {
        g
    } else {
        g + 1
    }
}

/// Moves a gauge down one step, saturating at the bottom.
pub fn gauge_dec(g: i64) -> (r: i64)
    ensures
        r == gauge_dec_spec(g),
{
    if g == i64::MIN {
        g
    } else {
        g - 1
    }
}

/// Moves a counter up one step, saturating at the top.
pub fn counter_inc(c: u64) -> (r: u64)
    ensures
        r == counter_inc_spec(c),
{
    if c == u64::MAX {
        c
    } else {
        c + 1
    }
}

/// The counts the address book maintains; gauges may be moved both
/// ways, counters only up.
#[derive(Clone, Copy, Debug, PartialEq, Eq, Structural)]
pub struct Metrics {
    /// Number of listeners.
    pub listeners: i64,
    /// Number of listen addresses.
    pub listen_addrs: i64,
    /// Number of external addresses.
    pub external_addrs: i64,
    /// Number of discovered peers.
    pub discovered: i64,
    /// Number of connected peers.
    pub connected: i64,
    /// Number of connections.
    pub connections: i64,
    /// Number of non-fatal listener errors.
    pub listener_error: u64,
    /// Number of address reach failures.
    pub address_reach_failure: u64,
    /// Number of dial failures.
    pub dial_failure: u64,
}

impl Metrics {
    /// All counts at zero.
    pub open spec fn zero() -> Metrics {
        Metrics {
            listeners: 0i64,
            listen_addrs: 0i64,
            external_addrs: 0i64,
            discovered: 0i64,
            connected: 0i64,
            connections: 0i64,
            listener_error: 0u64,
            address_reach_failure: 0u64,
            dial_failure: 0u64,
        }
    }

    /// All counts at zero.
    pub fn new() -> (r: Metrics)
        ensures
            r == Metrics::zero(),
    {
        Metrics {
            listeners: 0,
            listen_addrs: 0,
            external_addrs: 0,
            discovered: 0,
            connected: 0,
            connections: 0,
            listener_error: 0,
            address_reach_failure: 0,
            dial_failure: 0,
        }
    }
}

/// The error a registry reports when a metric name is already taken.
#[derive(Clone, Copy, Debug, PartialEq, Eq, Structural)]
pub enum RegisterError {
    /// The name was registered before.
    DuplicateName,
}

/// A model of an external metrics collector: the set of names
/// registered with it, in registration order.
#[derive(Debug)]
pub struct MetricsRegistry {
    names: Vec<String>,
}

impl MetricsRegistry {
    /// The registered names, in order.
    pub closed spec fn names_v(self) -> Seq<Seq<char>> {
        self.names@.map_values(|s: String| s@)
    }

    /// A registry with no names taken.
    pub fn new() -> (r: MetricsRegistry)
        ensures
            r.names_v() == Seq::<Seq<char>>::empty(),
    {
        let r = MetricsRegistry { names: Vec::new() };
        proof {
            assert(r.names_v() =~= Seq::<Seq<char>>::empty());
        }
        r
    }

    /// How many names are taken.
    pub fn len(&self) -> (r: usize)
        ensures
            r == self.names_v().len(),
    {
        self.names.len()
    }

    /// Takes the given name, or reports a duplicate and changes
    /// nothing.
    #[verifier::loop_isolation(false)]
    pub fn register(&mut self, name: String) -> (r: Result<(), RegisterError>)
        ensures
            match r {
                Result::Ok(_) => !old(self).names_v().contains(name@) && final(self).names_v()
                    == old(self).names_v().push(name@),
                Result::Err(e) => old(self).names_v().contains(name@) && final(self).names_v()
                    == old(self).names_v() && e == RegisterError::DuplicateName,
            },
    {
        let ghost pre = *old(self);
        let mut i: usize = 0;
        let n = self.names.len();
        while i < n
            invariant
                *self == pre,
                n == self.names@.len(),
                i <= n,
                forall|j: int| 0 <= j < i ==> self.names@[j]@ != name@,
            decreases n - i,
        {
            if self.names[i] == name {
                proof {
                    assert(pre.names_v()[i as int] == name@);
                }
                return Err(RegisterError::DuplicateName);
            }
            i = i + 1;
        }
        proof {
            if pre.names_v().contains(name@) {
                let j = choose|j: int| 0 <= j < pre.names_v().len() && pre.names_v()[j] == name@;
                assert(pre.names@[j]@ == name@);
                assert(false);
            }
        }
        self.names.push(name);
        proof {
            assert(self.names_v() =~= pre.names_v().push(name@));
        }
        Ok(())
    }
}

} // verus!
