//! Per-peer records: metadata, known addresses with provenance, and
//! round-trip statistics.
//!
//! Addresses are stored in discovery order under their normalized
//! form; adding an address that is already known never overwrites its
//! provenance tag (first writer wins).

use crate::addr::{addr_eq, Multiaddr, Protocol};
use crate::alist::{alist_map, distinct_keys, lemma_alist_map_contains, lemma_alist_map_push,
    lemma_alist_map_remove};
use crate::rtt::{decay_10_step, decay_3_step, Rtt, RTT_CEILING_MICROS};
use vstd::prelude::*;

verus! {

/// The mechanism by which an address was learned.
#[derive(Clone, Copy, Debug, PartialEq, Eq, Structural)]
pub enum AddressSource {
    /// Local-network discovery.
    Mdns,
    /// Routing-table discovery.
    Kad,
    /// Reported by the peer itself.
    Peer,
    /// Configured by the user.
    User,
}

/// The outcome of an identify handshake with a peer.
#[derive(Debug, PartialEq, Eq)]
pub struct IdentifyInfo {
    /// The protocol version the peer speaks.
    pub protocol_version: String,
    /// The peer's self-reported agent version.
    pub agent_version: String,
    /// The protocols the peer supports, in the order reported.
    pub protocols: Vec<String>,
}

/// Everything known about one peer.
#[derive(Debug)]
pub struct PeerInfo {
    protocol_version: Option<String>,
    agent_version: Option<String>,
    protocols: Vec<String>,
    addresses: Vec<(Multiaddr, AddressSource)>,
    rtt: Option<Rtt>,
}

/// The round-trip statistics after one measurement report: a first
/// success initializes all figures to the sample, a later success
/// moves the decayed averages by their fixed ratios, a failure only
/// counts (saturating), and a failure without prior statistics leaves
/// nothing behind.
pub open spec fn rtt_after(r: Option<Rtt>, sample: Option<u64>) -> Option<Rtt> {
    match (r, sample) {
        (Option::None, Option::Some(d)) => Some(
            Rtt { current: d, decay_3: d, decay_10: d, failures: 0 },
        ),
        (Option::Some(rt), Option::Some(d)) => Some(
            Rtt {
                current: d,
                decay_3: decay_3_step(rt.decay_3 as int, d as int) as u64,
                decay_10: decay_10_step(rt.decay_10 as int, d as int) as u64,
                failures: 0,
            },
        ),
        (Option::Some(rt), Option::None) => Some(
            Rtt {
                failures: if rt.failures < u32::MAX {
                    (rt.failures + 1) as u32
                } else {
                    rt.failures
                },
                ..rt
            },
        ),
        (Option::None, Option::None) => None,
    }
}

impl PeerInfo {
    /// The stored addresses with their provenance, in discovery
    /// order, read abstractly.
    pub closed spec fn addr_entries(self) -> Seq<(Seq<Protocol>, AddressSource)> {
        self.addresses@.map_values(|p: (Multiaddr, AddressSource)| (p.0@, p.1))
    }

    /// The known addresses as a map from address to provenance.
    pub open spec fn addrs(self) -> Map<Seq<Protocol>, AddressSource> {
        alist_map(self.addr_entries())
    }

    /// The recorded protocol version, if any.
    pub closed spec fn spec_protocol_version(self) -> Option<Seq<char>> {
        match self.protocol_version {
            Option::Some(s) => Some(s@),
            Option::None => None,
        }
    }

    /// The recorded agent version, if any.
    pub closed spec fn spec_agent_version(self) -> Option<Seq<char>> {
        match self.agent_version {
            Option::Some(s) => Some(s@),
            Option::None => None,
        }
    }

    /// The recorded supported protocols, in order.
    pub closed spec fn spec_protocols(self) -> Seq<Seq<char>> {
        self.protocols@.map_values(|s: String| s@)
    }

    /// The recorded round-trip statistics, if any.
    pub closed spec fn spec_rtt(self) -> Option<Rtt> {
        self.rtt
    }

    /// Distinct stored addresses and well-formed statistics.
    pub open spec fn wf(self) -> bool {
        &&& distinct_keys(self.addr_entries())
        &&& match self.spec_rtt() {
            Option::Some(r) => r.wf(),
            Option::None => true,
        }
    }

    /// Whether at least one address is known.
    pub open spec fn has_addresses(self) -> bool {
        self.addr_entries().len() > 0
    }

    proof fn lemma_addr_entries_index(self, i: int)
        requires
            0 <= i < self.addresses@.len(),
        ensures
            self.addr_entries()[i] == (self.addresses@[i].0@, self.addresses@[i].1),
    {
    }

    /// The recorded protocol version, if any.
    pub fn protocol_version(&self) -> (r: Option<&String>)
        ensures
            match r {
                Option::Some(s) => self.spec_protocol_version() == Some(s@),
                Option::None => self.spec_protocol_version() is None,
            },
    {
        self.protocol_version.as_ref()
    }

    /// The recorded agent version, if any.
    pub fn agent_version(&self) -> (r: Option<&String>)
        ensures
            match r {
                Option::Some(s) => self.spec_agent_version() == Some(s@),
                Option::None => self.spec_agent_version() is None,
            },
    {
        self.agent_version.as_ref()
    }

    /// The protocols the peer supports, in the order reported.
    pub fn protocols(&self) -> (r: &Vec<String>)
        ensures
            r@.map_values(|s: String| s@) == self.spec_protocols(),
    {
        &self.protocols
    }

    /// The known addresses with their provenance, in discovery order.
    pub fn addresses(&self) -> (r: &Vec<(Multiaddr, AddressSource)>)
        ensures
            r@.map_values(|p: (Multiaddr, AddressSource)| (p.0@, p.1)) == self.addr_entries(),
    {
        &self.addresses
    }

    /// The most recent round-trip sample, if any was recorded.
    pub fn rtt(&self) -> (r: Option<u64>)
        ensures
            match self.spec_rtt() {
                Option::Some(rt) => r == Some(rt.current),
                Option::None => r is None,
            },
    {
        match &self.rtt {
            Option::Some(rt) => Some(rt.current()),
            Option::None => None,
        }
    }

    /// The full round-trip statistics, if any were recorded.
    pub fn full_rtt(&self) -> (r: Option<Rtt>)
        ensures
            r == self.spec_rtt(),
    {
        self.rtt
    }

    /// The number of known addresses.
    pub fn address_count(&self) -> (r: usize)
        ensures
            r == self.addr_entries().len(),
    {
        self.addresses.len()
    }

    /// Stores an address under the given provenance unless it is
    /// already known; an existing entry, and in particular its
    /// provenance tag, is never overwritten.
    #[verifier::loop_isolation(false)]
    pub fn add_addr(&mut self, address: Multiaddr, source: AddressSource)
        requires
            old(self).wf(),
        ensures
            final(self).wf(),
            final(self).spec_protocol_version() == old(self).spec_protocol_version(),
            final(self).spec_agent_version() == old(self).spec_agent_version(),
            final(self).spec_protocols() == old(self).spec_protocols(),
            final(self).spec_rtt() == old(self).spec_rtt(),
            old(self).addrs().contains_key(address@) ==> final(self).addr_entries() == old(
                self,
            ).addr_entries(),
            !old(self).addrs().contains_key(address@) ==> final(self).addr_entries() == old(
                self,
            ).addr_entries().push((address@, source)),
            final(self).addrs() == if old(self).addrs().contains_key(address@) {
                old(self).addrs()
            } else {
                old(self).addrs().insert(address@, source)
            },
    {
        let ghost pre = *old(self);
        let mut i: usize = 0;
        let n = self.addresses.len();
        while i < n
            invariant
                *self == pre,
                n == self.addresses@.len(),
                i <= n,
                forall|j: int| 0 <= j < i ==> self.addresses@[j].0@ != address@,
            decreases n - i,
        {
            if addr_eq(&self.addresses[i].0, &address) {
                proof {
                    pre.lemma_addr_entries_index(i as int);
                    lemma_alist_map_contains(pre.addr_entries(), address@);
                }
                return ;
            }
            i = i + 1;
        }
        proof {
            lemma_alist_map_contains(pre.addr_entries(), address@);
            if pre.addrs().contains_key(address@) {
                let j = choose|j: int|
                    0 <= j < pre.addr_entries().len() && pre.addr_entries()[j].0 == address@;
                pre.lemma_addr_entries_index(j);
                assert(false);
            }
        }
        self.addresses.push((address, source));
        proof {
            assert(self.addr_entries() =~= pre.addr_entries().push((address@, source)));
            lemma_alist_map_push(pre.addr_entries(), address@, source);
            assert forall|a: int, b: int| 0 <= a < b < self.addr_entries().len() implies self
                .addr_entries()[a].0 != self.addr_entries()[b].0 by {
                if b < self.addr_entries().len() - 1 {
                    assert(pre.addr_entries()[a] == self.addr_entries()[a]);
                    assert(pre.addr_entries()[b] == self.addr_entries()[b]);
                } else {
                    assert(self.addr_entries()[a] == pre.addr_entries()[a]);
                    pre.lemma_addr_entries_index(a);
                    assert(pre.addresses@[a].0@ != address@);
                }
            }
        }
    }

    /// Deletes the entry for the given address if it is present; no
    /// effect when it is unknown.
    #[verifier::loop_isolation(false)]
    pub fn remove_addr(&mut self, address: &Multiaddr)
        requires
            old(self).wf(),
        ensures
            final(self).wf(),
            final(self).spec_protocol_version() == old(self).spec_protocol_version(),
            final(self).spec_agent_version() == old(self).spec_agent_version(),
            final(self).spec_protocols() == old(self).spec_protocols(),
            final(self).spec_rtt() == old(self).spec_rtt(),
            final(self).addrs() == old(self).addrs().remove(address@),
    {
        let ghost pre = *old(self);
        let mut i: usize = 0;
        let n = self.addresses.len();
        while i < n
            invariant
                *self == pre,
                n == self.addresses@.len(),
                i <= n,
                forall|j: int| 0 <= j < i ==> self.addresses@[j].0@ != address@,
            decreases n - i,
        {
            if addr_eq(&self.addresses[i].0, address) {
                self.addresses.remove(i);
                proof {
                    let s = pre.addresses@;
                    let t = self.addresses@;
                    assert(t =~= s.remove(i as int));
                    assert(self.addr_entries() =~= pre.addr_entries().remove(i as int));
                    pre.lemma_addr_entries_index(i as int);
                    lemma_alist_map_remove(pre.addr_entries(), i as int);
                    assert forall|a: int, b: int| 0 <= a < b < self.addr_entries().len() implies
                        self.addr_entries()[a].0 != self.addr_entries()[b].0 by {
                        let ea = pre.addr_entries();
                        assert(self.addr_entries()[a] == (if a < i as int {
                            ea[a]
                        } else {
                            ea[a + 1]
                        }));
                        assert(self.addr_entries()[b] == (if b < i as int {
                            ea[b]
                        } else {
                            ea[b + 1]
                        }));
                    }
                }
                return ;
            }
            i = i + 1;
        }
        proof {
            lemma_alist_map_contains(pre.addr_entries(), address@);
            if pre.addrs().contains_key(address@) {
                let j = choose|j: int|
                    0 <= j < pre.addr_entries().len() && pre.addr_entries()[j].0 == address@;
                pre.lemma_addr_entries_index(j);
                assert(false);
            }
            assert(pre.addrs().remove(address@) =~= pre.addrs());
        }
    }

    /// Overwrites the identify snapshot: protocol version, agent
    /// version and supported protocols; addresses and statistics are
    /// untouched.
    pub fn apply_identify(&mut self, identify: IdentifyInfo)
        requires
            old(self).wf(),
        ensures
            final(self).wf(),
            final(self).spec_protocol_version() == Some(identify.protocol_version@),
            final(self).spec_agent_version() == Some(identify.agent_version@),
            final(self).spec_protocols() == identify.protocols@.map_values(|s: String| s@),
            final(self).addr_entries() == old(self).addr_entries(),
            final(self).spec_rtt() == old(self).spec_rtt(),
    {
        self.protocol_version = Some(identify.protocol_version);
        self.agent_version = Some(identify.agent_version);
        self.protocols = identify.protocols;
    }

    /// Feeds one measurement report into the statistics, per
    /// [`rtt_after`].
    pub fn register_rtt(&mut self, sample: Option<u64>)
        requires
            old(self).wf(),
            sample matches Some(d) ==> d <= RTT_CEILING_MICROS,
        ensures
            final(self).wf(),
            final(self).spec_protocol_version() == old(self).spec_protocol_version(),
            final(self).spec_agent_version() == old(self).spec_agent_version(),
            final(self).spec_protocols() == old(self).spec_protocols(),
            final(self).addr_entries() == old(self).addr_entries(),
            final(self).spec_rtt() == rtt_after(old(self).spec_rtt(), sample),
    {
        match sample {
            Option::Some(duration) => {
                match &mut self.rtt {
                    Option::Some(rt) => {
                        rt.register(duration);
                    },
                    Option::None => {
                        self.rtt = Some(Rtt::new(duration));
                    },
                }
            },
            Option::None => {
                match &mut self.rtt {
                    Option::Some(rt) => {
                        if rt.failures() < u32::MAX {
                            rt.register_failure();
                        }
                    },
                    Option::None => {},
                }
            },
        }
    }
}

impl Default for PeerInfo {
    /// A record with nothing known yet.
    fn default() -> (r: Self)
        ensures
            r.wf(),
            r.spec_protocol_version() is None,
            r.spec_agent_version() is None,
            r.spec_protocols() == Seq::<Seq<char>>::empty(),
            r.addr_entries() == Seq::<(Seq<Protocol>, AddressSource)>::empty(),
            r.addrs() == Map::<Seq<Protocol>, AddressSource>::empty(),
            r.spec_rtt() is None,
    {
        let r = PeerInfo {
            protocol_version: None,
            agent_version: None,
            protocols: Vec::new(),
            addresses: Vec::new(),
            rtt: None,
        };
        proof {
            assert(r.addr_entries() =~= Seq::<(Seq<Protocol>, AddressSource)>::empty());
            assert(r.spec_protocols() =~= Seq::<Seq<char>>::empty());
        }
        r
    }
}

} // verus!
