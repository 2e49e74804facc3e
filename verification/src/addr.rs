//! Peer identities and structured network addresses.
//!
//! An address is a sequence of protocol segments.  Before storage or
//! comparison an address is normalized by appending the owning peer's
//! identity segment when it lacks one, so that otherwise-identical
//! addresses observed with and without the suffix collapse to one
//! entry.

use vstd::prelude::*;

verus! {

/// Opaque, globally unique identifier of a network participant;
/// compared by value.
#[derive(Clone, Copy, Debug, PartialEq, Eq, Hash, Structural)]
pub struct PeerId(pub u64);

/// One segment of a structured network address.
#[derive(Clone, Copy, Debug, PartialEq, Eq, Hash, Structural)]
pub enum Protocol {
    /// An IPv4 host, one octet per field.
    Ip4(u8, u8, u8, u8),
    /// A TCP port.
    Tcp(u16),
    /// A UDP port.
    Udp(u16),
    /// The identity of the peer the address belongs to.
    P2p(PeerId),
}

/// A structured network address; equal only if its segments are
/// identical.
#[derive(Debug, PartialEq, Eq)]
pub struct Multiaddr {
    segments: Vec<Protocol>,
}

impl View for Multiaddr {
    type V = Seq<Protocol>;

    closed spec fn view(&self) -> Seq<Protocol> {
        self.segments@
    }
}

/// The address with the identity suffix appended when it is missing.
pub open spec fn spec_normalize(a: Seq<Protocol>, peer: PeerId) -> Seq<Protocol> {
    if a.len() > 0 && a.last() is P2p {
        a
    } else {
        a.push(Protocol::P2p(peer))
    }
}

/// An address counts as loopback when its first segment is an IPv4
/// loopback host, or when it does not start with an IPv4 segment at
/// all (conservatively treated as loopback).
pub open spec fn spec_is_loopback(a: Seq<Protocol>) -> bool {
    if a.len() == 0 {
        true
    } else {
        match a[0] {
            Protocol::Ip4(o1, _o2, _o3, _o4) => o1 == 127,
            _ => true,
        }
    }
}

/// Normalization leaves an already-normalized address unchanged.
pub proof fn lemma_normalize_idempotent(a: Seq<Protocol>, peer: PeerId)
    ensures
        spec_normalize(spec_normalize(a, peer), peer) == spec_normalize(a, peer),
{
    if !(a.len() > 0 && a.last() is P2p) {
        assert(a.push(Protocol::P2p(peer)).last() is P2p);
    }
}

impl Multiaddr {
    /// An address made of the given segments, in order.
    pub fn new(segments: Vec<Protocol>) -> (r: Multiaddr)
        ensures
            r@ == segments@,
    {
        Multiaddr { segments }
    }

    /// An address with no segments.
    pub fn empty() -> (r: Multiaddr)
        ensures
            r@ == Seq::<Protocol>::empty(),
    {
        Multiaddr { segments: Vec::new() }
    }

    /// The segments of the address, in order.
    pub fn segments(&self) -> (r: &Vec<Protocol>)
        ensures
            r@ == self@,
    {
        &self.segments
    }

    /// Appends one segment.
    pub fn push(&mut self, segment: Protocol)
        ensures
            final(self)@ == old(self)@.push(segment),
    {
        self.segments.push(segment);
    }

    /// Whether the address counts as loopback.
    pub fn is_loopback(&self) -> (r: bool)
        ensures
            r == spec_is_loopback(self@),
    {
        if self.segments.len() == 0 {
            return true;
        }
        match self.segments[0] {
            Protocol::Ip4(o1, _o2, _o3, _o4) => o1 == 127,
            _ => true,
        }
    }
}

impl Clone for Multiaddr {
    /// A segment-for-segment copy of the address.
    fn clone(&self) -> (r: Self)
        ensures
            r@ == self@,
    {
        let mut segments: Vec<Protocol> = Vec::new();
        let mut i: usize = 0;
        while i < self.segments.len()
            invariant
                i <= self.segments.len(),
                segments@ == self.segments@.subrange(0, i as int),
            decreases self.segments.len() - i,
        {
            segments.push(self.segments[i]);
            i = i + 1;
        }
        proof {
            assert(segments@ =~= self.segments@);
        }
        Multiaddr { segments }
    }
}

/// Appends the owning peer's identity segment when the address lacks
/// one.
pub fn normalize_addr(addr: &mut Multiaddr, peer: &PeerId)
    ensures
        final(addr)@ == spec_normalize(old(addr)@, *peer),
{
    let n = addr.segments.len();
    if n > 0 {
        match addr.segments[n - 1] {
            Protocol::P2p(_) => {
                return ;
            },
            _ => {},
        }
    }
    addr.segments.push(Protocol::P2p(*peer));
}

/// The normalized form of the address, leaving the argument untouched.
pub fn normalize_addr_ref(addr: &Multiaddr, peer: &PeerId) -> (r: Multiaddr)
    ensures
        r@ == spec_normalize(addr@, *peer),
{
    let mut r = addr.clone();
    normalize_addr(&mut r, peer);
    r
}

/// Whether two addresses have identical segments.
pub fn addr_eq(a: &Multiaddr, b: &Multiaddr) -> (r: bool)
    ensures
        r == (a@ == b@),
{
    if a.segments.len() != b.segments.len() {
        return false;
    }
    let mut i: usize = 0;
    while i < a.segments.len()
        invariant
            i <= a.segments.len(),
            a.segments.len() == b.segments.len(),
            forall|j: int| 0 <= j < i ==> a.segments@[j] == b.segments@[j],
        decreases a.segments.len() - i,
    {
        if a.segments[i] != b.segments[i] {
            return false;
        }
        i = i + 1;
    }
    proof {
        assert(a@ =~= b@);
    }
    true
}

} // verus!
