//! The address book: the authoritative in-memory record of known
//! peers, their addresses, active connections and round-trip
//! statistics, together with the dial/retry policy driven by
//! connection lifecycle callbacks.
//!
//! The book is a pure state machine: the external runtime invokes the
//! lifecycle callbacks sequentially, polls the outgoing action queue,
//! and application observers consume the event stream through
//! subscriptions.  Every mutation entry point is total over its
//! inputs: an unknown peer or address is always a safe no-op, never a
//! fault.

use crate::addr::{normalize_addr, normalize_addr_ref, spec_is_loopback, spec_normalize, Multiaddr,
    PeerId, Protocol};
use crate::alist::{alist_map, lemma_alist_map_contains, lemma_alist_map_get, lemma_alist_map_push,
    lemma_alist_map_remove, lemma_alist_map_update};
use crate::bus::{delivered, lemma_delivered_refl, lemma_delivered_trans, EventBus, SwarmEvents};
use crate::event::{spec_remote_address, ConnectedPoint, Event, EventV, ListenerId};
use crate::metrics::{counter_inc, counter_inc_spec, gauge_dec, gauge_dec_spec, gauge_inc,
    gauge_inc_spec, Metrics, MetricsRegistry, RegisterError};
use crate::peer_info::{rtt_after, AddressSource, IdentifyInfo, PeerInfo};
use crate::rtt::RTT_CEILING_MICROS;
use std::collections::VecDeque;
use vstd::prelude::*;
use vstd::string::StringExecFns;

verus! {

/// The public key of the local node, carried as opaque bytes.
#[derive(Debug, PartialEq, Eq)]
pub struct PublicKey {
    bytes: Vec<u8>,
}

impl View for PublicKey {
    type V = Seq<u8>;

    closed spec fn view(&self) -> Seq<u8> {
        self.bytes@
    }
}

impl PublicKey {
    /// A key made of the given bytes.
    pub fn new(bytes: Vec<u8>) -> (r: PublicKey)
        ensures
            r@ == bytes@,
    {
        PublicKey { bytes }
    }

    /// The bytes of the key.
    pub fn bytes(&self) -> (r: &Vec<u8>)
        ensures
            r@ == self@,
    {
        &self.bytes
    }
}

/// An outgoing command for the external runtime driver.
#[derive(Clone, Copy, Debug, PartialEq, Eq, Structural)]
pub enum Action {
    /// Dial the given peer unless already connected to it.
    DialPeer(PeerId),
}

/// The address book.
#[derive(Debug)]
pub struct AddressBook {
    enable_loopback: bool,
    prune_addresses: bool,
    local_node_name: String,
    local_peer_id: PeerId,
    local_public_key: PublicKey,
    peers: Vec<(PeerId, PeerInfo)>,
    connections: Vec<(PeerId, Multiaddr)>,
    event_stream: EventBus,
    actions: VecDeque<Action>,
    metrics: Metrics,
}

/// The configuration and subscription count carry over unchanged from
/// `pre` to `post`.
pub open spec fn keeps_config(pre: AddressBook, post: AddressBook) -> bool {
    &&& post.spec_enable_loopback() == pre.spec_enable_loopback()
    &&& post.spec_prune_addresses() == pre.spec_prune_addresses()
    &&& post.spec_local_node_name() == pre.spec_local_node_name()
    &&& post.spec_local_peer_id() == pre.spec_local_peer_id()
    &&& post.spec_local_public_key() == pre.spec_local_public_key()
    &&& post.subs_created() == pre.subs_created()
}

/// Whether `add_address` accepts the (already normalized) address
/// for the peer: the local node is never recorded, and loopback
/// addresses only when enabled.
pub open spec fn address_accepted(pre: AddressBook, p: PeerId, a: Seq<Protocol>) -> bool {
    p != pre.spec_local_peer_id() && (pre.spec_enable_loopback() || !spec_is_loopback(a))
}

/// Whether accepting the address creates the peer's record.
pub open spec fn newly_discovered(pre: AddressBook, p: PeerId, a: Seq<Protocol>) -> bool {
    address_accepted(pre, p, a) && !pre.has_peer(p)
}

/// How `add_address(p, a, source)` changes the peer registry of
/// `pre` into that of `post`.
pub open spec fn address_added(
    pre: AddressBook,
    post: AddressBook,
    p: PeerId,
    a: Seq<Protocol>,
    source: AddressSource,
) -> bool {
    let norm = spec_normalize(a, p);
    &&& (!address_accepted(pre, p, a) ==> post.peers_entries() == pre.peers_entries())
    &&& (address_accepted(pre, p, a) ==> {
        &&& post.has_peer(p)
        &&& post.peers_map().remove(p) == pre.peers_map().remove(p)
        &&& (pre.has_peer(p) ==> {
            &&& post.info_of(p).addrs() == if pre.info_of(p).addrs().contains_key(norm) {
                pre.info_of(p).addrs()
            } else {
                pre.info_of(p).addrs().insert(norm, source)
            }
            &&& (pre.info_of(p).addrs().contains_key(norm) ==> post.info_of(p).addr_entries()
                == pre.info_of(p).addr_entries())
            &&& (!pre.info_of(p).addrs().contains_key(norm) ==> post.info_of(p).addr_entries()
                == pre.info_of(p).addr_entries().push((norm, source)))
            &&& post.info_of(p).spec_protocol_version() == pre.info_of(p).spec_protocol_version()
            &&& post.info_of(p).spec_agent_version() == pre.info_of(p).spec_agent_version()
            &&& post.info_of(p).spec_protocols() == pre.info_of(p).spec_protocols()
            &&& post.info_of(p).spec_rtt() == pre.info_of(p).spec_rtt()
        })
        &&& (!pre.has_peer(p) ==> {
            &&& post.info_of(p).addr_entries() == seq![(norm, source)]
            &&& post.info_of(p).addrs() == Map::<Seq<Protocol>, AddressSource>::empty().insert(
                norm,
                source,
            )
            &&& post.info_of(p).spec_protocol_version() is None
            &&& post.info_of(p).spec_agent_version() is None
            &&& post.info_of(p).spec_protocols() == Seq::<Seq<char>>::empty()
            &&& post.info_of(p).spec_rtt() is None
        })
    })
}

impl AddressBook {
    /// Whether recording loopback addresses is enabled.
    pub closed spec fn spec_enable_loopback(self) -> bool {
        self.enable_loopback
    }

    /// Whether failing addresses and exhausted peers are pruned.
    pub closed spec fn spec_prune_addresses(self) -> bool {
        self.prune_addresses
    }

    /// The configured name of the local node.
    pub closed spec fn spec_local_node_name(self) -> Seq<char> {
        self.local_node_name@
    }

    /// The identity of the local node.
    pub closed spec fn spec_local_peer_id(self) -> PeerId {
        self.local_peer_id
    }

    /// The public key of the local node.
    pub closed spec fn spec_local_public_key(self) -> Seq<u8> {
        self.local_public_key@
    }

    /// The peer registry in discovery order.
    pub closed spec fn peers_entries(self) -> Seq<(PeerId, PeerInfo)> {
        self.peers@
    }

    /// The peer registry as a map.
    pub open spec fn peers_map(self) -> Map<PeerId, PeerInfo> {
        alist_map(self.peers_entries())
    }

    /// Whether the peer has a record.
    pub open spec fn has_peer(self, p: PeerId) -> bool {
        self.peers_map().contains_key(p)
    }

    /// The record of the peer.
    pub open spec fn info_of(self, p: PeerId) -> PeerInfo {
        self.peers_map()[p]
    }

    /// The connection tracker entries.
    pub closed spec fn conn_entries(self) -> Seq<(PeerId, Seq<Protocol>)> {
        self.connections@.map_values(|c: (PeerId, Multiaddr)| (c.0, c.1@))
    }

    /// The currently connected peers with their active remote
    /// address.
    pub open spec fn conns(self) -> Map<PeerId, Seq<Protocol>> {
        alist_map(self.conn_entries())
    }

    /// A peer counts as connected when the tracker holds an entry for
    /// it; the local node always counts as connected to itself.
    pub open spec fn spec_is_connected(self, p: PeerId) -> bool {
        p == self.spec_local_peer_id() || self.conns().contains_key(p)
    }

    /// The event queues of the live subscriptions.
    pub closed spec fn queues(self) -> Map<u64, Seq<EventV>> {
        self.event_stream.queues()
    }

    /// How many subscriptions were ever opened.
    pub closed spec fn subs_created(self) -> u64 {
        self.event_stream.subs_created()
    }

    /// Room for another subscription identifier.
    pub open spec fn can_subscribe(self) -> bool {
        self.subs_created() < u64::MAX
    }

    /// The pending outgoing actions, oldest first.
    pub closed spec fn spec_actions(self) -> Seq<Action> {
        self.actions@
    }

    /// The counts maintained so far.
    pub closed spec fn spec_metrics(self) -> Metrics {
        self.metrics
    }

    /// Internal consistency: distinct registry and tracker keys, the
    /// local node never registered, well-formed records, and a
    /// well-formed bus.
    pub closed spec fn wf(self) -> bool {
        &&& forall|i: int, j: int|
            0 <= i < j < self.peers@.len() ==> self.peers@[i].0 != self.peers@[j].0
        &&& forall|i: int| 0 <= i < self.peers@.len() ==> (#[trigger] self.peers@[i]).1.wf()
        &&& forall|i: int|
            0 <= i < self.peers@.len() ==> (#[trigger] self.peers@[i]).0 != self.local_peer_id
        &&& forall|i: int, j: int|
            0 <= i < j < self.connections@.len() ==> self.connections@[i].0
                != self.connections@[j].0
        &&& self.event_stream.wf()
    }

    proof fn lemma_peer_at(self, i: int)
        requires
            self.wf(),
            0 <= i < self.peers_entries().len(),
        ensures
            self.has_peer(self.peers_entries()[i].0),
            self.info_of(self.peers_entries()[i].0) == self.peers_entries()[i].1,
    {
        lemma_alist_map_get(self.peers_entries(), i);
    }

    proof fn lemma_no_peer(self, p: PeerId)
        requires
            forall|j: int| 0 <= j < self.peers_entries().len() ==> self.peers_entries()[j].0 != p,
        ensures
            !self.has_peer(p),
    {
        lemma_alist_map_contains(self.peers_entries(), p);
    }

    proof fn lemma_conn_entries_index(self, i: int)
        requires
            0 <= i < self.connections@.len(),
        ensures
            self.conn_entries()[i] == (self.connections@[i].0, self.connections@[i].1@),
    {
    }

    /// A book for the given local identity and policy, knowing no
    /// peers, tracking no connections, with no subscriptions, no
    /// pending actions and all counts at zero.
    pub fn new(
        local_peer_id: PeerId,
        local_node_name: String,
        local_public_key: PublicKey,
        enable_loopback: bool,
        prune_addresses: bool,
    ) -> (r: AddressBook)
        ensures
            r.wf(),
            r.spec_enable_loopback() == enable_loopback,
            r.spec_prune_addresses() == prune_addresses,
            r.spec_local_node_name() == local_node_name@,
            r.spec_local_peer_id() == local_peer_id,
            r.spec_local_public_key() == local_public_key@,
            r.peers_entries() == Seq::<(PeerId, PeerInfo)>::empty(),
            r.peers_map() == Map::<PeerId, PeerInfo>::empty(),
            r.conn_entries() == Seq::<(PeerId, Seq<Protocol>)>::empty(),
            r.conns() == Map::<PeerId, Seq<Protocol>>::empty(),
            r.queues() == Map::<u64, Seq<EventV>>::empty(),
            r.subs_created() == 0,
            r.spec_actions() == Seq::<Action>::empty(),
            r.spec_metrics() == Metrics::zero(),
    {
        let r = AddressBook {
            enable_loopback,
            prune_addresses,
            local_node_name,
            local_peer_id,
            local_public_key,
            peers: Vec::new(),
            connections: Vec::new(),
            event_stream: EventBus::new(),
            actions: VecDeque::new(),
            metrics: Metrics::new(),
        };
        proof {
            assert(r.peers_entries() =~= Seq::<(PeerId, PeerInfo)>::empty());
            assert(r.conn_entries() =~= Seq::<(PeerId, Seq<Protocol>)>::empty());
        }
        r
    }

    /// The public key of the local node.
    pub fn local_public_key(&self) -> (r: &PublicKey)
        ensures
            r@ == self.spec_local_public_key(),
    {
        &self.local_public_key
    }

    /// The configured name of the local node.
    pub fn local_node_name(&self) -> (r: &String)
        ensures
            r@ == self.spec_local_node_name(),
    {
        &self.local_node_name
    }

    /// The counts maintained so far.
    pub fn metrics(&self) -> (r: Metrics)
        ensures
            r == self.spec_metrics(),
    {
        self.metrics
    }

    /// The identity of the local node.
    pub fn local_peer_id(&self) -> (r: &PeerId)
        ensures
            *r == self.spec_local_peer_id(),
    {
        &self.local_peer_id
    }

    /// Requests a dial of the given peer, to proceed only if not
    /// already connected; a request to dial the local node itself is
    /// refused as caller misuse and changes nothing.
    pub fn dial(&mut self, peer: &PeerId)
        requires
            old(self).wf(),
        ensures
            final(self).wf(),
            keeps_config(*old(self), *final(self)),
            final(self).peers_entries() == old(self).peers_entries(),
            final(self).conn_entries() == old(self).conn_entries(),
            final(self).queues() == old(self).queues(),
            final(self).spec_metrics() == old(self).spec_metrics(),
            *peer == old(self).spec_local_peer_id() ==> final(self).spec_actions() == old(
                self,
            ).spec_actions(),
            *peer != old(self).spec_local_peer_id() ==> final(self).spec_actions() == old(
                self,
            ).spec_actions().push(Action::DialPeer(*peer)),
    {
        if *peer == self.local_peer_id {
            return ;
        }
        self.actions.push_back(Action::DialPeer(*peer));
    }

    /// Hands out the next queued action, oldest first, or nothing
    /// when none is pending.
    pub fn poll(&mut self) -> (r: Option<Action>)
        requires
            old(self).wf(),
        ensures
            final(self).wf(),
            keeps_config(*old(self), *final(self)),
            final(self).peers_entries() == old(self).peers_entries(),
            final(self).conn_entries() == old(self).conn_entries(),
            final(self).queues() == old(self).queues(),
            final(self).spec_metrics() == old(self).spec_metrics(),
            match r {
                Option::Some(a) => old(self).spec_actions().len() > 0 && a == old(
                    self,
                ).spec_actions()[0] && final(self).spec_actions() == old(
                    self,
                ).spec_actions().subrange(1, old(self).spec_actions().len() as int),
                Option::None => old(self).spec_actions().len() == 0 && final(self).spec_actions()
                    == old(self).spec_actions(),
            },
    {
        let r = self.actions.pop_front();
        proof {
            if old(self).actions@.len() > 0 {
                assert(self.actions@ =~= old(self).actions@.subrange(
                    1,
                    old(self).actions@.len() as int,
                ));
            }
        }
        r
    }

    /// Opens a new, independent subscription to the event stream; its
    /// queue starts empty and past events are not replayed.
    pub fn swarm_events(&mut self) -> (handle: SwarmEvents)
        requires
            old(self).wf(),
            old(self).can_subscribe(),
        ensures
            final(self).wf(),
            final(self).spec_enable_loopback() == old(self).spec_enable_loopback(),
            final(self).spec_prune_addresses() == old(self).spec_prune_addresses(),
            final(self).spec_local_node_name() == old(self).spec_local_node_name(),
            final(self).spec_local_peer_id() == old(self).spec_local_peer_id(),
            final(self).spec_local_public_key() == old(self).spec_local_public_key(),
            final(self).peers_entries() == old(self).peers_entries(),
            final(self).conn_entries() == old(self).conn_entries(),
            final(self).spec_actions() == old(self).spec_actions(),
            final(self).spec_metrics() == old(self).spec_metrics(),
            handle.id() == old(self).subs_created(),
            final(self).subs_created() == old(self).subs_created() + 1,
            !old(self).queues().contains_key(handle.id()),
            final(self).queues() == old(self).queues().insert(handle.id(), Seq::<EventV>::empty()),
    {
        self.event_stream.subscribe()
    }

    /// Delivers one event, by value copy, to every live subscription.
    pub fn notify(&mut self, event: Event)
        requires
            old(self).wf(),
        ensures
            final(self).wf(),
            keeps_config(*old(self), *final(self)),
            final(self).peers_entries() == old(self).peers_entries(),
            final(self).conn_entries() == old(self).conn_entries(),
            final(self).spec_actions() == old(self).spec_actions(),
            final(self).spec_metrics() == old(self).spec_metrics(),
            delivered(old(self).queues(), final(self).queues(), seq![event@]),
    {
        self.event_stream.notify(event);
    }

    /// Ends the subscription the handle names; it takes no part in
    /// any future delivery, which stays safe for all others.
    pub fn unsubscribe(&mut self, handle: SwarmEvents)
        requires
            old(self).wf(),
        ensures
            final(self).wf(),
            keeps_config(*old(self), *final(self)),
            final(self).peers_entries() == old(self).peers_entries(),
            final(self).conn_entries() == old(self).conn_entries(),
            final(self).spec_actions() == old(self).spec_actions(),
            final(self).spec_metrics() == old(self).spec_metrics(),
            final(self).queues() == old(self).queues().remove(handle.id()),
    {
        self.event_stream.unsubscribe(handle);
    }

    /// The next undelivered event of the subscription the handle
    /// names, or nothing when its queue is drained or the handle is
    /// unknown.
    pub fn poll_next(&mut self, handle: &SwarmEvents) -> (r: Option<Event>)
        requires
            old(self).wf(),
        ensures
            final(self).wf(),
            keeps_config(*old(self), *final(self)),
            final(self).peers_entries() == old(self).peers_entries(),
            final(self).conn_entries() == old(self).conn_entries(),
            final(self).spec_actions() == old(self).spec_actions(),
            final(self).spec_metrics() == old(self).spec_metrics(),
            match r {
                Option::None => {
                    &&& final(self).queues() == old(self).queues()
                    &&& old(self).queues().contains_key(handle.id()) ==> old(self).queues()[
                        handle.id()
                    ].len() == 0
                },
                Option::Some(e) => {
                    &&& old(self).queues().contains_key(handle.id())
                    &&& old(self).queues()[handle.id()].len() > 0
                    &&& e@ == old(self).queues()[handle.id()][0]
                    &&& final(self).queues() == old(self).queues().insert(
                        handle.id(),
                        old(self).queues()[handle.id()].subrange(
                            1,
                            old(self).queues()[handle.id()].len() as int,
                        ),
                    )
                },
            },
    {
        self.event_stream.next_event(handle)
    }

    /// Whether the peer currently counts as connected.
    #[verifier::loop_isolation(false)]
    pub fn is_connected(&self, peer: &PeerId) -> (r: bool)
        ensures
            r == self.spec_is_connected(*peer),
    {
        if *peer == self.local_peer_id {
            return true;
        }
        let mut i: usize = 0;
        let n = self.connections.len();
        while i < n
            invariant
                n == self.connections@.len(),
                i <= n,
                forall|j: int| 0 <= j < i ==> self.connections@[j].0 != *peer,
            decreases n - i,
        {
            if self.connections[i].0 == *peer {
                proof {
                    self.lemma_conn_entries_index(i as int);
                    lemma_alist_map_contains(self.conn_entries(), *peer);
                }
                return true;
            }
            i = i + 1;
        }
        proof {
            lemma_alist_map_contains(self.conn_entries(), *peer);
            if self.conns().contains_key(*peer) {
                let j = choose|j: int|
                    0 <= j < self.conn_entries().len() && self.conn_entries()[j].0 == *peer;
                self.lemma_conn_entries_index(j);
                assert(false);
            }
        }
        false
    }

    /// The identities of all known peers, in discovery order.
    #[verifier::loop_isolation(false)]
    pub fn peers(&self) -> (r: Vec<PeerId>)
        ensures
            r@.len() == self.peers_entries().len(),
            forall|i: int| 0 <= i < r@.len() ==> r@[i] == self.peers_entries()[i].0,
    {
        let mut r: Vec<PeerId> = Vec::new();
        let mut i: usize = 0;
        let n = self.peers.len();
        while i < n
            invariant
                n == self.peers@.len(),
                i <= n,
                r@.len() == i,
                forall|j: int| 0 <= j < i ==> r@[j] == self.peers@[j].0,
            decreases n - i,
        {
            r.push(self.peers[i].0);
            i = i + 1;
        }
        r
    }

    /// The connected peers with their active remote address, one
    /// entry per peer.
    #[verifier::loop_isolation(false)]
    pub fn connections(&self) -> (r: Vec<(PeerId, Multiaddr)>)
        ensures
            r@.len() == self.conn_entries().len(),
            forall|i: int|
                0 <= i < r@.len() ==> r@[i].0 == self.conn_entries()[i].0 && r@[i].1@
                    == self.conn_entries()[i].1,
    {
        let mut r: Vec<(PeerId, Multiaddr)> = Vec::new();
        let mut i: usize = 0;
        let n = self.connections.len();
        while i < n
            invariant
                n == self.connections@.len(),
                i <= n,
                r@.len() == i,
                forall|j: int|
                    0 <= j < i ==> r@[j].0 == self.connections@[j].0 && r@[j].1@
                        == self.connections@[j].1@,
            decreases n - i,
        {
            let addr = self.connections[i].1.clone();
            r.push((self.connections[i].0, addr));
            i = i + 1;
        }
        proof {
            assert forall|i: int| 0 <= i < r@.len() implies r@[i].0 == self.conn_entries()[i].0
                && r@[i].1@ == self.conn_entries()[i].1 by {
                self.lemma_conn_entries_index(i);
            }
        }
        r
    }

    /// The record of the peer, if it is known.
    #[verifier::loop_isolation(false)]
    pub fn info(&self, peer_id: &PeerId) -> (r: Option<&PeerInfo>)
        requires
            self.wf(),
        ensures
            match r {
                Option::Some(info) => self.has_peer(*peer_id) && *info == self.info_of(*peer_id),
                Option::None => !self.has_peer(*peer_id),
            },
    {
        let mut i: usize = 0;
        let n = self.peers.len();
        while i < n
            invariant
                n == self.peers@.len(),
                i <= n,
                forall|j: int| 0 <= j < i ==> self.peers@[j].0 != *peer_id,
            decreases n - i,
        {
            if self.peers[i].0 == *peer_id {
                proof {
                    self.lemma_peer_at(i as int);
                }
                return Some(&self.peers[i].1);
            }
            i = i + 1;
        }
        proof {
            self.lemma_no_peer(*peer_id);
        }
        None
    }

    /// The known addresses of the peer for dialing attempts, in
    /// discovery order; empty when the peer is unknown.
    #[verifier::loop_isolation(false)]
    pub fn addresses_of_peer(&self, peer_id: &PeerId) -> (r: Vec<Multiaddr>)
        requires
            self.wf(),
        ensures
            !self.has_peer(*peer_id) ==> r@.len() == 0,
            self.has_peer(*peer_id) ==> {
                &&& r@.len() == self.info_of(*peer_id).addr_entries().len()
                &&& forall|i: int|
                    0 <= i < r@.len() ==> r@[i]@ == self.info_of(*peer_id).addr_entries()[i].0
            },
    {
        let info = self.info(peer_id);
        match info {
            Option::Some(info) => {
                let addresses = info.addresses();
                let ghost entries = self.info_of(*peer_id).addr_entries();
                let mut r: Vec<Multiaddr> = Vec::new();
                let mut i: usize = 0;
                let n = addresses.len();
                while i < n
                    invariant
                        n == addresses@.len(),
                        addresses@.map_values(|p: (Multiaddr, AddressSource)| (p.0@, p.1))
                            == entries,
                        i <= n,
                        r@.len() == i,
                        forall|j: int| 0 <= j < i ==> r@[j]@ == entries[j].0,
                    decreases n - i,
                {
                    proof {
                        assert(entries[i as int] == (addresses@[i as int].0@,
                        addresses@[i as int].1));
                    }
                    let addr = addresses[i].0.clone();
                    r.push(addr);
                    i = i + 1;
                }
                r
            },
            Option::None => Vec::new(),
        }
    }
}


/// How `remove_address(p, a)` changes the peer registry of `pre`
/// into that of `post`: the normalized address leaves the peer's
/// record, nothing else moves, and the record itself stays even when
/// it becomes empty.
pub open spec fn address_removed(
    pre: AddressBook,
    post: AddressBook,
    p: PeerId,
    a: Seq<Protocol>,
) -> bool {
    let norm = spec_normalize(a, p);
    &&& (!pre.has_peer(p) ==> post.peers_entries() == pre.peers_entries())
    &&& (pre.has_peer(p) ==> {
        &&& post.has_peer(p)
        &&& post.peers_map().remove(p) == pre.peers_map().remove(p)
        &&& post.info_of(p).addrs() == pre.info_of(p).addrs().remove(norm)
        &&& post.info_of(p).spec_protocol_version() == pre.info_of(p).spec_protocol_version()
        &&& post.info_of(p).spec_agent_version() == pre.info_of(p).spec_agent_version()
        &&& post.info_of(p).spec_protocols() == pre.info_of(p).spec_protocols()
        &&& post.info_of(p).spec_rtt() == pre.info_of(p).spec_rtt()
    })
}

impl AddressBook {
    /// The index of the peer's registry entry.
    #[verifier::loop_isolation(false)]
    fn find_peer(&self, peer: &PeerId) -> (r: Option<usize>)
        ensures
            match r {
                Option::Some(i) => i < self.peers@.len() && self.peers@[i as int].0 == *peer,
                Option::None => forall|j: int|
                    0 <= j < self.peers@.len() ==> self.peers@[j].0 != *peer,
            },
    {
        let mut i: usize = 0;
        let n = self.peers.len();
        while i < n
            invariant
                n == self.peers@.len(),
                i <= n,
                forall|j: int| 0 <= j < i ==> self.peers@[j].0 != *peer,
            decreases n - i,
        {
            if self.peers[i].0 == *peer {
                return Some(i);
            }
            i = i + 1;
        }
        None
    }

    /// The index of the peer's connection tracker entry.
    #[verifier::loop_isolation(false)]
    fn find_conn(&self, peer: &PeerId) -> (r: Option<usize>)
        ensures
            match r {
                Option::Some(i) => i < self.connections@.len() && self.connections@[i as int].0
                    == *peer,
                Option::None => forall|j: int|
                    0 <= j < self.connections@.len() ==> self.connections@[j].0 != *peer,
            },
    {
        let mut i: usize = 0;
        let n = self.connections.len();
        while i < n
            invariant
                n == self.connections@.len(),
                i <= n,
                forall|j: int| 0 <= j < i ==> self.connections@[j].0 != *peer,
            decreases n - i,
        {
            if self.connections[i].0 == *peer {
                return Some(i);
            }
            i = i + 1;
        }
        None
    }

    /// Records the address as the peer's active connection,
    /// replacing any previous entry.
    fn upsert_conn(&mut self, peer: &PeerId, address: Multiaddr)
        requires
            old(self).wf(),
        ensures
            final(self).wf(),
            keeps_config(*old(self), *final(self)),
            final(self).peers_entries() == old(self).peers_entries(),
            final(self).spec_actions() == old(self).spec_actions(),
            final(self).queues() == old(self).queues(),
            final(self).spec_metrics() == old(self).spec_metrics(),
            final(self).conns() == old(self).conns().insert(*peer, address@),
    {
        let ghost pre = *old(self);
        match self.find_conn(peer) {
            Option::Some(i) => {
                self.connections.remove(i);
                proof {
                    let s = pre.connections@;
                    let t = self.connections@;
                    assert(t =~= s.remove(i as int));
                    assert forall|a: int, b: int| 0 <= a < b < t.len() implies t[a].0
                        != t[b].0 by {
                        assert(t[a] == if a < i as int { s[a] } else { s[a + 1] });
                        assert(t[b] == if b < i as int { s[b] } else { s[b + 1] });
                    }
                    assert forall|a: int| 0 <= a < t.len() implies t[a].0 != *peer by {
                        assert(t[a] == if a < i as int { s[a] } else { s[a + 1] });
                    }
                    assert(self.conn_entries() =~= pre.conn_entries().remove(i as int));
                    assert forall|a: int, b: int|
                        0 <= a < b < pre.conn_entries().len() implies pre.conn_entries()[a].0
                        != pre.conn_entries()[b].0 by {
                        pre.lemma_conn_entries_index(a);
                        pre.lemma_conn_entries_index(b);
                    }
                    pre.lemma_conn_entries_index(i as int);
                    lemma_alist_map_remove(pre.conn_entries(), i as int);
                }
            },
            Option::None => {
                proof {
                    lemma_alist_map_contains(pre.conn_entries(), *peer);
                    if pre.conns().contains_key(*peer) {
                        let j = choose|j: int|
                            0 <= j < pre.conn_entries().len() && pre.conn_entries()[j].0 == *peer;
                        pre.lemma_conn_entries_index(j);
                        assert(false);
                    }
                    assert(pre.conns().remove(*peer) =~= pre.conns());
                }
            },
        }
        let ghost mid = *self;
        proof {
            assert(mid.conns() == pre.conns().remove(*peer));
            assert(forall|j: int|
                0 <= j < mid.connections@.len() ==> mid.connections@[j].0 != *peer);
        }
        self.connections.push((*peer, address));
        proof {
            let t = self.connections@;
            assert forall|a: int, b: int| 0 <= a < b < t.len() implies t[a].0 != t[b].0 by {
                if b < t.len() - 1 {
                    assert(t[a] == mid.connections@[a]);
                    assert(t[b] == mid.connections@[b]);
                } else {
                    assert(t[a] == mid.connections@[a]);
                }
            }
            assert(self.conn_entries() =~= mid.conn_entries().push((*peer, address@)));
            lemma_alist_map_push(mid.conn_entries(), *peer, address@);
            assert(pre.conns().remove(*peer).insert(*peer, address@) =~= pre.conns().insert(
                *peer,
                address@,
            ));
        }
    }

    /// Drops the peer's active connection entry, if any.
    fn remove_conn(&mut self, peer: &PeerId)
        requires
            old(self).wf(),
        ensures
            final(self).wf(),
            keeps_config(*old(self), *final(self)),
            final(self).peers_entries() == old(self).peers_entries(),
            final(self).spec_actions() == old(self).spec_actions(),
            final(self).queues() == old(self).queues(),
            final(self).spec_metrics() == old(self).spec_metrics(),
            final(self).conns() == old(self).conns().remove(*peer),
    {
        let ghost pre = *old(self);
        match self.find_conn(peer) {
            Option::Some(i) => {
                self.connections.remove(i);
                proof {
                    let s = pre.connections@;
                    let t = self.connections@;
                    assert(t =~= s.remove(i as int));
                    assert forall|a: int, b: int| 0 <= a < b < t.len() implies t[a].0
                        != t[b].0 by {
                        assert(t[a] == if a < i as int { s[a] } else { s[a + 1] });
                        assert(t[b] == if b < i as int { s[b] } else { s[b + 1] });
                    }
                    assert(self.conn_entries() =~= pre.conn_entries().remove(i as int));
                    assert forall|a: int, b: int|
                        0 <= a < b < pre.conn_entries().len() implies pre.conn_entries()[a].0
                        != pre.conn_entries()[b].0 by {
                        pre.lemma_conn_entries_index(a);
                        pre.lemma_conn_entries_index(b);
                    }
                    pre.lemma_conn_entries_index(i as int);
                    lemma_alist_map_remove(pre.conn_entries(), i as int);
                }
            },
            Option::None => {
                proof {
                    lemma_alist_map_contains(pre.conn_entries(), *peer);
                    if pre.conns().contains_key(*peer) {
                        let j = choose|j: int|
                            0 <= j < pre.conn_entries().len() && pre.conn_entries()[j].0 == *peer;
                        pre.lemma_conn_entries_index(j);
                        assert(false);
                    }
                    assert(pre.conns().remove(*peer) =~= pre.conns());
                }
            },
        }
    }

    /// Records a discovered address for the peer under the given
    /// provenance.  The address is normalized first; the local node
    /// is never recorded, loopback addresses only when enabled; an
    /// already known address keeps its original provenance; the first
    /// accepted address creates the peer's record and announces it
    /// with one `Discovered` event.
    pub fn add_address(&mut self, peer: &PeerId, address: Multiaddr, source: AddressSource)
        requires
            old(self).wf(),
        ensures
            final(self).wf(),
            keeps_config(*old(self), *final(self)),
            final(self).conn_entries() == old(self).conn_entries(),
            final(self).spec_actions() == old(self).spec_actions(),
            address_added(*old(self), *final(self), *peer, address@, source),
            final(self).spec_metrics() == if newly_discovered(*old(self), *peer, address@) {
                Metrics {
                    discovered: gauge_inc_spec(old(self).spec_metrics().discovered),
                    ..old(self).spec_metrics()
                }
            } else {
                old(self).spec_metrics()
            },
            delivered(
                old(self).queues(),
                final(self).queues(),
                if newly_discovered(*old(self), *peer, address@) {
                    seq![EventV::Discovered(*peer)]
                } else {
                    Seq::<EventV>::empty()
                },
            ),
    {
        let ghost pre = *old(self);
        if *peer == self.local_peer_id {
            proof {
                lemma_delivered_refl(pre.queues());
            }
            return ;
        }
        if !self.enable_loopback && address.is_loopback() {
            proof {
                lemma_delivered_refl(pre.queues());
            }
            return ;
        }
        let mut address = address;
        normalize_addr(&mut address, peer);
        match self.find_peer(peer) {
            Option::Some(i) => {
                proof {
                    self.lemma_peer_at(i as int);
                }
                self.peers[i].1.add_addr(address, source);
                proof {
                    let post_info = self.peers@[i as int].1;
                    assert(self.peers@ =~= pre.peers@.update(
                        i as int,
                        (pre.peers@[i as int].0, post_info),
                    ));
                    lemma_alist_map_update(pre.peers@, i as int, post_info);
                    assert forall|a: int, b: int|
                        0 <= a < b < self.peers@.len() implies self.peers@[a].0
                        != self.peers@[b].0 by {}
                    lemma_alist_map_get(self.peers@, i as int);
                    assert(self.peers_map().remove(*peer) =~= pre.peers_map().remove(*peer));
                    lemma_delivered_refl(pre.queues());
                }
            },
            Option::None => {
                proof {
                    self.lemma_no_peer(*peer);
                }
                let mut info = PeerInfo::default();
                info.add_addr(address, source);
                self.peers.push((*peer, info));
                self.metrics.discovered = gauge_inc(self.metrics.discovered);
                self.event_stream.notify(Event::Discovered(*peer));
                proof {
                    let post_info = self.peers@[self.peers@.len() - 1].1;
                    assert(self.peers@ =~= pre.peers@.push((*peer, post_info)));
                    lemma_alist_map_push(pre.peers@, *peer, post_info);
                    assert forall|a: int, b: int|
                        0 <= a < b < self.peers@.len() implies self.peers@[a].0
                        != self.peers@[b].0 by {
                        assert(self.peers@[a] == pre.peers@[a]);
                        if b < self.peers@.len() - 1 {
                            assert(self.peers@[b] == pre.peers@[b]);
                        }
                    }
                    lemma_alist_map_get(self.peers@, self.peers@.len() - 1);
                    assert(self.peers_map().remove(*peer) =~= pre.peers_map().remove(*peer));
                    assert(post_info.addr_entries() =~= seq![
                        (spec_normalize(address@, *peer), source),
                    ]);
                }
            },
        }
    }

    /// Forgets the given address for the peer, after normalization;
    /// no effect when the peer or address is unknown, and the peer's
    /// record stays even when its last address leaves this way.
    pub fn remove_address(&mut self, peer: &PeerId, address: &Multiaddr)
        requires
            old(self).wf(),
        ensures
            final(self).wf(),
            keeps_config(*old(self), *final(self)),
            final(self).conn_entries() == old(self).conn_entries(),
            final(self).spec_actions() == old(self).spec_actions(),
            final(self).queues() == old(self).queues(),
            final(self).spec_metrics() == old(self).spec_metrics(),
            address_removed(*old(self), *final(self), *peer, address@),
    {
        let ghost pre = *old(self);
        let norm = normalize_addr_ref(address, peer);
        match self.find_peer(peer) {
            Option::Some(i) => {
                proof {
                    self.lemma_peer_at(i as int);
                }
                self.peers[i].1.remove_addr(&norm);
                proof {
                    let post_info = self.peers@[i as int].1;
                    assert(self.peers@ =~= pre.peers@.update(
                        i as int,
                        (pre.peers@[i as int].0, post_info),
                    ));
                    lemma_alist_map_update(pre.peers@, i as int, post_info);
                    assert forall|a: int, b: int|
                        0 <= a < b < self.peers@.len() implies self.peers@[a].0
                        != self.peers@[b].0 by {}
                    lemma_alist_map_get(self.peers@, i as int);
                    assert(self.peers_map().remove(*peer) =~= pre.peers_map().remove(*peer));
                }
            },
            Option::None => {
                proof {
                    self.lemma_no_peer(*peer);
                }
            },
        }
    }

    /// Feeds a round-trip measurement report for a known peer into
    /// its statistics and announces the update with one `NewInfo`
    /// event; unknown peers are ignored.
    pub fn set_rtt(&mut self, peer_id: &PeerId, rtt: Option<u64>)
        requires
            old(self).wf(),
            rtt matches Some(d) ==> d <= RTT_CEILING_MICROS,
        ensures
            final(self).wf(),
            keeps_config(*old(self), *final(self)),
            final(self).conn_entries() == old(self).conn_entries(),
            final(self).spec_actions() == old(self).spec_actions(),
            final(self).spec_metrics() == old(self).spec_metrics(),
            !old(self).has_peer(*peer_id) ==> final(self).peers_entries() == old(
                self,
            ).peers_entries() && final(self).queues() == old(self).queues(),
            old(self).has_peer(*peer_id) ==> {
                &&& final(self).has_peer(*peer_id)
                &&& final(self).peers_map().remove(*peer_id) == old(self).peers_map().remove(
                    *peer_id,
                )
                &&& final(self).info_of(*peer_id).spec_rtt() == rtt_after(
                    old(self).info_of(*peer_id).spec_rtt(),
                    rtt,
                )
                &&& final(self).info_of(*peer_id).addr_entries() == old(self).info_of(
                    *peer_id,
                ).addr_entries()
                &&& final(self).info_of(*peer_id).spec_protocol_version() == old(self).info_of(
                    *peer_id,
                ).spec_protocol_version()
                &&& final(self).info_of(*peer_id).spec_agent_version() == old(self).info_of(
                    *peer_id,
                ).spec_agent_version()
                &&& final(self).info_of(*peer_id).spec_protocols() == old(self).info_of(
                    *peer_id,
                ).spec_protocols()
                &&& delivered(
                    old(self).queues(),
                    final(self).queues(),
                    seq![EventV::NewInfo(*peer_id)],
                )
            },
    {
        let ghost pre = *old(self);
        match self.find_peer(peer_id) {
            Option::Some(i) => {
                proof {
                    self.lemma_peer_at(i as int);
                }
                self.peers[i].1.register_rtt(rtt);
                proof {
                    let post_info = self.peers@[i as int].1;
                    assert(self.peers@ =~= pre.peers@.update(
                        i as int,
                        (pre.peers@[i as int].0, post_info),
                    ));
                    lemma_alist_map_update(pre.peers@, i as int, post_info);
                    assert forall|a: int, b: int|
                        0 <= a < b < self.peers@.len() implies self.peers@[a].0
                        != self.peers@[b].0 by {}
                    lemma_alist_map_get(self.peers@, i as int);
                    assert(self.peers_map().remove(*peer_id) =~= pre.peers_map().remove(*peer_id));
                }
                self.event_stream.notify(Event::NewInfo(*peer_id));
            },
            Option::None => {
                proof {
                    self.lemma_no_peer(*peer_id);
                }
            },
        }
    }

    /// Overwrites a known peer's identify snapshot (protocol version,
    /// agent version, supported protocols); no event, and unknown
    /// peers are ignored.
    pub fn set_info(&mut self, peer_id: &PeerId, identify: IdentifyInfo)
        requires
            old(self).wf(),
        ensures
            final(self).wf(),
            keeps_config(*old(self), *final(self)),
            final(self).conn_entries() == old(self).conn_entries(),
            final(self).spec_actions() == old(self).spec_actions(),
            final(self).spec_metrics() == old(self).spec_metrics(),
            final(self).queues() == old(self).queues(),
            !old(self).has_peer(*peer_id) ==> final(self).peers_entries() == old(
                self,
            ).peers_entries(),
            old(self).has_peer(*peer_id) ==> {
                &&& final(self).has_peer(*peer_id)
                &&& final(self).peers_map().remove(*peer_id) == old(self).peers_map().remove(
                    *peer_id,
                )
                &&& final(self).info_of(*peer_id).spec_protocol_version() == Some(
                    identify.protocol_version@,
                )
                &&& final(self).info_of(*peer_id).spec_agent_version() == Some(
                    identify.agent_version@,
                )
                &&& final(self).info_of(*peer_id).spec_protocols() == identify.protocols@
                    .map_values(|s: String| s@)
                &&& final(self).info_of(*peer_id).addr_entries() == old(self).info_of(
                    *peer_id,
                ).addr_entries()
                &&& final(self).info_of(*peer_id).spec_rtt() == old(self).info_of(
                    *peer_id,
                ).spec_rtt()
            },
    {
        let ghost pre = *old(self);
        match self.find_peer(peer_id) {
            Option::Some(i) => {
                proof {
                    self.lemma_peer_at(i as int);
                }
                self.peers[i].1.apply_identify(identify);
                proof {
                    let post_info = self.peers@[i as int].1;
                    assert(self.peers@ =~= pre.peers@.update(
                        i as int,
                        (pre.peers@[i as int].0, post_info),
                    ));
                    lemma_alist_map_update(pre.peers@, i as int, post_info);
                    assert forall|a: int, b: int|
                        0 <= a < b < self.peers@.len() implies self.peers@[a].0
                        != self.peers@[b].0 by {}
                    lemma_alist_map_get(self.peers@, i as int);
                    assert(self.peers_map().remove(*peer_id) =~= pre.peers_map().remove(*peer_id));
                }
            },
            Option::None => {
                proof {
                    self.lemma_no_peer(*peer_id);
                }
            },
        }
    }
}


impl AddressBook {
    /// The runtime reports being connected to the peer: counts it and
    /// announces `Connected`.
    pub fn inject_connected(&mut self, peer_id: &PeerId)
        requires
            old(self).wf(),
        ensures
            final(self).wf(),
            keeps_config(*old(self), *final(self)),
            final(self).peers_entries() == old(self).peers_entries(),
            final(self).conn_entries() == old(self).conn_entries(),
            final(self).spec_actions() == old(self).spec_actions(),
            final(self).spec_metrics() == (Metrics {
                connected: gauge_inc_spec(old(self).spec_metrics().connected),
                ..old(self).spec_metrics()
            }),
            delivered(old(self).queues(), final(self).queues(), seq![EventV::Connected(*peer_id)]),
    {
        self.metrics.connected = gauge_inc(self.metrics.connected);
        self.event_stream.notify(Event::Connected(*peer_id));
    }

    /// The runtime reports the last connection to the peer gone:
    /// counts it and announces `Disconnected`.
    pub fn inject_disconnected(&mut self, peer_id: &PeerId)
        requires
            old(self).wf(),
        ensures
            final(self).wf(),
            keeps_config(*old(self), *final(self)),
            final(self).peers_entries() == old(self).peers_entries(),
            final(self).conn_entries() == old(self).conn_entries(),
            final(self).spec_actions() == old(self).spec_actions(),
            final(self).spec_metrics() == (Metrics {
                connected: gauge_dec_spec(old(self).spec_metrics().connected),
                ..old(self).spec_metrics()
            }),
            delivered(
                old(self).queues(),
                final(self).queues(),
                seq![EventV::Disconnected(*peer_id)],
            ),
    {
        self.metrics.connected = gauge_dec(self.metrics.connected);
        self.event_stream.notify(Event::Disconnected(*peer_id));
    }

    /// A connection to the peer was established: the remote address
    /// is normalized, recorded as peer-reported in the registry (per
    /// the `add_address` rules) and as the active connection, and
    /// `ConnectionEstablished` is announced after any `Discovered`.
    pub fn inject_connection_established(&mut self, peer_id: &PeerId, conn: &ConnectedPoint)
        requires
            old(self).wf(),
        ensures
            final(self).wf(),
            keeps_config(*old(self), *final(self)),
            final(self).spec_actions() == old(self).spec_actions(),
            final(self).conns() == old(self).conns().insert(
                *peer_id,
                spec_normalize(spec_remote_address(conn@), *peer_id),
            ),
            address_added(
                *old(self),
                *final(self),
                *peer_id,
                spec_normalize(spec_remote_address(conn@), *peer_id),
                AddressSource::Peer,
            ),
            final(self).spec_metrics() == (Metrics {
                connections: gauge_inc_spec(old(self).spec_metrics().connections),
                discovered: if newly_discovered(
                    *old(self),
                    *peer_id,
                    spec_normalize(spec_remote_address(conn@), *peer_id),
                ) {
                    gauge_inc_spec(old(self).spec_metrics().discovered)
                } else {
                    old(self).spec_metrics().discovered
                },
                ..old(self).spec_metrics()
            }),
            delivered(
                old(self).queues(),
                final(self).queues(),
                if newly_discovered(
                    *old(self),
                    *peer_id,
                    spec_normalize(spec_remote_address(conn@), *peer_id),
                ) {
                    seq![
                        EventV::Discovered(*peer_id),
                        EventV::ConnectionEstablished(*peer_id, conn@),
                    ]
                } else {
                    seq![EventV::ConnectionEstablished(*peer_id, conn@)]
                },
            ),
    {
        let ghost pre = *old(self);
        let mut address = conn.get_remote_address().clone();
        normalize_addr(&mut address, peer_id);
        proof {
            crate::addr::lemma_normalize_idempotent(spec_remote_address(conn@), *peer_id);
        }
        self.add_address(peer_id, address.clone(), AddressSource::Peer);
        let ghost s1 = *self;
        self.upsert_conn(peer_id, address);
        self.metrics.connections = gauge_inc(self.metrics.connections);
        let ghost s2 = *self;
        self.event_stream.notify(Event::ConnectionEstablished(*peer_id, conn.clone()));
        proof {
            let norm = spec_normalize(spec_remote_address(conn@), *peer_id);
            let first = if newly_discovered(pre, *peer_id, norm) {
                seq![EventV::Discovered(*peer_id)]
            } else {
                Seq::<EventV>::empty()
            };
            lemma_delivered_trans(
                pre.queues(),
                s2.queues(),
                self.queues(),
                first,
                seq![EventV::ConnectionEstablished(*peer_id, conn@)],
            );
            assert(first + seq![EventV::ConnectionEstablished(*peer_id, conn@)] =~= if
                newly_discovered(pre, *peer_id, norm) {
                seq![EventV::Discovered(*peer_id), EventV::ConnectionEstablished(*peer_id, conn@)]
            } else {
                seq![EventV::ConnectionEstablished(*peer_id, conn@)]
            });
        }
    }

    /// The peer signaled an address change on a live connection: the
    /// new remote address is normalized, recorded as peer-reported
    /// and as the active connection, and `AddressChanged` is
    /// announced after any `Discovered`.
    pub fn inject_address_change(
        &mut self,
        peer_id: &PeerId,
        old_conn: &ConnectedPoint,
        new_conn: &ConnectedPoint,
    )
        requires
            old(self).wf(),
        ensures
            final(self).wf(),
            keeps_config(*old(self), *final(self)),
            final(self).spec_actions() == old(self).spec_actions(),
            final(self).conns() == old(self).conns().insert(
                *peer_id,
                spec_normalize(spec_remote_address(new_conn@), *peer_id),
            ),
            address_added(
                *old(self),
                *final(self),
                *peer_id,
                spec_normalize(spec_remote_address(new_conn@), *peer_id),
                AddressSource::Peer,
            ),
            final(self).spec_metrics() == if newly_discovered(
                *old(self),
                *peer_id,
                spec_normalize(spec_remote_address(new_conn@), *peer_id),
            ) {
                Metrics {
                    discovered: gauge_inc_spec(old(self).spec_metrics().discovered),
                    ..old(self).spec_metrics()
                }
            } else {
                old(self).spec_metrics()
            },
            delivered(
                old(self).queues(),
                final(self).queues(),
                if newly_discovered(
                    *old(self),
                    *peer_id,
                    spec_normalize(spec_remote_address(new_conn@), *peer_id),
                ) {
                    seq![
                        EventV::Discovered(*peer_id),
                        EventV::AddressChanged(*peer_id, old_conn@, new_conn@),
                    ]
                } else {
                    seq![EventV::AddressChanged(*peer_id, old_conn@, new_conn@)]
                },
            ),
    {
        let ghost pre = *old(self);
        let mut address = new_conn.get_remote_address().clone();
        normalize_addr(&mut address, peer_id);
        proof {
            crate::addr::lemma_normalize_idempotent(spec_remote_address(new_conn@), *peer_id);
        }
        self.add_address(peer_id, address.clone(), AddressSource::Peer);
        self.upsert_conn(peer_id, address);
        let ghost s2 = *self;
        self.event_stream.notify(Event::AddressChanged(*peer_id, old_conn.clone(),
            new_conn.clone()));
        proof {
            let norm = spec_normalize(spec_remote_address(new_conn@), *peer_id);
            let first = if newly_discovered(pre, *peer_id, norm) {
                seq![EventV::Discovered(*peer_id)]
            } else {
                Seq::<EventV>::empty()
            };
            lemma_delivered_trans(
                pre.queues(),
                s2.queues(),
                self.queues(),
                first,
                seq![EventV::AddressChanged(*peer_id, old_conn@, new_conn@)],
            );
            assert(first + seq![EventV::AddressChanged(*peer_id, old_conn@, new_conn@)] =~= if
                newly_discovered(pre, *peer_id, norm) {
                seq![
                    EventV::Discovered(*peer_id),
                    EventV::AddressChanged(*peer_id, old_conn@, new_conn@),
                ]
            } else {
                seq![EventV::AddressChanged(*peer_id, old_conn@, new_conn@)]
            });
        }
    }

    /// A connection to the peer was closed: the tracker entry leaves,
    /// the connection count goes down, and `ConnectionClosed` is
    /// announced; the peer's registry record is untouched.
    pub fn inject_connection_closed(&mut self, peer_id: &PeerId, conn: &ConnectedPoint)
        requires
            old(self).wf(),
        ensures
            final(self).wf(),
            keeps_config(*old(self), *final(self)),
            final(self).peers_entries() == old(self).peers_entries(),
            final(self).spec_actions() == old(self).spec_actions(),
            final(self).conns() == old(self).conns().remove(*peer_id),
            final(self).spec_metrics() == (Metrics {
                connections: gauge_dec_spec(old(self).spec_metrics().connections),
                ..old(self).spec_metrics()
            }),
            delivered(
                old(self).queues(),
                final(self).queues(),
                seq![EventV::ConnectionClosed(*peer_id, conn@)],
            ),
    {
        self.remove_conn(peer_id);
        self.metrics.connections = gauge_dec(self.metrics.connections);
        self.event_stream.notify(Event::ConnectionClosed(*peer_id, conn.clone()));
    }

    /// A single dial attempt at one address failed.  `DialFailure` is
    /// always announced for a known peer; when the peer is still
    /// connected through another path nothing else happens, otherwise
    /// the failure is counted and, under the pruning policy, that
    /// address alone leaves the peer's record.  Without a peer the
    /// report changes nothing.
    pub fn inject_addr_reach_failure(
        &mut self,
        peer_id: Option<&PeerId>,
        addr: &Multiaddr,
        error: String,
    )
        requires
            old(self).wf(),
        ensures
            final(self).wf(),
            keeps_config(*old(self), *final(self)),
            final(self).conn_entries() == old(self).conn_entries(),
            final(self).spec_actions() == old(self).spec_actions(),
            peer_id is None ==> final(self).peers_entries() == old(self).peers_entries()
                && final(self).queues() == old(self).queues() && final(self).spec_metrics() == old(
                self,
            ).spec_metrics(),
            peer_id matches Some(p) ==> {
                &&& delivered(
                    old(self).queues(),
                    final(self).queues(),
                    seq![EventV::DialFailure(*p, addr@, error@)],
                )
                &&& (old(self).spec_is_connected(*p) ==> final(self).peers_entries() == old(
                    self,
                ).peers_entries() && final(self).spec_metrics() == old(self).spec_metrics())
                &&& (!old(self).spec_is_connected(*p) ==> {
                    &&& final(self).spec_metrics() == (Metrics {
                        address_reach_failure: counter_inc_spec(
                            old(self).spec_metrics().address_reach_failure,
                        ),
                        ..old(self).spec_metrics()
                    })
                    &&& (old(self).spec_prune_addresses() ==> address_removed(
                        *old(self),
                        *final(self),
                        *p,
                        addr@,
                    ))
                    &&& (!old(self).spec_prune_addresses() ==> final(self).peers_entries() == old(
                        self,
                    ).peers_entries())
                })
            },
    {
        let ghost pre = *old(self);
        match peer_id {
            Option::Some(p) => {
                self.event_stream.notify(Event::DialFailure(*p, addr.clone(), error));
                if self.is_connected(p) {
                    return ;
                }
                self.metrics.address_reach_failure = counter_inc(
                    self.metrics.address_reach_failure,
                );
                if self.prune_addresses {
                    self.remove_address(p, addr);
                }
            },
            Option::None => {},
        }
    }

    /// The runtime could not reach the peer through any attempted
    /// address.  Under the pruning policy a peer that meanwhile has
    /// addresses again is redialed instead; otherwise the failure is
    /// counted and a known peer is declared `Unreachable`, its record
    /// leaving the registry under the pruning policy.
    pub fn inject_dial_failure(&mut self, peer_id: &PeerId)
        requires
            old(self).wf(),
        ensures
            final(self).wf(),
            keeps_config(*old(self), *final(self)),
            final(self).conn_entries() == old(self).conn_entries(),
            (old(self).spec_prune_addresses() && old(self).has_peer(*peer_id) && old(self).info_of(
                *peer_id,
            ).has_addresses()) ==> {
                &&& final(self).peers_entries() == old(self).peers_entries()
                &&& final(self).queues() == old(self).queues()
                &&& final(self).spec_metrics() == old(self).spec_metrics()
                &&& final(self).spec_actions() == old(self).spec_actions().push(
                    Action::DialPeer(*peer_id),
                )
            },
            !(old(self).spec_prune_addresses() && old(self).has_peer(*peer_id) && old(
                self,
            ).info_of(*peer_id).has_addresses()) ==> {
                &&& final(self).spec_actions() == old(self).spec_actions()
                &&& (old(self).has_peer(*peer_id) ==> {
                    &&& final(self).spec_metrics() == (Metrics {
                        dial_failure: counter_inc_spec(old(self).spec_metrics().dial_failure),
                        discovered: gauge_dec_spec(old(self).spec_metrics().discovered),
                        ..old(self).spec_metrics()
                    })
                    &&& delivered(
                        old(self).queues(),
                        final(self).queues(),
                        seq![EventV::Unreachable(*peer_id)],
                    )
                    &&& (old(self).spec_prune_addresses() ==> final(self).peers_map() == old(
                        self,
                    ).peers_map().remove(*peer_id) && !final(self).has_peer(*peer_id))
                    &&& (!old(self).spec_prune_addresses() ==> final(self).peers_entries() == old(
                        self,
                    ).peers_entries())
                })
                &&& (!old(self).has_peer(*peer_id) ==> {
                    &&& final(self).spec_metrics() == (Metrics {
                        dial_failure: counter_inc_spec(old(self).spec_metrics().dial_failure),
                        ..old(self).spec_metrics()
                    })
                    &&& final(self).queues() == old(self).queues()
                    &&& final(self).peers_entries() == old(self).peers_entries()
                })
            },
    {
        let ghost pre = *old(self);
        if self.prune_addresses {
            match self.find_peer(peer_id) {
                Option::Some(i) => {
                    proof {
                        self.lemma_peer_at(i as int);
                    }
                    if self.peers[i].1.address_count() > 0 {
                        self.dial(peer_id);
                        return ;
                    }
                },
                Option::None => {
                    proof {
                        self.lemma_no_peer(*peer_id);
                    }
                },
            }
        }
        self.metrics.dial_failure = counter_inc(self.metrics.dial_failure);
        match self.find_peer(peer_id) {
            Option::Some(i) => {
                proof {
                    self.lemma_peer_at(i as int);
                    assert(pre.has_peer(*peer_id));
                }
                self.metrics.discovered = gauge_dec(self.metrics.discovered);
                self.event_stream.notify(Event::Unreachable(*peer_id));
                if self.prune_addresses {
                    let ghost s2 = *self;
                    self.peers.remove(i);
                    proof {
                        let s = s2.peers@;
                        let t = self.peers@;
                        assert(t =~= s.remove(i as int));
                        assert forall|a: int, b: int| 0 <= a < b < t.len() implies t[a].0
                            != t[b].0 by {
                            assert(t[a] == if a < i as int { s[a] } else { s[a + 1] });
                            assert(t[b] == if b < i as int { s[b] } else { s[b + 1] });
                        }
                        assert forall|a: int| 0 <= a < t.len() implies (#[trigger] t[a]).1.wf()
                            && t[a].0 != self.local_peer_id by {
                            assert(t[a] == if a < i as int { s[a] } else { s[a + 1] });
                        }
                        lemma_alist_map_remove(s2.peers@, i as int);
                        lemma_alist_map_contains(self.peers@, *peer_id);
                        if self.has_peer(*peer_id) {
                            let j = choose|j: int|
                                0 <= j < t.len() && t[j].0 == *peer_id;
                            assert(t[j] == if j < i as int { s[j] } else { s[j + 1] });
                            assert(false);
                        }
                    }
                }
            },
            Option::None => {
                proof {
                    self.lemma_no_peer(*peer_id);
                }
            },
        }
    }

    /// A new listener was created: counted and announced.
    pub fn inject_new_listener(&mut self, id: ListenerId)
        requires
            old(self).wf(),
        ensures
            final(self).wf(),
            keeps_config(*old(self), *final(self)),
            final(self).peers_entries() == old(self).peers_entries(),
            final(self).conn_entries() == old(self).conn_entries(),
            final(self).spec_actions() == old(self).spec_actions(),
            final(self).spec_metrics() == (Metrics {
                listeners: gauge_inc_spec(old(self).spec_metrics().listeners),
                ..old(self).spec_metrics()
            }),
            delivered(old(self).queues(), final(self).queues(), seq![EventV::NewListener(id)]),
    {
        self.metrics.listeners = gauge_inc(self.metrics.listeners);
        self.event_stream.notify(Event::NewListener(id));
    }

    /// A listener started listening on an address: counted and
    /// announced.
    pub fn inject_new_listen_addr(&mut self, id: ListenerId, addr: &Multiaddr)
        requires
            old(self).wf(),
        ensures
            final(self).wf(),
            keeps_config(*old(self), *final(self)),
            final(self).peers_entries() == old(self).peers_entries(),
            final(self).conn_entries() == old(self).conn_entries(),
            final(self).spec_actions() == old(self).spec_actions(),
            final(self).spec_metrics() == (Metrics {
                listen_addrs: gauge_inc_spec(old(self).spec_metrics().listen_addrs),
                ..old(self).spec_metrics()
            }),
            delivered(
                old(self).queues(),
                final(self).queues(),
                seq![EventV::NewListenAddr(id, addr@)],
            ),
    {
        self.metrics.listen_addrs = gauge_inc(self.metrics.listen_addrs);
        self.event_stream.notify(Event::NewListenAddr(id, addr.clone()));
    }

    /// A listener stopped listening on an address: counted and
    /// announced.
    pub fn inject_expired_listen_addr(&mut self, id: ListenerId, addr: &Multiaddr)
        requires
            old(self).wf(),
        ensures
            final(self).wf(),
            keeps_config(*old(self), *final(self)),
            final(self).peers_entries() == old(self).peers_entries(),
            final(self).conn_entries() == old(self).conn_entries(),
            final(self).spec_actions() == old(self).spec_actions(),
            final(self).spec_metrics() == (Metrics {
                listen_addrs: gauge_dec_spec(old(self).spec_metrics().listen_addrs),
                ..old(self).spec_metrics()
            }),
            delivered(
                old(self).queues(),
                final(self).queues(),
                seq![EventV::ExpiredListenAddr(id, addr@)],
            ),
    {
        self.metrics.listen_addrs = gauge_dec(self.metrics.listen_addrs);
        self.event_stream.notify(Event::ExpiredListenAddr(id, addr.clone()));
    }

    /// A listener reported a non-fatal error: counted and announced
    /// with its string-rendered description.
    pub fn inject_listener_error(&mut self, id: ListenerId, error: String)
        requires
            old(self).wf(),
        ensures
            final(self).wf(),
            keeps_config(*old(self), *final(self)),
            final(self).peers_entries() == old(self).peers_entries(),
            final(self).conn_entries() == old(self).conn_entries(),
            final(self).spec_actions() == old(self).spec_actions(),
            final(self).spec_metrics() == (Metrics {
                listener_error: counter_inc_spec(old(self).spec_metrics().listener_error),
                ..old(self).spec_metrics()
            }),
            delivered(
                old(self).queues(),
                final(self).queues(),
                seq![EventV::ListenerError(id, error@)],
            ),
    {
        self.metrics.listener_error = counter_inc(self.metrics.listener_error);
        self.event_stream.notify(Event::ListenerError(id, error));
    }

    /// A listener was closed: counted and announced.
    pub fn inject_listener_closed(&mut self, id: ListenerId)
        requires
            old(self).wf(),
        ensures
            final(self).wf(),
            keeps_config(*old(self), *final(self)),
            final(self).peers_entries() == old(self).peers_entries(),
            final(self).conn_entries() == old(self).conn_entries(),
            final(self).spec_actions() == old(self).spec_actions(),
            final(self).spec_metrics() == (Metrics {
                listeners: gauge_dec_spec(old(self).spec_metrics().listeners),
                ..old(self).spec_metrics()
            }),
            delivered(old(self).queues(), final(self).queues(), seq![EventV::ListenerClosed(id)]),
    {
        self.metrics.listeners = gauge_dec(self.metrics.listeners);
        self.event_stream.notify(Event::ListenerClosed(id));
    }

    /// A peer observed an address for the local node: normalized with
    /// the local identity, counted and announced.
    pub fn inject_new_external_addr(&mut self, addr: &Multiaddr)
        requires
            old(self).wf(),
        ensures
            final(self).wf(),
            keeps_config(*old(self), *final(self)),
            final(self).peers_entries() == old(self).peers_entries(),
            final(self).conn_entries() == old(self).conn_entries(),
            final(self).spec_actions() == old(self).spec_actions(),
            final(self).spec_metrics() == (Metrics {
                external_addrs: gauge_inc_spec(old(self).spec_metrics().external_addrs),
                ..old(self).spec_metrics()
            }),
            delivered(
                old(self).queues(),
                final(self).queues(),
                seq![
                    EventV::NewExternalAddr(spec_normalize(addr@, old(self).spec_local_peer_id())),
                ],
            ),
    {
        let mut address = addr.clone();
        normalize_addr(&mut address, &self.local_peer_id);
        self.metrics.external_addrs = gauge_inc(self.metrics.external_addrs);
        self.event_stream.notify(Event::NewExternalAddr(address));
    }

    /// An address observed earlier for the local node was retired:
    /// normalized with the local identity, counted and announced.
    pub fn inject_expired_external_addr(&mut self, addr: &Multiaddr)
        requires
            old(self).wf(),
        ensures
            final(self).wf(),
            keeps_config(*old(self), *final(self)),
            final(self).peers_entries() == old(self).peers_entries(),
            final(self).conn_entries() == old(self).conn_entries(),
            final(self).spec_actions() == old(self).spec_actions(),
            final(self).spec_metrics() == (Metrics {
                external_addrs: gauge_dec_spec(old(self).spec_metrics().external_addrs),
                ..old(self).spec_metrics()
            }),
            delivered(
                old(self).queues(),
                final(self).queues(),
                seq![
                    EventV::ExpiredExternalAddr(
                        spec_normalize(addr@, old(self).spec_local_peer_id()),
                    ),
                ],
            ),
    {
        let mut address = addr.clone();
        normalize_addr(&mut address, &self.local_peer_id);
        self.metrics.external_addrs = gauge_dec(self.metrics.external_addrs);
        self.event_stream.notify(Event::ExpiredExternalAddr(address));
    }
}


/// The metric names the book announces to a collector, in
/// registration order.
pub open spec fn metric_names() -> Seq<Seq<char>> {
    seq![
        "peers_listeners"@,
        "peers_listen_addrs"@,
        "peers_external_addrs"@,
        "peers_discovered"@,
        "peers_connected"@,
        "peers_connections"@,
        "peers_listener_error"@,
        "peers_address_reach_failure"@,
        "peers_dial_failure"@,
    ]
}

/// The position, from `k` on, of the first metric name already taken
/// in `existing`; 9 when all the remaining names are free.
pub open spec fn first_conflict_from(existing: Seq<Seq<char>>, k: int) -> int
    decreases 9 - k,
{
    if k >= 9 {
        9
    } else if existing.contains(metric_names()[k]) {
        k
    } else {
        first_conflict_from(existing, k + 1)
    }
}

/// The position of the first metric name already taken in
/// `existing`; 9 when all nine are free.
pub open spec fn first_conflict(existing: Seq<Seq<char>>) -> int {
    first_conflict_from(existing, 0)
}

/// The nine metric names are pairwise distinct.
proof fn lemma_metric_names_distinct()
    ensures
        forall|a: int, b: int| 0 <= a < b < 9 ==> metric_names()[a] != metric_names()[b],
{
    reveal_strlit("peers_listeners");
    reveal_strlit("peers_listen_addrs");
    reveal_strlit("peers_external_addrs");
    reveal_strlit("peers_discovered");
    reveal_strlit("peers_connected");
    reveal_strlit("peers_connections");
    reveal_strlit("peers_listener_error");
    reveal_strlit("peers_address_reach_failure");
    reveal_strlit("peers_dial_failure");
    assert(metric_names()[0][6] != metric_names()[4][6]);
    assert(metric_names()[1][6] != metric_names()[8][6]);
    assert(metric_names()[2][6] != metric_names()[6][6]);
    assert forall|a: int, b: int| 0 <= a < b < 9 implies metric_names()[a]
        != metric_names()[b] by {
        assert(metric_names()[0][12] != metric_names()[1][12]);
        assert(metric_names()[0] != metric_names()[1]);
        assert(metric_names()[0][6] != metric_names()[2][6]);
        assert(metric_names()[0] != metric_names()[2]);
        assert(metric_names()[0][6] != metric_names()[3][6]);
        assert(metric_names()[0] != metric_names()[3]);
        assert(metric_names()[0][6] != metric_names()[4][6]);
        assert(metric_names()[0] != metric_names()[4]);
        assert(metric_names()[0][6] != metric_names()[5][6]);
        assert(metric_names()[0] != metric_names()[5]);
        assert(metric_names()[0][14] != metric_names()[6][14]);
        assert(metric_names()[0] != metric_names()[6]);
        assert(metric_names()[0][6] != metric_names()[7][6]);
        assert(metric_names()[0] != metric_names()[7]);
        assert(metric_names()[0][6] != metric_names()[8][6]);
        assert(metric_names()[0] != metric_names()[8]);
        assert(metric_names()[1][6] != metric_names()[2][6]);
        assert(metric_names()[1] != metric_names()[2]);
        assert(metric_names()[1][6] != metric_names()[3][6]);
        assert(metric_names()[1] != metric_names()[3]);
        assert(metric_names()[1][6] != metric_names()[4][6]);
        assert(metric_names()[1] != metric_names()[4]);
        assert(metric_names()[1][6] != metric_names()[5][6]);
        assert(metric_names()[1] != metric_names()[5]);
        assert(metric_names()[1][12] != metric_names()[6][12]);
        assert(metric_names()[1] != metric_names()[6]);
        assert(metric_names()[1][6] != metric_names()[7][6]);
        assert(metric_names()[1] != metric_names()[7]);
        assert(metric_names()[1][6] != metric_names()[8][6]);
        assert(metric_names()[1] != metric_names()[8]);
        assert(metric_names()[2][6] != metric_names()[3][6]);
        assert(metric_names()[2] != metric_names()[3]);
        assert(metric_names()[2][6] != metric_names()[4][6]);
        assert(metric_names()[2] != metric_names()[4]);
        assert(metric_names()[2][6] != metric_names()[5][6]);
        assert(metric_names()[2] != metric_names()[5]);
        assert(metric_names()[2][6] != metric_names()[6][6]);
        assert(metric_names()[2] != metric_names()[6]);
        assert(metric_names()[2][6] != metric_names()[7][6]);
        assert(metric_names()[2] != metric_names()[7]);
        assert(metric_names()[2][6] != metric_names()[8][6]);
        assert(metric_names()[2] != metric_names()[8]);
        assert(metric_names()[3][6] != metric_names()[4][6]);
        assert(metric_names()[3] != metric_names()[4]);
        assert(metric_names()[3][6] != metric_names()[5][6]);
        assert(metric_names()[3] != metric_names()[5]);
        assert(metric_names()[3][6] != metric_names()[6][6]);
        assert(metric_names()[3] != metric_names()[6]);
        assert(metric_names()[3][6] != metric_names()[7][6]);
        assert(metric_names()[3] != metric_names()[7]);
        assert(metric_names()[3][8] != metric_names()[8][8]);
        assert(metric_names()[3] != metric_names()[8]);
        assert(metric_names()[4][13] != metric_names()[5][13]);
        assert(metric_names()[4] != metric_names()[5]);
        assert(metric_names()[4][6] != metric_names()[6][6]);
        assert(metric_names()[4] != metric_names()[6]);
        assert(metric_names()[4][6] != metric_names()[7][6]);
        assert(metric_names()[4] != metric_names()[7]);
        assert(metric_names()[4][6] != metric_names()[8][6]);
        assert(metric_names()[4] != metric_names()[8]);
        assert(metric_names()[5][6] != metric_names()[6][6]);
        assert(metric_names()[5] != metric_names()[6]);
        assert(metric_names()[5][6] != metric_names()[7][6]);
        assert(metric_names()[5] != metric_names()[7]);
        assert(metric_names()[5][6] != metric_names()[8][6]);
        assert(metric_names()[5] != metric_names()[8]);
        assert(metric_names()[6][6] != metric_names()[7][6]);
        assert(metric_names()[6] != metric_names()[7]);
        assert(metric_names()[6][6] != metric_names()[8][6]);
        assert(metric_names()[6] != metric_names()[8]);
        assert(metric_names()[7][6] != metric_names()[8][6]);
        assert(metric_names()[7] != metric_names()[8]);
    }
}

/// Skipping over names known to be free does not move the first
/// conflict.
proof fn lemma_first_conflict_skip(existing: Seq<Seq<char>>, k: int)
    requires
        0 <= k <= 9,
        forall|j: int| 0 <= j < k ==> !existing.contains(metric_names()[j]),
    ensures
        first_conflict_from(existing, 0) == first_conflict_from(existing, k),
    decreases k,
{
    if k > 0 {
        lemma_first_conflict_skip(existing, k - 1);
        assert(first_conflict_from(existing, k - 1) == first_conflict_from(existing, k));
    }
}

impl AddressBook {
    /// Announces the `k`-th metric name to the registry on top of the
    /// first `k` names already placed there.
    fn register_nth(
        registry: &mut MetricsRegistry,
        name: String,
        Ghost(pre): Ghost<Seq<Seq<char>>>,
        Ghost(k): Ghost<int>,
    ) -> (r: Result<(), RegisterError>)
        requires
            0 <= k < 9,
            name@ == metric_names()[k],
            old(registry).names_v() == pre + metric_names().take(k),
            forall|j: int| 0 <= j < k ==> !pre.contains(metric_names()[j]),
        ensures
            match r {
                Result::Ok(_) => !pre.contains(metric_names()[k]) && final(registry).names_v()
                    == pre + metric_names().take(k + 1),
                Result::Err(e) => pre.contains(metric_names()[k]) && final(registry).names_v()
                    == old(registry).names_v() && e == RegisterError::DuplicateName,
            },
    {
        proof {
            lemma_metric_names_distinct();
        }
        let ghost cur = registry.names_v();
        let r = registry.register(name);
        proof {
            let nm = metric_names()[k];
            match r {
                Result::Ok(_) => {
                    if pre.contains(nm) {
                        let i = choose|i: int| 0 <= i < pre.len() && pre[i] == nm;
                        assert(cur[i] == nm);
                        assert(cur.contains(nm));
                        assert(false);
                    }
                    assert(metric_names().take(k + 1) =~= metric_names().take(k).push(nm));
                    assert(registry.names_v() =~= pre + metric_names().take(k + 1));
                },
                Result::Err(_) => {
                    let i = choose|i: int| 0 <= i < cur.len() && cur[i] == nm;
                    if i < pre.len() {
                        assert(pre[i] == nm);
                        assert(pre.contains(nm));
                    } else {
                        assert(cur[i] == metric_names().take(k)[i - pre.len()]);
                        assert(cur[i] == metric_names()[i - pre.len()]);
                        assert(false);
                    }
                },
            }
        }
        r
    }

    /// Announces the nine metric names to the collector, in order,
    /// stopping at the first name already taken: that name reports a
    /// duplicate and the earlier ones stay registered.
    pub fn register_metrics(&self, registry: &mut MetricsRegistry) -> (r: Result<
        (),
        RegisterError,
    >)
        ensures
            r is Ok <==> first_conflict(old(registry).names_v()) == 9,
            final(registry).names_v() == old(registry).names_v() + metric_names().take(
                first_conflict(old(registry).names_v()),
            ),
            r matches Err(e) ==> e == RegisterError::DuplicateName,
    {
        let ghost pre = registry.names_v();
        proof {
            assert(pre + metric_names().take(0) =~= pre);
        }
        if let Err(e) = Self::register_nth(
            registry,
            String::from_str("peers_listeners"),
            Ghost(pre),
            Ghost(0),
        ) {
            proof {
                lemma_first_conflict_skip(pre, 0);
            }
            return Err(e);
        }
        if let Err(e) = Self::register_nth(
            registry,
            String::from_str("peers_listen_addrs"),
            Ghost(pre),
            Ghost(1),
        ) {
            proof {
                lemma_first_conflict_skip(pre, 1);
                assert(pre + metric_names().take(1) =~= registry.names_v());
            }
            return Err(e);
        }
        if let Err(e) = Self::register_nth(
            registry,
            String::from_str("peers_external_addrs"),
            Ghost(pre),
            Ghost(2),
        ) {
            proof {
                lemma_first_conflict_skip(pre, 2);
            }
            return Err(e);
        }
        if let Err(e) = Self::register_nth(
            registry,
            String::from_str("peers_discovered"),
            Ghost(pre),
            Ghost(3),
        ) {
            proof {
                lemma_first_conflict_skip(pre, 3);
            }
            return Err(e);
        }
        if let Err(e) = Self::register_nth(
            registry,
            String::from_str("peers_connected"),
            Ghost(pre),
            Ghost(4),
        ) {
            proof {
                lemma_first_conflict_skip(pre, 4);
            }
            return Err(e);
        }
        if let Err(e) = Self::register_nth(
            registry,
            String::from_str("peers_connections"),
            Ghost(pre),
            Ghost(5),
        ) {
            proof {
                lemma_first_conflict_skip(pre, 5);
            }
            return Err(e);
        }
        if let Err(e) = Self::register_nth(
            registry,
            String::from_str("peers_listener_error"),
            Ghost(pre),
            Ghost(6),
        ) {
            proof {
                lemma_first_conflict_skip(pre, 6);
            }
            return Err(e);
        }
        if let Err(e) = Self::register_nth(
            registry,
            String::from_str("peers_address_reach_failure"),
            Ghost(pre),
            Ghost(7),
        ) {
            proof {
                lemma_first_conflict_skip(pre, 7);
            }
            return Err(e);
        }
        if let Err(e) = Self::register_nth(
            registry,
            String::from_str("peers_dial_failure"),
            Ghost(pre),
            Ghost(8),
        ) {
            proof {
                lemma_first_conflict_skip(pre, 8);
            }
            return Err(e);
        }
        proof {
            lemma_first_conflict_skip(pre, 9);
            assert(metric_names().take(9) =~= metric_names());
        }
        Ok(())
    }
}

/// A peer is newly discovered at most once: as soon as its record
/// exists, no later accepted address can count as a discovery, so no
/// later `add_address` for it delivers another `Discovered` event.
pub proof fn lemma_discovered_once(book: AddressBook, peer: PeerId, a: Seq<Protocol>)
    ensures
        book.has_peer(peer) ==> !newly_discovered(book, peer, a),
{
}

/// The local node always counts as connected to itself, and a peer
/// that is neither the local node nor tracked with an active
/// connection never does.
pub proof fn lemma_connectivity(book: AddressBook, peer: PeerId)
    ensures
        book.spec_is_connected(book.spec_local_peer_id()),
        peer != book.spec_local_peer_id() && !book.conns().contains_key(peer)
            ==> !book.spec_is_connected(peer),
{
}

} // verus!
