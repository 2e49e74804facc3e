//! Lifecycle events broadcast to observers.
//!
//! An event is an immutable, clonable record of one state transition:
//! listener lifecycle, address discovery and expiry, dial outcome,
//! connection lifecycle, subscription changes, or a peer-info update.
//! Errors from the external driver arrive as string-rendered
//! descriptions carried inside events, never as propagated failures.

use crate::addr::{Multiaddr, PeerId, Protocol};
use vstd::prelude::*;

verus! {

/// Identifier of one transport listener, assigned by the external
/// runtime.
#[derive(Clone, Copy, Debug, PartialEq, Eq, Hash, Structural)]
pub struct ListenerId(pub u64);

/// How a connection to a remote peer came about, with the addresses
/// involved.
#[derive(Debug, PartialEq, Eq)]
pub enum ConnectedPoint {
    /// We dialed the remote at this address.
    Dialer { address: Multiaddr },
    /// The remote dialed one of our listeners.
    Listener { local_addr: Multiaddr, send_back_addr: Multiaddr },
}

/// The abstract reading of a [`ConnectedPoint`].
pub ghost enum ConnectedPointV {
    Dialer { address: Seq<Protocol> },
    Listener { local_addr: Seq<Protocol>, send_back_addr: Seq<Protocol> },
}

impl View for ConnectedPoint {
    type V = ConnectedPointV;

    open spec fn view(&self) -> ConnectedPointV {
        match self {
            ConnectedPoint::Dialer { address } => ConnectedPointV::Dialer { address: address@ },
            ConnectedPoint::Listener { local_addr, send_back_addr } => ConnectedPointV::Listener {
                local_addr: local_addr@,
                send_back_addr: send_back_addr@,
            },
        }
    }
}

/// The remote peer's address of a connected point.
pub open spec fn spec_remote_address(cp: ConnectedPointV) -> Seq<Protocol> {
    match cp {
        ConnectedPointV::Dialer { address } => address,
        ConnectedPointV::Listener { send_back_addr, .. } => send_back_addr,
    }
}

impl ConnectedPoint {
    /// The address of the remote peer.
    pub fn get_remote_address(&self) -> (r: &Multiaddr)
        ensures
            r@ == spec_remote_address(self@),
    {
        match self {
            ConnectedPoint::Dialer { address } => address,
            ConnectedPoint::Listener { send_back_addr, .. } => send_back_addr,
        }
    }

    /// Whether we initiated the connection.
    pub fn is_dialer(&self) -> (r: bool)
        ensures
            r == (self@ is Dialer),
    {
        match self {
            ConnectedPoint::Dialer { .. } => true,
            ConnectedPoint::Listener { .. } => false,
        }
    }
}

impl Clone for ConnectedPoint {
    /// A field-for-field copy of the connected point.
    fn clone(&self) -> (r: Self)
        ensures
            r@ == self@,
    {
        match self {
            ConnectedPoint::Dialer { address } => ConnectedPoint::Dialer {
                address: address.clone(),
            },
            ConnectedPoint::Listener { local_addr, send_back_addr } => ConnectedPoint::Listener {
                local_addr: local_addr.clone(),
                send_back_addr: send_back_addr.clone(),
            },
        }
    }
}

/// One observed state transition.
#[derive(Debug, PartialEq, Eq)]
pub enum Event {
    /// A new listener has been created.
    NewListener(ListenerId),
    /// The given listener started listening on this address.
    NewListenAddr(ListenerId, Multiaddr),
    /// The given listener stopped listening on this address.
    ExpiredListenAddr(ListenerId, Multiaddr),
    /// The given listener reported an error.
    ListenerError(ListenerId, String),
    /// The given listener was closed.
    ListenerClosed(ListenerId),
    /// We received an observed address for ourselves from a peer.
    NewExternalAddr(Multiaddr),
    /// An address observed earlier for ourselves has been retired.
    ExpiredExternalAddr(Multiaddr),
    /// A first address was added for the given peer.
    Discovered(PeerId),
    /// A dialing attempt for the given peer at the given address
    /// failed.
    DialFailure(PeerId, Multiaddr, String),
    /// The peer could not be reached at any known address.
    Unreachable(PeerId),
    /// A new connection has been opened to the given peer.
    ConnectionEstablished(PeerId, ConnectedPoint),
    /// A connection to the given peer has been closed.
    ConnectionClosed(PeerId, ConnectedPoint),
    /// The given peer signaled that its address changed.
    AddressChanged(PeerId, ConnectedPoint, ConnectedPoint),
    /// We are now connected to the given peer.
    Connected(PeerId),
    /// The last connection to the given peer has been closed.
    Disconnected(PeerId),
    /// The given peer subscribed to the given topic.
    Subscribed(PeerId, String),
    /// The given peer unsubscribed from the given topic.
    Unsubscribed(PeerId, String),
    /// The peer-info for the given peer has been updated.
    NewInfo(PeerId),
}

/// The abstract reading of an [`Event`].
pub ghost enum EventV {
    NewListener(ListenerId),
    NewListenAddr(ListenerId, Seq<Protocol>),
    ExpiredListenAddr(ListenerId, Seq<Protocol>),
    ListenerError(ListenerId, Seq<char>),
    ListenerClosed(ListenerId),
    NewExternalAddr(Seq<Protocol>),
    ExpiredExternalAddr(Seq<Protocol>),
    Discovered(PeerId),
    DialFailure(PeerId, Seq<Protocol>, Seq<char>),
    Unreachable(PeerId),
    ConnectionEstablished(PeerId, ConnectedPointV),
    ConnectionClosed(PeerId, ConnectedPointV),
    AddressChanged(PeerId, ConnectedPointV, ConnectedPointV),
    Connected(PeerId),
    Disconnected(PeerId),
    Subscribed(PeerId, Seq<char>),
    Unsubscribed(PeerId, Seq<char>),
    NewInfo(PeerId),
}

impl View for Event {
    type V = EventV;

    open spec fn view(&self) -> EventV {
        match self {
            Event::NewListener(id) => EventV::NewListener(*id),
            Event::NewListenAddr(id, a) => EventV::NewListenAddr(*id, a@),
            Event::ExpiredListenAddr(id, a) => EventV::ExpiredListenAddr(*id, a@),
            Event::ListenerError(id, e) => EventV::ListenerError(*id, e@),
            Event::ListenerClosed(id) => EventV::ListenerClosed(*id),
            Event::NewExternalAddr(a) => EventV::NewExternalAddr(a@),
            Event::ExpiredExternalAddr(a) => EventV::ExpiredExternalAddr(a@),
            Event::Discovered(p) => EventV::Discovered(*p),
            Event::DialFailure(p, a, e) => EventV::DialFailure(*p, a@, e@),
            Event::Unreachable(p) => EventV::Unreachable(*p),
            Event::ConnectionEstablished(p, cp) => EventV::ConnectionEstablished(*p, cp@),
            Event::ConnectionClosed(p, cp) => EventV::ConnectionClosed(*p, cp@),
            Event::AddressChanged(p, o, n) => EventV::AddressChanged(*p, o@, n@),
            Event::Connected(p) => EventV::Connected(*p),
            Event::Disconnected(p) => EventV::Disconnected(*p),
            Event::Subscribed(p, t) => EventV::Subscribed(*p, t@),
            Event::Unsubscribed(p, t) => EventV::Unsubscribed(*p, t@),
            Event::NewInfo(p) => EventV::NewInfo(*p),
        }
    }
}

/// The abstract readings of a sequence of events, in order.
pub open spec fn views_of(s: Seq<Event>) -> Seq<EventV> {
    s.map_values(|e: Event| e@)
}

impl Clone for Event {
    /// A field-for-field copy of the event.
    fn clone(&self) -> (r: Self)
        ensures
            r@ == self@,
    {
        match self {
            Event::NewListener(id) => Event::NewListener(*id),
            Event::NewListenAddr(id, a) => Event::NewListenAddr(*id, a.clone()),
            Event::ExpiredListenAddr(id, a) => Event::ExpiredListenAddr(*id, a.clone()),
            Event::ListenerError(id, e) => Event::ListenerError(*id, e.clone()),
            Event::ListenerClosed(id) => Event::ListenerClosed(*id),
            Event::NewExternalAddr(a) => Event::NewExternalAddr(a.clone()),
            Event::ExpiredExternalAddr(a) => Event::ExpiredExternalAddr(a.clone()),
            Event::Discovered(p) => Event::Discovered(*p),
            Event::DialFailure(p, a, e) => Event::DialFailure(*p, a.clone(), e.clone()),
            Event::Unreachable(p) => Event::Unreachable(*p),
            Event::ConnectionEstablished(p, cp) => Event::ConnectionEstablished(*p, cp.clone()),
            Event::ConnectionClosed(p, cp) => Event::ConnectionClosed(*p, cp.clone()),
            Event::AddressChanged(p, o, n) => Event::AddressChanged(*p, o.clone(), n.clone()),
            Event::Connected(p) => Event::Connected(*p),
            Event::Disconnected(p) => Event::Disconnected(*p),
            Event::Subscribed(p, t) => Event::Subscribed(*p, t.clone()),
            Event::Unsubscribed(p, t) => Event::Unsubscribed(*p, t.clone()),
            Event::NewInfo(p) => Event::NewInfo(*p),
        }
    }
}

} // verus!
