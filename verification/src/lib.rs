//! In-memory peer and address bookkeeping for a peer-to-peer node.
//!
//! The crate keeps the authoritative record of known peers, their
//! addresses with discovery provenance, active connections and
//! round-trip-time statistics, and drives dial/redial/prune decisions
//! in response to connection lifecycle callbacks.  Observers receive a
//! consistent event stream through a fan-out bus.

mod alist;

pub mod book;
pub mod metrics;

pub mod addr;
pub mod bus;
pub mod event;
pub mod peer_info;
pub mod rtt;

pub use addr::{Multiaddr, PeerId, Protocol};
pub use book::{Action, AddressBook, PublicKey};
pub use metrics::{Metrics, MetricsRegistry, RegisterError};
pub use bus::SwarmEvents;
pub use event::{ConnectedPoint, Event, ListenerId};
pub use peer_info::{AddressSource, IdentifyInfo, PeerInfo};
pub use rtt::Rtt;
