use peerbook::{
    AddressBook, AddressSource, ConnectedPoint, Event, IdentifyInfo, Multiaddr, PeerId, Protocol,
    PublicKey,
};

fn new_book(enable_loopback: bool, prune_addresses: bool) -> AddressBook {
    AddressBook::new(
        PeerId(0),
        String::from("local"),
        PublicKey::new(vec![1, 2, 3]),
        enable_loopback,
        prune_addresses,
    )
}

fn ip4_tcp(a: u8, b: u8, c: u8, d: u8, port: u16) -> Multiaddr {
    Multiaddr::new(vec![Protocol::Ip4(a, b, c, d), Protocol::Tcp(port)])
}

#[test]
fn first_add_discovers_exactly_once() {
    let mut book = new_book(false, true);
    let stream = book.swarm_events();
    let peer_a = PeerId(1);
    let addr = ip4_tcp(1, 1, 1, 1, 3333);
    book.add_address(&peer_a, addr.clone(), AddressSource::Mdns);
    // the same address again, and its normalized twin: both no-ops
    book.add_address(&peer_a, addr.clone(), AddressSource::User);
    let mut suffixed = addr.clone();
    suffixed.push(Protocol::P2p(peer_a));
    book.add_address(&peer_a, suffixed, AddressSource::User);
    assert_eq!(book.poll_next(&stream), Some(Event::Discovered(peer_a)));
    assert_eq!(book.poll_next(&stream), None);
    // no duplicate entry, and the first provenance tag won
    let info = book.info(&peer_a).expect("peer is known");
    assert_eq!(info.addresses().len(), 1);
    assert_eq!(info.addresses()[0].1, AddressSource::Mdns);
}

#[test]
fn local_identity_is_never_recorded() {
    let mut book = new_book(true, true);
    let local = *book.local_peer_id();
    book.add_address(&local, ip4_tcp(1, 1, 1, 1, 80), AddressSource::User);
    assert!(book.peers().is_empty());
    assert!(book.info(&local).is_none());
}

#[test]
fn loopback_addresses_follow_the_policy() {
    let peer_a = PeerId(1);
    let loopback = ip4_tcp(127, 0, 0, 1, 80);

    let mut closed = new_book(false, true);
    let stream = closed.swarm_events();
    closed.add_address(&peer_a, loopback.clone(), AddressSource::User);
    assert!(closed.peers().is_empty());
    assert_eq!(closed.poll_next(&stream), None);

    let mut open = new_book(true, true);
    open.add_address(&peer_a, loopback, AddressSource::User);
    assert_eq!(open.peers(), vec![peer_a]);
}

#[test]
fn is_connected_for_local_unknown_and_tracked_peers() {
    let mut book = new_book(false, true);
    let local = *book.local_peer_id();
    assert!(book.is_connected(&local));
    let peer_a = PeerId(1);
    assert!(!book.is_connected(&peer_a));
    let conn = ConnectedPoint::Dialer { address: ip4_tcp(1, 1, 1, 1, 80) };
    book.inject_connection_established(&peer_a, &conn);
    assert!(book.is_connected(&peer_a));
    book.inject_connection_closed(&peer_a, &conn);
    assert!(!book.is_connected(&peer_a));
    assert!(book.is_connected(&local));
}

#[test]
fn connection_established_records_normalized_address() {
    let mut book = new_book(false, true);
    let peer_a = PeerId(1);
    let addr = ip4_tcp(1, 1, 1, 1, 80);
    let conn = ConnectedPoint::Dialer { address: addr.clone() };
    book.inject_connection_established(&peer_a, &conn);
    let mut expected = addr;
    expected.push(Protocol::P2p(peer_a));
    let conns = book.connections();
    assert_eq!(conns, vec![(peer_a, expected.clone())]);
    // the registry learned the address too, as peer-reported
    let info = book.info(&peer_a).expect("peer is known");
    assert_eq!(info.addresses(), &vec![(expected, AddressSource::Peer)]);
}

#[test]
fn address_change_replaces_the_active_address() {
    let mut book = new_book(false, true);
    let peer_a = PeerId(1);
    let old_conn = ConnectedPoint::Dialer { address: ip4_tcp(1, 1, 1, 1, 80) };
    let new_conn = ConnectedPoint::Dialer { address: ip4_tcp(2, 2, 2, 2, 80) };
    book.inject_connection_established(&peer_a, &old_conn);
    book.inject_address_change(&peer_a, &old_conn, &new_conn);
    let mut expected = ip4_tcp(2, 2, 2, 2, 80);
    expected.push(Protocol::P2p(peer_a));
    assert_eq!(book.connections(), vec![(peer_a, expected)]);
    // both addresses are known for the peer now
    assert_eq!(book.addresses_of_peer(&peer_a).len(), 2);
}

#[test]
fn set_info_overwrites_the_snapshot_for_known_peers_only() {
    let mut book = new_book(false, true);
    let peer_a = PeerId(1);
    let identify = IdentifyInfo {
        protocol_version: String::from("proto/1.0"),
        agent_version: String::from("agent/0.1"),
        protocols: vec![String::from("ping"), String::from("identify")],
    };
    // unknown peer: ignored
    book.set_info(&peer_a, identify);
    assert!(book.info(&peer_a).is_none());

    book.add_address(&peer_a, ip4_tcp(1, 1, 1, 1, 80), AddressSource::Mdns);
    let identify = IdentifyInfo {
        protocol_version: String::from("proto/1.0"),
        agent_version: String::from("agent/0.1"),
        protocols: vec![String::from("ping"), String::from("identify")],
    };
    book.set_info(&peer_a, identify);
    let info = book.info(&peer_a).expect("peer is known");
    assert_eq!(info.protocol_version(), Some(&String::from("proto/1.0")));
    assert_eq!(info.agent_version(), Some(&String::from("agent/0.1")));
    assert_eq!(info.protocols(), &vec![String::from("ping"), String::from("identify")]);
}

#[test]
fn set_rtt_updates_statistics_and_announces_new_info() {
    let mut book = new_book(false, true);
    let peer_a = PeerId(1);
    book.add_address(&peer_a, ip4_tcp(1, 1, 1, 1, 80), AddressSource::Mdns);
    let stream = book.swarm_events();

    book.set_rtt(&peer_a, Some(1000));
    assert_eq!(book.poll_next(&stream), Some(Event::NewInfo(peer_a)));
    let info = book.info(&peer_a).expect("peer is known");
    assert_eq!(info.rtt(), Some(1000));

    book.set_rtt(&peer_a, Some(500));
    assert_eq!(book.poll_next(&stream), Some(Event::NewInfo(peer_a)));
    let rtt = book.info(&peer_a).unwrap().full_rtt().expect("statistics exist");
    assert_eq!(rtt.current(), 500);
    assert_eq!(rtt.decay_3(), 1000 * 7 / 10 + 500 * 3 / 10);
    assert_eq!(rtt.decay_10(), 1000 * 9 / 10 + 500 / 10);
    assert_eq!(rtt.failures(), 0);

    book.set_rtt(&peer_a, None);
    assert_eq!(book.poll_next(&stream), Some(Event::NewInfo(peer_a)));
    let rtt = book.info(&peer_a).unwrap().full_rtt().unwrap();
    assert_eq!(rtt.current(), 500);
    assert_eq!(rtt.failures(), 1);

    // unknown peer: ignored, no event
    book.set_rtt(&PeerId(7), Some(10));
    assert_eq!(book.poll_next(&stream), None);
}

#[test]
fn remove_address_is_a_narrow_edit() {
    let mut book = new_book(false, false);
    let peer_a = PeerId(1);
    let addr = ip4_tcp(1, 1, 1, 1, 80);
    book.add_address(&peer_a, addr.clone(), AddressSource::Mdns);
    // removing an unknown address or an unknown peer is a safe no-op
    book.remove_address(&peer_a, &ip4_tcp(9, 9, 9, 9, 80));
    book.remove_address(&PeerId(7), &addr);
    assert_eq!(book.addresses_of_peer(&peer_a).len(), 1);
    // explicit removal of the last address keeps the record
    book.remove_address(&peer_a, &addr);
    assert_eq!(book.addresses_of_peer(&peer_a).len(), 0);
    assert_eq!(book.peers(), vec![peer_a]);
}

#[test]
fn accessors_report_the_configuration() {
    let book = new_book(false, true);
    assert_eq!(book.local_node_name(), &String::from("local"));
    assert_eq!(book.local_peer_id(), &PeerId(0));
    assert_eq!(book.local_public_key().bytes(), &vec![1, 2, 3]);
}

#[test]
fn empty_address_counts_as_loopback_and_normalizes_to_the_identity() {
    let peer_a = PeerId(1);
    let mut closed = new_book(false, true);
    closed.add_address(&peer_a, Multiaddr::empty(), AddressSource::User);
    assert!(closed.peers().is_empty());

    let mut open = new_book(true, true);
    open.add_address(&peer_a, Multiaddr::empty(), AddressSource::User);
    let addrs = open.addresses_of_peer(&peer_a);
    assert_eq!(addrs, vec![Multiaddr::new(vec![Protocol::P2p(peer_a)])]);
}
