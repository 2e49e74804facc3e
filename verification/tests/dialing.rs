use peerbook::{
    Action, AddressBook, AddressSource, Event, Multiaddr, PeerId, Protocol, PublicKey,
};

fn new_book(enable_loopback: bool, prune_addresses: bool) -> AddressBook {
    AddressBook::new(
        PeerId(0),
        String::from("local"),
        PublicKey::new(vec![1, 2, 3]),
        enable_loopback,
        prune_addresses,
    )
}

fn ip4_tcp(a: u8, b: u8, c: u8, d: u8, port: u16) -> Multiaddr {
    Multiaddr::new(vec![Protocol::Ip4(a, b, c, d), Protocol::Tcp(port)])
}

#[test]
fn test_dial_basic() {
    let mut book = new_book(false, true);
    let stream = book.swarm_events();
    let peer_a = PeerId(1);
    let addr_1 = ip4_tcp(1, 1, 1, 1, 3333);
    let mut addr_1_2 = addr_1.clone();
    addr_1_2.push(Protocol::P2p(peer_a));
    let addr_2 = ip4_tcp(2, 2, 2, 2, 3333);
    book.add_address(&peer_a, addr_1.clone(), AddressSource::Mdns);
    book.add_address(&peer_a, addr_1_2, AddressSource::User);
    book.add_address(&peer_a, addr_2.clone(), AddressSource::Peer);
    assert_eq!(book.poll_next(&stream), Some(Event::Discovered(peer_a)));
    let peers = book.peers();
    assert_eq!(peers, vec![peer_a]);
    book.inject_addr_reach_failure(Some(&peer_a), &addr_1, String::from("my error"));
    book.inject_addr_reach_failure(Some(&peer_a), &addr_2, String::from("my error"));
    book.inject_dial_failure(&peer_a);
    assert_eq!(
        book.poll_next(&stream),
        Some(Event::DialFailure(peer_a, addr_1.clone(), String::from("my error")))
    );
    assert_eq!(
        book.poll_next(&stream),
        Some(Event::DialFailure(peer_a, addr_2.clone(), String::from("my error")))
    );
    assert_eq!(book.poll_next(&stream), Some(Event::Unreachable(peer_a)));
    let peers = book.peers();
    assert!(peers.is_empty());
}

#[test]
fn test_dial_with_added_addrs() {
    let mut book = new_book(false, true);
    let stream = book.swarm_events();
    let peer_a = PeerId(1);
    let addr_1 = ip4_tcp(1, 1, 1, 1, 3333);
    let addr_2 = ip4_tcp(2, 2, 2, 2, 3333);
    book.add_address(&peer_a, addr_1.clone(), AddressSource::Mdns);
    assert_eq!(book.poll_next(&stream), Some(Event::Discovered(peer_a)));
    book.add_address(&peer_a, addr_2.clone(), AddressSource::Peer);
    book.inject_addr_reach_failure(Some(&peer_a), &addr_1, String::from("my error"));
    book.inject_dial_failure(&peer_a);
    let peers = book.peers();
    assert_eq!(peers, vec![peer_a]);
    book.inject_addr_reach_failure(Some(&peer_a), &addr_2, String::from("my error"));
    book.inject_dial_failure(&peer_a);
    assert_eq!(
        book.poll_next(&stream),
        Some(Event::DialFailure(peer_a, addr_1.clone(), String::from("my error")))
    );
    assert_eq!(
        book.poll_next(&stream),
        Some(Event::DialFailure(peer_a, addr_2.clone(), String::from("my error")))
    );
    assert_eq!(book.poll_next(&stream), Some(Event::Unreachable(peer_a)));
    let peers = book.peers();
    assert!(peers.is_empty());
}

#[test]
fn redial_action_is_queued_when_addresses_remain() {
    let mut book = new_book(false, true);
    let peer_a = PeerId(1);
    let addr_1 = ip4_tcp(1, 1, 1, 1, 3333);
    let addr_2 = ip4_tcp(2, 2, 2, 2, 3333);
    book.add_address(&peer_a, addr_1.clone(), AddressSource::Mdns);
    book.inject_addr_reach_failure(Some(&peer_a), &addr_1, String::from("my error"));
    // a fresh address arrives before the exhaustion report
    book.add_address(&peer_a, addr_2, AddressSource::Kad);
    book.inject_dial_failure(&peer_a);
    // the peer is redialed instead of being declared unreachable
    assert_eq!(book.poll(), Some(Action::DialPeer(peer_a)));
    assert_eq!(book.poll(), None);
    assert_eq!(book.peers(), vec![peer_a]);
}

#[test]
fn dial_refuses_the_local_node() {
    let mut book = new_book(false, true);
    let local = *book.local_peer_id();
    book.dial(&local);
    assert_eq!(book.poll(), None);
    let other = PeerId(4);
    book.dial(&other);
    assert_eq!(book.poll(), Some(Action::DialPeer(other)));
    assert_eq!(book.poll(), None);
}

#[test]
fn poll_hands_actions_out_in_fifo_order() {
    let mut book = new_book(false, true);
    book.dial(&PeerId(1));
    book.dial(&PeerId(2));
    book.dial(&PeerId(3));
    assert_eq!(book.poll(), Some(Action::DialPeer(PeerId(1))));
    assert_eq!(book.poll(), Some(Action::DialPeer(PeerId(2))));
    assert_eq!(book.poll(), Some(Action::DialPeer(PeerId(3))));
    assert_eq!(book.poll(), None);
}

#[test]
fn reach_failure_while_connected_changes_nothing() {
    let mut book = new_book(false, true);
    let peer_a = PeerId(1);
    let addr_1 = ip4_tcp(1, 1, 1, 1, 3333);
    book.add_address(&peer_a, addr_1.clone(), AddressSource::Mdns);
    let conn = peerbook::ConnectedPoint::Dialer { address: addr_1.clone() };
    book.inject_connection_established(&peer_a, &conn);
    let before = book.metrics();
    book.inject_addr_reach_failure(Some(&peer_a), &addr_1, String::from("my error"));
    // still connected: the address stays and no failure is counted
    assert_eq!(book.metrics(), before);
    assert_eq!(book.addresses_of_peer(&peer_a).len(), 1);
}

#[test]
fn dial_failure_without_pruning_keeps_the_record() {
    let mut book = new_book(false, false);
    let stream = book.swarm_events();
    let peer_a = PeerId(1);
    let addr_1 = ip4_tcp(1, 1, 1, 1, 3333);
    book.add_address(&peer_a, addr_1.clone(), AddressSource::Mdns);
    book.inject_addr_reach_failure(Some(&peer_a), &addr_1, String::from("my error"));
    // without pruning the address stays
    assert_eq!(book.addresses_of_peer(&peer_a).len(), 1);
    book.inject_dial_failure(&peer_a);
    assert_eq!(book.poll_next(&stream), Some(Event::Discovered(peer_a)));
    assert!(matches!(book.poll_next(&stream), Some(Event::DialFailure(..))));
    assert_eq!(book.poll_next(&stream), Some(Event::Unreachable(peer_a)));
    // the peer is declared unreachable but its record stays
    assert_eq!(book.peers(), vec![peer_a]);
}
