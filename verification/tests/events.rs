use peerbook::{
    AddressBook, AddressSource, Event, ListenerId, Multiaddr, PeerId, Protocol, PublicKey,
};

fn new_book() -> AddressBook {
    AddressBook::new(
        PeerId(0),
        String::from("local"),
        PublicKey::new(vec![]),
        false,
        true,
    )
}

fn ip4_tcp(a: u8, b: u8, c: u8, d: u8, port: u16) -> Multiaddr {
    Multiaddr::new(vec![Protocol::Ip4(a, b, c, d), Protocol::Tcp(port)])
}

#[test]
fn subscriber_receives_events_in_mutation_order() {
    let mut book = new_book();
    let stream = book.swarm_events();
    let peer_a = PeerId(1);
    let listener = ListenerId(3);
    let listen_addr = ip4_tcp(0, 0, 0, 0, 4001);

    book.inject_new_listener(listener);
    book.inject_new_listen_addr(listener, &listen_addr);
    book.add_address(&peer_a, ip4_tcp(1, 1, 1, 1, 80), AddressSource::Mdns);
    book.inject_connected(&peer_a);
    book.set_rtt(&peer_a, Some(100));
    book.inject_disconnected(&peer_a);
    book.inject_expired_listen_addr(listener, &listen_addr);
    book.inject_listener_closed(listener);

    assert_eq!(book.poll_next(&stream), Some(Event::NewListener(listener)));
    assert_eq!(
        book.poll_next(&stream),
        Some(Event::NewListenAddr(listener, listen_addr.clone()))
    );
    assert_eq!(book.poll_next(&stream), Some(Event::Discovered(peer_a)));
    assert_eq!(book.poll_next(&stream), Some(Event::Connected(peer_a)));
    assert_eq!(book.poll_next(&stream), Some(Event::NewInfo(peer_a)));
    assert_eq!(book.poll_next(&stream), Some(Event::Disconnected(peer_a)));
    assert_eq!(
        book.poll_next(&stream),
        Some(Event::ExpiredListenAddr(listener, listen_addr))
    );
    assert_eq!(book.poll_next(&stream), Some(Event::ListenerClosed(listener)));
    assert_eq!(book.poll_next(&stream), None);
}

#[test]
fn late_subscriber_sees_no_replay() {
    let mut book = new_book();
    let peer_a = PeerId(1);
    book.add_address(&peer_a, ip4_tcp(1, 1, 1, 1, 80), AddressSource::Mdns);
    let stream = book.swarm_events();
    assert_eq!(book.poll_next(&stream), None);
    book.inject_connected(&peer_a);
    assert_eq!(book.poll_next(&stream), Some(Event::Connected(peer_a)));
    assert_eq!(book.poll_next(&stream), None);
}

#[test]
fn dropped_subscriber_is_pruned_and_others_still_served() {
    let mut book = new_book();
    let kept = book.swarm_events();
    let dropped = book.swarm_events();
    let peer_a = PeerId(1);
    book.inject_connected(&peer_a);
    book.unsubscribe(dropped);
    // the next delivery neither fails nor reaches the dropped handle
    book.inject_disconnected(&peer_a);
    assert_eq!(book.poll_next(&kept), Some(Event::Connected(peer_a)));
    assert_eq!(book.poll_next(&kept), Some(Event::Disconnected(peer_a)));
    assert_eq!(book.poll_next(&kept), None);
}

#[test]
fn subscribers_are_independent() {
    let mut book = new_book();
    let fast = book.swarm_events();
    let slow = book.swarm_events();
    let peer_a = PeerId(1);
    book.inject_connected(&peer_a);
    book.inject_disconnected(&peer_a);
    assert_eq!(book.poll_next(&fast), Some(Event::Connected(peer_a)));
    assert_eq!(book.poll_next(&fast), Some(Event::Disconnected(peer_a)));
    // the slow reader still has the whole sequence
    assert_eq!(book.poll_next(&slow), Some(Event::Connected(peer_a)));
    assert_eq!(book.poll_next(&slow), Some(Event::Disconnected(peer_a)));
}

#[test]
fn notify_forwards_external_events() {
    let mut book = new_book();
    let stream = book.swarm_events();
    let peer_a = PeerId(1);
    book.notify(Event::Subscribed(peer_a, String::from("topic")));
    book.notify(Event::Unsubscribed(peer_a, String::from("topic")));
    assert_eq!(
        book.poll_next(&stream),
        Some(Event::Subscribed(peer_a, String::from("topic")))
    );
    assert_eq!(
        book.poll_next(&stream),
        Some(Event::Unsubscribed(peer_a, String::from("topic")))
    );
}

#[test]
fn external_addresses_are_normalized_and_announced() {
    let mut book = new_book();
    let stream = book.swarm_events();
    let addr = ip4_tcp(5, 5, 5, 5, 4001);
    let mut expected = addr.clone();
    expected.push(Protocol::P2p(*book.local_peer_id()));
    book.inject_new_external_addr(&addr);
    book.inject_expired_external_addr(&addr);
    assert_eq!(
        book.poll_next(&stream),
        Some(Event::NewExternalAddr(expected.clone()))
    );
    assert_eq!(
        book.poll_next(&stream),
        Some(Event::ExpiredExternalAddr(expected))
    );
}

#[test]
fn listener_errors_carry_the_description() {
    let mut book = new_book();
    let stream = book.swarm_events();
    let listener = ListenerId(8);
    book.inject_listener_error(listener, String::from("address in use"));
    assert_eq!(
        book.poll_next(&stream),
        Some(Event::ListenerError(listener, String::from("address in use")))
    );
}
