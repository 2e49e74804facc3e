use peerbook::{
    AddressBook, AddressSource, ConnectedPoint, ListenerId, Metrics, MetricsRegistry, Multiaddr,
    PeerId, Protocol, PublicKey, RegisterError,
};

fn new_book(prune_addresses: bool) -> AddressBook {
    AddressBook::new(
        PeerId(0),
        String::from("local"),
        PublicKey::new(vec![]),
        false,
        prune_addresses,
    )
}

fn ip4_tcp(a: u8, b: u8, c: u8, d: u8, port: u16) -> Multiaddr {
    Multiaddr::new(vec![Protocol::Ip4(a, b, c, d), Protocol::Tcp(port)])
}

#[test]
fn counts_start_at_zero() {
    let book = new_book(true);
    let m = book.metrics();
    assert_eq!(m, Metrics::new());
    assert_eq!(m.listeners, 0);
    assert_eq!(m.dial_failure, 0);
}

#[test]
fn listener_and_address_gauges_move_with_the_callbacks() {
    let mut book = new_book(true);
    let listener = ListenerId(1);
    let addr = ip4_tcp(0, 0, 0, 0, 4001);
    book.inject_new_listener(listener);
    book.inject_new_listen_addr(listener, &addr);
    book.inject_new_external_addr(&addr);
    assert_eq!(book.metrics().listeners, 1);
    assert_eq!(book.metrics().listen_addrs, 1);
    assert_eq!(book.metrics().external_addrs, 1);
    book.inject_expired_listen_addr(listener, &addr);
    book.inject_expired_external_addr(&addr);
    book.inject_listener_closed(listener);
    assert_eq!(book.metrics().listeners, 0);
    assert_eq!(book.metrics().listen_addrs, 0);
    assert_eq!(book.metrics().external_addrs, 0);
    book.inject_listener_error(listener, String::from("oops"));
    assert_eq!(book.metrics().listener_error, 1);
}

#[test]
fn peer_and_connection_counts_follow_the_lifecycle() {
    let mut book = new_book(true);
    let peer_a = PeerId(1);
    book.add_address(&peer_a, ip4_tcp(1, 1, 1, 1, 80), AddressSource::Mdns);
    assert_eq!(book.metrics().discovered, 1);
    let conn = ConnectedPoint::Dialer { address: ip4_tcp(1, 1, 1, 1, 80) };
    book.inject_connection_established(&peer_a, &conn);
    book.inject_connected(&peer_a);
    assert_eq!(book.metrics().connections, 1);
    assert_eq!(book.metrics().connected, 1);
    book.inject_connection_closed(&peer_a, &conn);
    book.inject_disconnected(&peer_a);
    assert_eq!(book.metrics().connections, 0);
    assert_eq!(book.metrics().connected, 0);
    book.inject_addr_reach_failure(
        Some(&peer_a),
        &ip4_tcp(1, 1, 1, 1, 80),
        String::from("unreachable"),
    );
    assert_eq!(book.metrics().address_reach_failure, 1);
    book.inject_dial_failure(&peer_a);
    assert_eq!(book.metrics().dial_failure, 1);
    assert_eq!(book.metrics().discovered, 0);
}

#[test]
fn register_metrics_accepts_a_fresh_registry_once() {
    let book = new_book(true);
    let mut registry = MetricsRegistry::new();
    assert!(book.register_metrics(&mut registry).is_ok());
    assert_eq!(registry.len(), 9);
    // a second registration conflicts on the first name and adds
    // nothing
    assert_eq!(
        book.register_metrics(&mut registry),
        Err(RegisterError::DuplicateName)
    );
    assert_eq!(registry.len(), 9);
}

#[test]
fn register_reports_each_duplicate_name() {
    let mut registry = MetricsRegistry::new();
    assert!(registry.register(String::from("peers_listeners")).is_ok());
    assert_eq!(
        registry.register(String::from("peers_listeners")),
        Err(RegisterError::DuplicateName)
    );
    assert!(registry.register(String::from("peers_connected")).is_ok());
    assert_eq!(registry.len(), 2);
}
