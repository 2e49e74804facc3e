use peerbook::addr::{addr_eq, normalize_addr, normalize_addr_ref};
use peerbook::{Multiaddr, PeerId, Protocol};

fn ip4_tcp(a: u8, b: u8, c: u8, d: u8, port: u16) -> Multiaddr {
    Multiaddr::new(vec![Protocol::Ip4(a, b, c, d), Protocol::Tcp(port)])
}

#[test]
fn normalize_appends_missing_identity_suffix() {
    let peer = PeerId(9);
    let mut addr = ip4_tcp(1, 1, 1, 1, 3333);
    normalize_addr(&mut addr, &peer);
    assert_eq!(
        addr.segments(),
        &vec![Protocol::Ip4(1, 1, 1, 1), Protocol::Tcp(3333), Protocol::P2p(peer)]
    );
}

#[test]
fn normalize_is_idempotent() {
    let peer = PeerId(9);
    let addr = ip4_tcp(1, 1, 1, 1, 3333);
    let once = normalize_addr_ref(&addr, &peer);
    let twice = normalize_addr_ref(&once, &peer);
    assert_eq!(once, twice);
    assert!(addr_eq(&once, &twice));
}

#[test]
fn normalize_keeps_existing_identity_suffix() {
    let owner = PeerId(9);
    let other = PeerId(5);
    let mut addr = ip4_tcp(1, 1, 1, 1, 3333);
    addr.push(Protocol::P2p(other));
    let normalized = normalize_addr_ref(&addr, &owner);
    assert_eq!(normalized, addr);
}

#[test]
fn loopback_classification() {
    assert!(ip4_tcp(127, 0, 0, 1, 80).is_loopback());
    assert!(ip4_tcp(127, 255, 3, 4, 80).is_loopback());
    assert!(!ip4_tcp(8, 8, 8, 8, 80).is_loopback());
    // no leading IPv4 segment: conservatively treated as loopback
    assert!(Multiaddr::new(vec![Protocol::Tcp(80)]).is_loopback());
    assert!(Multiaddr::empty().is_loopback());
}

#[test]
fn addr_eq_is_segment_for_segment() {
    let a = ip4_tcp(1, 2, 3, 4, 80);
    let b = ip4_tcp(1, 2, 3, 4, 80);
    let c = ip4_tcp(1, 2, 3, 4, 81);
    assert!(addr_eq(&a, &b));
    assert!(!addr_eq(&a, &c));
    assert!(!addr_eq(&a, &Multiaddr::empty()));
}
