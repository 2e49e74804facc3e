use peerbook::rtt::RTT_CEILING_MICROS;
use peerbook::Rtt;

#[test]
fn rtt_new_initializes_all_figures() {
    let rtt = Rtt::new(100);
    assert_eq!(rtt.current(), 100);
    assert_eq!(rtt.decay_3(), 100);
    assert_eq!(rtt.decay_10(), 100);
    assert_eq!(rtt.failures(), 0);
}

#[test]
fn rtt_register_moves_decays_by_fixed_ratios() {
    let mut rtt = Rtt::new(1000);
    rtt.register(500);
    assert_eq!(rtt.current(), 500);
    assert_eq!(rtt.decay_3(), 1000 * 7 / 10 + 500 * 3 / 10);
    assert_eq!(rtt.decay_10(), 1000 * 9 / 10 + 500 / 10);
    assert_eq!(rtt.failures(), 0);
}

#[test]
fn rtt_failure_counts_and_leaves_timings() {
    let mut rtt = Rtt::new(250);
    rtt.register(300);
    let current = rtt.current();
    let decay_3 = rtt.decay_3();
    let decay_10 = rtt.decay_10();
    rtt.register_failure();
    assert_eq!(rtt.current(), current);
    assert_eq!(rtt.decay_3(), decay_3);
    assert_eq!(rtt.decay_10(), decay_10);
    assert_eq!(rtt.failures(), 1);
    rtt.register_failure();
    assert_eq!(rtt.failures(), 2);
    rtt.register(300);
    assert_eq!(rtt.failures(), 0);
}

#[test]
fn rtt_constant_stream_converges_from_above() {
    let mut rtt = Rtt::new(1000);
    let mut i = 0;
    while i < 200 {
        rtt.register(100);
        i += 1;
    }
    assert_eq!(rtt.current(), 100);
    assert_eq!(rtt.decay_3(), 100);
    assert_eq!(rtt.decay_10(), 100);
}

#[test]
fn rtt_handles_samples_at_the_ceiling() {
    let mut rtt = Rtt::new(RTT_CEILING_MICROS);
    rtt.register(RTT_CEILING_MICROS);
    assert!(rtt.decay_3() <= RTT_CEILING_MICROS);
    assert!(rtt.decay_10() <= RTT_CEILING_MICROS);
    assert_eq!(rtt.current(), RTT_CEILING_MICROS);
}
