use hidshift::link::watchdog::LinkWatchdog;

#[test]
fn link_loss_emits_one_release_until_a_packet_reconnects() {
    let mut watchdog = LinkWatchdog::new(20);
    watchdog.observe_packet(100);
    assert!(!watchdog.take_release_required(119));
    assert!(watchdog.take_release_required(120));
    assert!(!watchdog.take_release_required(121));
    watchdog.observe_packet(130);
    assert!(watchdog.take_release_required(150));
}
