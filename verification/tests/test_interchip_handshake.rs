use hidshift::interchip::handshake::{SpiReadyAction, SpiReadyHandshake};

#[test]
fn first_armed_level_starts_one_transaction_only() {
    let mut handshake = SpiReadyHandshake::new(5);

    assert_eq!(handshake.observe(false, false, 10), SpiReadyAction::Wait);
    assert_eq!(handshake.observe(true, false, 10), SpiReadyAction::Transfer);
    handshake.mark_transfer_started(10);
    assert_eq!(handshake.observe(true, false, 14), SpiReadyAction::Wait);
}

#[test]
fn deassertion_must_be_observed_before_the_next_transaction() {
    let mut handshake = SpiReadyHandshake::new(5);
    assert_eq!(handshake.observe(true, false, 10), SpiReadyAction::Transfer);
    handshake.mark_transfer_started(10);

    assert_eq!(handshake.observe(false, true, 11), SpiReadyAction::Wait);
    assert_eq!(handshake.observe(true, false, 12), SpiReadyAction::Transfer);
}

#[test]
fn latched_low_pulse_allows_an_already_rearmed_device() {
    let mut handshake = SpiReadyHandshake::new(5);
    assert_eq!(handshake.observe(true, false, 10), SpiReadyAction::Transfer);
    handshake.mark_transfer_started(10);

    // The Device completed, drove READY low, rearmed DMA, and returned
    // READY high between two Host samples. The falling-edge latch keeps
    // that short deassertion observable.
    assert_eq!(handshake.observe(true, true, 11), SpiReadyAction::Transfer);
    handshake.mark_transfer_started(11);
    assert_eq!(handshake.observe(true, false, 12), SpiReadyAction::Wait);
}

#[test]
fn a_spurious_edge_while_waiting_for_initial_ready_does_not_start() {
    let mut handshake = SpiReadyHandshake::new(5);

    assert_eq!(handshake.observe(false, true, 10), SpiReadyAction::Wait);
    assert_eq!(handshake.observe(true, false, 11), SpiReadyAction::Transfer);
}

#[test]
fn preparation_cancel_does_not_consume_the_ready_cycle() {
    let mut handshake = SpiReadyHandshake::new(5);

    assert_eq!(handshake.observe(true, false, 10), SpiReadyAction::Transfer);
    assert_eq!(handshake.observe(true, false, 11), SpiReadyAction::Transfer);
    handshake.mark_transfer_started(11);
    assert_eq!(handshake.observe(true, false, 12), SpiReadyAction::Wait);
}

#[test]
fn failed_transfer_can_retry_the_same_armed_device() {
    let mut handshake = SpiReadyHandshake::new(5);
    assert_eq!(handshake.observe(true, false, 10), SpiReadyAction::Transfer);
    handshake.mark_transfer_started(10);

    handshake.cancel_transfer();

    assert_eq!(handshake.observe(true, false, 11), SpiReadyAction::Transfer);
}

#[test]
fn armed_device_recovers_when_a_short_deassertion_edge_is_missed() {
    let mut handshake = SpiReadyHandshake::new(5);
    assert_eq!(handshake.observe(true, false, 10), SpiReadyAction::Transfer);
    handshake.mark_transfer_started(10);

    assert_eq!(handshake.observe(true, false, 14), SpiReadyAction::Wait);
    assert_eq!(
        handshake.observe(true, false, 15),
        SpiReadyAction::RecoverTransfer
    );
    handshake.mark_transfer_started(15);
    assert_eq!(handshake.observe(true, false, 19), SpiReadyAction::Wait);
}
