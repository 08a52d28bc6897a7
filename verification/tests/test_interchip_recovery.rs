use hidshift::interchip::recovery::{SpiLinkRecovery, SpiLinkRecoveryAction, SpiTransactionWatchdog};

#[test]
fn missing_startup_response_forces_a_quiet_recovery_window() {
    let mut recovery = SpiLinkRecovery::new(100, 1_500, 2_000);

    assert_eq!(recovery.advance(1_599), SpiLinkRecoveryAction::Poll);
    assert_eq!(recovery.advance(1_600), SpiLinkRecoveryAction::EnterQuiet);
    assert_eq!(recovery.advance(3_599), SpiLinkRecoveryAction::StayQuiet);
    assert_eq!(
        recovery.advance(3_600),
        SpiLinkRecoveryAction::ResumePolling
    );
    assert_eq!(recovery.advance(3_601), SpiLinkRecoveryAction::Poll);
}

#[test]
fn valid_cells_extend_the_polling_window() {
    let mut recovery = SpiLinkRecovery::new(0, 1_500, 2_000);
    recovery.observe_valid_cell(1_400);

    assert_eq!(recovery.advance(2_899), SpiLinkRecoveryAction::Poll);
    assert_eq!(recovery.advance(2_900), SpiLinkRecoveryAction::EnterQuiet);
}

#[test]
fn failed_recovery_attempt_can_start_another_quiet_window() {
    let mut recovery = SpiLinkRecovery::new(0, 10, 20);

    assert_eq!(recovery.advance(10), SpiLinkRecoveryAction::EnterQuiet);
    assert_eq!(recovery.advance(30), SpiLinkRecoveryAction::ResumePolling);
    assert_eq!(recovery.advance(40), SpiLinkRecoveryAction::EnterQuiet);
}

#[test]
fn transaction_watchdog_is_not_armed_without_a_master() {
    let watchdog = SpiTransactionWatchdog::new(1_500);

    assert!(!watchdog.timed_out(u64::MAX));
}

#[test]
fn malformed_transactions_eventually_time_out() {
    let mut watchdog = SpiTransactionWatchdog::new(1_500);
    watchdog.observe_transaction(10_000);

    assert!(!watchdog.timed_out(11_499));
    assert!(watchdog.timed_out(11_500));
}

#[test]
fn valid_cells_keep_transaction_watchdog_alive() {
    let mut watchdog = SpiTransactionWatchdog::new(1_500);
    watchdog.observe_transaction(100);
    watchdog.observe_valid_cell(1_500);

    assert!(!watchdog.timed_out(2_999));
    assert!(watchdog.timed_out(3_000));
}
