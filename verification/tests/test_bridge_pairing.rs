use hidshift::bridge::pairing::PairingMode;
use hidshift::ids::HostId;

#[test]
fn pairing_mode_tracks_one_slot_with_expiry() {
    let mut pairing = PairingMode::new();
    pairing.enter(HostId(2), 100, 3_000);

    assert!(pairing.is_open_for(HostId(2)));
    assert_eq!(pairing.tick(3_099), None);
    assert_eq!(pairing.tick(3_100), Some(HostId(2)));
    assert!(!pairing.is_open_for(HostId(2)));
}

#[test]
fn entering_new_slot_replaces_old_pairing_window() {
    let mut pairing = PairingMode::new();
    pairing.enter(HostId(1), 0, 1_000);
    pairing.enter(HostId(3), 10, 2_000);

    assert!(!pairing.is_open_for(HostId(1)));
    assert!(pairing.is_open_for(HostId(3)));
}

#[test]
fn clearing_active_slot_cancels_pairing_window() {
    let mut pairing = PairingMode::new();
    pairing.enter(HostId(1), 50, 500);
    pairing.clear_host(HostId(1));

    assert_eq!(pairing.current(), None);
}
