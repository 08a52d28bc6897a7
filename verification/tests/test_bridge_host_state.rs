use hidshift::bridge::host_state::{BleHostStateMachine, ReportReady};
use hidshift::ids::HostId;
use hidshift::reports::ReportKind;
use hidshift::storage::{FixedName, StorageState, StoredBond, StoredHostProfile};

const HOST_A: HostId = HostId(1);
const HOST_B: HostId = HostId(2);

#[test]
fn notify_readiness_uses_session_cccd_not_just_stored_profile() {
    let mut hosts = BleHostStateMachine::<2>::new();

    hosts
        .on_cccd_changed(HOST_A, ReportKind::Keyboard, true)
        .unwrap();
    assert!(!hosts.can_send(HOST_A, ReportKind::Keyboard));

    hosts.on_connected(HOST_A).unwrap();
    hosts
        .on_security_changed(HOST_A, true, false, None)
        .unwrap();
    assert!(!hosts.can_send(HOST_A, ReportKind::Keyboard));

    hosts.on_security_changed(HOST_A, true, true, None).unwrap();
    assert!(hosts.can_send(HOST_A, ReportKind::Keyboard));
}

#[test]
fn disconnect_clears_session_but_keeps_persisted_cccd() {
    let mut hosts = BleHostStateMachine::<2>::new();
    hosts.on_connected(HOST_A).unwrap();
    hosts.on_security_changed(HOST_A, true, true, None).unwrap();
    hosts
        .on_cccd_changed(HOST_A, ReportKind::Keyboard, true)
        .unwrap();

    hosts.on_disconnected(HOST_A);

    let host = hosts.host(HOST_A).unwrap();
    assert_eq!(host.session_report_ready, ReportReady::default());
    assert!(host.stored_report_ready.keyboard);
    assert!(!hosts.can_send(HOST_A, ReportKind::Keyboard));

    let snapshot = hosts.storage_state(7).unwrap();
    assert!(snapshot.hosts()[0].keyboard_cccd_enabled);
}

#[test]
fn restore_rehydrates_stored_cccd_and_bond_for_next_encrypted_session() {
    let mut storage = StorageState::new(3);
    storage.last_active_host = Some(HOST_B);
    storage
        .push_host(StoredHostProfile {
            host_id: HOST_B,
            bonded: true,
            keyboard_cccd_enabled: true,
            mouse_cccd_enabled: false,
            consumer_cccd_enabled: true,
            keyboard_output_cccd_enabled: false,
            name: FixedName::empty(),
            bond: None,
        })
        .unwrap();
    let mut hosts = BleHostStateMachine::<2>::new();

    hosts.restore(&storage).unwrap();
    assert_eq!(hosts.active_target(), Some(HOST_B));
    assert!(!hosts.can_send(HOST_B, ReportKind::Keyboard));

    hosts.on_connected(HOST_B).unwrap();
    hosts.on_security_changed(HOST_B, true, true, None).unwrap();

    assert!(hosts.can_send(HOST_B, ReportKind::Keyboard));
    assert!(hosts.can_send(HOST_B, ReportKind::Consumer));
    assert!(!hosts.can_send(HOST_B, ReportKind::Mouse));
}

#[test]
fn security_event_without_bond_payload_keeps_restored_bond() {
    let stored_bond = StoredBond {
        peer_address: [1, 2, 3, 4, 5, 6],
        peer_address_kind: hidshift::storage::StoredAddressKind::Public,
        peer_irk: None,
        ltk: [0x42; 16],
        is_bonded: true,
        security_level: hidshift::storage::StoredSecurityLevel::Encrypted,
    };
    let mut storage = StorageState::new(3);
    storage
        .push_host(StoredHostProfile {
            host_id: HOST_A,
            bonded: true,
            keyboard_cccd_enabled: true,
            mouse_cccd_enabled: false,
            consumer_cccd_enabled: false,
            keyboard_output_cccd_enabled: false,
            name: FixedName::empty(),
            bond: Some(stored_bond),
        })
        .unwrap();
    let mut hosts = BleHostStateMachine::<2>::new();

    hosts.restore(&storage).unwrap();
    hosts.on_connected(HOST_A).unwrap();
    let persist = hosts
        .on_security_changed(HOST_A, true, false, None)
        .unwrap();

    assert!(!persist);
    assert!(hosts.can_send(HOST_A, ReportKind::Keyboard));
    let snapshot = hosts.storage_state(4).unwrap();
    assert!(snapshot.hosts()[0].bonded);
    assert_eq!(snapshot.hosts()[0].bond, Some(stored_bond));
}

#[test]
fn next_connected_target_cycles_across_connected_hosts() {
    let mut hosts = BleHostStateMachine::<3>::new();
    hosts.on_connected(HOST_A).unwrap();
    hosts.on_connected(HOST_B).unwrap();
    hosts.set_active_target(HOST_A).unwrap();

    assert_eq!(hosts.next_connected_target(), Some(HOST_B));

    hosts.set_active_target(HOST_B).unwrap();
    assert_eq!(hosts.next_connected_target(), Some(HOST_A));
}

#[test]
fn next_connected_target_skips_disconnected_hosts() {
    let mut hosts = BleHostStateMachine::<3>::new();
    hosts.on_connected(HOST_A).unwrap();
    hosts.on_connected(HOST_B).unwrap();
    hosts.on_disconnected(HOST_A);
    hosts.set_active_target(HOST_A).unwrap();

    assert_eq!(hosts.next_connected_target(), Some(HOST_B));
}

#[test]
fn pairing_candidate_prefers_active_unbonded_host() {
    let mut hosts = BleHostStateMachine::<4>::new();
    hosts.set_active_target(HOST_B).unwrap();

    assert_eq!(hosts.pairing_candidate(), Some(HOST_B));
}

#[test]
fn pairing_candidate_uses_first_free_host_after_bonded_active_host() {
    let mut hosts = BleHostStateMachine::<4>::new();
    hosts.set_active_target(HOST_A).unwrap();
    hosts.on_security_changed(HOST_A, true, true, None).unwrap();

    assert_eq!(hosts.pairing_candidate(), Some(HOST_B));
}

#[test]
fn pairing_candidate_does_not_replace_a_bond_when_all_hosts_are_full() {
    let mut hosts = BleHostStateMachine::<2>::new();
    hosts.set_active_target(HOST_A).unwrap();
    hosts.on_security_changed(HOST_A, true, true, None).unwrap();
    hosts.on_security_changed(HOST_B, true, true, None).unwrap();

    assert_eq!(hosts.pairing_candidate(), None);
}
