use hidshift::ble::{
    bridge_events_from_ble_host_event, BleHidAttribute, BleHostAdapterError, BleHostAdapterEvent,
};
use hidshift::ble_connection::{
    BleConnectionSlotError, BleConnectionSlots, BlePeerIdentity,
};
use hidshift::bounded::BoundedVec;
use hidshift::bridge::{
    BleHostStateMachine, Bridge, BridgeAction, BridgeError, BridgeEvent, BridgeStatus,
    HostStateError, NotifyReason,
};
use hidshift::dispatch::{
    active_hosts, ble_send_step, ensure_capacity, queue_result, status_send_step, task_command,
    wired_response_line, BleCommandLane, BleSendStep, ChannelTaskSendError, CommandClass,
    PendingStatus, PendingUsbCommands, QueueSpace, StatusSendStep, TaskCommand,
};
use hidshift::domain::destination::{DestinationError, DestinationId, DestinationRegistry};
use hidshift::domain::input_profile::{
    InputIdentity, InputProfile, InputProfileError, InputProfileId, InputProfileRegistry,
};
use hidshift::domain::revision::{ChangeSet, Revisions};
use hidshift::domain::update::{
    FirmwareNode, FirmwareUpdate, FirmwareUpdateError, FirmwareUpdatePhase, ImageMetadata,
    UpdateTarget,
};
use hidshift::e2e::{E2eCommand, E2ePacket, E2eProtocolError};
use hidshift::e2e_mirror::{
    raw_injection_transfer_id, MirrorE2eError, MirrorE2ePacket, MirrorRawInjectionError,
    MirrorRawInjectionReceiver,
};
use hidshift::espnow_pairing::{
    generation_is_newer, EspNowPairing, EspNowPairingError, EspNowPairingTransaction, EspNowRole,
};
use hidshift::espnow_pairing_management::{
    EspNowPairingAction, EspNowPairingCommand, EspNowPairingResult, EspNowPairingService,
};
use hidshift::espnow_security::{
    derive_session_key, EspNowSecurityError, SecureEspNowFrame, SECURE_PAYLOAD_MAX,
};
use hidshift::ids::{DeviceId, HostId, InterfaceId};
use hidshift::input::{
    ConsumerFrame, ConsumerUsage, HidDirection, InputAggregator, InputError, InputFrame, KeyUsage,
    KeyboardFrame, KeyboardLedState, ModifierState, MouseButton, MouseButtons, MouseFrame,
    MouseMovement, StandardInputFrame, UsbMovementCoalescer, UsbMovementCoalescerError,
    VendorHidFrame,
};
use hidshift::management::{
    ManagementCommand, ManagementDestination, ManagementResponse, ManagementResponsePayload,
    ManagementResult,
};
use hidshift::parse_version_component;
use hidshift::reports::{
    notifications_for_input_report, BleHidNotificationError, BleHidReport, BleKeyboard6KroReport,
    BleKeyboardOutputError, BleMouseReport, ConsumerReport, ReportKind,
};
use hidshift::runtime::{
    BleTaskCommand, ManagementTaskResponse, StatusTaskCommand, StorageTaskCommand, UsbTaskCommand,
};
use hidshift::settings::InputSettings;
use hidshift::storage::{FixedName, StorageError, StorageState, StoredHostProfile};

const HOST_A: HostId = HostId(1);
const HOST_B: HostId = HostId(2);

fn keys(usages: &[u8]) -> StandardInputFrame {
    let mut keyboard = KeyboardFrame::new(ModifierState::empty());
    for usage in usages {
        keyboard.push_key(KeyUsage(*usage)).unwrap();
    }
    StandardInputFrame {
        device_id: DeviceId(1),
        interface_id: InterfaceId(1),
        keyboard: Some(keyboard),
        mouse: None,
        consumer: None,
    }
}

fn ready_bridge() -> Bridge<4> {
    let mut bridge = Bridge::<4>::new();
    let mut actions = BoundedVec::<BridgeAction, 16>::new();
    for host_id in [HOST_A, HOST_B] {
        for event in [
            BridgeEvent::HostConnected { host_id },
            BridgeEvent::HostSecurityChanged {
                host_id,
                encrypted: true,
                bonded: true,
                bond: None,
            },
            BridgeEvent::CccdChanged { host_id, report: ReportKind::Keyboard, enabled: true },
            BridgeEvent::CccdChanged { host_id, report: ReportKind::Mouse, enabled: true },
        ] {
            bridge.handle_event(event, &mut actions).unwrap();
        }
    }
    bridge.handle_event(BridgeEvent::SwitchTarget { target: HOST_A }, &mut actions).unwrap();
    bridge
}

#[test]
fn switching_releases_the_old_host_and_hides_what_is_held() {
    let mut bridge = ready_bridge();
    let mut actions = BoundedVec::<BridgeAction, 16>::new();
    let press = BridgeEvent::InputFrame(InputFrame::Standard(keys(&[4])));
    bridge.handle_event(press.clone(), &mut actions).unwrap();
    bridge.handle_event(BridgeEvent::SwitchTarget { target: HOST_B }, &mut actions).unwrap();
    assert_eq!(
        actions.as_slice(),
        &[
            BridgeAction::BleNotify {
                host_id: HOST_A,
                report: BleHidReport::Keyboard(BleKeyboard6KroReport::release()),
                reason: NotifyReason::TargetSwitchRelease,
            },
            BridgeAction::BleNotify {
                host_id: HOST_A,
                report: BleHidReport::Mouse(BleMouseReport::release_buttons()),
                reason: NotifyReason::TargetSwitchRelease,
            },
            BridgeAction::ActivateInput { host_id: HOST_B },
            BridgeAction::PersistProfiles,
            BridgeAction::StatusChanged(BridgeStatus {
                active_target: Some(HOST_B),
                pairable_host: None,
            }),
        ]
    );
    bridge.handle_event(press, &mut actions).unwrap();
    assert_eq!(
        actions.as_slice(),
        &[BridgeAction::BleNotify {
            host_id: HOST_B,
            report: BleHidReport::Keyboard(BleKeyboard6KroReport::release()),
            reason: NotifyReason::Input,
        }]
    );
    let release = BridgeEvent::InputFrame(InputFrame::Standard(keys(&[])));
    bridge.handle_event(release, &mut actions).unwrap();
    let press = BridgeEvent::InputFrame(InputFrame::Standard(keys(&[4])));
    bridge.handle_event(press, &mut actions).unwrap();
    assert_eq!(
        actions.as_slice(),
        &[BridgeAction::BleNotify {
            host_id: HOST_B,
            report: BleHidReport::Keyboard(BleKeyboard6KroReport::from_bytes([
                0, 0, 4, 0, 0, 0, 0, 0
            ])),
            reason: NotifyReason::Input,
        }]
    );
}

#[test]
fn failed_events_change_nothing() {
    let mut bridge = ready_bridge();
    let before = bridge.clone();
    let mut actions = BoundedVec::<BridgeAction, 1>::new();
    actions.push(BridgeAction::PersistProfiles).unwrap();
    assert_eq!(
        bridge.handle_event(BridgeEvent::SwitchTarget { target: HOST_B }, &mut actions),
        Err(BridgeError::ActionCapacity)
    );
    assert_eq!(
        bridge.handle_event(BridgeEvent::SwitchTarget { target: HostId(9) }, &mut actions),
        Err(BridgeError::ActionCapacity)
    );
    assert_eq!(
        bridge.handle_event(BridgeEvent::HostConnected { host_id: HostId(9) }, &mut actions),
        Err(BridgeError::HostState(HostStateError::InvalidHostId))
    );
    assert_eq!(bridge, before);
    assert_eq!(actions.as_slice(), &[BridgeAction::PersistProfiles]);
}

#[test]
fn full_registries_are_reported_by_the_bridge() {
    let mut bridge = ready_bridge();
    let mut actions = BoundedVec::<BridgeAction, 16>::new();
    for interface in 1..=8 {
        bridge
            .handle_event(
                BridgeEvent::UsbHidInterfaceConnected {
                    interface_id: InterfaceId(interface),
                    device_id: DeviceId(1),
                    keyboard_led_sink: false,
                },
                &mut actions,
            )
            .unwrap();
        let mut frame = keys(&[interface]);
        frame.interface_id = InterfaceId(interface);
        bridge
            .handle_event(BridgeEvent::InputFrame(InputFrame::Standard(frame)), &mut actions)
            .unwrap();
    }
    assert_eq!(
        bridge.handle_event(
            BridgeEvent::UsbHidInterfaceConnected {
                interface_id: InterfaceId(9),
                device_id: DeviceId(1),
                keyboard_led_sink: false,
            },
            &mut actions,
        ),
        Err(BridgeError::UsbHidInterfaceCapacity)
    );
    let mut frame = keys(&[9]);
    frame.interface_id = InterfaceId(9);
    assert_eq!(
        bridge.handle_event(BridgeEvent::InputFrame(InputFrame::Standard(frame)), &mut actions),
        Err(BridgeError::Input(InputError::DeviceCapacity))
    );
    assert_eq!(
        BridgeError::from(StorageError::HostCapacity),
        BridgeError::Storage(StorageError::HostCapacity)
    );
}

#[test]
fn clearing_the_active_host_releases_it_for_safety() {
    let mut bridge = ready_bridge();
    let mut actions = BoundedVec::<BridgeAction, 16>::new();
    bridge.handle_event(BridgeEvent::ClearHost { host_id: HOST_A }, &mut actions).unwrap();
    assert_eq!(
        actions.as_slice()[0],
        BridgeAction::BleNotify {
            host_id: HOST_A,
            report: BleHidReport::Keyboard(BleKeyboard6KroReport::release()),
            reason: NotifyReason::SafetyRelease,
        }
    );
    assert!(!bridge.can_send(HOST_A, ReportKind::Keyboard));
    assert_eq!(bridge.state().hosts.active_target(), None);
}

#[test]
fn quiesce_hides_input_and_drops_sessions_only() {
    let mut bridge = ready_bridge();
    let mut actions = BoundedVec::<BridgeAction, 16>::new();
    bridge
        .handle_event(BridgeEvent::InputFrame(InputFrame::Standard(keys(&[7]))), &mut actions)
        .unwrap();
    bridge.prepare_for_quiesce().unwrap();
    assert!(bridge.state().suppression.keyboard.contains_key(KeyUsage(7)));
    let stored = bridge.storage_state(1).unwrap();
    bridge.mark_host_disconnected_for_quiesce(HOST_A);
    assert!(!bridge.can_send(HOST_A, ReportKind::Keyboard));
    assert_eq!(bridge.storage_state(1).unwrap(), stored);
    let name = FixedName::from_ascii("phone").unwrap();
    assert_eq!(bridge.set_discovered_host_name(HOST_A, name), Ok(true));
    assert_eq!(bridge.set_discovered_host_name(HOST_A, name), Ok(false));
    assert_eq!(name.as_bytes(), b"phone");
}

#[test]
fn what_was_stored_is_restored_and_stored_again() {
    let bridge = ready_bridge();
    let stored = bridge.storage_state(5).unwrap();
    let mut other = Bridge::<4>::new();
    let mut actions = BoundedVec::<BridgeAction, 4>::new();
    other.restore_storage_state(&stored, &mut actions).unwrap();
    assert_eq!(other.storage_state(5).unwrap(), stored);
    assert!(!other.can_send(HOST_A, ReportKind::Keyboard));
}

#[test]
fn host_machine_can_be_edited_and_cleared() {
    let mut hosts = BleHostStateMachine::<2>::new();
    hosts.set_active_target(HOST_A).unwrap();
    hosts.host_mut(HOST_A).unwrap().bonded = true;
    assert!(hosts.host(HOST_A).unwrap().bonded);
    assert!(hosts.host_mut(HOST_B).is_none());
    hosts.clear_active_target();
    assert_eq!(hosts.active_target(), None);
    assert_eq!(hosts.pairing_candidate(), Some(HOST_B));
    assert!(hosts.clear_host(HOST_A));
    assert!(!hosts.clear_host(HOST_A));
    assert_eq!(hosts.hosts(), &[None, None]);
}

#[test]
fn storage_takes_four_hosts() {
    let mut state = StorageState::new(1);
    for _ in 0..4 {
        state.push_host(StoredHostProfile::empty()).unwrap();
    }
    assert_eq!(state.push_host(StoredHostProfile::empty()), Err(StorageError::HostCapacity));
    assert_eq!(FixedName::from_ascii("h\u{e9}"), Err(StorageError::InvalidName));
}

#[test]
fn host_writes_are_refused_for_each_defect() {
    let mut events = BoundedVec::<BridgeEvent, 1>::new();
    assert_eq!(
        bridge_events_from_ble_host_event(
            HOST_A,
            BleHostAdapterEvent::GattWrite {
                attribute: BleHidAttribute::BootKeyboardOutputReport,
                data: &[1, 2],
            },
            &mut events,
        ),
        Err(BleHostAdapterError::Output(BleKeyboardOutputError::InvalidLength))
    );
    let mut none = BoundedVec::<BridgeEvent, 0>::new();
    assert_eq!(
        bridge_events_from_ble_host_event(HOST_A, BleHostAdapterEvent::Connected, &mut none),
        Err(BleHostAdapterError::EventCapacity)
    );
    bridge_events_from_ble_host_event(
        HOST_A,
        BleHostAdapterEvent::GattWrite { attribute: BleHidAttribute::Unknown, data: &[] },
        &mut events,
    )
    .unwrap();
    assert!(events.is_empty());
}

#[test]
fn connections_need_a_valid_host_and_keep_to_their_slots() {
    let mut slots = BleConnectionSlots::<2>::new();
    let peer = BlePeerIdentity { peer_address: [1; 6], peer_irk: None };
    assert_eq!(
        slots.connect_first_free(HostId(0), peer),
        Err(BleConnectionSlotError::InvalidHost)
    );
    slots.set_connected(1, HOST_B, peer).unwrap();
    assert_eq!(slots.host_for_slot(1), Some(HOST_B));
    assert_eq!(slots.host_for_slot(0), None);
    assert_eq!(slots.entry_for_slot(5), None);
    slots.set_connected(1, HOST_A, peer).unwrap();
    assert_eq!(slots.host_for_slot(1), Some(HOST_A));
}

#[test]
fn full_notification_lists_are_reported() {
    let mut out = heapless::Vec::<hidshift::reports::BleHidNotification, 1>::new();
    let report = BleHidReport::Consumer(ConsumerReport::from_usage(ConsumerUsage(0x00e9)));
    notifications_for_input_report(report, &mut out).unwrap();
    assert_eq!(out[0].as_slice(), &[0xe9, 0x00]);
    assert_eq!(
        notifications_for_input_report(report, &mut out),
        Err(BleHidNotificationError::NotificationCapacity)
    );
}

#[test]
fn vendor_frames_carry_up_to_64_bytes() {
    let frame = VendorHidFrame::new(
        DeviceId(1),
        InterfaceId(2),
        0xff00,
        None,
        HidDirection::Input,
        &[1, 2, 3],
    )
    .unwrap();
    assert_eq!(frame.payload(), &[1, 2, 3]);
    assert_eq!(
        VendorHidFrame::new(
            DeviceId(1),
            InterfaceId(2),
            0xff00,
            None,
            HidDirection::Input,
            &[0; 65],
        ),
        Err(InputError::VendorPayloadCapacity)
    );
    let mut bridge = Bridge::<1>::new();
    let mut actions = BoundedVec::<BridgeAction, 1>::new();
    bridge
        .handle_event(BridgeEvent::InputFrame(InputFrame::Vendor(frame)), &mut actions)
        .unwrap();
    assert_eq!(bridge.state().stats.vendor_frames_ignored, 1);
}

#[test]
fn interfaces_without_a_place_are_refused() {
    let mut aggregator = InputAggregator::<1>::new();
    aggregator.apply_frame(&keys(&[4])).unwrap();
    let mut other = keys(&[5]);
    other.interface_id = InterfaceId(2);
    assert_eq!(aggregator.apply_frame(&other), Err(InputError::DeviceCapacity));
    assert!(!aggregator.remove_interface(InterfaceId(2)));
}

#[test]
fn a_removed_interface_holds_nothing() {
    let mut aggregator = InputAggregator::<2>::new();
    let mut first = keys(&[4]);
    first.interface_id = InterfaceId(1);
    let mut second = keys(&[5]);
    second.interface_id = InterfaceId(2);
    aggregator.apply_frame(&first).unwrap();
    aggregator.apply_frame(&second).unwrap();
    aggregator.apply_frame(&first).unwrap();
    assert!(aggregator.remove_interface(InterfaceId(1)));
    assert_eq!(aggregator.aggregate().keyboard.keys(), &[KeyUsage(5)]);
    assert!(!aggregator.remove_interface(InterfaceId(1)));
}

#[test]
fn coalesced_movement_can_be_dropped() {
    fn moved(interface: u8, x: i16) -> StandardInputFrame {
        StandardInputFrame {
            device_id: DeviceId(1),
            interface_id: InterfaceId(interface),
            keyboard: None,
            mouse: Some(MouseFrame {
                buttons: MouseButtons::empty(),
                movement: MouseMovement { x, y: 0, wheel: 0, pan: 0 },
            }),
            consumer: None,
        }
    }
    let mut queue = UsbMovementCoalescer::<1>::new();
    queue.push(&moved(1, 300)).unwrap();
    assert_eq!(queue.push(&moved(2, 1)), Err(UsbMovementCoalescerError::InterfaceCapacity));
    assert_eq!(queue.take_next().unwrap().mouse.unwrap().movement.x, 127);
    queue.discard(InterfaceId(1));
    assert!(queue.take_next().is_none());
    queue.push(&moved(2, 1)).unwrap();
    queue.discard_all();
    assert!(queue.take_next().is_none());
}

#[test]
fn destinations_are_refused_for_each_defect() {
    let mut registry = DestinationRegistry::new();
    let unknown = DestinationId::new(3).unwrap();
    assert_eq!(registry.connect(unknown, 1), Err(DestinationError::UnknownDestination));
    assert_eq!(registry.forget(unknown), Err(DestinationError::UnknownDestination));
    let id = registry.register([1; 16], 1).unwrap();
    assert_eq!(registry.connect(id, 2).unwrap().get(), 0);
    assert_eq!(registry.connect(id, 2), Err(DestinationError::AlreadyConnected));
    assert_eq!(registry.register([1; 16], 9), Ok(id));
    assert_eq!(registry.destinations()[0].last_seen, 9);
    assert_eq!(DestinationId::new(0), None);
    assert_eq!(DestinationId::new(9), None);
}

fn identity(value: u16) -> InputIdentity {
    InputIdentity::from_port_path(value, value, &[value as u8])
}

#[test]
fn input_identities_hash_what_they_are_made_from() {
    assert_eq!(InputIdentity::from_serial(1, 2, b"a").unwrap().instance_hash, 0x0946_2f07_b5d5_f4b9);
    let utf16 = InputIdentity::from_serial_utf16(1, 2, &[0x0061, 0x0062]).unwrap();
    let bytes = InputIdentity::from_serial(1, 2, &[0x61, 0, 0x62, 0]).unwrap();
    assert_eq!(utf16, bytes);
    assert_eq!(InputIdentity::from_serial_utf16(1, 2, &[]), None);
}

#[test]
fn input_profiles_are_refused_for_each_defect() {
    let mut registry = InputProfileRegistry::new();
    let id = InputProfileId::new(2).unwrap();
    assert_eq!(registry.disconnect(id, 1), Err(InputProfileError::UnknownProfile));
    let profile = InputProfile::restored(id, identity(1), 5, InputSettings::default());
    registry.restore(profile).unwrap();
    assert_eq!(registry.restore(profile), Err(InputProfileError::DuplicateProfileId));
    let same = InputProfile::restored(
        InputProfileId::new(3).unwrap(),
        identity(1),
        5,
        InputSettings::default(),
    );
    assert_eq!(registry.restore(same), Err(InputProfileError::DuplicateIdentity));
    assert_eq!(registry.profiles().len(), 1);
    assert_eq!(registry.observe(identity(2), 0).unwrap().get(), 1);
}

#[test]
fn profiles_stay_distinct_when_a_full_registry_reuses_one() {
    let mut registry = InputProfileRegistry::new();
    for value in 1..=8 {
        let id = registry.observe(identity(value), 0).unwrap();
        registry.disconnect(id, 0).unwrap();
    }
    registry.observe(identity(9), 0).unwrap();
    let profiles = registry.profiles();
    assert_eq!(profiles.len(), 8);
    for i in 0..8 {
        for j in 0..i {
            assert_ne!(profiles[i].id, profiles[j].id);
            assert_ne!(profiles[i].identity, profiles[j].identity);
        }
    }
}

#[test]
fn profiles_remap_layout_keys_consumer_usages_and_wheel() {
    let mut profile = InputProfile::restored(
        InputProfileId::new(1).unwrap(),
        identity(1),
        0,
        InputSettings::default(),
    );
    profile.settings.keyboard_layout = 2;
    profile.settings.remap_from_usage = 0x89;
    profile.settings.remap_to_usage = 0x04;
    profile.settings.consumer_from_usage = 0xe9;
    profile.settings.consumer_to_usage = 0xea;
    profile.settings.scroll_multiplier_percent = 1000;
    let mut frame = keys(&[0x35, 0x05, 0x04]);
    frame.mouse = Some(MouseFrame {
        buttons: MouseButtons::left(),
        movement: MouseMovement { x: -3, y: 4, wheel: 20, pan: -20 },
    });
    frame.consumer = Some(ConsumerFrame { active: Some(ConsumerUsage(0xe9)) });
    profile.transform(&mut frame);
    assert_eq!(frame.keyboard.unwrap().keys_down(), &[KeyUsage(0x04), KeyUsage(0x05)]);
    assert_eq!(frame.consumer.unwrap().active, Some(ConsumerUsage(0xea)));
    assert_eq!(
        frame.mouse.unwrap().movement,
        MouseMovement { x: -3, y: 4, wheel: 127, pan: -128 }
    );
}

#[test]
fn all_revisions_advance_together() {
    let mut revisions = Revisions::default();
    revisions.changed(ChangeSet::all());
    revisions.changed(ChangeSet::wired());
    assert_eq!(revisions.wired.0, 2);
    assert_eq!(revisions.support.0, 1);
    assert_eq!(ChangeSet::all().bits(), 0x7f);
}

#[test]
fn firmware_updates_are_refused_for_each_defect() {
    let image = ImageMetadata {
        node: FirmwareNode::Host,
        size: 4,
        sha256: [1; 32],
        version: [0, 0, 1],
    };
    let mut update = FirmwareUpdate::new();
    assert_eq!(update.request_reboot(), Err(FirmwareUpdateError::InvalidPhase));
    assert_eq!(
        update.begin(UpdateTarget::Both, [0; 16], Some(image), None),
        Err(FirmwareUpdateError::MissingNode)
    );
    let large = ImageMetadata { size: FirmwareUpdate::MAX_IMAGE_SIZE + 1, ..image };
    assert_eq!(
        update.begin(UpdateTarget::Host, [0; 16], Some(large), None),
        Err(FirmwareUpdateError::ImageTooLarge)
    );
    update.begin(UpdateTarget::Host, [0; 16], Some(image), None).unwrap();
    assert_eq!(
        update.accept_chunk(FirmwareNode::Device, 0, 1),
        Err(FirmwareUpdateError::MissingNode)
    );
    assert_eq!(
        update.accept_chunk(FirmwareNode::Host, 0, 5),
        Err(FirmwareUpdateError::ImageTooLarge)
    );
    update.accept_chunk(FirmwareNode::Host, 0, 4).unwrap();
    assert_eq!(update.verify(Some([2; 32]), None), Err(FirmwareUpdateError::HashMismatch));
    update.verify(Some([1; 32]), None).unwrap();
    update.request_reboot().unwrap();
    update.start_health_check([0; 16]).unwrap();
    update.finish_health_check(false).unwrap();
    assert_eq!(update.phase(), FirmwareUpdatePhase::RolledBack);
}

#[test]
fn harness_packets_are_refused_for_each_defect() {
    let packet = E2ePacket { sequence: 1, command: E2eCommand::MouseBurst { count: 3, x: 1, y: 2 } };
    let patched = |at: usize, value: u8| {
        let mut bytes = packet.encode();
        bytes[at] = value;
        let crc = hidshift::e2e::crc16_ccitt_false(&bytes[..18]).to_le_bytes();
        bytes[18] = crc[0];
        bytes[19] = crc[1];
        E2ePacket::decode(&bytes).err()
    };
    assert_eq!(patched(0, 2), Some(E2eProtocolError::UnsupportedVersion));
    assert_eq!(patched(1, 0x7f), Some(E2eProtocolError::UnknownCommand));
    assert_eq!(patched(6, 0), Some(E2eProtocolError::InvalidPayload));
    let mut line = packet.encode_line();
    assert_eq!(&line[..18], b"@HIDSHIFT-E2E:0114");
    line[20] = b'g';
    assert_eq!(E2ePacket::decode_line(&line), Err(E2eProtocolError::InvalidHex));
    line[0] = b'#';
    assert_eq!(E2ePacket::decode_line(&line), Err(E2eProtocolError::InvalidPrefix));
}

#[test]
fn harness_input_becomes_frames() {
    let packet = E2ePacket {
        sequence: 1,
        command: E2eCommand::Mouse { buttons: 0xff, x: 5, y: -6, wheel: 1, pan: -1 },
    };
    let frames = packet.input_frames().unwrap();
    match &frames[0] {
        Some(InputFrame::Standard(frame)) => {
            assert_eq!(frame.mouse.unwrap().buttons.bits(), 0x1f);
            assert_eq!(frame.device_id, DeviceId(0xfe));
        }
        _ => panic!("mouse frame missing"),
    }
    assert!(frames[1].is_none());
    let packet = E2ePacket { sequence: 1, command: E2eCommand::Consumer { usage: 0 } };
    match &packet.input_frames().unwrap()[0] {
        Some(InputFrame::Standard(frame)) => assert_eq!(frame.consumer.unwrap().active, None),
        _ => panic!("consumer frame missing"),
    }
}

#[test]
fn mirror_packets_are_refused_for_each_defect() {
    assert_eq!(
        MirrorE2ePacket::new(1, 2, 3, 4, &[0; 48]),
        Err(MirrorE2eError::PayloadTooLarge)
    );
    let packet = MirrorE2ePacket::new(1, 2, 3, 4, &[9]).unwrap();
    assert_eq!(packet.payload(), &[9]);
    let mut bytes = packet.encode();
    assert_eq!(MirrorE2ePacket::decode(&bytes[..63]), Err(MirrorE2eError::InvalidLength));
    bytes[0] = 2;
    assert_eq!(MirrorE2ePacket::decode(&bytes), Err(MirrorE2eError::UnsupportedVersion));
    let mut line = packet.encode_line();
    line[30] = b'x';
    assert_eq!(MirrorE2ePacket::decode_line(&line), Err(MirrorE2eError::InvalidHex));
    let mut receiver = MirrorRawInjectionReceiver::new();
    let empty = MirrorE2ePacket::new(0x20, 1, raw_injection_transfer_id(0x81, 0), 0, &[1]).unwrap();
    assert_eq!(receiver.push(&empty), Err(MirrorRawInjectionError::InvalidTotalLength));
    let long = MirrorE2ePacket::new(0x20, 1, raw_injection_transfer_id(0x81, 1), 0, &[1, 2]).unwrap();
    assert_eq!(receiver.push(&long), Err(MirrorRawInjectionError::InvalidOffset));
}

#[test]
fn pairings_are_refused_for_each_defect() {
    let pairing = EspNowPairing {
        generation: 1,
        local_role: EspNowRole::UsbHost,
        peer_address: [2; 6],
        channel: 6,
        key: [3; 16],
    };
    assert_eq!(
        EspNowPairing { channel: 15, ..pairing }.encode(),
        Err(EspNowPairingError::InvalidChannel)
    );
    let image = pairing.encode().unwrap();
    assert_eq!(&image[..8], &[b'H', b'S', b'E', b'P', 1, 1, 6, 0xff]);
    assert_eq!(EspNowPairing::decode(&image[..63]), Err(EspNowPairingError::InvalidLength));
    let patched = |at: usize, value: u8| {
        let mut bytes = image;
        bytes[at] = value;
        let crc = hidshift::checksum::crc32_ieee(&bytes[..60]).to_le_bytes();
        bytes[60..].copy_from_slice(&crc);
        EspNowPairing::decode(&bytes).err()
    };
    assert_eq!(patched(0, 0), Some(EspNowPairingError::InvalidMagic));
    assert_eq!(patched(4, 9), Some(EspNowPairingError::UnsupportedVersion));
    assert_eq!(patched(5, 9), Some(EspNowPairingError::InvalidRole));
    assert_eq!(EspNowRole::UsbHost.peer(), EspNowRole::UsbDevice);
    assert!(generation_is_newer(0, u32::MAX));
    assert!(!generation_is_newer(u32::MAX, 0));
    let mut transaction = EspNowPairingTransaction::new(EspNowRole::UsbHost);
    transaction.begin([2; 6], 6).unwrap();
    assert_eq!(transaction.write_key_chunk(0, &[1; 15]), Err(EspNowPairingError::InvalidKeyChunk));
    assert_eq!(transaction.write_key_chunk(10, &[1; 7]), Err(EspNowPairingError::InvalidKeyChunk));
}

#[test]
fn pairing_service_clears_and_refuses_other_commands() {
    let mut service = EspNowPairingService::new(EspNowRole::UsbHost, None);
    let other = service.handle(EspNowPairingCommand::Other(ManagementCommand::GetStatus), [1; 6]);
    assert_eq!(other.result, EspNowPairingResult::Unavailable);
    assert_eq!(other.action, EspNowPairingAction::Nothing);
    let forget = service.handle(EspNowPairingCommand::ForgetEspNowPeer, [1; 6]);
    assert_eq!(forget.action, EspNowPairingAction::Clear);
    service.cleared();
}

#[test]
fn secure_frames_are_refused_for_each_defect() {
    let key = [7u8; 16];
    assert_eq!(
        SecureEspNowFrame::seal(&key, EspNowRole::UsbHost, 1, 2, &[0; SECURE_PAYLOAD_MAX + 1]),
        Err(EspNowSecurityError::PayloadTooLong)
    );
    assert_eq!(SecureEspNowFrame::decode(&[0; 19]), Err(EspNowSecurityError::TooShort));
    assert_eq!(SecureEspNowFrame::decode(&[0; 251]), Err(EspNowSecurityError::PayloadTooLong));
    let sealed = SecureEspNowFrame::seal(&key, EspNowRole::UsbHost, 1, 2, b"abc").unwrap();
    assert_eq!(&sealed.as_bytes()[..12], &[b'H', b'E', 1, 1, 1, 0, 0, 0, 2, 0, 0, 0]);
    let mut bytes = sealed.as_bytes().to_vec();
    bytes[0] = 0;
    assert_eq!(
        SecureEspNowFrame::decode(&bytes).unwrap().open(&key, EspNowRole::UsbHost),
        Err(EspNowSecurityError::InvalidMagic)
    );
    bytes[0] = b'H';
    bytes[2] = 2;
    assert_eq!(
        SecureEspNowFrame::decode(&bytes).unwrap().open(&key, EspNowRole::UsbHost),
        Err(EspNowSecurityError::UnsupportedVersion)
    );
}

#[test]
fn longest_payload_comes_back_from_a_secure_frame() {
    let key = derive_session_key(&[9; 16], 3, 4, EspNowRole::UsbDevice);
    assert_ne!(key, [9; 16]);
    let payload: Vec<u8> = (0..SECURE_PAYLOAD_MAX).map(|index| index as u8).collect();
    let sealed = SecureEspNowFrame::seal(&key, EspNowRole::UsbDevice, 3, 4, &payload).unwrap();
    assert_ne!(&sealed.as_bytes()[12..242], payload.as_slice());
    let mut received = SecureEspNowFrame::decode(sealed.as_bytes()).unwrap();
    let opened = received.open(&key, EspNowRole::UsbDevice).unwrap();
    assert_eq!(opened.bytes, payload.as_slice());
}

fn notify(reason: NotifyReason, report: BleHidReport) -> BleTaskCommand {
    BleTaskCommand::Notify { host_id: HOST_A, report, reason }
}

#[test]
fn commands_for_the_radio_are_coalesced_queued_or_make_movement_stale() {
    let mouse = BleHidReport::Mouse(BleMouseReport::release_buttons());
    let keyboard = BleHidReport::Keyboard(BleKeyboard6KroReport::release());
    assert_eq!(
        ble_send_step(&notify(NotifyReason::Input, mouse)),
        BleSendStep::Coalesce(HOST_A)
    );
    assert_eq!(
        ble_send_step(&notify(NotifyReason::InputEdge, mouse)),
        BleSendStep::Queue {
            discard: None,
            lane: BleCommandLane::Notify,
            class: CommandClass::Critical,
        }
    );
    assert_eq!(
        ble_send_step(&notify(NotifyReason::SafetyRelease, keyboard)),
        BleSendStep::Queue {
            discard: Some(HOST_A),
            lane: BleCommandLane::Notify,
            class: CommandClass::Critical,
        }
    );
    assert_eq!(
        ble_send_step(&notify(NotifyReason::Input, keyboard)),
        BleSendStep::Queue {
            discard: None,
            lane: BleCommandLane::Notify,
            class: CommandClass::Realtime,
        }
    );
    assert_eq!(
        ble_send_step(&BleTaskCommand::AllowPairing { host_id: HOST_A }),
        BleSendStep::Queue {
            discard: None,
            lane: BleCommandLane::Control,
            class: CommandClass::Critical,
        }
    );
}

fn status(active: u8) -> StatusTaskCommand {
    StatusTaskCommand {
        status: BridgeStatus { active_target: Some(HostId(active)), pairable_host: None },
        management: None,
    }
}

fn response() -> ManagementResponse {
    ManagementResponse {
        request_id: 0xab,
        result: ManagementResult::Unavailable,
        payload: ManagementResponsePayload::Empty,
    }
}

#[test]
fn queues_without_room_are_reported_before_anything_is_queued() {
    let keyboard = BleHidReport::Keyboard(BleKeyboard6KroReport::release());
    let mouse = BleHidReport::Mouse(BleMouseReport::release_buttons());
    let ble = [
        BleTaskCommand::AllowPairing { host_id: HOST_A },
        notify(NotifyReason::Input, keyboard),
        notify(NotifyReason::Input, mouse),
    ];
    let owed = StatusTaskCommand {
        management: Some(ManagementTaskResponse {
            destination: ManagementDestination::Wired,
            response: response(),
        }),
        ..status(1)
    };
    let storage = [StorageTaskCommand::PersistProfiles];
    let space = QueueSpace { ble_control: 1, ble_notify: 1, storage: 1, status: 1 };
    assert_eq!(ensure_capacity(space, &ble, &storage, &[status(1), owed]), Ok(()));
    assert_eq!(
        ensure_capacity(QueueSpace { ble_notify: 0, ..space }, &ble, &storage, &[owed]),
        Err(ChannelTaskSendError::BleQueueFull)
    );
    assert_eq!(
        ensure_capacity(QueueSpace { ble_control: 0, ..space }, &ble, &storage, &[owed]),
        Err(ChannelTaskSendError::BleQueueFull)
    );
    assert_eq!(
        ensure_capacity(QueueSpace { storage: 0, ..space }, &ble, &storage, &[owed]),
        Err(ChannelTaskSendError::StorageQueueFull)
    );
    assert_eq!(
        ensure_capacity(QueueSpace { status: 0, ..space }, &ble, &storage, &[owed]),
        Err(ChannelTaskSendError::StatusQueueFull)
    );
    assert_eq!(status_send_step(&owed), StatusSendStep::Queue(CommandClass::Critical));
    assert_eq!(status_send_step(&status(1)), StatusSendStep::Replace);
    assert_eq!(
        queue_result(CommandClass::Realtime, false, ChannelTaskSendError::BleQueueFull),
        Err(ChannelTaskSendError::BleQueueFull)
    );
    assert_eq!(
        queue_result(CommandClass::BestEffort, false, ChannelTaskSendError::BleQueueFull),
        Ok(())
    );
}

#[test]
fn newest_commands_wait_for_each_interface() {
    let command = |interface: u8, leds: KeyboardLedState| UsbTaskCommand {
        interface_id: InterfaceId(interface),
        device_id: DeviceId(1),
        leds,
    };
    let mut pending = PendingUsbCommands::<2>::new();
    pending.push(command(1, KeyboardLedState::empty())).unwrap();
    pending.push(command(2, KeyboardLedState::empty())).unwrap();
    pending.push(command(1, KeyboardLedState::caps_lock())).unwrap();
    assert_eq!(
        pending.push(command(3, KeyboardLedState::empty())),
        Err(ChannelTaskSendError::UsbQueueFull)
    );
    let (slot, first) = pending.first().unwrap();
    assert_eq!(first, command(1, KeyboardLedState::caps_lock()));
    pending.queued(slot);
    assert_eq!(pending.first().unwrap().1.interface_id, InterfaceId(2));
    let mut statuses = PendingStatus::new();
    statuses.push(status(1));
    statuses.push(status(2));
    assert_eq!(statuses.pending, Some(status(2)));
    assert_eq!(statuses.dropped, 1);
}

#[test]
fn actions_become_commands_for_their_tasks() {
    assert_eq!(active_hosts(0b1010), vec![HostId(2), HostId(4)]);
    assert_eq!(
        task_command(BridgeAction::PersistProfiles),
        TaskCommand::Storage(StorageTaskCommand::PersistProfiles)
    );
    assert_eq!(
        task_command(BridgeAction::ActivateInput { host_id: HOST_B }),
        TaskCommand::ActivateInput(HOST_B)
    );
    let line = wired_response_line(response());
    assert_eq!(line.len(), 50);
    assert_eq!(&line[..16], b"@HIDSHIFT:01ab08");
}

#[test]
fn version_components_are_decimal() {
    assert_eq!(parse_version_component("0"), 0);
    assert_eq!(parse_version_component("255"), 255);
    assert_eq!(parse_version_component("010"), 10);
}

#[test]
fn buttons_and_modifiers_have_their_bits() {
    let mut buttons = MouseButtons::empty();
    buttons.set(MouseButton::Middle, true);
    assert_eq!(buttons, MouseButtons::middle());
    let all = [
        ModifierState::left_ctrl(),
        ModifierState::left_shift(),
        ModifierState::left_alt(),
        ModifierState::left_gui(),
        ModifierState::right_ctrl(),
        ModifierState::right_shift(),
        ModifierState::right_alt(),
        ModifierState::right_gui(),
    ];
    for (index, modifier) in all.iter().enumerate() {
        assert_eq!(modifier.bits(), 1 << index);
    }
}
