use hidshift::bounded::BoundedVec;
use hidshift::bridge::{
    Bridge, BridgeAction, BridgeError, BridgeEvent, BridgeStatus, HostStateError, NotifyReason,
    keyboard_led_event_from_ble_output,
};
use hidshift::ids::{DeviceId, HostId, InterfaceId};
use hidshift::input::{
    ConsumerFrame, ConsumerUsage, InputFrame, KeyUsage, KeyboardFrame, KeyboardLedState,
    ModifierState, MouseButton, MouseButtons, MouseFrame, MouseMovement, StandardInputFrame,
};
use hidshift::reports::{
    BleConsumerReport, BleHidReport, BleKeyboard6KroReport, BleKeyboardOutputError, BleMouseReport,
    ReportKind,
};
use hidshift::storage::{StorageState, StoredHostProfile};

const HOST_A: HostId = HostId(1);
const HOST_B: HostId = HostId(2);
const DEVICE: DeviceId = DeviceId(1);

#[test]
fn keyboard_input_is_not_sent_until_active_host_is_ready() {
    let mut bridge = Bridge::<2>::new();
    let mut actions = BoundedVec::<BridgeAction, 4>::new();

    bridge
        .handle_event(BridgeEvent::SwitchTarget { target: HOST_A }, &mut actions)
        .unwrap();
    actions.clear();

    bridge
        .handle_event(
            BridgeEvent::InputFrame(InputFrame::Standard(keyboard_frame(&[0x04]))),
            &mut actions,
        )
        .unwrap();

    assert!(actions.is_empty());
    assert_eq!(
        bridge.state().stats.input_reports_dropped_no_ready_target,
        1
    );
}

#[test]
fn host_capacity_errors_without_panicking() {
    let mut bridge = Bridge::<1>::new();
    let mut actions = BoundedVec::<BridgeAction, 4>::new();

    bridge
        .handle_event(BridgeEvent::HostConnected { host_id: HOST_A }, &mut actions)
        .unwrap();

    assert_eq!(
        bridge.handle_event(BridgeEvent::HostConnected { host_id: HOST_B }, &mut actions),
        Err(BridgeError::HostState(HostStateError::HostCapacity))
    );
}

#[test]
fn keyboard_input_is_sent_only_to_active_ready_host() {
    let mut bridge = ready_bridge();
    let mut actions = BoundedVec::<BridgeAction, 4>::new();

    bridge
        .handle_event(
            BridgeEvent::InputFrame(InputFrame::Standard(keyboard_frame(&[0x04, 0x05]))),
            &mut actions,
        )
        .unwrap();

    assert_eq!(
        actions.as_slice(),
        &[BridgeAction::BleNotify {
            host_id: HOST_A,
            report: BleHidReport::Keyboard(
                BleKeyboard6KroReport::from_visible_state(
                    &bridge
                        .state()
                        .input
                        .keyboard
                        .visible_against(&bridge.state().suppression.keyboard)
                )
                .report
            ),
            reason: NotifyReason::Input,
        }]
    );
}

#[test]
fn in_place_input_action_capacity_error_does_not_commit_state_or_output() {
    let mut bridge = ready_bridge();
    let before = bridge.clone();
    let mut actions = BoundedVec::<BridgeAction, 0>::new();

    assert_eq!(
        bridge.handle_event_in_place(
            BridgeEvent::InputFrame(InputFrame::Standard(keyboard_frame(&[0x04]))),
            &mut actions,
        ),
        Err(BridgeError::ActionCapacity)
    );
    assert_eq!(bridge, before);
    assert!(actions.is_empty());
}

#[test]
fn partial_key_release_is_critical() {
    let mut bridge = ready_bridge();
    let mut actions = BoundedVec::<BridgeAction, 4>::new();
    bridge
        .handle_event(
            BridgeEvent::InputFrame(InputFrame::Standard(keyboard_frame(&[0x04, 0x05]))),
            &mut actions,
        )
        .unwrap();
    actions.clear();

    bridge
        .handle_event(
            BridgeEvent::InputFrame(InputFrame::Standard(keyboard_frame(&[0x05]))),
            &mut actions,
        )
        .unwrap();

    assert!(matches!(
        actions.as_slice(),
        [BridgeAction::BleNotify {
            reason: NotifyReason::InputRelease,
            ..
        }]
    ));
}

#[test]
fn modifier_only_release_is_critical_but_press_is_realtime() {
    let mut bridge = ready_bridge();
    let mut actions = BoundedVec::<BridgeAction, 4>::new();
    bridge
        .handle_event(
            BridgeEvent::InputFrame(InputFrame::Standard(keyboard_frame_with_modifiers(
                &[],
                ModifierState::left_shift(),
            ))),
            &mut actions,
        )
        .unwrap();
    assert!(matches!(
        actions.as_slice(),
        [BridgeAction::BleNotify {
            reason: NotifyReason::Input,
            ..
        }]
    ));
    actions.clear();

    bridge
        .handle_event(
            BridgeEvent::InputFrame(InputFrame::Standard(keyboard_frame(&[]))),
            &mut actions,
        )
        .unwrap();
    assert!(matches!(
        actions.as_slice(),
        [BridgeAction::BleNotify {
            reason: NotifyReason::InputRelease,
            ..
        }]
    ));
}

#[test]
fn ctrl_release_while_a_is_held_is_critical() {
    let mut bridge = ready_bridge();
    let mut actions = BoundedVec::<BridgeAction, 4>::new();
    bridge
        .handle_event(
            BridgeEvent::InputFrame(InputFrame::Standard(keyboard_frame_with_modifiers(
                &[0x04],
                ModifierState::left_ctrl(),
            ))),
            &mut actions,
        )
        .unwrap();
    actions.clear();

    bridge
        .handle_event(
            BridgeEvent::InputFrame(InputFrame::Standard(keyboard_frame(&[0x04]))),
            &mut actions,
        )
        .unwrap();
    assert!(matches!(
        actions.as_slice(),
        [BridgeAction::BleNotify {
            reason: NotifyReason::InputRelease,
            ..
        }]
    ));
}

#[test]
fn target_switch_releases_old_host_and_suppresses_held_keys_for_new_host() {
    let mut bridge = ready_bridge();
    let mut actions = BoundedVec::<BridgeAction, 8>::new();

    bridge
        .handle_event(
            BridgeEvent::InputFrame(InputFrame::Standard(keyboard_frame(&[0x04]))),
            &mut actions,
        )
        .unwrap();
    actions.clear();

    make_ready(&mut bridge, HOST_B);
    bridge
        .handle_event(BridgeEvent::SwitchTarget { target: HOST_B }, &mut actions)
        .unwrap();

    assert_eq!(
        actions.as_slice()[0],
        BridgeAction::BleNotify {
            host_id: HOST_A,
            report: BleHidReport::Keyboard(BleKeyboard6KroReport::release()),
            reason: NotifyReason::TargetSwitchRelease,
        }
    );

    actions.clear();
    bridge
        .handle_event(
            BridgeEvent::InputFrame(InputFrame::Standard(keyboard_frame(&[0x04]))),
            &mut actions,
        )
        .unwrap();

    assert_eq!(
        actions.as_slice(),
        &[BridgeAction::BleNotify {
            host_id: HOST_B,
            report: BleHidReport::Keyboard(BleKeyboard6KroReport::release()),
            reason: NotifyReason::Input,
        }]
    );

    actions.clear();
    bridge
        .handle_event(
            BridgeEvent::InputFrame(InputFrame::Standard(keyboard_frame(&[]))),
            &mut actions,
        )
        .unwrap();
    actions.clear();
    bridge
        .handle_event(
            BridgeEvent::InputFrame(InputFrame::Standard(keyboard_frame(&[0x04]))),
            &mut actions,
        )
        .unwrap();

    assert_eq!(actions.len(), 1);
    match actions.as_slice()[0] {
        BridgeAction::BleNotify {
            host_id,
            report: BleHidReport::Keyboard(report),
            reason,
        } => {
            assert_eq!(host_id, HOST_B);
            assert_eq!(reason, NotifyReason::Input);
            assert_eq!(report.as_bytes(), &[0, 0, 0x04, 0, 0, 0, 0, 0]);
        }
        _ => panic!("unexpected action"),
    }
}

#[test]
fn target_switch_releases_mouse_and_suppresses_held_buttons_for_new_host() {
    let mut bridge = ready_bridge_with(&[ReportKind::Mouse]);
    let mut actions = BoundedVec::<BridgeAction, 8>::new();

    bridge
        .handle_event(
            BridgeEvent::InputFrame(InputFrame::Standard(mouse_frame(
                mouse_buttons(&[MouseButton::Left]),
                MouseMovement::neutral(),
            ))),
            &mut actions,
        )
        .unwrap();
    actions.clear();

    make_ready_with(&mut bridge, HOST_B, &[ReportKind::Mouse]);
    bridge
        .handle_event(BridgeEvent::SwitchTarget { target: HOST_B }, &mut actions)
        .unwrap();

    assert_eq!(
        actions.as_slice()[0],
        BridgeAction::BleNotify {
            host_id: HOST_A,
            report: BleHidReport::Mouse(BleMouseReport::release_buttons()),
            reason: NotifyReason::TargetSwitchRelease,
        }
    );

    actions.clear();
    bridge
        .handle_event(
            BridgeEvent::InputFrame(InputFrame::Standard(mouse_frame(
                mouse_buttons(&[MouseButton::Left]),
                MouseMovement {
                    x: 4,
                    y: -2,
                    wheel: 0,
                    pan: 0,
                },
            ))),
            &mut actions,
        )
        .unwrap();

    assert_eq!(
        actions.as_slice(),
        &[BridgeAction::BleNotify {
            host_id: HOST_B,
            report: BleHidReport::Mouse(BleMouseReport::from_frame(
                MouseButtons::empty(),
                MouseMovement {
                    x: 4,
                    y: -2,
                    wheel: 0,
                    pan: 0,
                }
            )),
            reason: NotifyReason::Input,
        }]
    );

    actions.clear();
    bridge
        .handle_event(
            BridgeEvent::InputFrame(InputFrame::Standard(mouse_frame(
                MouseButtons::empty(),
                MouseMovement::neutral(),
            ))),
            &mut actions,
        )
        .unwrap();
    actions.clear();
    bridge
        .handle_event(
            BridgeEvent::InputFrame(InputFrame::Standard(mouse_frame(
                mouse_buttons(&[MouseButton::Left]),
                MouseMovement::neutral(),
            ))),
            &mut actions,
        )
        .unwrap();

    assert_eq!(
        actions.as_slice(),
        &[BridgeAction::BleNotify {
            host_id: HOST_B,
            report: BleHidReport::Mouse(BleMouseReport::from_frame(
                mouse_buttons(&[MouseButton::Left]),
                MouseMovement::neutral()
            )),
            reason: NotifyReason::InputEdge,
        }]
    );
}

#[test]
fn target_switch_releases_consumer_and_suppresses_held_usage_for_new_host() {
    let mut bridge = ready_bridge_with(&[ReportKind::Consumer]);
    let mut actions = BoundedVec::<BridgeAction, 8>::new();

    bridge
        .handle_event(
            BridgeEvent::InputFrame(InputFrame::Standard(consumer_frame(Some(0x00e9)))),
            &mut actions,
        )
        .unwrap();
    actions.clear();

    make_ready_with(&mut bridge, HOST_B, &[ReportKind::Consumer]);
    bridge
        .handle_event(BridgeEvent::SwitchTarget { target: HOST_B }, &mut actions)
        .unwrap();

    assert_eq!(
        actions.as_slice()[0],
        BridgeAction::BleNotify {
            host_id: HOST_A,
            report: BleHidReport::Consumer(BleConsumerReport::release()),
            reason: NotifyReason::TargetSwitchRelease,
        }
    );

    actions.clear();
    bridge
        .handle_event(
            BridgeEvent::InputFrame(InputFrame::Standard(consumer_frame(Some(0x00e9)))),
            &mut actions,
        )
        .unwrap();

    assert_eq!(
        actions.as_slice(),
        &[BridgeAction::BleNotify {
            host_id: HOST_B,
            report: BleHidReport::Consumer(BleConsumerReport::release()),
            reason: NotifyReason::Input,
        }]
    );

    actions.clear();
    bridge
        .handle_event(
            BridgeEvent::InputFrame(InputFrame::Standard(consumer_frame(None))),
            &mut actions,
        )
        .unwrap();
    actions.clear();
    bridge
        .handle_event(
            BridgeEvent::InputFrame(InputFrame::Standard(consumer_frame(Some(0x00e9)))),
            &mut actions,
        )
        .unwrap();

    assert_eq!(
        actions.as_slice(),
        &[BridgeAction::BleNotify {
            host_id: HOST_B,
            report: BleHidReport::Consumer(BleConsumerReport::from_usage(ConsumerUsage(
                0x00e9
            ))),
            reason: NotifyReason::Input,
        }]
    );
}

#[test]
fn usb_removal_emits_all_ready_release_reports_and_clears_state() {
    let mut bridge = ready_bridge_with(&[
        ReportKind::Keyboard,
        ReportKind::Mouse,
        ReportKind::Consumer,
    ]);
    let mut actions = BoundedVec::<BridgeAction, 8>::new();
    bridge
        .handle_event(
            BridgeEvent::UsbHidInterfaceConnected {
                interface_id: InterfaceId(1),
                device_id: DEVICE,
                keyboard_led_sink: true,
            },
            &mut actions,
        )
        .unwrap();
    actions.clear();

    bridge
        .handle_event(
            BridgeEvent::InputFrame(InputFrame::Standard(StandardInputFrame {
                device_id: DEVICE,
                interface_id: InterfaceId(1),
                keyboard: Some({
                    let mut frame = KeyboardFrame::new(ModifierState::empty());
                    frame.push_key(KeyUsage(0x04)).unwrap();
                    frame
                }),
                mouse: Some(MouseFrame {
                    buttons: mouse_buttons(&[MouseButton::Left]),
                    movement: MouseMovement::neutral(),
                }),
                consumer: Some(ConsumerFrame {
                    active: Some(ConsumerUsage(0x00e9)),
                }),
            })),
            &mut actions,
        )
        .unwrap();
    actions.clear();

    bridge
        .handle_event(
            BridgeEvent::UsbDeviceRemoved {
                interface_id: InterfaceId(1),
            },
            &mut actions,
        )
        .unwrap();

    assert_eq!(
        &actions.as_slice()[..3],
        &[
            BridgeAction::BleNotify {
                host_id: HOST_A,
                report: BleHidReport::Keyboard(BleKeyboard6KroReport::release()),
                reason: NotifyReason::UsbDeviceRemovedRelease,
            },
            BridgeAction::BleNotify {
                host_id: HOST_A,
                report: BleHidReport::Mouse(BleMouseReport::release_buttons()),
                reason: NotifyReason::UsbDeviceRemovedRelease,
            },
            BridgeAction::BleNotify {
                host_id: HOST_A,
                report: BleHidReport::Consumer(BleConsumerReport::release()),
                reason: NotifyReason::UsbDeviceRemovedRelease,
            },
        ]
    );
    assert!(bridge.state().input.keyboard.keys().is_empty());
    assert_eq!(bridge.state().input.mouse.buttons, MouseButtons::empty());
    assert_eq!(bridge.state().input.consumer.active, None);
}

#[test]
fn usb_removal_recomputes_remaining_keyboard_state_instead_of_releasing_everything() {
    let mut bridge = ready_bridge_with(&[ReportKind::Keyboard]);
    let mut actions = BoundedVec::<BridgeAction, 8>::new();
    bridge
        .handle_event(
            BridgeEvent::UsbHidInterfaceConnected {
                interface_id: InterfaceId(1),
                device_id: DeviceId(1),
                keyboard_led_sink: true,
            },
            &mut actions,
        )
        .unwrap();
    bridge
        .handle_event(
            BridgeEvent::UsbHidInterfaceConnected {
                interface_id: InterfaceId(2),
                device_id: DeviceId(2),
                keyboard_led_sink: true,
            },
            &mut actions,
        )
        .unwrap();
    actions.clear();

    bridge
        .handle_event(
            BridgeEvent::InputFrame(InputFrame::Standard(StandardInputFrame {
                device_id: DeviceId(1),
                interface_id: InterfaceId(1),
                keyboard: Some({
                    let mut frame = KeyboardFrame::new(ModifierState::empty());
                    frame.push_key(KeyUsage(0x04)).unwrap();
                    frame
                }),
                mouse: None,
                consumer: None,
            })),
            &mut actions,
        )
        .unwrap();
    bridge
        .handle_event(
            BridgeEvent::InputFrame(InputFrame::Standard(StandardInputFrame {
                device_id: DeviceId(2),
                interface_id: InterfaceId(2),
                keyboard: Some({
                    let mut frame = KeyboardFrame::new(ModifierState::left_shift());
                    frame.push_key(KeyUsage(0x05)).unwrap();
                    frame
                }),
                mouse: None,
                consumer: None,
            })),
            &mut actions,
        )
        .unwrap();
    actions.clear();

    bridge
        .handle_event(
            BridgeEvent::UsbDeviceRemoved {
                interface_id: InterfaceId(1),
            },
            &mut actions,
        )
        .unwrap();

    assert!(actions.as_slice().iter().any(|action| matches!(
        action,
        BridgeAction::BleNotify {
            host_id: HOST_A,
            report: BleHidReport::Keyboard(report),
            reason: NotifyReason::UsbDeviceRemovedRelease,
        } if report.as_bytes() == &[0x02, 0, 0x05, 0, 0, 0, 0, 0]
    )));
}

#[test]
fn active_host_keyboard_led_write_is_applied_to_usb_hid_interface() {
    let mut bridge = ready_bridge();
    let mut actions = BoundedVec::<BridgeAction, 8>::new();
    bridge
        .handle_event(
            BridgeEvent::UsbHidInterfaceConnected {
                interface_id: InterfaceId(1),
                device_id: DEVICE,
                keyboard_led_sink: true,
            },
            &mut actions,
        )
        .unwrap();
    actions.clear();

    bridge
        .handle_event(
            BridgeEvent::HostKeyboardLedChanged {
                host_id: HOST_A,
                leds: KeyboardLedState::caps_lock(),
            },
            &mut actions,
        )
        .unwrap();

    assert_eq!(
        actions.as_slice(),
        &[BridgeAction::UsbSetKeyboardLeds {
            interface_id: InterfaceId(1),
            device_id: DEVICE,
            leds: KeyboardLedState::caps_lock(),
        }]
    );
}

#[test]
fn active_host_keyboard_led_write_is_fanned_out_to_all_connected_keyboards() {
    let mut bridge = ready_bridge();
    let mut actions = BoundedVec::<BridgeAction, 8>::new();
    bridge
        .handle_event(
            BridgeEvent::UsbHidInterfaceConnected {
                interface_id: InterfaceId(1),
                device_id: DEVICE,
                keyboard_led_sink: true,
            },
            &mut actions,
        )
        .unwrap();
    bridge
        .handle_event(
            BridgeEvent::UsbHidInterfaceConnected {
                interface_id: InterfaceId(2),
                device_id: DeviceId(2),
                keyboard_led_sink: true,
            },
            &mut actions,
        )
        .unwrap();
    actions.clear();

    bridge
        .handle_event(
            BridgeEvent::HostKeyboardLedChanged {
                host_id: HOST_A,
                leds: KeyboardLedState::caps_lock(),
            },
            &mut actions,
        )
        .unwrap();

    assert_eq!(
        actions.as_slice(),
        &[
            BridgeAction::UsbSetKeyboardLeds {
                interface_id: InterfaceId(1),
                device_id: DEVICE,
                leds: KeyboardLedState::caps_lock(),
            },
            BridgeAction::UsbSetKeyboardLeds {
                interface_id: InterfaceId(2),
                device_id: DeviceId(2),
                leds: KeyboardLedState::caps_lock(),
            },
        ]
    );
}

#[test]
fn inactive_host_keyboard_led_write_is_stored_but_not_applied_until_target_switch() {
    let mut bridge = ready_bridge();
    let mut actions = BoundedVec::<BridgeAction, 8>::new();
    bridge
        .handle_event(
            BridgeEvent::UsbHidInterfaceConnected {
                interface_id: InterfaceId(1),
                device_id: DEVICE,
                keyboard_led_sink: true,
            },
            &mut actions,
        )
        .unwrap();
    make_ready(&mut bridge, HOST_B);
    actions.clear();

    bridge
        .handle_event(
            BridgeEvent::HostKeyboardLedChanged {
                host_id: HOST_B,
                leds: KeyboardLedState::num_lock() | KeyboardLedState::caps_lock(),
            },
            &mut actions,
        )
        .unwrap();

    assert!(actions.is_empty());

    bridge
        .handle_event(BridgeEvent::SwitchTarget { target: HOST_B }, &mut actions)
        .unwrap();

    assert!(
        actions
            .as_slice()
            .contains(&BridgeAction::UsbSetKeyboardLeds {
                interface_id: InterfaceId(1),
                device_id: DEVICE,
                leds: KeyboardLedState::num_lock() | KeyboardLedState::caps_lock(),
            })
    );
}

#[test]
fn target_switch_applies_all_off_when_host_has_no_stored_led_state() {
    let mut bridge = ready_bridge();
    let mut actions = BoundedVec::<BridgeAction, 8>::new();
    bridge
        .handle_event(
            BridgeEvent::UsbHidInterfaceConnected {
                interface_id: InterfaceId(1),
                device_id: DEVICE,
                keyboard_led_sink: true,
            },
            &mut actions,
        )
        .unwrap();
    make_ready(&mut bridge, HOST_B);
    actions.clear();

    bridge
        .handle_event(BridgeEvent::SwitchTarget { target: HOST_B }, &mut actions)
        .unwrap();

    assert!(
        actions
            .as_slice()
            .contains(&BridgeAction::UsbSetKeyboardLeds {
                interface_id: InterfaceId(1),
                device_id: DEVICE,
                leds: KeyboardLedState::empty(),
            })
    );
}

#[test]
fn removing_one_keyboard_keeps_led_fanout_for_remaining_keyboards() {
    let mut bridge = ready_bridge();
    let mut actions = BoundedVec::<BridgeAction, 8>::new();
    bridge
        .handle_event(
            BridgeEvent::UsbHidInterfaceConnected {
                interface_id: InterfaceId(1),
                device_id: DEVICE,
                keyboard_led_sink: true,
            },
            &mut actions,
        )
        .unwrap();
    bridge
        .handle_event(
            BridgeEvent::UsbHidInterfaceConnected {
                interface_id: InterfaceId(2),
                device_id: DeviceId(2),
                keyboard_led_sink: true,
            },
            &mut actions,
        )
        .unwrap();
    actions.clear();

    bridge
        .handle_event(
            BridgeEvent::UsbDeviceRemoved {
                interface_id: InterfaceId(2),
            },
            &mut actions,
        )
        .unwrap();
    actions.clear();

    bridge
        .handle_event(
            BridgeEvent::HostKeyboardLedChanged {
                host_id: HOST_A,
                leds: KeyboardLedState::num_lock(),
            },
            &mut actions,
        )
        .unwrap();

    assert_eq!(
        actions.as_slice(),
        &[BridgeAction::UsbSetKeyboardLeds {
            interface_id: InterfaceId(1),
            device_id: DEVICE,
            leds: KeyboardLedState::num_lock(),
        }]
    );
}

#[test]
fn ble_keyboard_led_output_write_drives_usb_led_action() {
    let mut bridge = ready_bridge();
    let mut actions = BoundedVec::<BridgeAction, 8>::new();
    bridge
        .handle_event(
            BridgeEvent::UsbHidInterfaceConnected {
                interface_id: InterfaceId(1),
                device_id: DEVICE,
                keyboard_led_sink: true,
            },
            &mut actions,
        )
        .unwrap();
    actions.clear();

    let event = keyboard_led_event_from_ble_output(HOST_A, &[0b0000_0010]).unwrap();
    bridge.handle_event(event, &mut actions).unwrap();

    assert_eq!(
        actions.as_slice(),
        &[BridgeAction::UsbSetKeyboardLeds {
            interface_id: InterfaceId(1),
            device_id: DEVICE,
            leds: KeyboardLedState::caps_lock(),
        }]
    );
}

#[test]
fn ble_keyboard_led_output_write_rejects_invalid_payload_length() {
    assert_eq!(
        keyboard_led_event_from_ble_output(HOST_A, &[0, 0]),
        Err(BleKeyboardOutputError::InvalidLength)
    );
}

#[test]
fn bond_change_requests_profile_persistence() {
    let mut bridge = Bridge::<2>::new();
    let mut actions = BoundedVec::<BridgeAction, 8>::new();

    bridge
        .handle_event(
            BridgeEvent::HostSecurityChanged {
                host_id: HOST_A,
                encrypted: true,
                bonded: true,
                bond: None,
            },
            &mut actions,
        )
        .unwrap();

    assert!(actions.as_slice().contains(&BridgeAction::PersistProfiles));
}

#[test]
fn successful_pairing_closes_pairing_mode() {
    let mut bridge = Bridge::<2>::new();
    let mut actions = BoundedVec::<BridgeAction, 8>::new();
    bridge
        .handle_event(
            BridgeEvent::EnterPairingMode { host_id: HOST_A },
            &mut actions,
        )
        .unwrap();

    bridge
        .handle_event(
            BridgeEvent::HostSecurityChanged {
                host_id: HOST_A,
                encrypted: true,
                bonded: true,
                bond: None,
            },
            &mut actions,
        )
        .unwrap();

    assert_eq!(bridge.state().pairable_host, None);
    assert!(
        actions
            .as_slice()
            .contains(&BridgeAction::RejectPairing { host_id: HOST_A })
    );
}

#[test]
fn cccd_change_requests_profile_persistence() {
    let mut bridge = Bridge::<2>::new();
    let mut actions = BoundedVec::<BridgeAction, 8>::new();

    bridge
        .handle_event(
            BridgeEvent::CccdChanged {
                host_id: HOST_A,
                report: ReportKind::Mouse,
                enabled: true,
            },
            &mut actions,
        )
        .unwrap();

    assert!(actions.as_slice().contains(&BridgeAction::PersistProfiles));
}

#[test]
fn target_switch_requests_last_active_persistence() {
    let mut bridge = Bridge::<2>::new();
    let mut actions = BoundedVec::<BridgeAction, 8>::new();

    bridge
        .handle_event(BridgeEvent::SwitchTarget { target: HOST_A }, &mut actions)
        .unwrap();

    assert!(actions.as_slice().contains(&BridgeAction::PersistProfiles));
}

#[test]
fn entering_pairing_mode_enables_pairing_for_active_host() {
    let mut bridge = ready_bridge();
    let mut actions = BoundedVec::<BridgeAction, 8>::new();

    bridge
        .handle_event(
            BridgeEvent::EnterPairingMode { host_id: HOST_A },
            &mut actions,
        )
        .unwrap();

    assert!(
        actions
            .as_slice()
            .contains(&BridgeAction::AllowPairing { host_id: HOST_A })
    );
    assert!(
        actions
            .as_slice()
            .contains(&BridgeAction::StatusChanged(BridgeStatus {
                active_target: Some(HOST_A),
                pairable_host: Some(HOST_A),
            }))
    );
}

#[test]
fn entering_new_pairing_mode_rejects_previous_host() {
    let mut bridge = ready_bridge();
    let mut actions = BoundedVec::<BridgeAction, 8>::new();

    bridge
        .handle_event(
            BridgeEvent::EnterPairingMode { host_id: HOST_A },
            &mut actions,
        )
        .unwrap();
    actions.clear();
    bridge
        .handle_event(
            BridgeEvent::EnterPairingMode { host_id: HOST_B },
            &mut actions,
        )
        .unwrap();

    assert!(
        actions
            .as_slice()
            .contains(&BridgeAction::RejectPairing { host_id: HOST_A })
    );
    assert!(
        actions
            .as_slice()
            .contains(&BridgeAction::AllowPairing { host_id: HOST_B })
    );
}

#[test]
fn clearing_host_requests_bond_clear_and_persistence() {
    let mut bridge = ready_bridge();
    let mut actions = BoundedVec::<BridgeAction, 8>::new();
    bridge
        .handle_event(
            BridgeEvent::EnterPairingMode { host_id: HOST_A },
            &mut actions,
        )
        .unwrap();
    actions.clear();

    bridge
        .handle_event(BridgeEvent::ClearHost { host_id: HOST_A }, &mut actions)
        .unwrap();

    assert!(
        actions
            .as_slice()
            .contains(&BridgeAction::RejectPairing { host_id: HOST_A })
    );
    assert!(actions.as_slice().contains(&BridgeAction::ClearBond {
        host_id: HOST_A,
        bond: None,
    }));
    assert!(actions.as_slice().contains(&BridgeAction::PersistProfiles));
    assert!(
        actions
            .as_slice()
            .contains(&BridgeAction::StatusChanged(BridgeStatus {
                active_target: None,
                pairable_host: None,
            }))
    );
}

#[test]
fn storage_state_snapshot_contains_bond_cccd_and_last_active_host() {
    let bridge = ready_bridge_with(&[
        ReportKind::Keyboard,
        ReportKind::Mouse,
        ReportKind::Consumer,
        ReportKind::KeyboardOutput,
    ]);

    let snapshot = bridge.storage_state(10).unwrap();

    assert_eq!(snapshot.generation, 10);
    assert_eq!(snapshot.last_active_host, Some(HOST_A));
    assert_eq!(
        snapshot.hosts(),
        &[StoredHostProfile {
            host_id: HOST_A,
            bonded: true,
            keyboard_cccd_enabled: true,
            mouse_cccd_enabled: true,
            consumer_cccd_enabled: true,
            keyboard_output_cccd_enabled: true,
            name: hidshift::storage::FixedName::empty(),
            bond: None,
        }]
    );
}

#[test]
fn restore_storage_state_recovers_bond_cccd_and_last_active_without_connecting_hosts() {
    let mut stored = StorageState::new(11);
    stored.last_active_host = Some(HOST_B);
    stored
        .push_host(StoredHostProfile {
            host_id: HOST_B,
            bonded: true,
            keyboard_cccd_enabled: true,
            mouse_cccd_enabled: false,
            consumer_cccd_enabled: true,
            keyboard_output_cccd_enabled: true,
            name: hidshift::storage::FixedName::from_ascii("desktop").unwrap(),
            bond: None,
        })
        .unwrap();
    let mut bridge = Bridge::<2>::new();
    let mut actions = BoundedVec::<BridgeAction, 8>::new();

    bridge.restore_storage_state(&stored, &mut actions).unwrap();

    assert_eq!(bridge.state().hosts.active_target(), Some(HOST_B));
    assert!(!bridge.can_send(HOST_B, ReportKind::Keyboard));
    assert!(actions.is_empty());

    let snapshot = bridge.storage_state(12).unwrap();
    assert_eq!(snapshot.last_active_host, Some(HOST_B));
    assert_eq!(
        snapshot.hosts(),
        &[StoredHostProfile {
            host_id: HOST_B,
            bonded: true,
            keyboard_cccd_enabled: true,
            mouse_cccd_enabled: false,
            consumer_cccd_enabled: true,
            keyboard_output_cccd_enabled: true,
            name: hidshift::storage::FixedName::from_ascii("desktop").unwrap(),
            bond: None,
        }]
    );
}

#[test]
fn restore_storage_state_errors_when_profile_count_exceeds_bridge_capacity() {
    let mut stored = StorageState::new(11);
    let mut first = StoredHostProfile::empty();
    first.host_id = HOST_A;
    stored.push_host(first).unwrap();
    let mut second = StoredHostProfile::empty();
    second.host_id = HOST_B;
    stored.push_host(second).unwrap();
    let mut bridge = Bridge::<1>::new();
    let mut actions = BoundedVec::<BridgeAction, 8>::new();

    assert_eq!(
        bridge.restore_storage_state(&stored, &mut actions),
        Err(BridgeError::HostState(HostStateError::HostCapacity))
    );
}

#[test]
fn no_ready_target_keeps_button_and_consumer_state_but_drops_mouse_movement() {
    let mut bridge = Bridge::<2>::new();
    let mut actions = BoundedVec::<BridgeAction, 8>::new();

    bridge
        .handle_event(BridgeEvent::SwitchTarget { target: HOST_A }, &mut actions)
        .unwrap();
    actions.clear();

    bridge
        .handle_event(
            BridgeEvent::InputFrame(InputFrame::Standard(StandardInputFrame {
                device_id: DEVICE,
                interface_id: InterfaceId(1),
                keyboard: None,
                mouse: Some(MouseFrame {
                    buttons: mouse_buttons(&[MouseButton::Right]),
                    movement: MouseMovement {
                        x: 12,
                        y: 0,
                        wheel: 1,
                        pan: 0,
                    },
                }),
                consumer: Some(ConsumerFrame {
                    active: Some(ConsumerUsage(0x00ea)),
                }),
            })),
            &mut actions,
        )
        .unwrap();

    assert!(actions.is_empty());
    assert_eq!(
        bridge.state().input.mouse.buttons,
        mouse_buttons(&[MouseButton::Right])
    );
    assert_eq!(
        bridge.state().input.consumer.active,
        Some(ConsumerUsage(0x00ea))
    );
    assert_eq!(bridge.state().stats.mouse_movements_dropped, 1);
}

#[test]
fn seventh_key_stays_suppressed_until_its_physical_release() {
    let mut bridge = ready_bridge();
    let mut actions = BoundedVec::<BridgeAction, 4>::new();
    bridge
        .handle_event(
            BridgeEvent::InputFrame(InputFrame::Standard(keyboard_frame(&[
                0x04, 0x05, 0x06, 0x07, 0x08, 0x09, 0x0a,
            ]))),
            &mut actions,
        )
        .unwrap();
    let first = match actions.as_slice()[0] {
        BridgeAction::BleNotify {
            report: BleHidReport::Keyboard(report),
            ..
        } => report,
        _ => panic!("expected keyboard notification"),
    };
    assert_eq!(first.as_bytes(), &[0, 0, 4, 5, 6, 7, 8, 9]);

    bridge
        .handle_event(
            BridgeEvent::InputFrame(InputFrame::Standard(keyboard_frame(&[
                0x05, 0x06, 0x07, 0x08, 0x09, 0x0a,
            ]))),
            &mut actions,
        )
        .unwrap();
    let after_release = match actions.as_slice()[0] {
        BridgeAction::BleNotify {
            report: BleHidReport::Keyboard(report),
            ..
        } => report,
        _ => panic!("expected keyboard notification"),
    };
    assert_eq!(after_release.as_bytes(), &[0, 0, 5, 6, 7, 8, 9, 0]);
    assert!(
        bridge
            .state()
            .suppression
            .keyboard
            .contains_key(KeyUsage(0x0a))
    );
}

fn ready_bridge() -> Bridge<2> {
    ready_bridge_with(&[ReportKind::Keyboard])
}

fn ready_bridge_with(kinds: &[ReportKind]) -> Bridge<2> {
    let mut bridge = Bridge::<2>::new();
    make_ready_with(&mut bridge, HOST_A, kinds);
    let mut actions = BoundedVec::<BridgeAction, 8>::new();
    bridge
        .handle_event(BridgeEvent::SwitchTarget { target: HOST_A }, &mut actions)
        .unwrap();
    bridge
}

fn make_ready<const HOSTS: usize>(bridge: &mut Bridge<HOSTS>, host_id: HostId) {
    make_ready_with(bridge, host_id, &[ReportKind::Keyboard]);
}

fn make_ready_with<const HOSTS: usize>(
    bridge: &mut Bridge<HOSTS>,
    host_id: HostId,
    kinds: &[ReportKind],
) {
    let mut actions = BoundedVec::<BridgeAction, 4>::new();
    bridge
        .handle_event(BridgeEvent::HostConnected { host_id }, &mut actions)
        .unwrap();
    bridge
        .handle_event(
            BridgeEvent::HostSecurityChanged {
                host_id,
                encrypted: true,
                bonded: true,
                bond: None,
            },
            &mut actions,
        )
        .unwrap();
    for report in kinds {
        bridge
            .handle_event(
                BridgeEvent::CccdChanged {
                    host_id,
                    report: *report,
                    enabled: true,
                },
                &mut actions,
            )
            .unwrap();
    }
}

fn keyboard_frame(keys: &[u8]) -> StandardInputFrame {
    keyboard_frame_with_modifiers(keys, ModifierState::empty())
}

fn keyboard_frame_with_modifiers(keys: &[u8], modifiers: ModifierState) -> StandardInputFrame {
    let mut keyboard = KeyboardFrame::new(modifiers);
    for key in keys {
        keyboard.push_key(KeyUsage(*key)).unwrap();
    }
    StandardInputFrame {
        device_id: DEVICE,
        interface_id: InterfaceId(1),
        keyboard: Some(keyboard),
        mouse: None,
        consumer: None,
    }
}

fn mouse_frame(buttons: MouseButtons, movement: MouseMovement) -> StandardInputFrame {
    StandardInputFrame {
        device_id: DEVICE,
        interface_id: InterfaceId(1),
        keyboard: None,
        mouse: Some(MouseFrame { buttons, movement }),
        consumer: None,
    }
}

fn consumer_frame(active: Option<u16>) -> StandardInputFrame {
    StandardInputFrame {
        device_id: DEVICE,
        interface_id: InterfaceId(1),
        keyboard: None,
        mouse: None,
        consumer: Some(ConsumerFrame {
            active: active.map(ConsumerUsage),
        }),
    }
}

fn mouse_buttons(buttons: &[MouseButton]) -> MouseButtons {
    let mut state = MouseButtons::empty();
    for button in buttons {
        state.set(*button, true);
    }
    state
}
