use hidshift::ids::{DeviceId, InterfaceId};
use hidshift::input::{
    ConsumerFrame, ConsumerUsage, InputError, KeyUsage, KeyboardFrame, ModifierState, MouseButtons,
    MouseFrame, MouseMovement, StandardInputFrame,
};
use hidshift::input::aggregator::InputAggregator;

#[test]
fn keyboard_union_survives_multiple_devices() {
    let mut aggregator = InputAggregator::<4>::new();
    let mut keyboard_a = KeyboardFrame::new(ModifierState::left_shift());
    keyboard_a.push_key(KeyUsage(0x04)).unwrap();
    aggregator
        .apply_frame(&StandardInputFrame {
            device_id: DeviceId(1),
            interface_id: InterfaceId(1),
            keyboard: Some(keyboard_a),
            mouse: None,
            consumer: None,
        })
        .unwrap();

    let mut keyboard_b = KeyboardFrame::new(ModifierState::right_alt());
    keyboard_b.push_key(KeyUsage(0x05)).unwrap();
    aggregator
        .apply_frame(&StandardInputFrame {
            device_id: DeviceId(2),
            interface_id: InterfaceId(2),
            keyboard: Some(keyboard_b),
            mouse: None,
            consumer: None,
        })
        .unwrap();

    assert_eq!(
        aggregator.aggregate().keyboard.modifiers,
        ModifierState::left_shift() | ModifierState::right_alt()
    );
    assert_eq!(
        aggregator.aggregate().keyboard.keys(),
        &[KeyUsage(0x04), KeyUsage(0x05)]
    );
}

#[test]
fn removing_device_keeps_other_device_state() {
    let mut aggregator = InputAggregator::<4>::new();
    aggregator
        .apply_frame(&StandardInputFrame {
            device_id: DeviceId(1),
            interface_id: InterfaceId(1),
            keyboard: Some({
                let mut frame = KeyboardFrame::new(ModifierState::empty());
                frame.push_key(KeyUsage(0x04)).unwrap();
                frame
            }),
            mouse: Some(MouseFrame {
                buttons: MouseButtons::left(),
                movement: MouseMovement::neutral(),
            }),
            consumer: None,
        })
        .unwrap();
    aggregator
        .apply_frame(&StandardInputFrame {
            device_id: DeviceId(2),
            interface_id: InterfaceId(2),
            keyboard: Some({
                let mut frame = KeyboardFrame::new(ModifierState::empty());
                frame.push_key(KeyUsage(0x05)).unwrap();
                frame
            }),
            mouse: None,
            consumer: Some(ConsumerFrame {
                active: Some(ConsumerUsage(0x00e9)),
            }),
        })
        .unwrap();

    assert!(aggregator.remove_device(DeviceId(1)));

    assert_eq!(aggregator.aggregate().keyboard.keys(), &[KeyUsage(0x05)]);
    assert_eq!(aggregator.aggregate().mouse.buttons, MouseButtons::empty());
    assert_eq!(
        aggregator.aggregate().consumer.active,
        Some(ConsumerUsage(0x00e9))
    );
}

#[test]
fn newest_active_consumer_wins_and_falls_back_when_removed() {
    let mut aggregator = InputAggregator::<4>::new();
    aggregator
        .apply_frame(&StandardInputFrame {
            device_id: DeviceId(1),
            interface_id: InterfaceId(1),
            keyboard: None,
            mouse: None,
            consumer: Some(ConsumerFrame {
                active: Some(ConsumerUsage(0x00e9)),
            }),
        })
        .unwrap();
    aggregator
        .apply_frame(&StandardInputFrame {
            device_id: DeviceId(2),
            interface_id: InterfaceId(2),
            keyboard: None,
            mouse: None,
            consumer: Some(ConsumerFrame {
                active: Some(ConsumerUsage(0x00cd)),
            }),
        })
        .unwrap();

    assert_eq!(
        aggregator.aggregate().consumer.active,
        Some(ConsumerUsage(0x00cd))
    );

    aggregator.remove_device(DeviceId(2));
    assert_eq!(
        aggregator.aggregate().consumer.active,
        Some(ConsumerUsage(0x00e9))
    );
}

#[test]
fn keyboard_and_mouse_frames_do_not_change_consumer_priority() {
    let mut aggregator = InputAggregator::<4>::new();
    for (device_id, usage) in [(1, 0x00e9), (2, 0x00cd)] {
        aggregator
            .apply_frame(&StandardInputFrame {
                device_id: DeviceId(device_id),
                interface_id: InterfaceId(device_id),
                keyboard: None,
                mouse: None,
                consumer: Some(ConsumerFrame {
                    active: Some(ConsumerUsage(usage)),
                }),
            })
            .unwrap();
    }

    aggregator
        .apply_frame(&StandardInputFrame {
            device_id: DeviceId(1),
            interface_id: InterfaceId(1),
            keyboard: Some(KeyboardFrame::new(ModifierState::empty())),
            mouse: Some(MouseFrame {
                buttons: MouseButtons::left(),
                movement: MouseMovement {
                    x: 1,
                    y: 0,
                    wheel: 0,
                    pan: 0,
                },
            }),
            consumer: None,
        })
        .unwrap();

    assert_eq!(
        aggregator.aggregate().consumer.active,
        Some(ConsumerUsage(0x00cd))
    );
}

#[test]
fn movement_only_frames_do_not_consume_device_capacity() {
    let mut aggregator = InputAggregator::<1>::new();
    for device_id in 1..=8 {
        aggregator
            .apply_frame(&StandardInputFrame {
                device_id: DeviceId(device_id),
                interface_id: InterfaceId(device_id),
                keyboard: None,
                mouse: Some(MouseFrame {
                    buttons: MouseButtons::empty(),
                    movement: MouseMovement {
                        x: 1,
                        y: -1,
                        wheel: 0,
                        pan: 0,
                    },
                }),
                consumer: None,
            })
            .unwrap();
    }
    assert_eq!(aggregator, InputAggregator::<1>::new());
}

#[test]
fn consumer_generation_comparison_survives_wrap() {
    let mut aggregator = InputAggregator::<2>::with_generation(u64::MAX);
    for (device_id, usage) in [(1, 0x00e9), (2, 0x00cd)] {
        aggregator
            .apply_frame(&StandardInputFrame {
                device_id: DeviceId(device_id),
                interface_id: InterfaceId(device_id),
                keyboard: None,
                mouse: None,
                consumer: Some(ConsumerFrame {
                    active: Some(ConsumerUsage(usage)),
                }),
            })
            .unwrap();
    }
    assert_eq!(
        aggregator.aggregate().consumer.active,
        Some(ConsumerUsage(0x00cd))
    );
}

#[test]
fn capacity_error_does_not_partially_update_device_or_aggregate_state() {
    let mut aggregator = InputAggregator::<2>::new();
    let mut first = KeyboardFrame::new(ModifierState::empty());
    for usage in 4..=23 {
        first.push_key(KeyUsage(usage)).unwrap();
    }
    aggregator
        .apply_frame(&StandardInputFrame {
            device_id: DeviceId(1),
            interface_id: InterfaceId(1),
            keyboard: Some(first),
            mouse: None,
            consumer: None,
        })
        .unwrap();
    let before = aggregator.clone();
    let mut second = KeyboardFrame::new(ModifierState::empty());
    for usage in 24..=43 {
        second.push_key(KeyUsage(usage)).unwrap();
    }

    assert_eq!(
        aggregator.apply_frame(&StandardInputFrame {
            device_id: DeviceId(2),
            interface_id: InterfaceId(2),
            keyboard: Some(second),
            mouse: None,
            consumer: None,
        }),
        Err(InputError::KeyCapacity)
    );
    assert_eq!(aggregator, before);
}

#[test]
fn same_device_keyboard_interfaces_are_aggregated_independently() {
    let mut aggregator = InputAggregator::<2>::new();
    for (interface, usage) in [(1, 0x04), (2, 0x05)] {
        let mut keyboard = KeyboardFrame::new(ModifierState::empty());
        keyboard.push_key(KeyUsage(usage)).unwrap();
        aggregator
            .apply_frame(&StandardInputFrame {
                device_id: DeviceId(7),
                interface_id: InterfaceId(interface),
                keyboard: Some(keyboard),
                mouse: None,
                consumer: None,
            })
            .unwrap();
    }
    assert_eq!(
        aggregator.aggregate().keyboard.keys(),
        &[KeyUsage(0x04), KeyUsage(0x05)]
    );

    aggregator
        .apply_frame(&StandardInputFrame {
            device_id: DeviceId(7),
            interface_id: InterfaceId(1),
            keyboard: Some(KeyboardFrame::new(ModifierState::empty())),
            mouse: None,
            consumer: None,
        })
        .unwrap();
    assert_eq!(aggregator.aggregate().keyboard.keys(), &[KeyUsage(0x05)]);

    assert!(aggregator.remove_interface(InterfaceId(1)));
    assert_eq!(aggregator.aggregate().keyboard.keys(), &[KeyUsage(0x05)]);
    assert!(aggregator.remove_device(DeviceId(7)));
    assert!(aggregator.aggregate().keyboard.keys().is_empty());
}
