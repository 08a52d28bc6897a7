use hidshift::ids::{DeviceId, InterfaceId};
use hidshift::input::{
    KeyboardFrame, ModifierState, MouseButtons, MouseFrame, MouseMovement, StandardInputFrame,
};
use hidshift::input::movement_queue::{UsbMovementCoalescer, UsbMovementCoalescerError};

fn movement(interface: u8, x: i16, buttons: MouseButtons) -> StandardInputFrame {
    StandardInputFrame {
        device_id: DeviceId(1),
        interface_id: InterfaceId(interface),
        keyboard: None,
        mouse: Some(MouseFrame {
            buttons,
            movement: MouseMovement {
                x,
                y: -x,
                wheel: 1,
                pan: -1,
            },
        }),
        consumer: None,
    }
}

#[test]
fn full_runtime_queue_movement_is_coalesced_without_losing_sum() {
    let mut queue = UsbMovementCoalescer::<2>::new();
    for _ in 0..10 {
        queue
            .push(&movement(1, 30, MouseButtons::empty()))
            .unwrap();
    }
    let mut totals = [0i32; 4];
    while let Some(frame) = queue.take_next() {
        let movement = frame.mouse.unwrap().movement;
        totals[0] += i32::from(movement.x);
        totals[1] += i32::from(movement.y);
        totals[2] += i32::from(movement.wheel);
        totals[3] += i32::from(movement.pan);
    }
    assert_eq!(totals, [300, -300, 10, -10]);
    assert_eq!(queue.stats().reports_coalesced, 9);
}

#[test]
fn button_or_non_mouse_frames_are_not_accepted_as_coalescible() {
    let mut queue = UsbMovementCoalescer::<1>::new();
    queue
        .push(&movement(1, 1, MouseButtons::empty()))
        .unwrap();
    assert_eq!(
        queue.push(&movement(1, 1, MouseButtons::left())),
        Err(UsbMovementCoalescerError::NotMovementOnly)
    );

    let mut frame = movement(1, 1, MouseButtons::empty());
    frame.keyboard = Some(KeyboardFrame::new(
        ModifierState::empty(),
    ));
    assert_eq!(
        queue.push(&frame),
        Err(UsbMovementCoalescerError::NotMovementOnly)
    );
}
