use hidshift::input::InputError;
use hidshift::input::keyboard::{
    KeyUsage, KeyboardFrame, KeyboardSuppression, Modifier, ModifierState,
    PHYSICAL_KEYBOARD_KEY_CAPACITY, PhysicalKeyboardState,
};

#[test]
fn physical_keyboard_tracks_non_modifier_keys_in_press_order() {
    let mut keyboard = PhysicalKeyboardState::new();

    keyboard.press_key(KeyUsage(0x06)).unwrap();
    keyboard.press_key(KeyUsage(0x04)).unwrap();
    keyboard.press_key(KeyUsage(0x05)).unwrap();
    keyboard.press_key(KeyUsage(0x04)).unwrap();

    assert_eq!(
        keyboard.keys(),
        &[KeyUsage(0x06), KeyUsage(0x04), KeyUsage(0x05)]
    );
}

#[test]
fn physical_keyboard_reports_capacity_without_losing_existing_keys() {
    let mut keyboard = PhysicalKeyboardState::new();

    for usage in 0x04..0x24 {
        keyboard.press_key(KeyUsage(usage)).unwrap();
    }

    assert_eq!(
        keyboard.press_key(KeyUsage(0x24)),
        Err(InputError::KeyCapacity)
    );
    assert_eq!(keyboard.key_count(), PHYSICAL_KEYBOARD_KEY_CAPACITY);
    assert!(keyboard.contains_key(KeyUsage(0x04)));
    assert!(!keyboard.contains_key(KeyUsage(0x24)));
}

#[test]
fn frame_update_preserves_existing_press_order_and_releases_missing_keys() {
    let mut keyboard = PhysicalKeyboardState::new();
    let mut suppression = KeyboardSuppression::new();
    keyboard.press_key(KeyUsage(0x06)).unwrap();
    keyboard.press_key(KeyUsage(0x04)).unwrap();
    keyboard.press_key(KeyUsage(0x05)).unwrap();

    let mut frame = KeyboardFrame::new(ModifierState::left_shift());
    frame.push_key(KeyUsage(0x05)).unwrap();
    frame.push_key(KeyUsage(0x06)).unwrap();
    frame.push_key(KeyUsage(0x07)).unwrap();

    keyboard.apply_frame(&frame, &mut suppression).unwrap();

    assert_eq!(
        keyboard.keys(),
        &[KeyUsage(0x06), KeyUsage(0x05), KeyUsage(0x07)]
    );
    assert_eq!(keyboard.modifiers, ModifierState::left_shift());
}

#[test]
fn keyboard_visible_state_excludes_suppressed_keys_until_release() {
    let mut physical = PhysicalKeyboardState::new();
    physical.press_key(KeyUsage(0x04)).unwrap();
    physical.press_key(KeyUsage(0x05)).unwrap();
    physical.press_key(KeyUsage(0x06)).unwrap();

    let mut suppression = KeyboardSuppression::new();
    suppression.capture_from(&physical).unwrap();

    let visible = physical.visible_against(&suppression);
    assert!(visible.is_empty());

    physical.release_key(KeyUsage(0x05), &mut suppression);
    physical.press_key(KeyUsage(0x07)).unwrap();

    let visible = physical.visible_against(&suppression);
    assert_eq!(visible.keys(), &[KeyUsage(0x07)]);
    assert!(!suppression.contains_key(KeyUsage(0x05)));
}

#[test]
fn modifier_state_uses_ble_boot_modifier_bits() {
    let mut modifiers = ModifierState::empty();

    modifiers.set_modifier(Modifier::LeftCtrl, true);
    modifiers.set_modifier(Modifier::RightGui, true);

    assert_eq!(modifiers.bits(), 0b1000_0001);
}
