use hidshift::domain::input_profile::{
    InputIdentity, InputProfile, InputProfileError, InputProfileId, InputProfileRegistry,
};
use hidshift::ids::{DeviceId, InterfaceId};
use hidshift::input::{MouseButtons, MouseFrame, MouseMovement, StandardInputFrame};
use hidshift::settings::InputSettings;

fn identity(value: u16) -> InputIdentity {
    InputIdentity::from_port_path(value, value, &[value as u8])
}

#[test]
fn serial_and_path_identity_are_stable_and_distinct() {
    let serial = InputIdentity::from_serial(1, 2, b"abc").unwrap();
    assert_eq!(serial, InputIdentity::from_serial(1, 2, b"abc").unwrap());
    assert_ne!(serial, InputIdentity::from_port_path(1, 2, b"abc"));
    assert_eq!(InputIdentity::from_serial(1, 2, b""), None);
}

#[test]
fn oldest_disconnected_profile_is_replaced_even_when_customized() {
    let mut registry = InputProfileRegistry::new();
    let mut oldest = None;
    for value in 1..=8 {
        let id = registry.observe(identity(value), value as u64).unwrap();
        registry.get_mut(id).unwrap().settings.keyboard_layout = 2;
        registry.disconnect(id, value as u64).unwrap();
        oldest.get_or_insert(id);
    }
    let replacement = registry.observe(identity(9), 9).unwrap();
    assert_eq!(replacement, oldest.unwrap());
    assert_eq!(
        registry.get(replacement).unwrap().settings,
        InputSettings::default()
    );
}

#[test]
fn connected_profiles_are_not_replaced() {
    let mut registry = InputProfileRegistry::new();
    for value in 1..=8 {
        registry.observe(identity(value), value as u64).unwrap();
    }
    assert_eq!(
        registry.observe(identity(9), 9),
        Err(InputProfileError::RegistryFullWithConnectedProfiles)
    );
}

#[test]
fn reconnect_restores_the_same_profile_and_settings() {
    let mut registry = InputProfileRegistry::new();
    let id = registry.observe(identity(1), 1).unwrap();
    registry.get_mut(id).unwrap().settings.remap_from_usage = 4;
    registry.get_mut(id).unwrap().settings.remap_to_usage = 5;
    registry.disconnect(id, 2).unwrap();

    assert_eq!(registry.observe(identity(1), 3), Ok(id));
    assert_eq!(registry.get(id).unwrap().settings.remap_to_usage, 5);
}

#[test]
fn transform_keeps_fractional_mouse_movement_per_axis() {
    let id = InputProfileId::new(1).unwrap();
    let mut profile = InputProfile::restored(id, identity(1), 0, InputSettings::default());
    profile.settings.mouse_sensitivity_percent = 50;
    let mut frame = StandardInputFrame {
        device_id: DeviceId(1),
        interface_id: InterfaceId(1),
        keyboard: None,
        mouse: Some(MouseFrame {
            buttons: MouseButtons::empty(),
            movement: MouseMovement {
                x: 1,
                y: -1,
                wheel: 0,
                pan: 0,
            },
        }),
        consumer: None,
    };
    profile.transform(&mut frame);
    assert_eq!(frame.mouse.unwrap().movement.x, 0);
    frame.mouse.as_mut().unwrap().movement.x = 1;
    frame.mouse.as_mut().unwrap().movement.y = -1;
    profile.transform(&mut frame);
    assert_eq!(frame.mouse.unwrap().movement.x, 1);
    assert_eq!(frame.mouse.unwrap().movement.y, -1);
}
