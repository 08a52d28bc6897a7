use hidshift::ble::BleHidAttribute;
use hidshift::ble_runtime::{
    BleHidAttributeHandles, connected_message, disconnected_message, gatt_write_message,
    security_changed_message,
};
use hidshift::ids::HostId;
use hidshift::runtime::{
    RuntimeBleGattWrite, RuntimeBleHostEvent, RuntimeInputMessage, RuntimeInputMessageError,
};

const HANDLES: BleHidAttributeHandles = BleHidAttributeHandles {
    keyboard_input_cccd: Some(10),
    mouse_input_cccd: Some(11),
    consumer_input_cccd: Some(12),
    keyboard_output_cccd: Some(13),
    keyboard_output_report: 20,
    boot_keyboard_output_report: Some(21),
};

#[test]
fn handle_table_resolves_known_hid_attributes() {
    assert_eq!(HANDLES.resolve(10), BleHidAttribute::KeyboardInputCccd);
    assert_eq!(HANDLES.resolve(11), BleHidAttribute::MouseInputCccd);
    assert_eq!(HANDLES.resolve(12), BleHidAttribute::ConsumerInputCccd);
    assert_eq!(HANDLES.resolve(13), BleHidAttribute::KeyboardOutputCccd);
    assert_eq!(HANDLES.resolve(20), BleHidAttribute::KeyboardOutputReport);
    assert_eq!(
        HANDLES.resolve(21),
        BleHidAttribute::BootKeyboardOutputReport
    );
    assert_eq!(HANDLES.resolve(99), BleHidAttribute::Unknown);
}

#[test]
fn connection_state_messages_become_owned_runtime_inputs() {
    assert_eq!(
        connected_message(HostId(1)),
        RuntimeInputMessage::BleHostEvent {
            host_id: HostId(1),
            event: RuntimeBleHostEvent::Connected,
        }
    );
    assert_eq!(
        disconnected_message(HostId(2)),
        RuntimeInputMessage::BleHostEvent {
            host_id: HostId(2),
            event: RuntimeBleHostEvent::Disconnected,
        }
    );
    assert_eq!(
        security_changed_message(HostId(3), true, false, None),
        RuntimeInputMessage::BleHostEvent {
            host_id: HostId(3),
            event: RuntimeBleHostEvent::SecurityChanged {
                encrypted: true,
                bonded: false,
                bond: None,
            },
        }
    );
}

#[test]
fn gatt_write_message_resolves_attribute_and_owns_payload() {
    assert_eq!(
        gatt_write_message(HostId(1), HANDLES, 20, &[1, 2]).unwrap(),
        RuntimeInputMessage::BleHostEvent {
            host_id: HostId(1),
            event: RuntimeBleHostEvent::GattWrite {
                attribute: BleHidAttribute::KeyboardOutputReport,
                data: RuntimeBleGattWrite::from_slice(&[1, 2]).unwrap(),
            },
        }
    );
}

#[test]
fn gatt_write_message_rejects_payloads_beyond_runtime_boundary() {
    assert_eq!(
        gatt_write_message(HostId(1), HANDLES, 20, &[0, 1, 2]),
        Err(RuntimeInputMessageError::BleGattWriteTooLong)
    );
}
