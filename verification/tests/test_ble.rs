use hidshift::ble::{
    BleHidAttribute, BleHostAdapterError, BleHostAdapterEvent, bridge_events_from_ble_host_event,
};
use hidshift::bounded::BoundedVec;
use hidshift::bridge::BridgeEvent;
use hidshift::ids::HostId;
use hidshift::input::KeyboardLedState;
use hidshift::reports::{KEYBOARD_REPORT_ID, ReportKind};

const HOST: HostId = HostId(1);

#[test]
fn connection_and_security_events_map_to_bridge_events() {
    let mut events = BoundedVec::<BridgeEvent, 2>::new();

    bridge_events_from_ble_host_event(HOST, BleHostAdapterEvent::Connected, &mut events)
        .unwrap();
    assert_eq!(
        events.as_slice(),
        &[BridgeEvent::HostConnected { host_id: HOST }]
    );

    bridge_events_from_ble_host_event(
        HOST,
        BleHostAdapterEvent::SecurityChanged {
            encrypted: true,
            bonded: true,
            bond: None,
        },
        &mut events,
    )
    .unwrap();
    assert_eq!(
        events.as_slice(),
        &[BridgeEvent::HostSecurityChanged {
            host_id: HOST,
            encrypted: true,
            bonded: true,
            bond: None,
        }]
    );
}

#[test]
fn cccd_writes_map_to_report_readiness_events() {
    let mut events = BoundedVec::<BridgeEvent, 1>::new();

    bridge_events_from_ble_host_event(
        HOST,
        BleHostAdapterEvent::GattWrite {
            attribute: BleHidAttribute::MouseInputCccd,
            data: &[0x01, 0x00],
        },
        &mut events,
    )
    .unwrap();

    assert_eq!(
        events.as_slice(),
        &[BridgeEvent::CccdChanged {
            host_id: HOST,
            report: ReportKind::Mouse,
            enabled: true,
        }]
    );
}

#[test]
fn keyboard_output_report_write_maps_to_led_event_with_or_without_report_id() {
    let mut events = BoundedVec::<BridgeEvent, 1>::new();

    bridge_events_from_ble_host_event(
        HOST,
        BleHostAdapterEvent::GattWrite {
            attribute: BleHidAttribute::KeyboardOutputReport,
            data: &[KEYBOARD_REPORT_ID, 0b0000_0010],
        },
        &mut events,
    )
    .unwrap();
    assert_eq!(
        events.as_slice(),
        &[BridgeEvent::HostKeyboardLedChanged {
            host_id: HOST,
            leds: KeyboardLedState::caps_lock(),
        }]
    );

    bridge_events_from_ble_host_event(
        HOST,
        BleHostAdapterEvent::GattWrite {
            attribute: BleHidAttribute::BootKeyboardOutputReport,
            data: &[0b0000_0101],
        },
        &mut events,
    )
    .unwrap();
    assert_eq!(
        events.as_slice(),
        &[BridgeEvent::HostKeyboardLedChanged {
            host_id: HOST,
            leds: KeyboardLedState::num_lock() | KeyboardLedState::scroll_lock(),
        }]
    );
}

#[test]
fn invalid_cccd_and_output_writes_are_explicit_errors() {
    let mut events = BoundedVec::<BridgeEvent, 1>::new();

    assert_eq!(
        bridge_events_from_ble_host_event(
            HOST,
            BleHostAdapterEvent::GattWrite {
                attribute: BleHidAttribute::KeyboardInputCccd,
                data: &[0x01],
            },
            &mut events,
        ),
        Err(BleHostAdapterError::InvalidCccdLength)
    );
    assert_eq!(
        bridge_events_from_ble_host_event(
            HOST,
            BleHostAdapterEvent::GattWrite {
                attribute: BleHidAttribute::KeyboardOutputReport,
                data: &[0xff, 0x00],
            },
            &mut events,
        ),
        Err(BleHostAdapterError::InvalidOutputReportLength)
    );
}
