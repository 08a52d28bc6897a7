use hidshift::ids::{DeviceId, InterfaceId};
use hidshift::input::MouseMovement;
use hidshift::link::message::{
    BridgeMessage, BridgeMessageError, BridgeRole, HidReportType, InputLane, InterfaceDescriptor,
    MAX_BRIDGE_MESSAGE_SIZE, MAX_HID_REPORT_DESCRIPTOR_SIZE, MAX_HID_REPORT_SIZE, MotionCumulative,
};

fn round_trip(message: BridgeMessage<'_>) {
    let mut bytes = [0; MAX_BRIDGE_MESSAGE_SIZE];
    let len = message.encode(&mut bytes).unwrap();
    assert_eq!(BridgeMessage::decode(&bytes[..len]), Ok(message));
}

#[test]
fn all_bidirectional_hid_messages_round_trip() {
    round_trip(BridgeMessage::Hello {
        role: BridgeRole::UsbHost,
        capabilities: 0x1234,
        session_id: 0x5566_7788,
        peer_session_id: 0x1122_3344,
        next_critical_sequence: 42,
        next_motion_sequence: 99,
    });
    round_trip(BridgeMessage::InterfaceDescriptor(InterfaceDescriptor {
        device_id: DeviceId(1),
        interface_id: InterfaceId(2),
        interface_index: 3,
        vendor_id: 0x046d,
        product_id: 0xc539,
        descriptor: &[0x06, 0x00, 0xff, 0x09, 0x01],
    }));
    round_trip(BridgeMessage::InputReport {
        device_id: DeviceId(1),
        interface_id: InterfaceId(2),
        lane: InputLane::Critical,
        sequence: 7,
        e2e_sequence: 0x1122_3344,
        motion: MotionCumulative::zero(),
        report: &[7, 1, 2, 3],
    });
    let records = [
        2, // critical lane
        1, 2, // device/interface
        7, 0, 0, 0, // sequence
        9, 0, 0, 0, // E2E sequence
        2, 0, // report length
        1, 4, // report
    ];
    round_trip(BridgeMessage::InputSnapshot {
        record_count: 1,
        records: &records,
    });
    round_trip(BridgeMessage::InputReport {
        device_id: DeviceId(1),
        interface_id: InterfaceId(2),
        lane: InputLane::Motion,
        sequence: 8,
        e2e_sequence: 0x5566_7788,
        motion: MotionCumulative {
            x: 1000,
            y: -2000,
            wheel: 3,
            pan: -4,
        },
        report: &[7, 1, 2, 3],
    });
    for report_type in [HidReportType::Output, HidReportType::Feature] {
        round_trip(BridgeMessage::SetReport {
            device_id: DeviceId(1),
            interface_id: InterfaceId(2),
            report_type,
            report_id: 7,
            report: &[7, 0xaa, 0x55],
        });
        round_trip(BridgeMessage::GetReport {
            device_id: DeviceId(1),
            interface_id: InterfaceId(2),
            report_type,
            report_id: 7,
            requested_len: 64,
            request_id: 99,
        });
    }
    round_trip(BridgeMessage::GetReportResponse {
        device_id: DeviceId(1),
        interface_id: InterfaceId(2),
        report_type: HidReportType::Feature,
        report_id: 7,
        request_id: 99,
        report: &[7, 0x42],
    });
    round_trip(BridgeMessage::ReleaseAll);
    round_trip(BridgeMessage::EnterDownloadMode);
    round_trip(BridgeMessage::DescriptorSnapshotEnd {
        interface_count: 3,
        generation: 7,
    });
    round_trip(BridgeMessage::E2eBridgeTimestamp {
        sequence: 11,
        radio_rx_us: 22,
        reassembled_us: 33,
        hid_write_us: 44,
    });
}

#[test]
fn descriptor_and_report_limits_are_explicit() {
    let descriptor = [0; MAX_HID_REPORT_DESCRIPTOR_SIZE + 1];
    let report = [0; MAX_HID_REPORT_SIZE + 1];
    let mut out = [0; MAX_BRIDGE_MESSAGE_SIZE + 2];
    assert_eq!(
        BridgeMessage::InterfaceDescriptor(InterfaceDescriptor {
            device_id: DeviceId(1),
            interface_id: InterfaceId(1),
            interface_index: 0,
            vendor_id: 0,
            product_id: 0,
            descriptor: &descriptor,
        })
        .encode(&mut out),
        Err(BridgeMessageError::DescriptorTooLarge)
    );
    assert_eq!(
        BridgeMessage::InputReport {
            device_id: DeviceId(1),
            interface_id: InterfaceId(1),
            lane: InputLane::Critical,
            sequence: 0,
            e2e_sequence: 0,
            motion: MotionCumulative::zero(),
            report: &report,
        }
        .encode(&mut out),
        Err(BridgeMessageError::ReportTooLarge)
    );
}

#[test]
fn cumulative_motion_recovers_a_dropped_intermediate_report() {
    let first = MotionCumulative {
        x: 7,
        y: -2,
        wheel: 1,
        pan: 0,
    };
    let after_dropped_packet = MotionCumulative {
        x: 21,
        y: -6,
        wheel: 3,
        pan: -1,
    };

    assert_eq!(first.delta_from(None).x, 7);
    assert_eq!(
        after_dropped_packet.delta_from(Some(first)),
        MouseMovement {
            x: 14,
            y: -4,
            wheel: 2,
            pan: -1,
        }
    );
}
