use hidshift::bounded::BoundedVec;
use hidshift::interchip::{
    Hello, InterchipRole, Record, RecordIter, ReliableSender, SPI_CELL_LEN, SPI_CELL_PAYLOAD_LEN,
    SPI_PROTOCOL_VERSION, SpiCell, StandardInputReport, StandardOutputReport, UsbState,
    encode_records,
};
use hidshift::interchip::device::{DEVICE_CAPABILITIES, DeviceLink, DeviceLinkEvent};
use hidshift::interchip::message::{
    ActivateProfile, CAPABILITY_DYNAMIC_PROFILE, ProfileChunk, RECORD_ACTIVATE_PROFILE,
    RECORD_HELLO, RECORD_HELLO_ACK, RECORD_LINK_RESET, RECORD_PROFILE_CHUNK,
    RECORD_STANDARD_INPUT_REPORT, RECORD_STANDARD_OUTPUT_REPORT, RECORD_STANDARD_RELEASE_ALL,
};
use hidshift::reports::{Keyboard6KroReport, StandardHidReport};

fn fallback_state() -> UsbState {
    UsbState {
        attached: true,
        configured: false,
        fallback_active: true,
        healthy: true,
        active_profile_hash: 0,
        error_code: 0,
    }
}

fn host_cell(sender: &mut ReliableSender, record_type: u8, data: &[u8]) -> [u8; SPI_CELL_LEN] {
    let mut payload = [0; SPI_CELL_PAYLOAD_LEN];
    let (length, count) = encode_records(
        &[Record {
            record_type,
            flags: 0,
            data,
        }],
        &mut payload,
    )
    .unwrap();
    sender
        .queue(&payload[..length as usize], count, 0)
        .unwrap()
        .encode()
        .unwrap()
}

#[test]
fn hello_ack_includes_current_usb_state() {
    let mut device = DeviceLink::new(2, fallback_state());
    let mut host = ReliableSender::new(1);
    let hello = Hello {
        role: InterchipRole::Host,
        protocol_version: SPI_PROTOCOL_VERSION,
        firmware_major: 0,
        firmware_minor: 2,
        capabilities: DEVICE_CAPABILITIES,
        active_profile_hash: 0,
    }
    .encode();
    let cell = host_cell(&mut host, RECORD_HELLO, &hello);
    let mut events = BoundedVec::<DeviceLinkEvent, 2>::new();
    device.handle_transaction(&cell, 0, &mut events);
    assert!(device.host_compatible());

    let response = SpiCell::decode(&device.next_transaction(1)).unwrap();
    let mut iter = RecordIter::new(response.payload(), response.header.record_count);
    let mut records = Vec::new();
    while let Some(record) = iter.next() {
        records.push(record.unwrap());
    }
    assert_eq!(records.len(), 2);
    assert_eq!(records[0].record_type, RECORD_HELLO_ACK);
    assert_eq!(UsbState::decode(records[1].data), Ok(fallback_state()));
}

#[test]
fn duplicate_standard_input_is_delivered_once() {
    let mut device = DeviceLink::new(2, fallback_state());
    let mut host = ReliableSender::new(1);
    let hello = Hello {
        role: InterchipRole::Host,
        protocol_version: SPI_PROTOCOL_VERSION,
        firmware_major: 0,
        firmware_minor: 2,
        capabilities: DEVICE_CAPABILITIES,
        active_profile_hash: 0,
    }
    .encode();
    let mut events = BoundedVec::<DeviceLinkEvent, 4>::new();
    device.handle_transaction(&host_cell(&mut host, RECORD_HELLO, &hello), 0, &mut events);
    let report = StandardInputReport {
        flags: 0,
        sequence: 7,
        report: StandardHidReport::Keyboard(Keyboard6KroReport::from_bytes([
            0, 0, 4, 0, 0, 0, 0, 0,
        ])),
    };
    let (wire, length) = report.encode();
    let cell = host_cell(
        &mut host,
        RECORD_STANDARD_INPUT_REPORT,
        &wire[..length as usize],
    );
    device.handle_transaction(&cell, 1, &mut events);
    device.handle_transaction(&cell, 2, &mut events);

    assert_eq!(events.as_slice(), &[DeviceLinkEvent::StandardInput(report)]);
    assert_eq!(device.diagnostics().standard_reports_received, 1);
    assert_eq!(device.diagnostics().duplicate_cells, 1);
}

#[test]
fn new_host_session_must_repeat_hello_before_commands_are_acked() {
    let mut device = DeviceLink::new(2, fallback_state());
    let mut original_host = ReliableSender::new(1);
    let hello = Hello {
        role: InterchipRole::Host,
        protocol_version: SPI_PROTOCOL_VERSION,
        firmware_major: 0,
        firmware_minor: 2,
        capabilities: DEVICE_CAPABILITIES,
        active_profile_hash: 0,
    }
    .encode();
    let mut events = BoundedVec::<DeviceLinkEvent, 4>::new();
    device.handle_transaction(
        &host_cell(&mut original_host, RECORD_HELLO, &hello),
        0,
        &mut events,
    );
    assert!(device.host_compatible());

    let mut restarted_host = ReliableSender::new(9);
    let report = StandardInputReport {
        flags: 0,
        sequence: 1,
        report: StandardHidReport::Keyboard(Keyboard6KroReport::from_bytes([
            0, 0, 4, 0, 0, 0, 0, 0,
        ])),
    };
    let (wire, length) = report.encode();
    device.handle_transaction(
        &host_cell(
            &mut restarted_host,
            RECORD_STANDARD_INPUT_REPORT,
            &wire[..length as usize],
        ),
        1,
        &mut events,
    );

    assert!(!device.host_compatible());
    assert!(events.is_empty());
    assert_eq!(device.cumulative_ack(), 0);

    restarted_host.reset_session(9);
    device.handle_transaction(
        &host_cell(&mut restarted_host, RECORD_HELLO, &hello),
        2,
        &mut events,
    );
    assert!(device.host_compatible());
}

#[test]
fn link_reset_requires_a_new_hello_before_more_commands_are_acked() {
    let mut device = DeviceLink::new(2, fallback_state());
    let mut host = ReliableSender::new(1);
    let hello = Hello {
        role: InterchipRole::Host,
        protocol_version: SPI_PROTOCOL_VERSION,
        firmware_major: 0,
        firmware_minor: 2,
        capabilities: DEVICE_CAPABILITIES,
        active_profile_hash: 0,
    }
    .encode();
    let mut events = BoundedVec::<DeviceLinkEvent, 4>::new();
    device.handle_transaction(&host_cell(&mut host, RECORD_HELLO, &hello), 0, &mut events);
    device.handle_transaction(
        &host_cell(&mut host, RECORD_LINK_RESET, &[]),
        1,
        &mut events,
    );
    assert!(!device.host_compatible());
    let ack_before = device.cumulative_ack();

    device.handle_transaction(
        &host_cell(&mut host, RECORD_STANDARD_RELEASE_ALL, &[]),
        2,
        &mut events,
    );

    assert!(events.is_empty());
    assert_eq!(device.cumulative_ack(), ack_before);
}

#[test]
fn standard_output_is_sent_only_after_compatible_hello() {
    let mut device = DeviceLink::new(2, fallback_state());
    let output = StandardOutputReport::new(1, &[0x02]).unwrap();
    assert!(!device.queue_standard_output(output, 0));

    let mut host = ReliableSender::new(1);
    let hello = Hello {
        role: InterchipRole::Host,
        protocol_version: SPI_PROTOCOL_VERSION,
        firmware_major: 0,
        firmware_minor: 2,
        capabilities: DEVICE_CAPABILITIES,
        active_profile_hash: 0,
    }
    .encode();
    let mut events = BoundedVec::<DeviceLinkEvent, 1>::new();
    device.handle_transaction(&host_cell(&mut host, RECORD_HELLO, &hello), 0, &mut events);
    // Send the mandatory HELLO_ACK/USB_STATE response first.
    let _ = device.next_transaction(1);
    assert!(device.queue_standard_output(output, 2));
    let cell = SpiCell::decode(&device.next_transaction(2)).unwrap();
    let record = RecordIter::new(cell.payload(), cell.header.record_count)
        .next()
        .unwrap()
        .unwrap();
    assert_eq!(record.record_type, RECORD_STANDARD_OUTPUT_REPORT);
    assert_eq!(StandardOutputReport::decode(record.data), Ok(output));
}

#[test]
fn profile_records_preserve_chunk_offsets_and_payloads() {
    let mut device = DeviceLink::new_with_profile_storage(2, fallback_state(), 0x1122_3344);
    let mut host = ReliableSender::new(1);
    let hello = Hello {
        role: InterchipRole::Host,
        protocol_version: SPI_PROTOCOL_VERSION,
        firmware_major: 0,
        firmware_minor: 2,
        capabilities: CAPABILITY_DYNAMIC_PROFILE,
        active_profile_hash: 0,
    }
    .encode();
    let mut events = BoundedVec::<DeviceLinkEvent, 4>::new();
    device.handle_transaction(&host_cell(&mut host, RECORD_HELLO, &hello), 0, &mut events);

    let chunk = ProfileChunk {
        transfer_id: 9,
        offset: 96,
        data: &[1, 2, 3, 4],
    };
    let mut encoded = [0; 104];
    let length = chunk.encode(&mut encoded).unwrap();
    device.handle_transaction(
        &host_cell(&mut host, RECORD_PROFILE_CHUNK, &encoded[..length]),
        1,
        &mut events,
    );

    let received = events
        .as_slice()
        .iter()
        .find_map(|event| match event {
            DeviceLinkEvent::ProfileChunk(chunk) => Some(chunk.as_borrowed()),
            _ => None,
        })
        .unwrap();
    assert_eq!(received, chunk);
}

#[test]
fn activation_is_delivered_only_after_a_compatible_hello() {
    let mut device = DeviceLink::new_with_profile_storage(2, fallback_state(), 0);
    let mut host = ReliableSender::new(1);
    let activate = ActivateProfile {
        operation_id: 12,
        profile_hash: 0x1122_3344,
    };
    let mut events = BoundedVec::<DeviceLinkEvent, 2>::new();
    device.handle_transaction(
        &host_cell(&mut host, RECORD_ACTIVATE_PROFILE, &activate.encode()),
        0,
        &mut events,
    );
    assert!(events.is_empty());

    let hello = Hello {
        role: InterchipRole::Host,
        protocol_version: SPI_PROTOCOL_VERSION,
        firmware_major: 0,
        firmware_minor: 2,
        capabilities: CAPABILITY_DYNAMIC_PROFILE,
        active_profile_hash: 0,
    }
    .encode();
    // The unacknowledged pre-HELLO record remains sender-pending. A real
    // Host link starts a fresh session before its handshake.
    host.reset_session(1);
    device.handle_transaction(&host_cell(&mut host, RECORD_HELLO, &hello), 1, &mut events);
    device.handle_transaction(
        &host_cell(&mut host, RECORD_ACTIVATE_PROFILE, &activate.encode()),
        2,
        &mut events,
    );
    assert_eq!(
        events.as_slice(),
        &[DeviceLinkEvent::ActivateProfile(activate)]
    );
}
