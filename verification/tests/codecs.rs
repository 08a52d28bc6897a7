use hidshift::ids::{DeviceId, InterfaceId};
use hidshift::interchip::cell::{SpiCell, SpiCellError};
use hidshift::interchip::control_fragment::{
    ControlFragmentError, ControlRequestAssembler, ControlRequestFragment,
};
use hidshift::interchip::message::{
    Hello, InterchipRole, MessageError, MirrorControlRequest, ProfileBegin, ProfileChunk, ProfileResultStatus,
    StandardInputReport, StandardInputReportError, StandardOutputReport,
    StandardOutputReportError,
};
use hidshift::interchip::profile_transfer::{
    MirrorRejectReason, ProfileTransferCommand, ProfileTransferEncoder, ProfileTransferError, ProfileTransferReceiver,
};
use hidshift::interchip::record::{encode_records, Record, RecordCodecError, RecordIter};
use hidshift::interchip::reliable::{
    ReceiveDisposition, ReliableReceiver, ReliableSender, SenderError,
};
use hidshift::checksum::{crc16_ccitt_false, crc32_ieee, Crc32};
use hidshift::link::composite::{CompositeDescriptor, CompositeDescriptorError};
use hidshift::link::input_record::InputReportRecord;
use hidshift::link::input_scheduler::{
    InputDeliveryClass, InputScheduler, InputSchedulerError, ScheduledInput,
};
use hidshift::link::message::{BridgeMessage, BridgeMessageError};
use hidshift::link::snapshot::{InputSnapshotHistory, InputSnapshotRecords, SnapshotError};
use hidshift::link::wire::{
    FragmentEncoder, PacketFlags, PacketKind, Reassembler, ReassemblyError, WirePacket,
    WirePacketError, WIRE_PAYLOAD_MAX,
};
use hidshift::management::frame::{
    decode_stream, encode_stream, Frame, FrameError, FrameKind, NodeId,
};

#[test]
fn checksums_can_be_taken_in_pieces() {
    let mut crc = Crc32::new();
    crc.update(b"1234");
    crc.update(b"56789");
    assert_eq!(crc.finalize(), crc32_ieee(b"123456789"));
    assert_ne!(crc16_ccitt_false(b"123456788"), 0x29b1);
    assert_eq!(crc16_ccitt_false(b""), 0xffff);
    assert_eq!(crc32_ieee(b""), 0);
}

#[test]
fn cells_are_refused_for_each_defect() {
    fn patched(change: fn(&mut [u8; 128])) -> Result<SpiCell, SpiCellError> {
        let mut cell = SpiCell::empty(5);
        cell.header.tx_sequence = 1;
        cell.header.payload_len = 2;
        cell.header.record_count = 1;
        cell.payload[0] = 9;
        let mut bytes = cell.encode().unwrap();
        change(&mut bytes);
        let crc = crc16_ccitt_false(&bytes[..126]).to_le_bytes();
        bytes[126] = crc[0];
        bytes[127] = crc[1];
        SpiCell::decode(&bytes)
    }
    assert!(patched(|_| {}).is_ok());
    assert_eq!(patched(|b| b[0] ^= 1), Err(SpiCellError::InvalidMagic));
    assert_eq!(patched(|b| b[2] = 9), Err(SpiCellError::UnsupportedVersion));
    assert_eq!(patched(|b| b[12] = 111), Err(SpiCellError::PayloadTooLong));
    assert_eq!(patched(|b| b[8] = 0), Err(SpiCellError::SequenceZeroHasPayload));
    assert_eq!(patched(|b| b[30] = 1), Err(SpiCellError::NonZeroTrailingBytes));
    assert_eq!(patched(|b| b[4] = 6).unwrap().header.session_id, 6);
}

#[test]
fn records_are_refused_for_each_defect() {
    let mut payload = [0; 110];
    let record = Record { record_type: 1, flags: 0, data: &[0; 107] };
    assert_eq!(encode_records(&[record], &mut payload), Err(RecordCodecError::PayloadCapacity));
    let long = vec![0u8; 65536];
    let record = Record { record_type: 1, flags: 0, data: &long };
    assert_eq!(encode_records(&[record], &mut payload), Err(RecordCodecError::RecordTooLong));
    let many: Vec<Record<'_>> =
        (0..256).map(|_| Record { record_type: 1, flags: 0, data: &[] }).collect();
    assert_eq!(encode_records(&many, &mut payload), Err(RecordCodecError::TooManyRecords));

    let mut iter = RecordIter::new(&[1, 0, 200, 0], 1);
    assert_eq!(iter.next(), Some(Err(RecordCodecError::MalformedRecord)));
    assert_eq!(iter.next(), None);
    assert_eq!(iter.finish(), Err(RecordCodecError::MalformedRecord));
}

#[test]
fn receiver_tells_empty_cells_from_a_new_session() {
    let mut receiver = ReliableReceiver::new();
    assert_eq!(receiver.receive(&SpiCell::empty(3)), ReceiveDisposition::SessionChanged);
    assert_eq!(receiver.receive(&SpiCell::empty(3)), ReceiveDisposition::Empty);
    assert_eq!(receiver.session_id(), Some(3));
    let mut sender = ReliableSender::new(3);
    assert_eq!(sender.queue(&[0; 111], 1, 0), Err(SenderError::PayloadTooLong));
}

#[test]
fn queued_cells_are_accepted_in_order() {
    let mut sender = ReliableSender::new(8);
    let mut receiver = ReliableReceiver::new();
    for expected in 1..=4u16 {
        let cell = sender.queue(&[expected as u8], 1, 0).unwrap();
        assert_eq!(
            receiver.receive(&cell),
            ReceiveDisposition::Accepted {
                session_changed: expected == 1,
                cumulative_ack: expected,
            }
        );
    }
    assert_eq!(sender.acknowledge(receiver.cumulative_ack()), 4);
}

#[test]
fn control_fragments_are_refused_outside_their_message() {
    let request = MirrorControlRequest::new(1, [0; 8], &[7; 10]).unwrap();
    assert_eq!(
        ControlRequestFragment::from_request(request, 11),
        Err(ControlFragmentError::TooLarge)
    );
    assert_eq!(
        ControlRequestFragment::from_request(request, 10),
        Err(ControlFragmentError::OutOfOrder)
    );
    let fragment = ControlRequestFragment::from_request(request, 0).unwrap();
    let mut wire = [0; 128];
    let length = fragment.encode(&mut wire).unwrap();
    assert_eq!(
        ControlRequestFragment::decode(&wire[..length - 1]),
        Err(ControlFragmentError::Malformed)
    );
    let mut assembler = ControlRequestAssembler::new();
    assert_eq!(assembler.push(fragment), Ok(Some(request)));
}

#[test]
fn messages_are_refused_for_each_defect() {
    let mut hello = Hello {
        role: InterchipRole::Host,
        protocol_version: 1,
        firmware_major: 2,
        firmware_minor: 3,
        capabilities: 4,
        active_profile_hash: 5,
    }
    .encode();
    assert_eq!(Hello::decode(&hello[1..]), Err(MessageError::InvalidLength));
    hello[0] = 9;
    assert_eq!(Hello::decode(&hello), Err(MessageError::InvalidRole));
    assert_eq!(
        StandardInputReport::decode(&[9, 0, 0, 0, 0]),
        Err(StandardInputReportError::InvalidKind)
    );
    assert_eq!(
        StandardInputReport::decode(&[1, 0]),
        Err(StandardInputReportError::InvalidLength)
    );
    assert_eq!(
        StandardOutputReport::new(1, &[0; 255]),
        Err(StandardOutputReportError::DataTooLong)
    );
}

#[test]
fn profile_transfers_are_refused_for_each_defect() {
    let mut staging = [0u8; 64];
    let mut receiver = ProfileTransferReceiver::new(&mut staging);
    let begin = ProfileBegin { transfer_id: 1, total_length: 4, crc32: 0, profile_hash: 7 };
    assert_eq!(
        receiver.begin(ProfileBegin { total_length: 65, ..begin }),
        Err(ProfileTransferError::InvalidLength)
    );
    receiver.begin(begin).unwrap();
    assert_eq!(receiver.begin(begin), Err(ProfileTransferError::Busy));
    assert_eq!(
        receiver.chunk(ProfileChunk { transfer_id: 2, offset: 0, data: &[1] }),
        Err(ProfileTransferError::WrongTransfer)
    );
    let wrong = receiver.commit(2, |_: &[u8]| Ok(()));
    assert_eq!(wrong.status, ProfileResultStatus::Busy);
}

#[test]
fn refused_images_are_reported_by_their_reason() {
    let image = [1u8, 2, 3, 4];
    for (reason, status) in [
        (MirrorRejectReason::EndpointResourceExhausted, ProfileResultStatus::ResourceExhausted),
        (MirrorRejectReason::NonHidInterface, ProfileResultStatus::Unsupported),
        (MirrorRejectReason::MalformedImage, ProfileResultStatus::InvalidImage),
    ] {
        let mut staging = [0u8; 16];
        let mut receiver = ProfileTransferReceiver::new(&mut staging);
        receiver
            .begin(ProfileBegin {
                transfer_id: 1,
                total_length: 4,
                crc32: crc32_ieee(&image),
                profile_hash: 7,
            })
            .unwrap();
        receiver.chunk(ProfileChunk { transfer_id: 1, offset: 0, data: &image }).unwrap();
        let result = receiver.commit(1, move |_: &[u8]| Err(reason));
        assert_eq!(result.status, status);
        assert!(receiver.committed().is_none());
    }
    let mut staging = [0u8; 16];
    let mut receiver = ProfileTransferReceiver::new(&mut staging);
    let mut encoder = ProfileTransferEncoder::new(9, 5, &image).unwrap();
    while let Some(command) = encoder.next() {
        match command {
            ProfileTransferCommand::Begin(begin) => {
                receiver.begin(begin).unwrap();
            }
            ProfileTransferCommand::Chunk(chunk) => {
                receiver.chunk(chunk.as_borrowed()).unwrap();
            }
            ProfileTransferCommand::Commit { transfer_id } => {
                let result = receiver.commit(transfer_id, |bytes: &[u8]| {
                    if bytes == [1u8, 2, 3, 4] {
                        Ok(())
                    } else {
                        Err(MirrorRejectReason::MalformedImage)
                    }
                });
                assert_eq!(result.status, ProfileResultStatus::Accepted);
            }
        }
    }
    assert_eq!(receiver.committed().unwrap().1, &image);
    receiver.clear_committed();
    assert!(receiver.committed().is_none());
}

#[test]
fn composite_descriptors_are_refused_for_each_defect() {
    let plain = [0x05u8, 0x01, 0xc0];
    let mut composite = CompositeDescriptor::new();
    assert_eq!(
        composite.add_interface(InterfaceId(1), &[0; 1025]),
        Err(CompositeDescriptorError::DescriptorTooLarge)
    );
    assert_eq!(
        composite.add_interface(InterfaceId(1), &[0x85, 0]),
        Err(CompositeDescriptorError::InvalidReportId)
    );
    composite.add_interface(InterfaceId(1), &plain).unwrap();
    assert_eq!(
        composite.add_interface(InterfaceId(1), &plain),
        Err(CompositeDescriptorError::DuplicateInterface)
    );
    for interface in 2..=8 {
        composite.add_interface(InterfaceId(interface), &plain).unwrap();
    }
    assert_eq!(composite.interface_count(), 8);
    assert_eq!(
        composite.add_interface(InterfaceId(9), &plain),
        Err(CompositeDescriptorError::InterfaceCapacity)
    );
    let mut out = [0u8; 4];
    assert_eq!(
        composite.encode_input_report(InterfaceId(9), &[1], &mut out),
        Err(CompositeDescriptorError::UnknownInterface)
    );
    assert_eq!(
        composite.encode_input_report(InterfaceId(1), &[1, 2, 3, 4], &mut out),
        Err(CompositeDescriptorError::OutputBufferTooSmall)
    );
    let large = vec![0u8; 5000];
    assert_eq!(
        composite.encode_input_report(InterfaceId(1), &large, &mut out),
        Err(CompositeDescriptorError::ReportTooLarge)
    );
    assert_eq!(
        composite.decode_host_report(&[99, 1], &mut out),
        Err(CompositeDescriptorError::UnknownReportId)
    );
    assert_eq!(
        composite.decode_host_report(&[], &mut out),
        Err(CompositeDescriptorError::UnknownReportId)
    );
}

#[test]
fn composite_report_ids_run_out() {
    let mut descriptor = Vec::new();
    for id in 1..=200u8 {
        descriptor.extend_from_slice(&[0x85, id]);
    }
    let mut composite = CompositeDescriptor::new();
    composite.add_interface(InterfaceId(1), &descriptor).unwrap();
    let before = composite.clone();
    assert_eq!(
        composite.add_interface(InterfaceId(2), &descriptor),
        Err(CompositeDescriptorError::ReportIdCapacity)
    );
    assert_eq!(composite, before);
}

fn scheduled(interface: u8, order: u8, class: InputDeliveryClass) -> ScheduledInput {
    ScheduledInput::new(
        DeviceId(1),
        InterfaceId(interface),
        0,
        order as u32,
        order as u32,
        &[order],
        class,
    )
    .unwrap()
}

#[test]
fn critical_input_keeps_its_order_over_many_turns() {
    let mut scheduler = InputScheduler::<2, 1>::new();
    scheduler.enqueue(scheduled(1, 1, InputDeliveryClass::Critical)).unwrap();
    scheduler.enqueue(scheduled(1, 2, InputDeliveryClass::Critical)).unwrap();
    assert_eq!(
        scheduler.enqueue(scheduled(1, 9, InputDeliveryClass::Critical)),
        Err(InputSchedulerError::CriticalQueueFull)
    );
    for next in 3..=20u8 {
        assert_eq!(scheduler.pop_next().unwrap().report.as_slice(), &[next - 2]);
        scheduler.enqueue(scheduled(1, next, InputDeliveryClass::Critical)).unwrap();
    }
    let mut none = InputScheduler::<1, 0>::new();
    assert_eq!(
        none.enqueue(scheduled(1, 1, InputDeliveryClass::Motion)),
        Err(InputSchedulerError::MotionQueueDisabled)
    );
    assert!(none.is_empty());
}

#[test]
fn bridge_messages_are_refused_for_each_defect() {
    let mut small = [0u8; 0];
    assert_eq!(
        BridgeMessage::ReleaseAll.encode(&mut small),
        Err(BridgeMessageError::BufferTooSmall)
    );
    assert_eq!(BridgeMessage::decode(&[0xee]), Err(BridgeMessageError::UnknownMessage));
    assert!(BridgeMessage::decode(&[]).is_err());
    let mut bytes = [0u8; 64];
    let len = BridgeMessage::GetReport {
        device_id: DeviceId(1),
        interface_id: InterfaceId(2),
        report_type: hidshift::link::message::HidReportType::Feature,
        report_id: 3,
        requested_len: 4,
        request_id: 5,
    }
    .encode(&mut bytes)
    .unwrap();
    assert_eq!(BridgeMessage::decode(&bytes[..len - 1]), Err(BridgeMessageError::InvalidLength));
    bytes[3] = 9;
    assert_eq!(BridgeMessage::decode(&bytes[..len]), Err(BridgeMessageError::InvalidReportType));

    let len = BridgeMessage::Hello {
        role: hidshift::link::message::BridgeRole::UsbHost,
        capabilities: 1,
        session_id: 2,
        peer_session_id: 3,
        next_critical_sequence: 4,
        next_motion_sequence: 5,
    }
    .encode(&mut bytes)
    .unwrap();
    bytes[1] = 7;
    assert_eq!(BridgeMessage::decode(&bytes[..len]), Err(BridgeMessageError::InvalidRole));
}

#[test]
fn snapshots_are_refused_for_each_defect() {
    assert_eq!(InputSnapshotRecords::new(0, &[]), Err(SnapshotError::Empty));
    let mut record = [0u8; 13];
    record[0] = 9;
    assert_eq!(InputSnapshotRecords::new(1, &record), Err(SnapshotError::InvalidLane));
    record[0] = 2;
    record[11] = 0xff;
    record[12] = 0xff;
    assert_eq!(InputSnapshotRecords::new(1, &record), Err(SnapshotError::ReportTooLarge));
    let mut history = InputSnapshotHistory::<2>::new();
    let mut out = [0u8; 8];
    assert_eq!(history.encode_recent(&mut out, 8), Err(SnapshotError::Empty));
    history.push(InputReportRecord::new(DeviceId(1), InterfaceId(2), 3, 4, &[5]).unwrap());
    assert_eq!(history.encode_recent(&mut out, 8), Err(SnapshotError::BufferTooSmall));
}

#[test]
fn packets_are_refused_for_each_defect() {
    let packet = FragmentEncoder::new(&[1, 2, 3], 7, 8, 9).unwrap().next().unwrap();
    let good = packet.as_bytes().to_vec();
    let patched = |at: usize, value: u8| {
        let mut bytes = good.clone();
        bytes[at] = value;
        WirePacket::decode(&bytes).err()
    };
    assert_eq!(WirePacket::decode(&good[..23]), Err(WirePacketError::TooShort));
    assert_eq!(WirePacket::decode(&[0; 231]), Err(WirePacketError::TooLong));
    assert_eq!(patched(0, 0), Some(WirePacketError::InvalidMagic));
    assert_eq!(patched(2, 9), Some(WirePacketError::UnsupportedVersion));
    assert_eq!(patched(3, 9), Some(WirePacketError::UnknownKind));
    assert_eq!(patched(4, 0xff), Some(WirePacketError::InvalidFlags));
    assert_eq!(patched(7, 2), Some(WirePacketError::InvalidMessageLength));
    assert_eq!(patched(8, 99), Some(WirePacketError::InvalidChecksum));
    assert!(FragmentEncoder::new(&[], 1, 1, 1).is_err());
    let empty = PacketFlags::from_bits(0).unwrap();
    assert_eq!(
        WirePacket::new(PacketKind::Data, empty, 0, 1, 1, 1, 1, 1, &[0; WIRE_PAYLOAD_MAX + 1]),
        Err(WirePacketError::PayloadTooLong)
    );
    assert_eq!(
        WirePacket::new(PacketKind::Data, empty, 1, 1, 1, 1, 1, 1, &[0]),
        Err(WirePacketError::InvalidFragment)
    );
}

#[test]
fn reassembly_is_refused_for_each_defect() {
    let mut reassembler = Reassembler::new();
    assert_eq!(
        reassembler.push(&[1]),
        Err(ReassemblyError::Wire(WirePacketError::TooShort))
    );
    let empty = PacketFlags::from_bits(0).unwrap();
    let beat = WirePacket::new(PacketKind::Heartbeat, empty, 0, 0, 1, 1, 0, 0, &[]).unwrap();
    assert_eq!(reassembler.push(beat.as_bytes()), Err(ReassemblyError::NotData));
    let message = [3u8; WIRE_PAYLOAD_MAX + 1];
    let longer = [3u8; WIRE_PAYLOAD_MAX + 2];
    let first = FragmentEncoder::new(&message, 1, 1, 4).unwrap().next().unwrap();
    let other = FragmentEncoder::new(&longer, 1, 1, 4).unwrap().next().unwrap();
    assert_eq!(reassembler.push(first.as_bytes()), Ok(None));
    assert_eq!(
        reassembler.push(other.as_bytes()),
        Err(ReassemblyError::ConflictingMessage)
    );
}

#[test]
fn management_frames_are_refused_for_each_defect() {
    let frame = Frame::new(FrameKind::Log, 0x1234, NodeId::Device, 5, &[6, 7]).unwrap();
    let good = frame.encode();
    assert_eq!(&good[..12], &[b'H', b'S', 1, 4, 0x34, 0x12, 2, 5, 2, 0, 6, 7]);
    assert_eq!(frame.payload.as_slice(), &[6, 7]);
    let patched = |at: usize, value: u8| {
        let mut bytes = good.clone();
        bytes[at] = value;
        let end = bytes.len() - 2;
        let crc = crc16_ccitt_false(&bytes[..end]).to_le_bytes();
        bytes[end] = crc[0];
        bytes[end + 1] = crc[1];
        Frame::decode(&bytes).err()
    };
    assert_eq!(Frame::decode(&good[..11]), Err(FrameError::Truncated));
    assert_eq!(patched(0, 0), Some(FrameError::InvalidMagic));
    assert_eq!(patched(2, 2), Some(FrameError::UnsupportedVersion));
    assert_eq!(patched(3, 9), Some(FrameError::InvalidKind));
    assert_eq!(patched(6, 9), Some(FrameError::InvalidNode));
    assert_eq!(patched(9, 9), Some(FrameError::PayloadTooLarge));
}

#[test]
fn streams_whose_groups_do_not_end_are_refused() {
    let frame = Frame::new(FrameKind::Request, 1, NodeId::Host, 0, &[9; 400]).unwrap();
    let encoded = encode_stream(&frame);
    assert_eq!(decode_stream(&encoded), Ok(frame));
    assert_eq!(decode_stream(&[9, 1, 0]), Err(FrameError::MalformedCobs));
    assert_eq!(decode_stream(&[1, 0, 0]), Err(FrameError::MalformedCobs));
    assert_eq!(decode_stream(&[3, 1, 0]), Err(FrameError::MalformedCobs));
}
