//! Where a reader finds each field of what goes over a wire or the air.

use vstd::prelude::*;

use crate::bytes::{lemma_le16, lemma_le32};
use crate::e2e::{E2eCommand, E2eInputLane, E2ePacket};
use crate::e2e_mirror::MirrorView;
use crate::espnow_pairing::{EspNowRole, PairingView};
use crate::espnow_security::{sealed, secure_header};
use crate::interchip::cell::CellView;
use crate::interchip::control_fragment::{RequestFragmentView, ResponseFragmentView};
use crate::interchip::message::{
    ActivateProfile, ChunkView, ControlRequestView, ControlResponseView, ControlStatus, Hello,
    InterchipRole, ProfileBegin, ProfileResult, RawReportView, StandardInputView,
    StandardOutputView, UsbState,
};
use crate::interchip::record::SpiRecord;
use crate::link::message::{
    message_bytes, motion_bytes, BridgeRole, HidReportType, InputLane, MessageView,
    MotionCumulative,
};
use crate::link::snapshot::{record_bytes, RecordView};
use crate::link::wire::{packet_bytes, PacketFields, PacketKind};
use crate::management::frame::{frame_bytes, FrameKind, FrameView, NodeId};
use crate::reports::{as_signed, ReportBytes};

verus! {

/// The number that two bytes say, low byte first.
pub open spec fn number2(bytes: Seq<u8>, at: int) -> int {
    bytes[at] + 256 * bytes[at + 1]
}

/// The number that four bytes say, low byte first.
pub open spec fn number4(bytes: Seq<u8>, at: int) -> int {
    bytes[at] + 256 * bytes[at + 1] + 65536 * bytes[at + 2] + 16777216 * bytes[at + 3]
}

/// The signed number that two bytes say, low byte first.
pub open spec fn signed2(bytes: Seq<u8>, at: int) -> int {
    if number2(bytes, at) < 32768 {
        number2(bytes, at)
    } else {
        number2(bytes, at) - 65536
    }
}

/// The signed number that four bytes say, low byte first.
pub open spec fn signed4(bytes: Seq<u8>, at: int) -> int {
    if number4(bytes, at) < 2147483648 {
        number4(bytes, at)
    } else {
        number4(bytes, at) - 4294967296
    }
}

/// Whether `part` stands at a place.
pub open spec fn stands_at(bytes: Seq<u8>, at: int, part: Seq<u8>) -> bool {
    &&& at + part.len() <= bytes.len()
    &&& forall|i: int| 0 <= i < part.len() ==> #[trigger] bytes[at + i] == part[i]
}

/// The fields of a cell between the chips.
pub proof fn law_cell_layout(c: CellView)
    requires
        c.payload.len() <= 110,
    ensures
        c.wire().len() == 128,
        number2(c.wire(), 0) == c.header.magic,
        c.wire()[2] == c.header.version,
        c.wire()[3] == c.header.flags,
        number4(c.wire(), 4) == c.header.session_id,
        number2(c.wire(), 8) == c.header.tx_sequence,
        number2(c.wire(), 10) == c.header.cumulative_ack,
        number2(c.wire(), 12) == c.header.payload_len,
        c.wire()[14] == c.header.record_count,
        c.wire()[15] == c.header.receive_window,
        stands_at(c.wire(), 16, c.payload),
        forall|i: int| 16 + c.payload.len() <= i < 126 ==> #[trigger] c.wire()[i] == 0,
{
    let h = c.header;
    let w = c.header.wire();
    lemma_le16(h.magic);
    lemma_le32(h.session_id);
    lemma_le16(h.tx_sequence);
    lemma_le16(h.cumulative_ack);
    lemma_le16(h.payload_len);
    assert(w.len() == 16);
    assert(forall|i: int| 0 <= i < 16 ==> c.wire()[i] == w[i]);
}

/// The fields of a record in a cell.
pub proof fn law_record_layout(r: SpiRecord)
    requires
        r.data.len() <= 65535,
    ensures
        r.wire()[0] == r.record_type,
        r.wire()[1] == r.flags,
        number2(r.wire(), 2) == r.data.len(),
        stands_at(r.wire(), 4, r.data),
        r.wire().len() % 4 == 0,
        4 + r.data.len() <= r.wire().len() < 8 + r.data.len(),
        forall|i: int| 4 + r.data.len() <= i < r.wire().len() ==> #[trigger] r.wire()[i] == 0,
{
    lemma_le16(r.data.len() as u16);
}

/// The fields of a greeting between the chips.
pub proof fn law_hello_layout(h: Hello)
    ensures
        h.wire().len() == 12,
        h.wire()[0] == (match h.role {
            InterchipRole::Host => 1u8,
            InterchipRole::Device => 2,
        }),
        h.wire()[1] == h.protocol_version,
        h.wire()[2] == h.firmware_major,
        h.wire()[3] == h.firmware_minor,
        number4(h.wire(), 4) == h.capabilities,
        number4(h.wire(), 8) == h.active_profile_hash,
{
    lemma_le32(h.capabilities);
    lemma_le32(h.active_profile_hash);
}

/// The fields of the messages by which a profile is handed over.
pub proof fn law_profile_layouts(
    b: ProfileBegin,
    c: ChunkView,
    r: ProfileResult,
    a: ActivateProfile,
)
    ensures
        b.wire().len() == 16,
        number4(b.wire(), 0) == b.transfer_id,
        number4(b.wire(), 4) == b.total_length,
        number4(b.wire(), 8) == b.crc32,
        number4(b.wire(), 12) == b.profile_hash,
        number4(c.wire(), 0) == c.transfer_id,
        number4(c.wire(), 4) == c.offset,
        c.wire().len() == 8 + c.data.len(),
        stands_at(c.wire(), 8, c.data),
        r.wire().len() == 12,
        number4(r.wire(), 0) == r.transfer_id,
        number4(r.wire(), 4) == r.profile_hash,
        r.wire()[9] == r.reject_reason,
        number2(r.wire(), 10) == r.detail,
        a.wire().len() == 8,
        number4(a.wire(), 0) == a.operation_id,
        number4(a.wire(), 4) == a.profile_hash,
{
    lemma_le32(b.transfer_id);
    lemma_le32(b.total_length);
    lemma_le32(b.crc32);
    lemma_le32(b.profile_hash);
    lemma_le32(c.transfer_id);
    lemma_le32(c.offset);
    lemma_le32(r.transfer_id);
    lemma_le32(r.profile_hash);
    lemma_le16(r.detail);
    lemma_le32(a.operation_id);
    lemma_le32(a.profile_hash);
}

/// The fields of what is forwarded between the chips for a mirrored device.
pub proof fn law_mirror_message_layouts(
    e: RawReportView,
    q: ControlRequestView,
    p: ControlResponseView,
)
    requires
        e.data.len() <= 65535,
        q.data.len() <= 65535,
        q.setup_packet.len() == 8,
        p.data.len() <= 65535,
    ensures
        e.wire()[0] == e.endpoint_address,
        e.wire()[1] == 0,
        number2(e.wire(), 2) == e.packet_sequence,
        number2(e.wire(), 4) == e.data.len(),
        e.wire().len() == 6 + e.data.len(),
        stands_at(e.wire(), 6, e.data),
        number4(q.wire(), 0) == q.request_id,
        stands_at(q.wire(), 4, q.setup_packet),
        number2(q.wire(), 12) == q.data.len(),
        q.wire().len() == 14 + q.data.len(),
        stands_at(q.wire(), 14, q.data),
        number4(p.wire(), 0) == p.request_id,
        p.wire()[4] == (match p.status {
            ControlStatus::Success => 0u8,
            ControlStatus::Stall => 1,
            ControlStatus::Timeout => 2,
            ControlStatus::Disconnected => 3,
            ControlStatus::Unsupported => 4,
        }),
        number2(p.wire(), 5) == p.data.len(),
        p.wire().len() == 7 + p.data.len(),
        stands_at(p.wire(), 7, p.data),
{
    lemma_le16(e.packet_sequence);
    lemma_le16(e.data.len() as u16);
    lemma_le32(q.request_id);
    lemma_le16(q.data.len() as u16);
    lemma_le32(p.request_id);
    lemma_le16(p.data.len() as u16);
}

/// The fields of the parts of control requests and answers.
pub proof fn law_control_part_layouts(q: RequestFragmentView, p: ResponseFragmentView)
    requires
        q.setup_packet.len() == 8,
    ensures
        number4(q.wire(), 0) == q.request_id,
        q.wire()[4] == q.flags,
        q.wire()[5] == 0,
        number2(q.wire(), 6) == q.offset,
        number2(q.wire(), 8) == q.total_length,
        stands_at(q.wire(), 10, q.setup_packet),
        q.wire().len() == 18 + q.data.len(),
        stands_at(q.wire(), 18, q.data),
        number4(p.wire(), 0) == p.request_id,
        p.wire()[5] == p.flags,
        number2(p.wire(), 6) == p.offset,
        number2(p.wire(), 8) == p.total_length,
        p.wire().len() == 10 + p.data.len(),
        stands_at(p.wire(), 10, p.data),
{
    lemma_le32(q.request_id);
    lemma_le16(q.offset);
    lemma_le16(q.total_length);
    lemma_le32(p.request_id);
    lemma_le16(p.offset);
    lemma_le16(p.total_length);
}

/// The fields of reports between the chips: which report it is, flags, the number,
/// and the report itself.
pub proof fn law_report_message_layouts(i: StandardInputView, o: StandardOutputView)
    requires
        i.report.bytes().len() <= 8,
        o.data.len() <= 8,
    ensures
        i.wire()[0] == (match i.report {
            ReportBytes::Keyboard(_) => 1u8,
            ReportBytes::Mouse(_) => 2,
            ReportBytes::Consumer(_) => 3,
        }),
        i.wire()[1] == i.flags,
        number2(i.wire(), 2) == i.sequence,
        i.wire()[4] == i.report.bytes().len(),
        i.wire().len() == 5 + i.report.bytes().len(),
        stands_at(i.wire(), 5, i.report.bytes()),
        o.wire().len() == 10,
        o.wire()[0] == o.kind,
        o.wire()[1] == o.data.len(),
        stands_at(o.wire(), 2, o.data),
{
    lemma_le16(i.sequence);
}

/// The fields of the state of the USB side: one bit each for attached, configured,
/// in fallback and healthy, the profile and the error.
pub proof fn law_usb_state_layout(s: UsbState)
    ensures
        s.wire().len() == 8,
        s.wire()[0] == (if s.attached {
            1int
        } else {
            0
        }) + (if s.configured {
            2int
        } else {
            0
        }) + (if s.fallback_active {
            4int
        } else {
            0
        }) + (if s.healthy {
            8int
        } else {
            0
        }),
        s.wire()[1] == 0,
        number4(s.wire(), 2) == s.active_profile_hash,
        number2(s.wire(), 6) == s.error_code,
{
    lemma_le32(s.active_profile_hash);
    lemma_le16(s.error_code);
}

/// The fields of a radio packet.
pub proof fn law_packet_layout(p: PacketFields)
    requires
        p.payload.len() <= 226,
    ensures
        packet_bytes(p).len() == 24 + p.payload.len(),
        packet_bytes(p)[0] == 0x48,
        packet_bytes(p)[1] == 0x53,
        packet_bytes(p)[2] == 2,
        packet_bytes(p)[3] == (match p.kind {
            PacketKind::Data => 1u8,
            PacketKind::Heartbeat => 3,
            PacketKind::Reset => 4,
        }),
        packet_bytes(p)[4] == p.flags.mask(),
        packet_bytes(p)[5] == p.fragment_index,
        packet_bytes(p)[6] == p.fragment_count,
        packet_bytes(p)[7] == p.payload.len(),
        number4(packet_bytes(p), 8) == p.session,
        number4(packet_bytes(p), 12) == p.sequence,
        number4(packet_bytes(p), 16) == p.message_id,
        number2(packet_bytes(p), 20) == p.message_len,
        stands_at(packet_bytes(p), 24, p.payload),
{
    lemma_le32(p.session);
    lemma_le32(p.sequence);
    lemma_le32(p.message_id);
    lemma_le16(p.message_len);
}

/// The number that stands for a lane.
pub open spec fn lane_number(lane: InputLane) -> u8 {
    match lane {
        InputLane::Motion => 1,
        InputLane::Critical => 2,
    }
}

/// The axes of movement that is added up, x first, then y, wheel and pan.
pub proof fn law_motion_layout(m: MotionCumulative)
    ensures
        motion_bytes(m).len() == 16,
        signed4(motion_bytes(m), 0) == m.x,
        signed4(motion_bytes(m), 4) == m.y,
        signed4(motion_bytes(m), 8) == m.wheel,
        signed4(motion_bytes(m), 12) == m.pan,
{
    lemma_le32(crate::bytes::bits32(m.x));
    lemma_le32(crate::bytes::bits32(m.y));
    lemma_le32(crate::bytes::bits32(m.wheel));
    lemma_le32(crate::bytes::bits32(m.pan));
}

/// The fields of a record of a snapshot.
pub proof fn law_snapshot_record_layout(r: RecordView)
    requires
        r.report.len() <= 65535,
    ensures
        record_bytes(r)[0] == lane_number(r.lane),
        record_bytes(r)[1] == r.device_id.0,
        record_bytes(r)[2] == r.interface_id.0,
        number4(record_bytes(r), 3) == r.sequence,
        number4(record_bytes(r), 7) == r.e2e_sequence,
        number2(record_bytes(r), 11) == r.report.len(),
        r.lane == InputLane::Motion ==> stands_at(record_bytes(r), 13, motion_bytes(r.motion))
            && stands_at(record_bytes(r), 29, r.report) && record_bytes(r).len() == 29
            + r.report.len(),
        r.lane == InputLane::Critical ==> stands_at(record_bytes(r), 13, r.report)
            && record_bytes(r).len() == 13 + r.report.len(),
{
    law_motion_layout(r.motion);
    lemma_le32(r.sequence);
    lemma_le32(r.e2e_sequence);
    lemma_le16(r.report.len() as u16);
}

/// The number that stands for a kind of report.
pub open spec fn type_number(report_type: HidReportType) -> u8 {
    match report_type {
        HidReportType::Input => 1,
        HidReportType::Output => 2,
        HidReportType::Feature => 3,
    }
}

/// The fields of the messages that begin and end a session: the number of the
/// message first, and then what it says.
#[verifier::spinoff_prover]
pub proof fn law_session_message_layout(m: MessageView)
    ensures
        match m {
            MessageView::Hello {
                role,
                capabilities,
                session_id,
                peer_session_id,
                next_critical_sequence,
                next_motion_sequence,
            } => {
                let b = message_bytes(m);
                &&& b.len() == 20
                &&& b[0] == 1
                &&& b[1] == (match role {
                    BridgeRole::UsbHost => 1u8,
                    BridgeRole::UsbDevice => 2,
                })
                &&& number2(b, 2) == capabilities
                &&& number4(b, 4) == session_id
                &&& number4(b, 8) == peer_session_id
                &&& number4(b, 12) == next_critical_sequence
                &&& number4(b, 16) == next_motion_sequence
            },
            MessageView::InterfaceRemoved { device_id, interface_id } => message_bytes(m) == seq![
                7u8,
                device_id.0,
                interface_id.0,
            ],
            MessageView::ReleaseAll => message_bytes(m) == seq![8u8],
            MessageView::EnterDownloadMode => message_bytes(m) == seq![0x0fu8],
            MessageView::DescriptorSnapshotEnd { interface_count, generation } => {
                let b = message_bytes(m);
                &&& b.len() == 6
                &&& b[0] == 0x0a
                &&& b[1] == interface_count
                &&& number4(b, 2) == generation
            },
            _ => true,
        },
{
    reveal(message_bytes);
    broadcast use lemma_le16, lemma_le32;

    match m {
        MessageView::InterfaceRemoved { device_id, interface_id } => {
            assert(message_bytes(m) =~= seq![7u8, device_id.0, interface_id.0]);
        },
        MessageView::ReleaseAll => {
            assert(message_bytes(m) =~= seq![8u8]);
        },
        MessageView::EnterDownloadMode => {
            assert(message_bytes(m) =~= seq![0x0fu8]);
        },
        _ => {},
    }
}

/// The fields of the message that describes an interface.
#[verifier::spinoff_prover]
pub proof fn law_interface_message_layout(m: MessageView)
    ensures
        match m {
            MessageView::InterfaceDescriptor(d) => {
                let b = message_bytes(m);
                d.descriptor.len() <= 65535 ==> {
                    &&& b.len() == 10 + d.descriptor.len()
                    &&& b[0] == 2
                    &&& b[1] == d.device_id.0
                    &&& b[2] == d.interface_id.0
                    &&& b[3] == d.interface_index
                    &&& number2(b, 4) == d.vendor_id
                    &&& number2(b, 6) == d.product_id
                    &&& number2(b, 8) == d.descriptor.len()
                    &&& stands_at(b, 10, d.descriptor)
                }
            },
            _ => true,
        },
{
    reveal(message_bytes);
    broadcast use lemma_le16, lemma_le32;
}

/// The fields of the messages that carry input.
#[verifier::spinoff_prover]
pub proof fn law_input_message_layout(m: MessageView)
    ensures
        match m {
            MessageView::InputReport {
                device_id,
                interface_id,
                sequence,
                lane,
                e2e_sequence,
                motion,
                report,
            } => {
                let b = message_bytes(m);
                report.len() <= 65535 ==> {
                    &&& b[0] == 3
                    &&& b[1] == device_id.0
                    &&& b[2] == interface_id.0
                    &&& b[3] == lane_number(lane)
                    &&& number4(b, 4) == sequence
                    &&& number4(b, 8) == e2e_sequence
                    &&& lane == InputLane::Motion ==> stands_at(b, 12, motion_bytes(motion))
                        && number2(b, 28) == report.len() && stands_at(b, 30, report) && b.len()
                        == 30 + report.len()
                    &&& lane == InputLane::Critical ==> number2(b, 12) == report.len()
                        && stands_at(b, 14, report) && b.len() == 14 + report.len()
                }
            },
            MessageView::InputSnapshot { record_count, records } => {
                let b = message_bytes(m);
                &&& b.len() == 2 + records.len()
                &&& b[0] == 0x11
                &&& b[1] == record_count
                &&& stands_at(b, 2, records)
            },
            _ => true,
        },
{
    reveal(message_bytes);
    broadcast use lemma_le16, lemma_le32;

    if let MessageView::InputReport { motion, .. } = m {
        law_motion_layout(motion);
    }
}

/// The fields of the messages that ask for a report, set one or give one back.
#[verifier::spinoff_prover]
pub proof fn law_request_message_layout(m: MessageView)
    ensures
        match m {
            MessageView::SetReport { device_id, interface_id, report_type, report_id, report } => {
                let b = message_bytes(m);
                report.len() <= 65535 ==> {
                    &&& b.len() == 7 + report.len()
                    &&& b[0] == 4
                    &&& b[1] == device_id.0
                    &&& b[2] == interface_id.0
                    &&& b[3] == type_number(report_type)
                    &&& b[4] == report_id
                    &&& number2(b, 5) == report.len()
                    &&& stands_at(b, 7, report)
                }
            },
            MessageView::GetReport {
                device_id,
                interface_id,
                report_type,
                report_id,
                requested_len,
                request_id,
            } => {
                let b = message_bytes(m);
                &&& b.len() == 9
                &&& b[0] == 5
                &&& b[1] == device_id.0
                &&& b[2] == interface_id.0
                &&& b[3] == type_number(report_type)
                &&& b[4] == report_id
                &&& number2(b, 5) == requested_len
                &&& number2(b, 7) == request_id
            },
            MessageView::GetReportResponse {
                device_id,
                interface_id,
                report_type,
                report_id,
                request_id,
                report,
            } => {
                let b = message_bytes(m);
                report.len() <= 65535 ==> {
                    &&& b.len() == 9 + report.len()
                    &&& b[0] == 6
                    &&& b[1] == device_id.0
                    &&& b[2] == interface_id.0
                    &&& b[3] == type_number(report_type)
                    &&& b[4] == report_id
                    &&& number2(b, 5) == request_id
                    &&& number2(b, 7) == report.len()
                    &&& stands_at(b, 9, report)
                }
            },
            _ => true,
        },
{
    reveal(message_bytes);
    broadcast use lemma_le16, lemma_le32;
}

/// The fields of the messages that carry times.
#[verifier::spinoff_prover]
pub proof fn law_timestamp_message_layout(m: MessageView)
    ensures
        match m {
            MessageView::E2eTimestamp { sequence, ingress_us } => {
                let b = message_bytes(m);
                &&& b.len() == 13
                &&& b[0] == 9
                &&& number4(b, 1) == sequence
                &&& number4(b, 5) + 4294967296 * number4(b, 9) == ingress_us
            },
            MessageView::E2eBridgeTimestamp {
                sequence,
                radio_rx_us,
                reassembled_us,
                hid_write_us,
            } => {
                let b = message_bytes(m);
                &&& b.len() == 29
                &&& b[0] == 0x0b
                &&& number4(b, 1) == sequence
                &&& number4(b, 5) + 4294967296 * number4(b, 9) == radio_rx_us
                &&& number4(b, 13) + 4294967296 * number4(b, 17) == reassembled_us
                &&& number4(b, 21) + 4294967296 * number4(b, 25) == hid_write_us
            },
            _ => true,
        },
{
    reveal(message_bytes);
    reveal(crate::bytes::le64);
    broadcast use lemma_le16, lemma_le32;
}

/// The fields of a management frame.
pub proof fn law_management_frame_layout(f: FrameView)
    requires
        f.payload.len() <= 512,
    ensures
        frame_bytes(f).len() == 12 + f.payload.len(),
        frame_bytes(f)[0] == 0x48,
        frame_bytes(f)[1] == 0x53,
        frame_bytes(f)[2] == 1,
        frame_bytes(f)[3] == (match f.kind {
            FrameKind::Request => 1u8,
            FrameKind::Response => 2,
            FrameKind::Event => 3,
            FrameKind::Log => 4,
            FrameKind::Update => 5,
        }),
        number2(frame_bytes(f), 4) == f.request_id,
        frame_bytes(f)[6] == (match f.node {
            NodeId::Host => 1u8,
            NodeId::Device => 2,
        }),
        frame_bytes(f)[7] == f.flags,
        number2(frame_bytes(f), 8) == f.payload.len(),
        stands_at(frame_bytes(f), 10, f.payload),
{
    lemma_le16(f.request_id);
    lemma_le16(f.payload.len() as u16);
}

/// The fields of a packet of the mirror test.
pub proof fn law_mirror_packet_layout(m: MirrorView)
    requires
        m.payload.len() <= 47,
    ensures
        m.wire().len() == 64,
        m.wire()[0] == m.version,
        m.wire()[1] == m.opcode,
        number4(m.wire(), 2) == m.sequence,
        number4(m.wire(), 6) == m.transfer_id,
        number4(m.wire(), 10) == m.offset,
        m.wire()[14] == m.payload.len(),
        stands_at(m.wire(), 15, m.payload),
{
    lemma_le32(m.sequence);
    lemma_le32(m.transfer_id);
    lemma_le32(m.offset);
}

/// The fields of a test packet: version, command, number, and what the command
/// says.
pub proof fn law_test_packet_layout(p: E2ePacket)
    ensures
        p.wire()[0] == 1,
        number4(p.wire(), 2) == p.sequence,
        match p.command {
            E2eCommand::ReadTimestamp { target_sequence } => number4(p.wire(), 6)
                == target_sequence,
            E2eCommand::DropNextInput { lane } => p.wire()[6] == (match lane {
                E2eInputLane::Motion => 1u8,
                E2eInputLane::Critical => 2,
            }),
            E2eCommand::DropNextInputBurst { lane } => p.wire()[6] == (match lane {
                E2eInputLane::Motion => 1u8,
                E2eInputLane::Critical => 2,
            }),
            E2eCommand::Keyboard { modifiers, keys } => p.wire()[1] == 0x10 && p.wire()[6]
                == modifiers && stands_at(p.wire(), 7, keys@),
            E2eCommand::Mouse { buttons, x, y, wheel, pan } => p.wire()[1] == 0x11 && p.wire()[6]
                == buttons && signed2(p.wire(), 7) == x && signed2(p.wire(), 9) == y && as_signed(
                p.wire()[11],
            ) == wheel && as_signed(p.wire()[12]) == pan,
            E2eCommand::Consumer { usage } => p.wire()[1] == 0x12 && number2(p.wire(), 6) == usage,
            E2eCommand::VendorInput { len, seed } => p.wire()[1] == 0x13 && p.wire()[6] == len
                && p.wire()[7] == seed,
            E2eCommand::MouseBurst { count, x, y } => p.wire()[1] == 0x14 && p.wire()[6] == count
                && signed2(p.wire(), 7) == x && signed2(p.wire(), 9) == y,
            _ => true,
        },
{
    broadcast use lemma_le16, lemma_le32;

}

/// The fields of a pairing that is kept.
pub proof fn law_pairing_layout(p: PairingView)
    requires
        p.peer_address.len() == 6,
        p.key.len() == 16,
    ensures
        p.image().len() == 64,
        p.image()[0] == 0x48,
        p.image()[1] == 0x53,
        p.image()[2] == 0x45,
        p.image()[3] == 0x50,
        p.image()[4] == 1,
        p.image()[5] == (match p.local_role {
            EspNowRole::UsbHost => 1u8,
            EspNowRole::UsbDevice => 2,
        }),
        p.image()[6] == p.channel,
        number4(p.image(), 8) == p.generation,
        stands_at(p.image(), 12, p.peer_address),
        stands_at(p.image(), 18, p.key),
{
    lemma_le32(p.generation);
    lemma_le32(crate::checksum::crc32(p.body()));
}

/// The fields of a sealed frame that are not hidden: the sender, the session and
/// the number.
pub proof fn law_sealed_frame_layout(
    key: Seq<u8>,
    sender: EspNowRole,
    session: u32,
    sequence: u32,
    plaintext: Seq<u8>,
)
    ensures
        ({
            let f = sealed(key, sender, session, sequence, plaintext);
            &&& f.len() == 20 + plaintext.len()
            &&& f[0] == 0x48
            &&& f[1] == 0x45
            &&& f[2] == 1
            &&& f[3] == (match sender {
                EspNowRole::UsbHost => 1u8,
                EspNowRole::UsbDevice => 2,
            })
            &&& number4(f, 4) == session
            &&& number4(f, 8) == sequence
        }),
{
    lemma_le32(session);
    lemma_le32(sequence);
    assert(secure_header(sender, session, sequence).len() == 12);
}

} // verus!
