//! The messages that the two chips exchange.

use vstd::prelude::*;

use super::snapshot::{check_records, InputSnapshotRecords};
use crate::bytes::{
    bits32, from_bits32, get16, get32, get64, le16, le32, le64, lemma_u16_in, lemma_u32_in, lemma_u64_in, part, signed32,
    to_bits32, to_le16, to_le32, to_le64, u16_at, u32_at, u64_at, write_at, write_front,
};
use crate::ids::{DeviceId, InterfaceId};
use crate::input::MouseMovement;

verus! {

broadcast use crate::bytes::lemma_le64_len;

/// The most interfaces that a device may have.
pub const MAX_HID_INTERFACES: usize = 8;

/// The longest report descriptor.
pub const MAX_HID_REPORT_DESCRIPTOR_SIZE: usize = 1024;

/// The longest report.
pub const MAX_HID_REPORT_SIZE: usize = 256;

/// The longest message.
pub const MAX_BRIDGE_MESSAGE_SIZE: usize = 1034;

pub const MESSAGE_HELLO: u8 = 0x01;

pub const MESSAGE_INTERFACE_DESCRIPTOR: u8 = 0x02;

pub const MESSAGE_INPUT_REPORT: u8 = 0x03;

pub const MESSAGE_SET_REPORT: u8 = 0x04;

pub const MESSAGE_GET_REPORT: u8 = 0x05;

pub const MESSAGE_GET_REPORT_RESPONSE: u8 = 0x06;

pub const MESSAGE_INTERFACE_REMOVED: u8 = 0x07;

pub const MESSAGE_RELEASE_ALL: u8 = 0x08;

pub const MESSAGE_E2E_TIMESTAMP: u8 = 0x09;

pub const MESSAGE_DESCRIPTOR_SNAPSHOT_END: u8 = 0x0a;

pub const MESSAGE_E2E_BRIDGE_TIMESTAMP: u8 = 0x0b;

pub const MESSAGE_ENTER_DOWNLOAD_MODE: u8 = 0x0f;

pub const MESSAGE_INPUT_SNAPSHOT: u8 = 0x11;

/// Which side of the bridge a chip is.
#[derive(Clone, Copy, Debug, PartialEq, Eq, Structural)]
pub enum BridgeRole {
    UsbHost,
    UsbDevice,
}

impl BridgeRole {
    /// The byte that stands for the role.
    pub open spec fn byte(self) -> u8 {
        match self {
            BridgeRole::UsbHost => 1,
            BridgeRole::UsbDevice => 2,
        }
    }

    /// The role that a byte stands for.
    pub open spec fn of_byte(value: u8) -> Result<BridgeRole, BridgeMessageError> {
        if value == 1 {
            Ok(BridgeRole::UsbHost)
        } else if value == 2 {
            Ok(BridgeRole::UsbDevice)
        } else {
            Err(BridgeMessageError::InvalidRole)
        }
    }

    fn to_byte(self) -> (r: u8)
        ensures
            r == self.byte(),
    {
        match self {
            Self::UsbHost => 1,
            Self::UsbDevice => 2,
        }
    }

    fn decode(value: u8) -> (r: Result<Self, BridgeMessageError>)
        ensures
            r == BridgeRole::of_byte(value),
    {
        match value {
            1 => Ok(Self::UsbHost),
            2 => Ok(Self::UsbDevice),
            _ => Err(BridgeMessageError::InvalidRole),
        }
    }
}

/// The three kinds of HID report.
#[derive(Clone, Copy, Debug, PartialEq, Eq, Structural)]
pub enum HidReportType {
    Input,
    Output,
    Feature,
}

impl HidReportType {
    /// The byte that stands for the report type.
    pub open spec fn byte(self) -> u8 {
        match self {
            HidReportType::Input => 1,
            HidReportType::Output => 2,
            HidReportType::Feature => 3,
        }
    }

    /// The report type that a byte stands for.
    pub open spec fn of_byte(value: u8) -> Result<HidReportType, BridgeMessageError> {
        if value == 1 {
            Ok(HidReportType::Input)
        } else if value == 2 {
            Ok(HidReportType::Output)
        } else if value == 3 {
            Ok(HidReportType::Feature)
        } else {
            Err(BridgeMessageError::InvalidReportType)
        }
    }

    fn to_byte(self) -> (r: u8)
        ensures
            r == self.byte(),
    {
        match self {
            Self::Input => 1,
            Self::Output => 2,
            Self::Feature => 3,
        }
    }

    fn decode(value: u8) -> (r: Result<Self, BridgeMessageError>)
        ensures
            r == HidReportType::of_byte(value),
    {
        match value {
            1 => Ok(Self::Input),
            2 => Ok(Self::Output),
            3 => Ok(Self::Feature),
            _ => Err(BridgeMessageError::InvalidReportType),
        }
    }
}

/// The lane that an input report travels in.
#[derive(Clone, Copy, Debug, PartialEq, Eq, Structural)]
pub enum InputLane {
    Motion,
    Critical,
}

impl InputLane {
    /// The byte that stands for the lane.
    pub open spec fn byte(self) -> u8 {
        match self {
            InputLane::Motion => 1,
            InputLane::Critical => 2,
        }
    }

    /// The lane that a byte stands for.
    pub open spec fn of_byte(value: u8) -> Result<InputLane, BridgeMessageError> {
        if value == 1 {
            Ok(InputLane::Motion)
        } else if value == 2 {
            Ok(InputLane::Critical)
        } else {
            Err(BridgeMessageError::InvalidInputLane)
        }
    }

    pub(crate) fn to_byte(self) -> (r: u8)
        ensures
            r == self.byte(),
    {
        match self {
            Self::Motion => 1,
            Self::Critical => 2,
        }
    }

    pub(crate) fn decode(value: u8) -> (r: Result<Self, BridgeMessageError>)
        ensures
            r == InputLane::of_byte(value),
    {
        match value {
            1 => Ok(Self::Motion),
            2 => Ok(Self::Critical),
            _ => Err(BridgeMessageError::InvalidInputLane),
        }
    }
}

/// The report descriptor of one interface.
#[derive(Clone, Copy, Debug, PartialEq, Eq)]
pub struct InterfaceDescriptor<'a> {
    pub device_id: DeviceId,
    pub interface_id: InterfaceId,
    pub interface_index: u8,
    pub vendor_id: u16,
    pub product_id: u16,
    pub descriptor: &'a [u8],
}

/// What an `InterfaceDescriptor` says.
pub struct DescriptorView {
    pub device_id: DeviceId,
    pub interface_id: InterfaceId,
    pub interface_index: u8,
    pub vendor_id: u16,
    pub product_id: u16,
    pub descriptor: Seq<u8>,
}

impl<'a> View for InterfaceDescriptor<'a> {
    type V = DescriptorView;

    open spec fn view(&self) -> DescriptorView {
        DescriptorView {
            device_id: self.device_id,
            interface_id: self.interface_id,
            interface_index: self.interface_index,
            vendor_id: self.vendor_id,
            product_id: self.product_id,
            descriptor: self.descriptor@,
        }
    }
}

/// Movement summed since the session began, which wraps.
#[derive(Clone, Copy, Debug, PartialEq, Eq, Structural)]
pub struct MotionCumulative {
    pub x: i32,
    pub y: i32,
    pub wheel: i32,
    pub pan: i32,
}

/// `x`, or the nearest number between `low` and `high`.
pub open spec fn clamped(x: int, low: int, high: int) -> int {
    if x < low {
        low
    } else if x > high {
        high
    } else {
        x
    }
}

fn clamp16(x: i32) -> (r: i16)
    ensures
        r == clamped(x as int, -32768, 32767),
{
    if x < -32768 {
        -32768
    } else if x > 32767 {
        32767
    } else {
        x as i16
    }
}

fn clamp8(x: i32) -> (r: i8)
    ensures
        r == clamped(x as int, -128, 127),
{
    if x < -128 {
        -128
    } else if x > 127 {
        127
    } else {
        x as i8
    }
}

impl MotionCumulative {
    /// No movement.
    pub open spec fn still() -> MotionCumulative {
        MotionCumulative { x: 0, y: 0, wheel: 0, pan: 0 }
    }

    /// The movement since `previous`, cut to what one report can say.
    pub open spec fn since(self, previous: MotionCumulative) -> MouseMovement {
        MouseMovement {
            x: clamped(self.x.wrapping_sub(previous.x) as int, -32768, 32767) as i16,
            y: clamped(self.y.wrapping_sub(previous.y) as int, -32768, 32767) as i16,
            wheel: clamped(self.wheel.wrapping_sub(previous.wheel) as int, -128, 127) as i8,
            pan: clamped(self.pan.wrapping_sub(previous.pan) as int, -128, 127) as i8,
        }
    }

    /// No movement.
    pub fn zero() -> (r: Self)
        ensures
            r == MotionCumulative::still(),
    {
        Self { x: 0, y: 0, wheel: 0, pan: 0 }
    }

    /// The sum of one movement.
    pub fn from_movement(movement: MouseMovement) -> (r: Self)
        ensures
            r == (MotionCumulative {
                x: movement.x as i32,
                y: movement.y as i32,
                wheel: movement.wheel as i32,
                pan: movement.pan as i32,
            }),
    {
        Self {
            x: movement.x as i32,
            y: movement.y as i32,
            wheel: movement.wheel as i32,
            pan: movement.pan as i32,
        }
    }

    /// The movement since `previous`, or since the start.
    pub fn delta_from(self, previous: Option<Self>) -> (r: MouseMovement)
        ensures
            r == self.since(
                match previous {
                    Some(previous) => previous,
                    None => MotionCumulative::still(),
                },
            ),
    {
        let previous = match previous {
            Some(previous) => previous,
            None => Self::zero(),
        };
        MouseMovement {
            x: clamp16(self.x.wrapping_sub(previous.x)),
            y: clamp16(self.y.wrapping_sub(previous.y)),
            wheel: clamp8(self.wheel.wrapping_sub(previous.wheel)),
            pan: clamp8(self.pan.wrapping_sub(previous.pan)),
        }
    }
}

impl Default for MotionCumulative {
    fn default() -> (r: Self)
        ensures
            r == MotionCumulative::still(),
    {
        Self::zero()
    }
}

/// Whether one report can say the movement since `previous`.
pub open spec fn uncut(now: MotionCumulative, previous: MotionCumulative) -> bool {
    &&& -32768 <= now.x.wrapping_sub(previous.x) <= 32767
    &&& -32768 <= now.y.wrapping_sub(previous.y) <= 32767
    &&& -128 <= now.wheel.wrapping_sub(previous.wheel) <= 127
    &&& -128 <= now.pan.wrapping_sub(previous.pan) <= 127
}

/// What was lost with a report that never came is in the movement since the
/// last report that did: as long as nothing is cut, two movements in a row add
/// up to the movement over both, though the sums may wrap.
pub proof fn law_lost_motion_is_recovered(
    first: MotionCumulative,
    lost: MotionCumulative,
    last: MotionCumulative,
)
    requires
        uncut(lost, first),
        uncut(last, lost),
        uncut(last, first),
    ensures
        last.since(first).x == last.since(lost).x + lost.since(first).x,
        last.since(first).y == last.since(lost).y + lost.since(first).y,
        last.since(first).wheel == last.since(lost).wheel + lost.since(first).wheel,
        last.since(first).pan == last.since(lost).pan + lost.since(first).pan,
{
}

/// A message between the two chips.
#[derive(Clone, Copy, Debug, PartialEq, Eq)]
pub enum BridgeMessage<'a> {
    Hello {
        role: BridgeRole,
        capabilities: u16,
        session_id: u32,
        /// The peer session this Hello acknowledges. Zero means that the
        /// sender has not received the peer's current session yet.
        peer_session_id: u32,
        next_critical_sequence: u32,
        next_motion_sequence: u32,
    },
    InterfaceDescriptor(InterfaceDescriptor<'a>),
    InputReport {
        device_id: DeviceId,
        interface_id: InterfaceId,
        /// Sequence number in the selected input lane. Motion and critical
        /// reports intentionally use independent sequence spaces so that
        /// coalescing motion cannot look like critical packet loss.
        sequence: u32,
        lane: InputLane,
        /// Correlation id of a measured report. Zero for a normal report.
        e2e_sequence: u32,
        motion: MotionCumulative,
        report: &'a [u8],
    },
    /// A chronological suffix of complete HID state transitions. Records are
    /// repeated in newer snapshots so a lost broadcast is recovered without
    /// waiting for, or retransmitting, a particular radio packet.
    InputSnapshot { record_count: u8, records: &'a [u8] },
    SetReport {
        device_id: DeviceId,
        interface_id: InterfaceId,
        report_type: HidReportType,
        report_id: u8,
        report: &'a [u8],
    },
    GetReport {
        device_id: DeviceId,
        interface_id: InterfaceId,
        report_type: HidReportType,
        report_id: u8,
        requested_len: u16,
        request_id: u16,
    },
    GetReportResponse {
        device_id: DeviceId,
        interface_id: InterfaceId,
        report_type: HidReportType,
        report_id: u8,
        request_id: u16,
        report: &'a [u8],
    },
    InterfaceRemoved { device_id: DeviceId, interface_id: InterfaceId },
    ReleaseAll,
    EnterDownloadMode,
    E2eTimestamp { sequence: u32, ingress_us: u64 },
    E2eBridgeTimestamp { sequence: u32, radio_rx_us: u64, reassembled_us: u64, hid_write_us: u64 },
    DescriptorSnapshotEnd { interface_count: u8, generation: u32 },
}

/// What a message says.
pub enum MessageView {
    Hello {
        role: BridgeRole,
        capabilities: u16,
        session_id: u32,
        peer_session_id: u32,
        next_critical_sequence: u32,
        next_motion_sequence: u32,
    },
    InterfaceDescriptor(DescriptorView),
    InputReport {
        device_id: DeviceId,
        interface_id: InterfaceId,
        sequence: u32,
        lane: InputLane,
        e2e_sequence: u32,
        motion: MotionCumulative,
        report: Seq<u8>,
    },
    InputSnapshot { record_count: u8, records: Seq<u8> },
    SetReport {
        device_id: DeviceId,
        interface_id: InterfaceId,
        report_type: HidReportType,
        report_id: u8,
        report: Seq<u8>,
    },
    GetReport {
        device_id: DeviceId,
        interface_id: InterfaceId,
        report_type: HidReportType,
        report_id: u8,
        requested_len: u16,
        request_id: u16,
    },
    GetReportResponse {
        device_id: DeviceId,
        interface_id: InterfaceId,
        report_type: HidReportType,
        report_id: u8,
        request_id: u16,
        report: Seq<u8>,
    },
    InterfaceRemoved { device_id: DeviceId, interface_id: InterfaceId },
    ReleaseAll,
    EnterDownloadMode,
    E2eTimestamp { sequence: u32, ingress_us: u64 },
    E2eBridgeTimestamp { sequence: u32, radio_rx_us: u64, reassembled_us: u64, hid_write_us: u64 },
    DescriptorSnapshotEnd { interface_count: u8, generation: u32 },
}

impl<'a> View for BridgeMessage<'a> {
    type V = MessageView;

    open spec fn view(&self) -> MessageView {
        match *self {
            BridgeMessage::Hello {
                role,
                capabilities,
                session_id,
                peer_session_id,
                next_critical_sequence,
                next_motion_sequence,
            } => MessageView::Hello {
                role,
                capabilities,
                session_id,
                peer_session_id,
                next_critical_sequence,
                next_motion_sequence,
            },
            BridgeMessage::InterfaceDescriptor(descriptor) => MessageView::InterfaceDescriptor(
                descriptor@,
            ),
            BridgeMessage::InputReport {
                device_id,
                interface_id,
                sequence,
                lane,
                e2e_sequence,
                motion,
                report,
            } => MessageView::InputReport {
                device_id,
                interface_id,
                sequence,
                lane,
                e2e_sequence,
                motion,
                report: report@,
            },
            BridgeMessage::InputSnapshot { record_count, records } => MessageView::InputSnapshot {
                record_count,
                records: records@,
            },
            BridgeMessage::SetReport { device_id, interface_id, report_type, report_id, report } =>
            MessageView::SetReport {
                device_id,
                interface_id,
                report_type,
                report_id,
                report: report@,
            },
            BridgeMessage::GetReport {
                device_id,
                interface_id,
                report_type,
                report_id,
                requested_len,
                request_id,
            } => MessageView::GetReport {
                device_id,
                interface_id,
                report_type,
                report_id,
                requested_len,
                request_id,
            },
            BridgeMessage::GetReportResponse {
                device_id,
                interface_id,
                report_type,
                report_id,
                request_id,
                report,
            } => MessageView::GetReportResponse {
                device_id,
                interface_id,
                report_type,
                report_id,
                request_id,
                report: report@,
            },
            BridgeMessage::InterfaceRemoved { device_id, interface_id } =>
            MessageView::InterfaceRemoved { device_id, interface_id },
            BridgeMessage::ReleaseAll => MessageView::ReleaseAll,
            BridgeMessage::EnterDownloadMode => MessageView::EnterDownloadMode,
            BridgeMessage::E2eTimestamp { sequence, ingress_us } => MessageView::E2eTimestamp {
                sequence,
                ingress_us,
            },
            BridgeMessage::E2eBridgeTimestamp {
                sequence,
                radio_rx_us,
                reassembled_us,
                hid_write_us,
            } => MessageView::E2eBridgeTimestamp {
                sequence,
                radio_rx_us,
                reassembled_us,
                hid_write_us,
            },
            BridgeMessage::DescriptorSnapshotEnd { interface_count, generation } =>
            MessageView::DescriptorSnapshotEnd { interface_count, generation },
        }
    }
}

/// Why a message could not be written or read.
#[derive(Clone, Copy, Debug, PartialEq, Eq, Structural)]
pub enum BridgeMessageError {
    BufferTooSmall,
    MessageTooLarge,
    DescriptorTooLarge,
    ReportTooLarge,
    InvalidLength,
    UnknownMessage,
    InvalidRole,
    InvalidReportType,
    InvalidInputLane,
    InvalidSnapshot,
}

/// The sixteen bytes of a cumulative motion.
pub open spec fn motion_bytes(motion: MotionCumulative) -> Seq<u8> {
    le32(bits32(motion.x)) + le32(bits32(motion.y)) + le32(bits32(motion.wheel)) + le32(
        bits32(motion.pan),
    )
}

/// The cumulative motion at `at`.
pub open spec fn motion_at(bytes: Seq<u8>, at: int) -> MotionCumulative {
    MotionCumulative {
        x: signed32(u32_at(bytes, at)),
        y: signed32(u32_at(bytes, at + 4)),
        wheel: signed32(u32_at(bytes, at + 8)),
        pan: signed32(u32_at(bytes, at + 12)),
    }
}

/// What comes before the variable part of a message.
pub open spec fn message_head(m: MessageView) -> Seq<u8> {
    match m {
        MessageView::Hello {
            role,
            capabilities,
            session_id,
            peer_session_id,
            next_critical_sequence,
            next_motion_sequence,
        } => seq![MESSAGE_HELLO, role.byte()] + le16(capabilities) + le32(session_id) + le32(
            peer_session_id,
        ) + le32(next_critical_sequence) + le32(next_motion_sequence),
        MessageView::InterfaceDescriptor(d) => seq![
            MESSAGE_INTERFACE_DESCRIPTOR,
            d.device_id.0,
            d.interface_id.0,
            d.interface_index,
        ] + le16(d.vendor_id) + le16(d.product_id) + le16(d.descriptor.len() as u16),
        MessageView::InputReport {
            device_id,
            interface_id,
            sequence,
            lane,
            e2e_sequence,
            motion,
            report,
        } => seq![MESSAGE_INPUT_REPORT, device_id.0, interface_id.0, lane.byte()] + le32(sequence)
            + le32(e2e_sequence) + (if lane == InputLane::Motion {
            motion_bytes(motion)
        } else {
            seq![]
        }) + le16(report.len() as u16),
        MessageView::InputSnapshot { record_count, records } => seq![
            MESSAGE_INPUT_SNAPSHOT,
            record_count,
        ],
        MessageView::SetReport { device_id, interface_id, report_type, report_id, report } => seq![
            MESSAGE_SET_REPORT,
            device_id.0,
            interface_id.0,
            report_type.byte(),
            report_id,
        ] + le16(report.len() as u16),
        MessageView::GetReport {
            device_id,
            interface_id,
            report_type,
            report_id,
            requested_len,
            request_id,
        } => seq![
            MESSAGE_GET_REPORT,
            device_id.0,
            interface_id.0,
            report_type.byte(),
            report_id,
        ] + le16(requested_len) + le16(request_id),
        MessageView::GetReportResponse {
            device_id,
            interface_id,
            report_type,
            report_id,
            request_id,
            report,
        } => seq![
            MESSAGE_GET_REPORT_RESPONSE,
            device_id.0,
            interface_id.0,
            report_type.byte(),
            report_id,
        ] + le16(request_id) + le16(report.len() as u16),
        MessageView::InterfaceRemoved { device_id, interface_id } => seq![
            MESSAGE_INTERFACE_REMOVED,
            device_id.0,
            interface_id.0,
        ],
        MessageView::ReleaseAll => seq![MESSAGE_RELEASE_ALL],
        MessageView::EnterDownloadMode => seq![MESSAGE_ENTER_DOWNLOAD_MODE],
        MessageView::E2eTimestamp { sequence, ingress_us } => seq![MESSAGE_E2E_TIMESTAMP] + le32(
            sequence,
        ) + le64(ingress_us),
        MessageView::E2eBridgeTimestamp { sequence, radio_rx_us, reassembled_us, hid_write_us } =>
        seq![MESSAGE_E2E_BRIDGE_TIMESTAMP] + le32(sequence) + le64(radio_rx_us) + le64(
            reassembled_us,
        ) + le64(hid_write_us),
        MessageView::DescriptorSnapshotEnd { interface_count, generation } => seq![
            MESSAGE_DESCRIPTOR_SNAPSHOT_END,
            interface_count,
        ] + le32(generation),
    }
}

/// The variable part of a message, which comes last.
pub open spec fn message_tail(m: MessageView) -> Seq<u8> {
    match m {
        MessageView::InterfaceDescriptor(d) => d.descriptor,
        MessageView::InputReport { report, .. } => report,
        MessageView::InputSnapshot { records, .. } => records,
        MessageView::SetReport { report, .. } => report,
        MessageView::GetReportResponse { report, .. } => report,
        _ => seq![],
    }
}

/// The bytes of a message.
#[verifier::opaque]
pub open spec fn message_bytes(m: MessageView) -> Seq<u8> {
    message_head(m) + message_tail(m)
}

/// Why a message cannot be written, where it cannot.
pub open spec fn message_error(m: MessageView) -> Option<BridgeMessageError> {
    match m {
        MessageView::InterfaceDescriptor(d) => if d.descriptor.len()
            > MAX_HID_REPORT_DESCRIPTOR_SIZE {
            Some(BridgeMessageError::DescriptorTooLarge)
        } else {
            None
        },
        MessageView::InputReport { report, .. } => if report.len() > MAX_HID_REPORT_SIZE {
            Some(BridgeMessageError::ReportTooLarge)
        } else {
            None
        },
        MessageView::SetReport { report, .. } => if report.len() > MAX_HID_REPORT_SIZE {
            Some(BridgeMessageError::ReportTooLarge)
        } else {
            None
        },
        MessageView::GetReportResponse { report, .. } => if report.len() > MAX_HID_REPORT_SIZE {
            Some(BridgeMessageError::ReportTooLarge)
        } else {
            None
        },
        MessageView::InputSnapshot { record_count, records } => if check_records(
            record_count,
            records,
        ) is Err {
            Some(BridgeMessageError::InvalidSnapshot)
        } else if 2 + records.len() > MAX_BRIDGE_MESSAGE_SIZE {
            Some(BridgeMessageError::MessageTooLarge)
        } else {
            None
        },
        _ => None,
    }
}

/// The report behind `at`, whose length stands at `length_at`.
pub open spec fn report_at(bytes: Seq<u8>, at: int, length_at: int) -> Result<
    Seq<u8>,
    BridgeMessageError,
> {
    if u16_at(bytes, length_at) > MAX_HID_REPORT_SIZE {
        Err(BridgeMessageError::ReportTooLarge)
    } else if bytes.len() != at + u16_at(bytes, length_at) {
        Err(BridgeMessageError::InvalidLength)
    } else {
        Ok(bytes.skip(at))
    }
}

/// The Hello that these bytes are. The two shorter forms leave out what older
/// senders did not know.
pub open spec fn parse_hello(bytes: Seq<u8>) -> Result<MessageView, BridgeMessageError> {
    if bytes.len() != 4 && bytes.len() != 16 && bytes.len() != 20 {
        Err(BridgeMessageError::InvalidLength)
    } else {
        match BridgeRole::of_byte(bytes[1]) {
            Err(error) => Err(error),
            Ok(role) => Ok(
                MessageView::Hello {
                    role,
                    capabilities: u16_at(bytes, 2),
                    session_id: if bytes.len() == 4 {
                        0
                    } else {
                        u32_at(bytes, 4)
                    },
                    peer_session_id: if bytes.len() == 20 {
                        u32_at(bytes, 8)
                    } else {
                        0
                    },
                    next_critical_sequence: if bytes.len() == 4 {
                        1
                    } else if bytes.len() == 16 {
                        u32_at(bytes, 8)
                    } else {
                        u32_at(bytes, 12)
                    },
                    next_motion_sequence: if bytes.len() == 4 {
                        1
                    } else if bytes.len() == 16 {
                        u32_at(bytes, 12)
                    } else {
                        u32_at(bytes, 16)
                    },
                },
            ),
        }
    }
}

/// The interface descriptor that these bytes are.
pub open spec fn parse_descriptor(bytes: Seq<u8>) -> Result<MessageView, BridgeMessageError> {
    if bytes.len() < 10 {
        Err(BridgeMessageError::InvalidLength)
    } else if u16_at(bytes, 8) > MAX_HID_REPORT_DESCRIPTOR_SIZE {
        Err(BridgeMessageError::DescriptorTooLarge)
    } else if bytes.len() != 10 + u16_at(bytes, 8) {
        Err(BridgeMessageError::InvalidLength)
    } else {
        Ok(
            MessageView::InterfaceDescriptor(
                DescriptorView {
                    device_id: DeviceId(bytes[1]),
                    interface_id: InterfaceId(bytes[2]),
                    interface_index: bytes[3],
                    vendor_id: u16_at(bytes, 4),
                    product_id: u16_at(bytes, 6),
                    descriptor: bytes.skip(10),
                },
            ),
        )
    }
}

/// The input report that these bytes are.
pub open spec fn parse_input_report(bytes: Seq<u8>) -> Result<MessageView, BridgeMessageError> {
    if bytes.len() < 14 {
        Err(BridgeMessageError::InvalidLength)
    } else {
        match InputLane::of_byte(bytes[3]) {
            Err(error) => Err(error),
            Ok(lane) => if lane == InputLane::Motion && bytes.len() < 30 {
                Err(BridgeMessageError::InvalidLength)
            } else {
                match (if lane == InputLane::Motion {
                    report_at(bytes, 30, 28)
                } else {
                    report_at(bytes, 14, 12)
                }) {
                    Err(error) => Err(error),
                    Ok(report) => Ok(
                        MessageView::InputReport {
                            device_id: DeviceId(bytes[1]),
                            interface_id: InterfaceId(bytes[2]),
                            sequence: u32_at(bytes, 4),
                            lane,
                            e2e_sequence: u32_at(bytes, 8),
                            motion: if lane == InputLane::Motion {
                                motion_at(bytes, 12)
                            } else {
                                MotionCumulative::still()
                            },
                            report,
                        },
                    ),
                }
            },
        }
    }
}

/// The set-report request that these bytes are.
pub open spec fn parse_set_report(bytes: Seq<u8>) -> Result<MessageView, BridgeMessageError> {
    if bytes.len() < 7 {
        Err(BridgeMessageError::InvalidLength)
    } else {
        match report_at(bytes, 7, 5) {
            Err(error) => Err(error),
            Ok(report) => match HidReportType::of_byte(bytes[3]) {
                Err(error) => Err(error),
                Ok(report_type) => Ok(
                    MessageView::SetReport {
                        device_id: DeviceId(bytes[1]),
                        interface_id: InterfaceId(bytes[2]),
                        report_type,
                        report_id: bytes[4],
                        report,
                    },
                ),
            },
        }
    }
}

/// The get-report request that these bytes are.
pub open spec fn parse_get_report(bytes: Seq<u8>) -> Result<MessageView, BridgeMessageError> {
    if bytes.len() != 9 {
        Err(BridgeMessageError::InvalidLength)
    } else {
        match HidReportType::of_byte(bytes[3]) {
            Err(error) => Err(error),
            Ok(report_type) => Ok(
                MessageView::GetReport {
                    device_id: DeviceId(bytes[1]),
                    interface_id: InterfaceId(bytes[2]),
                    report_type,
                    report_id: bytes[4],
                    requested_len: u16_at(bytes, 5),
                    request_id: u16_at(bytes, 7),
                },
            ),
        }
    }
}

/// The answer to a get-report request that these bytes are.
pub open spec fn parse_get_report_response(bytes: Seq<u8>) -> Result<
    MessageView,
    BridgeMessageError,
> {
    if bytes.len() < 9 {
        Err(BridgeMessageError::InvalidLength)
    } else {
        match report_at(bytes, 9, 7) {
            Err(error) => Err(error),
            Ok(report) => match HidReportType::of_byte(bytes[3]) {
                Err(error) => Err(error),
                Ok(report_type) => Ok(
                    MessageView::GetReportResponse {
                        device_id: DeviceId(bytes[1]),
                        interface_id: InterfaceId(bytes[2]),
                        report_type,
                        report_id: bytes[4],
                        request_id: u16_at(bytes, 5),
                        report,
                    },
                ),
            },
        }
    }
}

/// The message that these bytes are, or why they are none.
pub open spec fn parse_message(bytes: Seq<u8>) -> Result<MessageView, BridgeMessageError> {
    let n = bytes.len();
    if n == 0 {
        Err(BridgeMessageError::InvalidLength)
    } else if bytes[0] == MESSAGE_HELLO {
        parse_hello(bytes)
    } else if bytes[0] == MESSAGE_INTERFACE_DESCRIPTOR {
        parse_descriptor(bytes)
    } else if bytes[0] == MESSAGE_INPUT_REPORT {
        parse_input_report(bytes)
    } else if bytes[0] == MESSAGE_INPUT_SNAPSHOT {
        if n < 2 {
            Err(BridgeMessageError::InvalidLength)
        } else if check_records(bytes[1], bytes.skip(2)) is Err {
            Err(BridgeMessageError::InvalidSnapshot)
        } else {
            Ok(MessageView::InputSnapshot { record_count: bytes[1], records: bytes.skip(2) })
        }
    } else if bytes[0] == MESSAGE_SET_REPORT {
        parse_set_report(bytes)
    } else if bytes[0] == MESSAGE_GET_REPORT {
        parse_get_report(bytes)
    } else if bytes[0] == MESSAGE_GET_REPORT_RESPONSE {
        parse_get_report_response(bytes)
    } else if bytes[0] == MESSAGE_INTERFACE_REMOVED {
        if n != 3 {
            Err(BridgeMessageError::InvalidLength)
        } else {
            Ok(
                MessageView::InterfaceRemoved {
                    device_id: DeviceId(bytes[1]),
                    interface_id: InterfaceId(bytes[2]),
                },
            )
        }
    } else if bytes[0] == MESSAGE_RELEASE_ALL {
        if n != 1 {
            Err(BridgeMessageError::InvalidLength)
        } else {
            Ok(MessageView::ReleaseAll)
        }
    } else if bytes[0] == MESSAGE_ENTER_DOWNLOAD_MODE {
        if n != 1 {
            Err(BridgeMessageError::InvalidLength)
        } else {
            Ok(MessageView::EnterDownloadMode)
        }
    } else if bytes[0] == MESSAGE_E2E_TIMESTAMP {
        if n != 13 {
            Err(BridgeMessageError::InvalidLength)
        } else {
            Ok(
                MessageView::E2eTimestamp {
                    sequence: u32_at(bytes, 1),
                    ingress_us: u64_at(bytes, 5),
                },
            )
        }
    } else if bytes[0] == MESSAGE_E2E_BRIDGE_TIMESTAMP {
        if n != 29 {
            Err(BridgeMessageError::InvalidLength)
        } else {
            Ok(
                MessageView::E2eBridgeTimestamp {
                    sequence: u32_at(bytes, 1),
                    radio_rx_us: u64_at(bytes, 5),
                    reassembled_us: u64_at(bytes, 13),
                    hid_write_us: u64_at(bytes, 21),
                },
            )
        }
    } else if bytes[0] == MESSAGE_DESCRIPTOR_SNAPSHOT_END {
        if n != 6 {
            Err(BridgeMessageError::InvalidLength)
        } else {
            Ok(
                MessageView::DescriptorSnapshotEnd {
                    interface_count: bytes[1],
                    generation: u32_at(bytes, 2),
                },
            )
        }
    } else {
        Err(BridgeMessageError::UnknownMessage)
    }
}

/// What a result says, with the message taken by its view.
pub open spec fn message_result<'a>(r: Result<BridgeMessage<'a>, BridgeMessageError>) -> Result<
    MessageView,
    BridgeMessageError,
> {
    match r {
        Ok(message) => Ok(message@),
        Err(error) => Err(error),
    }
}

/// The sixteen bytes of a cumulative motion.
pub(crate) fn encode_motion(motion: MotionCumulative) -> (r: [u8; 16])
    ensures
        r@ == motion_bytes(motion),
{
    let x = to_le32(to_bits32(motion.x));
    let y = to_le32(to_bits32(motion.y));
    let w = to_le32(to_bits32(motion.wheel));
    let p = to_le32(to_bits32(motion.pan));
    let r = [
        x[0], x[1], x[2], x[3], y[0], y[1], y[2], y[3], w[0], w[1], w[2], w[3], p[0], p[1], p[2],
        p[3],
    ];
    assert(r@ =~= motion_bytes(motion));
    r
}

/// The cumulative motion at `at`.
pub(crate) fn decode_motion(bytes: &[u8], at: usize) -> (r: MotionCumulative)
    requires
        at + 16 <= bytes@.len(),
    ensures
        r == motion_at(bytes@, at as int),
{
    let n: usize = bytes.len();
    assert(at + 16 <= n);
    MotionCumulative {
        x: from_bits32(get32(bytes, at)),
        y: from_bits32(get32(bytes, at + 4)),
        wheel: from_bits32(get32(bytes, at + 8)),
        pan: from_bits32(get32(bytes, at + 12)),
    }
}

/// The bytes of a cumulative motion give it back.
pub(crate) proof fn lemma_motion(bytes: Seq<u8>, at: int, motion: MotionCumulative)
    requires
        0 <= at,
        at + 16 <= bytes.len(),
        bytes.subrange(at, at + 16) == motion_bytes(motion),
    ensures
        motion_at(bytes, at) == motion,
{
    let sub = bytes.subrange(at, at + 16);
    let x = le32(bits32(motion.x));
    let y = le32(bits32(motion.y));
    let w = le32(bits32(motion.wheel));
    let p = le32(bits32(motion.pan));
    assert forall|i: int| 0 <= i < 4 implies bytes[at + i] == x[i] && bytes[at + 4 + i] == y[i]
        && bytes[at + 8 + i] == w[i] && bytes[at + 12 + i] == p[i] by {
        assert(sub[i] == bytes[at + i]);
        assert(sub[4 + i] == bytes[at + 4 + i]);
        assert(sub[8 + i] == bytes[at + 8 + i]);
        assert(sub[12 + i] == bytes[at + 12 + i]);
    }
    crate::bytes::lemma_le32(bits32(motion.x));
    crate::bytes::lemma_le32(bits32(motion.y));
    crate::bytes::lemma_le32(bits32(motion.wheel));
    crate::bytes::lemma_le32(bits32(motion.pan));
    assert(bytes[at] == x[0] && bytes[at + 1] == x[1] && bytes[at + 2] == x[2] && bytes[at + 3]
        == x[3]);
    assert(bytes[at + 4] == y[0] && bytes[at + 4 + 1] == y[1] && bytes[at + 4 + 2] == y[2]
        && bytes[at + 4 + 3] == y[3]);
    assert(bytes[at + 8] == w[0] && bytes[at + 8 + 1] == w[1] && bytes[at + 8 + 2] == w[2]
        && bytes[at + 8 + 3] == w[3]);
    assert(bytes[at + 12] == p[0] && bytes[at + 12 + 1] == p[1] && bytes[at + 12 + 2] == p[2]
        && bytes[at + 12 + 3] == p[3]);
}

/// The report behind `at`, whose length stands at `length_at`.
fn checked_payload<'a>(bytes: &'a [u8], at: usize, length_at: usize) -> (r: Result<
    &'a [u8],
    BridgeMessageError,
>)
    requires
        at <= bytes@.len(),
        length_at + 2 <= bytes@.len(),
    ensures
        report_at(bytes@, at as int, length_at as int) is Ok ==> r is Ok && r->Ok_0@ == report_at(
            bytes@,
            at as int,
            length_at as int,
        )->Ok_0,
        report_at(bytes@, at as int, length_at as int) is Err ==> r is Err && r->Err_0
            == report_at(bytes@, at as int, length_at as int)->Err_0,
{
    let n: usize = bytes.len();
    let len: usize = get16(bytes, length_at) as usize;
    if len > MAX_HID_REPORT_SIZE {
        return Err(BridgeMessageError::ReportTooLarge);
    }
    if n - at != len {
        return Err(BridgeMessageError::InvalidLength);
    }
    let report = part(bytes, at, n);
    assert(report@ =~= bytes@.skip(at as int));
    Ok(report)
}

fn hello_head(
    role: BridgeRole,
    capabilities: u16,
    session_id: u32,
    peer_session_id: u32,
    next_critical_sequence: u32,
    next_motion_sequence: u32,
) -> (r: [u8; 20])
    ensures
        r@ == seq![MESSAGE_HELLO, role.byte()] + le16(capabilities) + le32(session_id) + le32(
            peer_session_id,
        ) + le32(next_critical_sequence) + le32(next_motion_sequence),
{
    let c = to_le16(capabilities);
    let s = to_le32(session_id);
    let p = to_le32(peer_session_id);
    let k = to_le32(next_critical_sequence);
    let m = to_le32(next_motion_sequence);
    let r: [u8; 20] = [
        MESSAGE_HELLO, role.to_byte(), c[0], c[1], s[0], s[1], s[2], s[3], p[0], p[1], p[2], p[3],
        k[0], k[1], k[2], k[3], m[0], m[1], m[2], m[3],
    ];
    assert(r@ =~= seq![MESSAGE_HELLO, role.byte()] + le16(capabilities) + le32(session_id) + le32(
        peer_session_id,
    ) + le32(next_critical_sequence) + le32(next_motion_sequence));
    r
}

fn report_start(
    device_id: DeviceId,
    interface_id: InterfaceId,
    lane: InputLane,
    sequence: u32,
    e2e_sequence: u32,
) -> (r: [u8; 12])
    ensures
        r@ == seq![MESSAGE_INPUT_REPORT, device_id.0, interface_id.0, lane.byte()] + le32(sequence)
            + le32(e2e_sequence),
{
    let s = to_le32(sequence);
    let e = to_le32(e2e_sequence);
    let r: [u8; 12] = [
        MESSAGE_INPUT_REPORT, device_id.0, interface_id.0, lane.to_byte(), s[0], s[1], s[2], s[3],
        e[0], e[1], e[2], e[3],
    ];
    assert(r@ =~= seq![MESSAGE_INPUT_REPORT, device_id.0, interface_id.0, lane.byte()] + le32(
        sequence,
    ) + le32(e2e_sequence));
    r
}

fn bridge_timestamp_head(
    sequence: u32,
    radio_rx_us: u64,
    reassembled_us: u64,
    hid_write_us: u64,
) -> (r: [u8; 29])
    ensures
        r@ == seq![MESSAGE_E2E_BRIDGE_TIMESTAMP] + le32(sequence) + le64(radio_rx_us) + le64(
            reassembled_us,
        ) + le64(hid_write_us),
{
    let mut r: [u8; 29] = [0; 29];
    r[0] = MESSAGE_E2E_BRIDGE_TIMESTAMP;
    write_at(&mut r, 1, &to_le32(sequence));
    write_at(&mut r, 5, &to_le64(radio_rx_us));
    write_at(&mut r, 13, &to_le64(reassembled_us));
    write_at(&mut r, 21, &to_le64(hid_write_us));
    assert(r@ =~= seq![MESSAGE_E2E_BRIDGE_TIMESTAMP] + le32(sequence) + le64(radio_rx_us) + le64(
        reassembled_us,
    ) + le64(hid_write_us));
    r
}

fn check_report_len(len: usize) -> (r: Result<(), BridgeMessageError>)
    ensures
        r is Ok <==> len <= MAX_HID_REPORT_SIZE,
        r is Err ==> r->Err_0 == BridgeMessageError::ReportTooLarge,
{
    if len > MAX_HID_REPORT_SIZE {
        Err(BridgeMessageError::ReportTooLarge)
    } else {
        Ok(())
    }
}

impl<'a> BridgeMessage<'a> {
    /// Writes the message to the front of `out` and says how long it is.
    pub fn encode(self, out: &mut [u8]) -> (r: Result<usize, BridgeMessageError>)
        ensures
            message_error(self@) is Some ==> r == Err::<usize, BridgeMessageError>(
                message_error(self@)->0,
            ) && final(out)@ == old(out)@,
            message_error(self@) is None && message_bytes(self@).len() > old(out)@.len() ==> r
                == Err::<usize, BridgeMessageError>(BridgeMessageError::BufferTooSmall) && final(
                out)@ == old(out)@,
            message_error(self@) is None && message_bytes(self@).len() <= old(out)@.len() ==> r
                == Ok::<usize, BridgeMessageError>(message_bytes(self@).len() as usize) && final(
                out)@ == message_bytes(self@) + old(out)@.skip(message_bytes(self@).len() as int),
    {
        proof {
            reveal(message_bytes);
        }
        let required: usize = match self.encoded_len() {
            Ok(required) => required,
            Err(error) => {
                return Err(error);
            },
        };
        if out.len() < required {
            return Err(BridgeMessageError::BufferTooSmall);
        }
        match self {
            BridgeMessage::Hello {
                role,
                capabilities,
                session_id,
                peer_session_id,
                next_critical_sequence,
                next_motion_sequence,
            } => {
                let head = hello_head(
                    role,
                    capabilities,
                    session_id,
                    peer_session_id,
                    next_critical_sequence,
                    next_motion_sequence,
                );
                write_front(out, &head, &[]);
            },
            BridgeMessage::InterfaceDescriptor(descriptor) => {
                let v = to_le16(descriptor.vendor_id);
                let p = to_le16(descriptor.product_id);
                let l = to_le16(descriptor.descriptor.len() as u16);
                let head: [u8; 10] = [
                    MESSAGE_INTERFACE_DESCRIPTOR,
                    descriptor.device_id.0,
                    descriptor.interface_id.0,
                    descriptor.interface_index,
                    v[0],
                    v[1],
                    p[0],
                    p[1],
                    l[0],
                    l[1],
                ];
                assert(head@ =~= message_head(self@));
                write_front(out, &head, descriptor.descriptor);
            },
            BridgeMessage::InputReport {
                device_id,
                interface_id,
                sequence,
                lane,
                e2e_sequence,
                motion,
                report,
            } => {
                let start = report_start(device_id, interface_id, lane, sequence, e2e_sequence);
                let l = to_le16(report.len() as u16);
                match lane {
                    InputLane::Motion => {
                        let m = encode_motion(motion);
                        let mut head: [u8; 30] = [0; 30];
                        write_at(&mut head, 0, &start);
                        write_at(&mut head, 12, &m);
                        write_at(&mut head, 28, &l);
                        assert(head@ =~= message_head(self@));
                        write_front(out, &head, report);
                    },
                    InputLane::Critical => {
                        let mut head: [u8; 14] = [0; 14];
                        write_at(&mut head, 0, &start);
                        write_at(&mut head, 12, &l);
                        assert(head@ =~= message_head(self@));
                        write_front(out, &head, report);
                    },
                }
            },
            BridgeMessage::InputSnapshot { record_count, records } => {
                let head: [u8; 2] = [MESSAGE_INPUT_SNAPSHOT, record_count];
                assert(head@ =~= message_head(self@));
                write_front(out, &head, records);
            },
            BridgeMessage::SetReport { device_id, interface_id, report_type, report_id, report } => {
                let l = to_le16(report.len() as u16);
                let head: [u8; 7] = [
                    MESSAGE_SET_REPORT,
                    device_id.0,
                    interface_id.0,
                    report_type.to_byte(),
                    report_id,
                    l[0],
                    l[1],
                ];
                assert(head@ =~= message_head(self@));
                write_front(out, &head, report);
            },
            BridgeMessage::GetReport {
                device_id,
                interface_id,
                report_type,
                report_id,
                requested_len,
                request_id,
            } => {
                let l = to_le16(requested_len);
                let i = to_le16(request_id);
                let head: [u8; 9] = [
                    MESSAGE_GET_REPORT,
                    device_id.0,
                    interface_id.0,
                    report_type.to_byte(),
                    report_id,
                    l[0],
                    l[1],
                    i[0],
                    i[1],
                ];
                assert(head@ =~= message_head(self@));
                write_front(out, &head, &[]);
            },
            BridgeMessage::GetReportResponse {
                device_id,
                interface_id,
                report_type,
                report_id,
                request_id,
                report,
            } => {
                let i = to_le16(request_id);
                let l = to_le16(report.len() as u16);
                let head: [u8; 9] = [
                    MESSAGE_GET_REPORT_RESPONSE,
                    device_id.0,
                    interface_id.0,
                    report_type.to_byte(),
                    report_id,
                    i[0],
                    i[1],
                    l[0],
                    l[1],
                ];
                assert(head@ =~= message_head(self@));
                write_front(out, &head, report);
            },
            BridgeMessage::InterfaceRemoved { device_id, interface_id } => {
                let head: [u8; 3] = [MESSAGE_INTERFACE_REMOVED, device_id.0, interface_id.0];
                assert(head@ =~= message_head(self@));
                write_front(out, &head, &[]);
            },
            BridgeMessage::ReleaseAll => {
                let head: [u8; 1] = [MESSAGE_RELEASE_ALL];
                assert(head@ =~= message_head(self@));
                write_front(out, &head, &[]);
            },
            BridgeMessage::EnterDownloadMode => {
                let head: [u8; 1] = [MESSAGE_ENTER_DOWNLOAD_MODE];
                assert(head@ =~= message_head(self@));
                write_front(out, &head, &[]);
            },
            BridgeMessage::E2eTimestamp { sequence, ingress_us } => {
                let s = to_le32(sequence);
                let t = to_le64(ingress_us);
                let head: [u8; 13] = [
                    MESSAGE_E2E_TIMESTAMP, s[0], s[1], s[2], s[3], t[0], t[1], t[2], t[3], t[4],
                    t[5], t[6], t[7],
                ];
                assert(head@ =~= message_head(self@));
                write_front(out, &head, &[]);
            },
            BridgeMessage::E2eBridgeTimestamp {
                sequence,
                radio_rx_us,
                reassembled_us,
                hid_write_us,
            } => {
                let head = bridge_timestamp_head(
                    sequence,
                    radio_rx_us,
                    reassembled_us,
                    hid_write_us,
                );
                write_front(out, &head, &[]);
            },
            BridgeMessage::DescriptorSnapshotEnd { interface_count, generation } => {
                let g = to_le32(generation);
                let head: [u8; 6] = [
                    MESSAGE_DESCRIPTOR_SNAPSHOT_END,
                    interface_count,
                    g[0],
                    g[1],
                    g[2],
                    g[3],
                ];
                assert(head@ =~= message_head(self@));
                write_front(out, &head, &[]);
            },
        }
        assert(out@ =~= message_bytes(self@) + old(out)@.skip(required as int));
        Ok(required)
    }

    fn encoded_len(self) -> (r: Result<usize, BridgeMessageError>)
        ensures
            message_error(self@) is Some ==> r == Err::<usize, BridgeMessageError>(
                message_error(self@)->0,
            ),
            message_error(self@) is None ==> r == Ok::<usize, BridgeMessageError>(
                message_bytes(self@).len() as usize,
            ) && message_bytes(self@).len() <= MAX_BRIDGE_MESSAGE_SIZE,
    {
        proof {
            reveal(message_bytes);
        }
        let len: usize = match self {
            BridgeMessage::Hello { .. } => 20,
            BridgeMessage::InterfaceDescriptor(value) => {
                if value.descriptor.len() > MAX_HID_REPORT_DESCRIPTOR_SIZE {
                    return Err(BridgeMessageError::DescriptorTooLarge);
                }
                10 + value.descriptor.len()
            },
            BridgeMessage::InputReport { lane, report, .. } => {
                match check_report_len(report.len()) {
                    Ok(_) => {},
                    Err(error) => {
                        return Err(error);
                    },
                }
                match lane {
                    InputLane::Motion => 30 + report.len(),
                    InputLane::Critical => 14 + report.len(),
                }
            },
            BridgeMessage::InputSnapshot { record_count, records } => {
                match InputSnapshotRecords::new(record_count, records) {
                    Ok(_) => {},
                    Err(_) => {
                        return Err(BridgeMessageError::InvalidSnapshot);
                    },
                }
                if records.len() > MAX_BRIDGE_MESSAGE_SIZE - 2 {
                    return Err(BridgeMessageError::MessageTooLarge);
                }
                2 + records.len()
            },
            BridgeMessage::GetReportResponse { report, .. } => {
                match check_report_len(report.len()) {
                    Ok(_) => {},
                    Err(error) => {
                        return Err(error);
                    },
                }
                9 + report.len()
            },
            BridgeMessage::SetReport { report, .. } => {
                match check_report_len(report.len()) {
                    Ok(_) => {},
                    Err(error) => {
                        return Err(error);
                    },
                }
                7 + report.len()
            },
            BridgeMessage::GetReport { .. } => 9,
            BridgeMessage::InterfaceRemoved { .. } => 3,
            BridgeMessage::ReleaseAll => 1,
            BridgeMessage::EnterDownloadMode => 1,
            BridgeMessage::E2eTimestamp { .. } => 13,
            BridgeMessage::E2eBridgeTimestamp { .. } => 29,
            BridgeMessage::DescriptorSnapshotEnd { .. } => 6,
        };
        Ok(len)
    }

    /// The message that `bytes` are.
    pub fn decode(bytes: &'a [u8]) -> (r: Result<Self, BridgeMessageError>)
        ensures
            message_result(r) == parse_message(bytes@),
    {
        let n: usize = bytes.len();
        if n == 0 {
            return Err(BridgeMessageError::InvalidLength);
        }
        let kind: u8 = bytes[0];
        if kind == MESSAGE_HELLO {
            return Self::decode_hello(bytes);
        }
        if kind == MESSAGE_INTERFACE_DESCRIPTOR {
            return Self::decode_descriptor(bytes);
        }
        if kind == MESSAGE_INPUT_REPORT {
            return Self::decode_input_report(bytes);
        }
        if kind == MESSAGE_INPUT_SNAPSHOT {
            if n < 2 {
                return Err(BridgeMessageError::InvalidLength);
            }
            let records = part(bytes, 2, n);
            assert(records@ =~= bytes@.skip(2));
            return match InputSnapshotRecords::new(bytes[1], records) {
                Err(_) => Err(BridgeMessageError::InvalidSnapshot),
                Ok(_) => Ok(BridgeMessage::InputSnapshot { record_count: bytes[1], records }),
            };
        }
        if kind == MESSAGE_SET_REPORT {
            return Self::decode_set_report(bytes);
        }
        if kind == MESSAGE_GET_REPORT {
            return Self::decode_get_report(bytes);
        }
        if kind == MESSAGE_GET_REPORT_RESPONSE {
            return Self::decode_get_report_response(bytes);
        }
        if kind == MESSAGE_INTERFACE_REMOVED {
            if n != 3 {
                return Err(BridgeMessageError::InvalidLength);
            }
            return Ok(
                BridgeMessage::InterfaceRemoved {
                    device_id: DeviceId(bytes[1]),
                    interface_id: InterfaceId(bytes[2]),
                },
            );
        }
        if kind == MESSAGE_RELEASE_ALL {
            if n != 1 {
                return Err(BridgeMessageError::InvalidLength);
            }
            return Ok(BridgeMessage::ReleaseAll);
        }
        if kind == MESSAGE_ENTER_DOWNLOAD_MODE {
            if n != 1 {
                return Err(BridgeMessageError::InvalidLength);
            }
            return Ok(BridgeMessage::EnterDownloadMode);
        }
        if kind == MESSAGE_E2E_TIMESTAMP {
            if n != 13 {
                return Err(BridgeMessageError::InvalidLength);
            }
            return Ok(
                BridgeMessage::E2eTimestamp {
                    sequence: get32(bytes, 1),
                    ingress_us: get64(bytes, 5),
                },
            );
        }
        if kind == MESSAGE_E2E_BRIDGE_TIMESTAMP {
            if n != 29 {
                return Err(BridgeMessageError::InvalidLength);
            }
            return Ok(
                BridgeMessage::E2eBridgeTimestamp {
                    sequence: get32(bytes, 1),
                    radio_rx_us: get64(bytes, 5),
                    reassembled_us: get64(bytes, 13),
                    hid_write_us: get64(bytes, 21),
                },
            );
        }
        if kind == MESSAGE_DESCRIPTOR_SNAPSHOT_END {
            if n != 6 {
                return Err(BridgeMessageError::InvalidLength);
            }
            return Ok(
                BridgeMessage::DescriptorSnapshotEnd {
                    interface_count: bytes[1],
                    generation: get32(bytes, 2),
                },
            );
        }
        Err(BridgeMessageError::UnknownMessage)
    }

    fn decode_hello(bytes: &'a [u8]) -> (r: Result<Self, BridgeMessageError>)
        ensures
            message_result(r) == parse_hello(bytes@),
    {
        let n: usize = bytes.len();
        if n != 4 && n != 16 && n != 20 {
            return Err(BridgeMessageError::InvalidLength);
        }
        let role = match BridgeRole::decode(bytes[1]) {
            Ok(role) => role,
            Err(error) => {
                return Err(error);
            },
        };
        let capabilities: u16 = get16(bytes, 2);
        if n == 4 {
            Ok(
                BridgeMessage::Hello {
                    role,
                    capabilities,
                    session_id: 0,
                    peer_session_id: 0,
                    next_critical_sequence: 1,
                    next_motion_sequence: 1,
                },
            )
        } else if n == 16 {
            Ok(
                BridgeMessage::Hello {
                    role,
                    capabilities,
                    session_id: get32(bytes, 4),
                    peer_session_id: 0,
                    next_critical_sequence: get32(bytes, 8),
                    next_motion_sequence: get32(bytes, 12),
                },
            )
        } else {
            Ok(
                BridgeMessage::Hello {
                    role,
                    capabilities,
                    session_id: get32(bytes, 4),
                    peer_session_id: get32(bytes, 8),
                    next_critical_sequence: get32(bytes, 12),
                    next_motion_sequence: get32(bytes, 16),
                },
            )
        }
    }

    fn decode_descriptor(bytes: &'a [u8]) -> (r: Result<Self, BridgeMessageError>)
        ensures
            message_result(r) == parse_descriptor(bytes@),
    {
        let n: usize = bytes.len();
        if n < 10 {
            return Err(BridgeMessageError::InvalidLength);
        }
        let len: usize = get16(bytes, 8) as usize;
        if len > MAX_HID_REPORT_DESCRIPTOR_SIZE {
            return Err(BridgeMessageError::DescriptorTooLarge);
        }
        if n != 10 + len {
            return Err(BridgeMessageError::InvalidLength);
        }
        let descriptor = part(bytes, 10, n);
        assert(descriptor@ =~= bytes@.skip(10));
        Ok(
            BridgeMessage::InterfaceDescriptor(
                InterfaceDescriptor {
                    device_id: DeviceId(bytes[1]),
                    interface_id: InterfaceId(bytes[2]),
                    interface_index: bytes[3],
                    vendor_id: get16(bytes, 4),
                    product_id: get16(bytes, 6),
                    descriptor,
                },
            ),
        )
    }

    fn decode_input_report(bytes: &'a [u8]) -> (r: Result<Self, BridgeMessageError>)
        ensures
            message_result(r) == parse_input_report(bytes@),
    {
        let n: usize = bytes.len();
        if n < 14 {
            return Err(BridgeMessageError::InvalidLength);
        }
        let lane = match InputLane::decode(bytes[3]) {
            Ok(lane) => lane,
            Err(error) => {
                return Err(error);
            },
        };
        let mut motion = MotionCumulative::zero();
        let mut report_offset: usize = 14;
        let mut length_offset: usize = 12;
        match lane {
            InputLane::Motion => {
                if n < 30 {
                    return Err(BridgeMessageError::InvalidLength);
                }
                motion = decode_motion(bytes, 12);
                report_offset = 30;
                length_offset = 28;
            },
            InputLane::Critical => {},
        }
        match checked_payload(bytes, report_offset, length_offset) {
            Err(error) => Err(error),
            Ok(report) => Ok(
                BridgeMessage::InputReport {
                    device_id: DeviceId(bytes[1]),
                    interface_id: InterfaceId(bytes[2]),
                    sequence: get32(bytes, 4),
                    lane,
                    e2e_sequence: get32(bytes, 8),
                    motion,
                    report,
                },
            ),
        }
    }

    fn decode_set_report(bytes: &'a [u8]) -> (r: Result<Self, BridgeMessageError>)
        ensures
            message_result(r) == parse_set_report(bytes@),
    {
        if bytes.len() < 7 {
            return Err(BridgeMessageError::InvalidLength);
        }
        let report = match checked_payload(bytes, 7, 5) {
            Ok(report) => report,
            Err(error) => {
                return Err(error);
            },
        };
        match HidReportType::decode(bytes[3]) {
            Err(error) => Err(error),
            Ok(report_type) => Ok(
                BridgeMessage::SetReport {
                    device_id: DeviceId(bytes[1]),
                    interface_id: InterfaceId(bytes[2]),
                    report_type,
                    report_id: bytes[4],
                    report,
                },
            ),
        }
    }

    fn decode_get_report(bytes: &'a [u8]) -> (r: Result<Self, BridgeMessageError>)
        ensures
            message_result(r) == parse_get_report(bytes@),
    {
        if bytes.len() != 9 {
            return Err(BridgeMessageError::InvalidLength);
        }
        match HidReportType::decode(bytes[3]) {
            Err(error) => Err(error),
            Ok(report_type) => Ok(
                BridgeMessage::GetReport {
                    device_id: DeviceId(bytes[1]),
                    interface_id: InterfaceId(bytes[2]),
                    report_type,
                    report_id: bytes[4],
                    requested_len: get16(bytes, 5),
                    request_id: get16(bytes, 7),
                },
            ),
        }
    }

    fn decode_get_report_response(bytes: &'a [u8]) -> (r: Result<Self, BridgeMessageError>)
        ensures
            message_result(r) == parse_get_report_response(bytes@),
    {
        if bytes.len() < 9 {
            return Err(BridgeMessageError::InvalidLength);
        }
        let report = match checked_payload(bytes, 9, 7) {
            Ok(report) => report,
            Err(error) => {
                return Err(error);
            },
        };
        match HidReportType::decode(bytes[3]) {
            Err(error) => Err(error),
            Ok(report_type) => Ok(
                BridgeMessage::GetReportResponse {
                    device_id: DeviceId(bytes[1]),
                    interface_id: InterfaceId(bytes[2]),
                    report_type,
                    report_id: bytes[4],
                    request_id: get16(bytes, 5),
                    report,
                },
            ),
        }
    }
}

proof fn lemma_hello_round_trip(m: MessageView)
    requires
        m is Hello,
    ensures
        parse_hello(message_bytes(m)) == Ok::<MessageView, BridgeMessageError>(m),
        message_bytes(m).len() > 0,
        message_bytes(m)[0] == MESSAGE_HELLO,
{
    reveal(message_bytes);
    if let MessageView::Hello {
        role,
        capabilities,
        session_id,
        peer_session_id,
        next_critical_sequence,
        next_motion_sequence,
    } = m {
        let bytes = message_bytes(m);
        assert(bytes.subrange(2, 4) =~= le16(capabilities));
        assert(bytes.subrange(4, 8) =~= le32(session_id));
        assert(bytes.subrange(8, 12) =~= le32(peer_session_id));
        assert(bytes.subrange(12, 16) =~= le32(next_critical_sequence));
        assert(bytes.subrange(16, 20) =~= le32(next_motion_sequence));
        lemma_u16_in(bytes, 2, capabilities);
        lemma_u32_in(bytes, 4, session_id);
        lemma_u32_in(bytes, 8, peer_session_id);
        lemma_u32_in(bytes, 12, next_critical_sequence);
        lemma_u32_in(bytes, 16, next_motion_sequence);
    }
}

proof fn lemma_input_report_round_trip(m: MessageView)
    requires
        m is InputReport,
        message_error(m) is None,
        m->InputReport_lane == InputLane::Motion || m->InputReport_motion
            == MotionCumulative::still(),
    ensures
        parse_input_report(message_bytes(m)) == Ok::<MessageView, BridgeMessageError>(m),
        message_bytes(m).len() > 0,
        message_bytes(m)[0] == MESSAGE_INPUT_REPORT,
{
    reveal(message_bytes);
    if let MessageView::InputReport { lane, motion, sequence, e2e_sequence, report, .. } = m {
        let bytes = message_bytes(m);
        let n = report.len() as u16;
        assert(bytes.subrange(4, 8) =~= le32(sequence));
        assert(bytes.subrange(8, 12) =~= le32(e2e_sequence));
        lemma_u32_in(bytes, 4, sequence);
        lemma_u32_in(bytes, 8, e2e_sequence);
        assert(bytes.skip(message_head(m).len() as int) =~= report);
        if lane == InputLane::Motion {
            assert(bytes.subrange(12, 28) =~= motion_bytes(motion));
            lemma_motion(bytes, 12, motion);
            assert(bytes.subrange(28, 30) =~= le16(n));
            lemma_u16_in(bytes, 28, n);
        } else {
            assert(bytes.subrange(12, 14) =~= le16(n));
            lemma_u16_in(bytes, 12, n);
        }
    }
}

proof fn lemma_descriptor_round_trip(m: MessageView)
    requires
        m is InterfaceDescriptor,
        message_error(m) is None,
    ensures
        parse_descriptor(message_bytes(m)) == Ok::<MessageView, BridgeMessageError>(m),
        message_bytes(m).len() > 0,
        message_bytes(m)[0] == MESSAGE_INTERFACE_DESCRIPTOR,
{
    reveal(message_bytes);
    if let MessageView::InterfaceDescriptor(d) = m {
        let bytes = message_bytes(m);
        assert(bytes.subrange(4, 6) =~= le16(d.vendor_id));
        assert(bytes.subrange(6, 8) =~= le16(d.product_id));
        assert(bytes.subrange(8, 10) =~= le16(d.descriptor.len() as u16));
        lemma_u16_in(bytes, 4, d.vendor_id);
        lemma_u16_in(bytes, 6, d.product_id);
        lemma_u16_in(bytes, 8, d.descriptor.len() as u16);
        assert(bytes.skip(10) =~= d.descriptor);
    }
}

proof fn lemma_set_report_round_trip(m: MessageView)
    requires
        m is SetReport,
        message_error(m) is None,
    ensures
        parse_set_report(message_bytes(m)) == Ok::<MessageView, BridgeMessageError>(m),
        message_bytes(m).len() > 0,
        message_bytes(m)[0] == MESSAGE_SET_REPORT,
{
    reveal(message_bytes);
    if let MessageView::SetReport { report, .. } = m {
        let bytes = message_bytes(m);
        assert(bytes.subrange(5, 7) =~= le16(report.len() as u16));
        lemma_u16_in(bytes, 5, report.len() as u16);
        assert(bytes.skip(7) =~= report);
    }
}

proof fn lemma_get_report_round_trip(m: MessageView)
    requires
        m is GetReport,
    ensures
        parse_get_report(message_bytes(m)) == Ok::<MessageView, BridgeMessageError>(m),
        message_bytes(m).len() > 0,
        message_bytes(m)[0] == MESSAGE_GET_REPORT,
{
    reveal(message_bytes);
    if let MessageView::GetReport { requested_len, request_id, .. } = m {
        let bytes = message_bytes(m);
        assert(bytes.subrange(5, 7) =~= le16(requested_len));
        assert(bytes.subrange(7, 9) =~= le16(request_id));
        lemma_u16_in(bytes, 5, requested_len);
        lemma_u16_in(bytes, 7, request_id);
    }
}

proof fn lemma_get_report_response_round_trip(m: MessageView)
    requires
        m is GetReportResponse,
        message_error(m) is None,
    ensures
        parse_get_report_response(message_bytes(m)) == Ok::<MessageView, BridgeMessageError>(m),
        message_bytes(m).len() > 0,
        message_bytes(m)[0] == MESSAGE_GET_REPORT_RESPONSE,
{
    reveal(message_bytes);
    if let MessageView::GetReportResponse { request_id, report, .. } = m {
        let bytes = message_bytes(m);
        assert(bytes.subrange(5, 7) =~= le16(request_id));
        assert(bytes.subrange(7, 9) =~= le16(report.len() as u16));
        lemma_u16_in(bytes, 5, request_id);
        lemma_u16_in(bytes, 7, report.len() as u16);
        assert(bytes.skip(9) =~= report);
    }
}

proof fn lemma_timestamps_round_trip(m: MessageView)
    requires
        m is E2eTimestamp || m is E2eBridgeTimestamp || m is DescriptorSnapshotEnd,
    ensures
        parse_message(message_bytes(m)) == Ok::<MessageView, BridgeMessageError>(m),
{
    reveal(message_bytes);
    let bytes = message_bytes(m);
    match m {
        MessageView::E2eTimestamp { sequence, ingress_us } => {
            assert(bytes.subrange(1, 5) =~= le32(sequence));
            assert(bytes.subrange(5, 13) =~= le64(ingress_us));
            lemma_u32_in(bytes, 1, sequence);
            lemma_u64_in(bytes, 5, ingress_us);
        },
        MessageView::E2eBridgeTimestamp { sequence, radio_rx_us, reassembled_us, hid_write_us } => {
            assert(bytes.subrange(1, 5) =~= le32(sequence));
            assert(bytes.subrange(5, 13) =~= le64(radio_rx_us));
            assert(bytes.subrange(13, 21) =~= le64(reassembled_us));
            assert(bytes.subrange(21, 29) =~= le64(hid_write_us));
            lemma_u32_in(bytes, 1, sequence);
            lemma_u64_in(bytes, 5, radio_rx_us);
            lemma_u64_in(bytes, 13, reassembled_us);
            lemma_u64_in(bytes, 21, hid_write_us);
        },
        MessageView::DescriptorSnapshotEnd { generation, .. } => {
            assert(bytes.subrange(2, 6) =~= le32(generation));
            lemma_u32_in(bytes, 2, generation);
        },
        _ => {},
    }
}

proof fn lemma_short_round_trip(m: MessageView)
    requires
        m is InputSnapshot || m is InterfaceRemoved || m is ReleaseAll || m is EnterDownloadMode,
        message_error(m) is None,
    ensures
        parse_message(message_bytes(m)) == Ok::<MessageView, BridgeMessageError>(m),
{
    reveal(message_bytes);
    if let MessageView::InputSnapshot { records, .. } = m {
        assert(message_bytes(m).skip(2) =~= records);
    }
}

/// A message that can be written is read back as it was. A critical report
/// does not carry its motion, which comes back as none.
pub proof fn law_message_round_trip(m: MessageView)
    requires
        message_error(m) is None,
        m matches MessageView::InputReport { lane, motion, .. } ==> lane == InputLane::Motion
            || motion == MotionCumulative::still(),
    ensures
        parse_message(message_bytes(m)) == Ok::<MessageView, BridgeMessageError>(m),
{
    match m {
        MessageView::Hello { .. } => lemma_hello_round_trip(m),
        MessageView::InterfaceDescriptor(_) => lemma_descriptor_round_trip(m),
        MessageView::InputReport { .. } => lemma_input_report_round_trip(m),
        MessageView::SetReport { .. } => lemma_set_report_round_trip(m),
        MessageView::GetReport { .. } => lemma_get_report_round_trip(m),
        MessageView::GetReportResponse { .. } => lemma_get_report_response_round_trip(m),
        MessageView::E2eTimestamp { .. } => lemma_timestamps_round_trip(m),
        MessageView::E2eBridgeTimestamp { .. } => lemma_timestamps_round_trip(m),
        MessageView::DescriptorSnapshotEnd { .. } => lemma_timestamps_round_trip(m),
        _ => lemma_short_round_trip(m),
    }
}

} // verus!
