//! What the records between the two chips say.

use vstd::prelude::*;

use crate::bytes::{
    all_zero, get16, get32, le16, le32, lemma_u16_in, lemma_u32_in, padded, part,
    to_le16, to_le32, u16_at, u32_at, write_at, write_front,
};
use crate::reports::{
    ConsumerReport, Keyboard6KroReport, MouseReport, ReportBytes, StandardHidReport,
    CONSUMER_REPORT_LEN, KEYBOARD_REPORT_LEN, MOUSE_REPORT_LEN,
};

verus! {

pub const RECORD_HELLO: u8 = 0x01;

pub const RECORD_HELLO_ACK: u8 = 0x02;

pub const RECORD_HEARTBEAT: u8 = 0x03;

pub const RECORD_LINK_RESET: u8 = 0x04;

pub const RECORD_PROFILE_BEGIN: u8 = 0x10;

pub const RECORD_PROFILE_CHUNK: u8 = 0x11;

pub const RECORD_PROFILE_COMMIT: u8 = 0x12;

pub const RECORD_PROFILE_RESULT: u8 = 0x13;

pub const RECORD_ACTIVATE_PROFILE: u8 = 0x14;

pub const RECORD_FORCE_FALLBACK: u8 = 0x15;

pub const RECORD_USB_STATE: u8 = 0x20;

pub const RECORD_CONTROL_REQUEST: u8 = 0x21;

pub const RECORD_CONTROL_RESPONSE: u8 = 0x22;

pub const RECORD_CONTROL_CANCEL: u8 = 0x23;

pub const RECORD_RAW_ENDPOINT_IN: u8 = 0x24;

pub const RECORD_RAW_ENDPOINT_OUT: u8 = 0x25;

pub const RECORD_STANDARD_INPUT_REPORT: u8 = 0x26;

pub const RECORD_STANDARD_OUTPUT_REPORT: u8 = 0x27;

pub const RECORD_STANDARD_RELEASE_ALL: u8 = 0x28;

pub const RECORD_GET_DIAGNOSTICS: u8 = 0x30;

pub const RECORD_DIAGNOSTICS: u8 = 0x31;

pub const RECORD_TEST_FAULT: u8 = 0x32;

pub const HELLO_WIRE_LEN: usize = 12;

pub const USB_STATE_WIRE_LEN: usize = 8;

pub const STANDARD_INPUT_HEADER_LEN: usize = 5;

pub const STANDARD_INPUT_MAX_LEN: usize = 13;

pub const STANDARD_OUTPUT_MAX_DATA_LEN: usize = 8;

pub const STANDARD_OUTPUT_WIRE_LEN: usize = 10;

pub const PROFILE_BEGIN_WIRE_LEN: usize = 16;

pub const PROFILE_CHUNK_HEADER_LEN: usize = 8;

pub const PROFILE_CHUNK_MAX_DATA_LEN: usize = 96;

pub const PROFILE_RESULT_WIRE_LEN: usize = 12;

pub const ACTIVATE_PROFILE_WIRE_LEN: usize = 8;

pub const RAW_ENDPOINT_HEADER_LEN: usize = 6;

pub const RAW_ENDPOINT_MAX_DATA_LEN: usize = 64;

pub const RAW_ENDPOINT_MAX_WIRE_LEN: usize = 70;

pub const CONTROL_REQUEST_HEADER_LEN: usize = 14;

pub const CONTROL_RESPONSE_HEADER_LEN: usize = 7;

pub const CONTROL_DATA_MAX_LEN: usize = 256;

pub const CONTROL_REQUEST_MAX_WIRE_LEN: usize = 270;

pub const CONTROL_RESPONSE_MAX_WIRE_LEN: usize = 263;

pub const CAPABILITY_DYNAMIC_PROFILE: u32 = 1;

pub const CAPABILITY_FALLBACK_PROFILE: u32 = 2;

pub const CAPABILITY_CONTROL_FORWARDING: u32 = 4;

pub const CAPABILITY_ENDPOINT_IN: u32 = 8;

pub const CAPABILITY_ENDPOINT_OUT: u32 = 16;

pub const CAPABILITY_PROFILE_FLASH_CACHE: u32 = 32;

pub const CAPABILITY_STANDARD_WIRED_HID: u32 = 64;

pub const CAPABILITY_USB_STATE_REPORTING: u32 = 128;

/// Why a message could not be written or read.
#[derive(Clone, Copy, Debug, PartialEq, Eq, Structural)]
pub enum MessageError {
    InvalidLength,
    InvalidRole,
    InvalidFlags,
    InvalidStatus,
}

/// Which chip is speaking.
#[derive(Clone, Copy, Debug, PartialEq, Eq, Structural)]
pub enum InterchipRole {
    Host,
    Device,
}

impl InterchipRole {
    /// The byte that stands for the role.
    pub open spec fn byte(self) -> u8 {
        match self {
            InterchipRole::Host => 1,
            InterchipRole::Device => 2,
        }
    }

    fn to_byte(self) -> (r: u8)
        ensures
            r == self.byte(),
    {
        match self {
            Self::Host => 1,
            Self::Device => 2,
        }
    }
}

/// The first message of a session.
#[derive(Clone, Copy, Debug, PartialEq, Eq, Structural)]
pub struct Hello {
    pub role: InterchipRole,
    pub protocol_version: u8,
    pub firmware_major: u8,
    pub firmware_minor: u8,
    pub capabilities: u32,
    pub active_profile_hash: u32,
}

impl Hello {
    /// The bytes of a hello.
    pub open spec fn wire(self) -> Seq<u8> {
        seq![self.role.byte(), self.protocol_version, self.firmware_major, self.firmware_minor]
            + le32(self.capabilities) + le32(self.active_profile_hash)
    }

    /// The hello that these bytes are.
    pub open spec fn parse(bytes: Seq<u8>) -> Result<Hello, MessageError> {
        if bytes.len() != HELLO_WIRE_LEN {
            Err(MessageError::InvalidLength)
        } else if bytes[0] != 1 && bytes[0] != 2 {
            Err(MessageError::InvalidRole)
        } else {
            Ok(
                Hello {
                    role: if bytes[0] == 1 {
                        InterchipRole::Host
                    } else {
                        InterchipRole::Device
                    },
                    protocol_version: bytes[1],
                    firmware_major: bytes[2],
                    firmware_minor: bytes[3],
                    capabilities: u32_at(bytes, 4),
                    active_profile_hash: u32_at(bytes, 8),
                },
            )
        }
    }

    /// The message's bytes.
    pub fn encode(self) -> (r: [u8; HELLO_WIRE_LEN])
        ensures
            r@ == self.wire(),
    {
        let c = to_le32(self.capabilities);
        let h = to_le32(self.active_profile_hash);
        let r = [
            self.role.to_byte(), self.protocol_version, self.firmware_major, self.firmware_minor,
            c[0], c[1], c[2], c[3], h[0], h[1], h[2], h[3],
        ];
        assert(r@ =~= self.wire());
        r
    }

    /// The message that `bytes` are.
    pub fn decode(bytes: &[u8]) -> (r: Result<Self, MessageError>)
        ensures
            r == Hello::parse(bytes@),
    {
        if bytes.len() != HELLO_WIRE_LEN {
            return Err(MessageError::InvalidLength);
        }
        let role = match bytes[0] {
            1 => InterchipRole::Host,
            2 => InterchipRole::Device,
            _ => {
                return Err(MessageError::InvalidRole);
            },
        };
        Ok(
            Self {
                role,
                protocol_version: bytes[1],
                firmware_major: bytes[2],
                firmware_minor: bytes[3],
                capabilities: get32(bytes, 4),
                active_profile_hash: get32(bytes, 8),
            },
        )
    }

    /// A hello is read back as it was written.
    pub proof fn law_round_trip(self)
        ensures
            Hello::parse(self.wire()) == Ok::<Hello, MessageError>(self),
    {
        let bytes = self.wire();
        assert(bytes.subrange(4, 8) =~= le32(self.capabilities));
        assert(bytes.subrange(8, 12) =~= le32(self.active_profile_hash));
        lemma_u32_in(bytes, 4, self.capabilities);
        lemma_u32_in(bytes, 8, self.active_profile_hash);
    }
}

/// The start of a profile transfer.
#[derive(Clone, Copy, Debug, PartialEq, Eq, Structural)]
pub struct ProfileBegin {
    pub transfer_id: u32,
    pub total_length: u32,
    pub crc32: u32,
    pub profile_hash: u32,
}

impl ProfileBegin {
    /// The bytes of the message.
    pub open spec fn wire(self) -> Seq<u8> {
        le32(self.transfer_id) + le32(self.total_length) + le32(self.crc32) + le32(
            self.profile_hash,
        )
    }

    /// The message that these bytes are.
    pub open spec fn parse(bytes: Seq<u8>) -> Result<ProfileBegin, MessageError> {
        if bytes.len() != PROFILE_BEGIN_WIRE_LEN {
            Err(MessageError::InvalidLength)
        } else {
            Ok(
                ProfileBegin {
                    transfer_id: u32_at(bytes, 0),
                    total_length: u32_at(bytes, 4),
                    crc32: u32_at(bytes, 8),
                    profile_hash: u32_at(bytes, 12),
                },
            )
        }
    }

    /// The message's bytes.
    pub fn encode(self) -> (r: [u8; PROFILE_BEGIN_WIRE_LEN])
        ensures
            r@ == self.wire(),
    {
        let t = to_le32(self.transfer_id);
        let l = to_le32(self.total_length);
        let c = to_le32(self.crc32);
        let h = to_le32(self.profile_hash);
        let r = [
            t[0], t[1], t[2], t[3], l[0], l[1], l[2], l[3], c[0], c[1], c[2], c[3], h[0], h[1],
            h[2], h[3],
        ];
        assert(r@ =~= self.wire());
        r
    }

    /// The message that `bytes` are.
    pub fn decode(bytes: &[u8]) -> (r: Result<Self, MessageError>)
        ensures
            r == ProfileBegin::parse(bytes@),
    {
        if bytes.len() != PROFILE_BEGIN_WIRE_LEN {
            return Err(MessageError::InvalidLength);
        }
        Ok(
            Self {
                transfer_id: get32(bytes, 0),
                total_length: get32(bytes, 4),
                crc32: get32(bytes, 8),
                profile_hash: get32(bytes, 12),
            },
        )
    }

    /// The message is read back as it was written.
    pub proof fn law_round_trip(self)
        ensures
            ProfileBegin::parse(self.wire()) == Ok::<ProfileBegin, MessageError>(self),
    {
        let bytes = self.wire();
        assert(bytes.subrange(0, 4) =~= le32(self.transfer_id));
        assert(bytes.subrange(4, 8) =~= le32(self.total_length));
        assert(bytes.subrange(8, 12) =~= le32(self.crc32));
        assert(bytes.subrange(12, 16) =~= le32(self.profile_hash));
        lemma_u32_in(bytes, 0, self.transfer_id);
        lemma_u32_in(bytes, 4, self.total_length);
        lemma_u32_in(bytes, 8, self.crc32);
        lemma_u32_in(bytes, 12, self.profile_hash);
    }
}

/// Copies `data` to the front of a buffer of zeros.
fn zero_padded<const N: usize>(data: &[u8]) -> (r: [u8; N])
    requires
        data@.len() <= N,
    ensures
        r@ == padded(data@, N as nat),
        r@.take(data@.len() as int) == data@,
{
    let mut r = [0u8; N];
    write_at(&mut r, 0, data);
    assert(r@ =~= padded(data@, N as nat));
    assert(r@.take(data@.len() as int) =~= data@);
    r
}

/// A report of one endpoint, as it came.
#[derive(Clone, Copy, Debug, PartialEq, Eq)]
pub struct RawEndpointReport {
    pub endpoint_address: u8,
    pub packet_sequence: u16,
    pub(crate) length: u8,
    pub(crate) data: [u8; RAW_ENDPOINT_MAX_DATA_LEN],
}

/// What a raw endpoint report says.
pub struct RawReportView {
    pub endpoint_address: u8,
    pub packet_sequence: u16,
    pub data: Seq<u8>,
}

impl View for RawEndpointReport {
    type V = RawReportView;

    open(crate) spec fn view(&self) -> RawReportView {
        RawReportView {
            endpoint_address: self.endpoint_address,
            packet_sequence: self.packet_sequence,
            data: self.data@.take(self.length as int),
        }
    }
}

impl RawReportView {
    /// The bytes of the message.
    pub open spec fn wire(self) -> Seq<u8> {
        seq![self.endpoint_address, 0u8] + le16(self.packet_sequence) + le16(
            self.data.len() as u16,
        ) + self.data
    }

    /// The message that these bytes are.
    pub open spec fn parse(bytes: Seq<u8>) -> Result<RawReportView, MessageError> {
        if bytes.len() < RAW_ENDPOINT_HEADER_LEN || bytes[1] != 0 || u16_at(bytes, 4)
            != bytes.len() - RAW_ENDPOINT_HEADER_LEN || bytes.len() - RAW_ENDPOINT_HEADER_LEN
            > RAW_ENDPOINT_MAX_DATA_LEN {
            Err(MessageError::InvalidLength)
        } else {
            Ok(
                RawReportView {
                    endpoint_address: bytes[0],
                    packet_sequence: u16_at(bytes, 2),
                    data: bytes.skip(6),
                },
            )
        }
    }

    /// A report that is not too long is read back as it was written.
    pub proof fn law_round_trip(self)
        requires
            self.data.len() <= RAW_ENDPOINT_MAX_DATA_LEN,
        ensures
            RawReportView::parse(self.wire()) == Ok::<RawReportView, MessageError>(self),
    {
        let bytes = self.wire();
        assert(bytes.subrange(2, 4) =~= le16(self.packet_sequence));
        assert(bytes.subrange(4, 6) =~= le16(self.data.len() as u16));
        lemma_u16_in(bytes, 2, self.packet_sequence);
        lemma_u16_in(bytes, 4, self.data.len() as u16);
        assert(bytes.skip(6) =~= self.data);
    }
}

/// What a result says, with the message taken by its view.
pub open spec fn raw_report_result(r: Result<RawEndpointReport, MessageError>) -> Result<
    RawReportView,
    MessageError,
> {
    match r {
        Ok(report) => Ok(report@),
        Err(error) => Err(error),
    }
}

impl RawEndpointReport {
    /// The length is within the buffer, and the bytes behind it are zero.
    pub open(crate) spec fn wf(&self) -> bool {
        &&& self.length <= RAW_ENDPOINT_MAX_DATA_LEN
        &&& self.data@ == padded(self@.data, RAW_ENDPOINT_MAX_DATA_LEN as nat)
    }

    /// A report around `data`, unless that is too long.
    pub fn new(endpoint_address: u8, packet_sequence: u16, data: &[u8]) -> (r: Result<
        Self,
        MessageError,
    >)
        ensures
            data@.len() <= RAW_ENDPOINT_MAX_DATA_LEN ==> r is Ok && r->Ok_0.wf() && r->Ok_0@
                == (RawReportView { endpoint_address, packet_sequence, data: data@ }),
            data@.len() > RAW_ENDPOINT_MAX_DATA_LEN ==> r is Err && r->Err_0
                == MessageError::InvalidLength,
    {
        if data.len() > RAW_ENDPOINT_MAX_DATA_LEN {
            return Err(MessageError::InvalidLength);
        }
        Ok(
            Self {
                endpoint_address,
                packet_sequence,
                length: data.len() as u8,
                data: zero_padded(data),
            },
        )
    }

    /// The report's data.
    pub fn data(&self) -> (r: &[u8])
        requires
            self.wf(),
        ensures
            r@ == self@.data,
            r@.len() <= RAW_ENDPOINT_MAX_DATA_LEN,
    {
        let r = part(&self.data, 0, self.length as usize);
        assert(r@ =~= self@.data);
        r
    }

    /// Writes the message to the front of `out` and says how long it is.
    pub fn encode(self, out: &mut [u8]) -> (r: Result<usize, MessageError>)
        requires
            self.wf(),
        ensures
            self@.wire().len() <= old(out)@.len() ==> r == Ok::<usize, MessageError>(
                self@.wire().len() as usize,
            ) && final(out)@ == self@.wire() + old(out)@.skip(self@.wire().len() as int),
            self@.wire().len() > old(out)@.len() ==> r == Err::<usize, MessageError>(
                MessageError::InvalidLength,
            ) && final(out)@ == old(out)@,
    {
        let data = self.data();
        let length: usize = RAW_ENDPOINT_HEADER_LEN + data.len();
        if out.len() < length {
            return Err(MessageError::InvalidLength);
        }
        let s = to_le16(self.packet_sequence);
        let l = to_le16(data.len() as u16);
        let head: [u8; 6] = [self.endpoint_address, 0, s[0], s[1], l[0], l[1]];
        write_front(out, &head, data);
        assert(head@ + data@ =~= self@.wire());
        Ok(length)
    }

    /// The message that `bytes` are.
    pub fn decode(bytes: &[u8]) -> (r: Result<Self, MessageError>)
        ensures
            raw_report_result(r) == RawReportView::parse(bytes@),
            r is Ok ==> r->Ok_0.wf(),
    {
        let n: usize = bytes.len();
        if n < RAW_ENDPOINT_HEADER_LEN || bytes[1] != 0 || get16(bytes, 4) as usize != n
            - RAW_ENDPOINT_HEADER_LEN {
            return Err(MessageError::InvalidLength);
        }
        let data = part(bytes, RAW_ENDPOINT_HEADER_LEN, n);
        assert(data@ =~= bytes@.skip(6));
        Self::new(bytes[0], get16(bytes, 2), data)
    }
}

/// A control request that goes through to the mirrored device.
#[derive(Clone, Copy, Debug, PartialEq, Eq)]
pub struct MirrorControlRequest {
    pub request_id: u32,
    pub setup_packet: [u8; 8],
    pub(crate) length: u16,
    pub(crate) data: [u8; CONTROL_DATA_MAX_LEN],
}

/// What a control request says.
pub struct ControlRequestView {
    pub request_id: u32,
    pub setup_packet: Seq<u8>,
    pub data: Seq<u8>,
}

impl View for MirrorControlRequest {
    type V = ControlRequestView;

    open(crate) spec fn view(&self) -> ControlRequestView {
        ControlRequestView {
            request_id: self.request_id,
            setup_packet: self.setup_packet@,
            data: self.data@.take(self.length as int),
        }
    }
}

impl ControlRequestView {
    /// The bytes of the message.
    pub open spec fn wire(self) -> Seq<u8> {
        le32(self.request_id) + self.setup_packet + le16(self.data.len() as u16) + self.data
    }

    /// The message that these bytes are.
    pub open spec fn parse(bytes: Seq<u8>) -> Result<ControlRequestView, MessageError> {
        if bytes.len() < CONTROL_REQUEST_HEADER_LEN || u16_at(bytes, 12) != bytes.len()
            - CONTROL_REQUEST_HEADER_LEN || bytes.len() - CONTROL_REQUEST_HEADER_LEN
            > CONTROL_DATA_MAX_LEN {
            Err(MessageError::InvalidLength)
        } else {
            Ok(
                ControlRequestView {
                    request_id: u32_at(bytes, 0),
                    setup_packet: bytes.subrange(4, 12),
                    data: bytes.skip(14),
                },
            )
        }
    }

    /// A request that is not too long is read back as it was written.
    pub proof fn law_round_trip(self)
        requires
            self.setup_packet.len() == 8,
            self.data.len() <= CONTROL_DATA_MAX_LEN,
        ensures
            ControlRequestView::parse(self.wire()) == Ok::<ControlRequestView, MessageError>(self),
    {
        let bytes = self.wire();
        assert(bytes.subrange(0, 4) =~= le32(self.request_id));
        assert(bytes.subrange(4, 12) =~= self.setup_packet);
        assert(bytes.subrange(12, 14) =~= le16(self.data.len() as u16));
        lemma_u32_in(bytes, 0, self.request_id);
        lemma_u16_in(bytes, 12, self.data.len() as u16);
        assert(bytes.skip(14) =~= self.data);
    }
}

/// What a result says, with the message taken by its view.
pub open spec fn control_request_result(r: Result<MirrorControlRequest, MessageError>) -> Result<
    ControlRequestView,
    MessageError,
> {
    match r {
        Ok(request) => Ok(request@),
        Err(error) => Err(error),
    }
}

impl MirrorControlRequest {
    /// The length is within the buffer, and the bytes behind it are zero.
    pub open(crate) spec fn wf(&self) -> bool {
        &&& self.length <= CONTROL_DATA_MAX_LEN
        &&& self.data@ == padded(self@.data, CONTROL_DATA_MAX_LEN as nat)
    }

    /// A request around `data`, unless that is too long.
    pub fn new(request_id: u32, setup_packet: [u8; 8], data: &[u8]) -> (r: Result<
        Self,
        MessageError,
    >)
        ensures
            data@.len() <= CONTROL_DATA_MAX_LEN ==> r is Ok && r->Ok_0.wf() && r->Ok_0@
                == (ControlRequestView {
                request_id,
                setup_packet: setup_packet@,
                data: data@,
            }),
            data@.len() > CONTROL_DATA_MAX_LEN ==> r is Err && r->Err_0
                == MessageError::InvalidLength,
    {
        if data.len() > CONTROL_DATA_MAX_LEN {
            return Err(MessageError::InvalidLength);
        }
        Ok(Self { request_id, setup_packet, length: data.len() as u16, data: zero_padded(data) })
    }

    /// The request's data.
    pub fn data(&self) -> (r: &[u8])
        requires
            self.wf(),
        ensures
            r@ == self@.data,
            r@.len() <= CONTROL_DATA_MAX_LEN,
    {
        let r = part(&self.data, 0, self.length as usize);
        assert(r@ =~= self@.data);
        r
    }

    /// Writes the message to the front of `out` and says how long it is.
    pub fn encode(self, out: &mut [u8]) -> (r: Result<usize, MessageError>)
        requires
            self.wf(),
        ensures
            self@.wire().len() <= old(out)@.len() ==> r == Ok::<usize, MessageError>(
                self@.wire().len() as usize,
            ) && final(out)@ == self@.wire() + old(out)@.skip(self@.wire().len() as int),
            self@.wire().len() > old(out)@.len() ==> r == Err::<usize, MessageError>(
                MessageError::InvalidLength,
            ) && final(out)@ == old(out)@,
    {
        let data = self.data();
        let length: usize = CONTROL_REQUEST_HEADER_LEN + data.len();
        if out.len() < length {
            return Err(MessageError::InvalidLength);
        }
        let i = to_le32(self.request_id);
        let p = self.setup_packet;
        let l = to_le16(data.len() as u16);
        let head: [u8; 14] = [
            i[0], i[1], i[2], i[3], p[0], p[1], p[2], p[3], p[4], p[5], p[6], p[7], l[0], l[1],
        ];
        write_front(out, &head, data);
        assert(head@ + data@ =~= self@.wire());
        Ok(length)
    }

    /// The message that `bytes` are.
    pub fn decode(bytes: &[u8]) -> (r: Result<Self, MessageError>)
        ensures
            control_request_result(r) == ControlRequestView::parse(bytes@),
            r is Ok ==> r->Ok_0.wf(),
    {
        let n: usize = bytes.len();
        if n < CONTROL_REQUEST_HEADER_LEN || get16(bytes, 12) as usize != n
            - CONTROL_REQUEST_HEADER_LEN {
            return Err(MessageError::InvalidLength);
        }
        let setup_packet: [u8; 8] = [
            bytes[4], bytes[5], bytes[6], bytes[7], bytes[8], bytes[9], bytes[10], bytes[11],
        ];
        assert(setup_packet@ =~= bytes@.subrange(4, 12));
        let data = part(bytes, CONTROL_REQUEST_HEADER_LEN, n);
        assert(data@ =~= bytes@.skip(14));
        Self::new(get32(bytes, 0), setup_packet, data)
    }
}

/// How a control request ended.
#[derive(Clone, Copy, Debug, PartialEq, Eq, Structural)]
pub enum ControlStatus {
    Success,
    Stall,
    Timeout,
    Disconnected,
    Unsupported,
}

impl ControlStatus {
    /// The byte that stands for the status.
    pub open spec fn byte(self) -> u8 {
        match self {
            ControlStatus::Success => 0,
            ControlStatus::Stall => 1,
            ControlStatus::Timeout => 2,
            ControlStatus::Disconnected => 3,
            ControlStatus::Unsupported => 4,
        }
    }

    /// The status that a byte stands for.
    pub open spec fn of_byte(value: u8) -> Option<ControlStatus> {
        if value == 0 {
            Some(ControlStatus::Success)
        } else if value == 1 {
            Some(ControlStatus::Stall)
        } else if value == 2 {
            Some(ControlStatus::Timeout)
        } else if value == 3 {
            Some(ControlStatus::Disconnected)
        } else if value == 4 {
            Some(ControlStatus::Unsupported)
        } else {
            None
        }
    }

    pub(crate) fn to_byte(self) -> (r: u8)
        ensures
            r == self.byte(),
    {
        match self {
            Self::Success => 0,
            Self::Stall => 1,
            Self::Timeout => 2,
            Self::Disconnected => 3,
            Self::Unsupported => 4,
        }
    }

    pub(crate) fn from_byte(value: u8) -> (r: Option<Self>)
        ensures
            r == ControlStatus::of_byte(value),
    {
        match value {
            0 => Some(Self::Success),
            1 => Some(Self::Stall),
            2 => Some(Self::Timeout),
            3 => Some(Self::Disconnected),
            4 => Some(Self::Unsupported),
            _ => None,
        }
    }
}

/// The answer to a control request.
#[derive(Clone, Copy, Debug, PartialEq, Eq)]
pub struct MirrorControlResponse {
    pub request_id: u32,
    pub status: ControlStatus,
    pub(crate) length: u16,
    pub(crate) data: [u8; CONTROL_DATA_MAX_LEN],
}

/// What the answer to a control request says.
pub struct ControlResponseView {
    pub request_id: u32,
    pub status: ControlStatus,
    pub data: Seq<u8>,
}

impl View for MirrorControlResponse {
    type V = ControlResponseView;

    open(crate) spec fn view(&self) -> ControlResponseView {
        ControlResponseView {
            request_id: self.request_id,
            status: self.status,
            data: self.data@.take(self.length as int),
        }
    }
}

impl ControlResponseView {
    /// The bytes of the message.
    pub open spec fn wire(self) -> Seq<u8> {
        le32(self.request_id) + seq![self.status.byte()] + le16(self.data.len() as u16) + self.data
    }

    /// The message that these bytes are.
    pub open spec fn parse(bytes: Seq<u8>) -> Result<ControlResponseView, MessageError> {
        if bytes.len() < CONTROL_RESPONSE_HEADER_LEN || u16_at(bytes, 5) != bytes.len()
            - CONTROL_RESPONSE_HEADER_LEN {
            Err(MessageError::InvalidLength)
        } else if ControlStatus::of_byte(bytes[4]) is None {
            Err(MessageError::InvalidStatus)
        } else if bytes.len() - CONTROL_RESPONSE_HEADER_LEN > CONTROL_DATA_MAX_LEN {
            Err(MessageError::InvalidLength)
        } else {
            Ok(
                ControlResponseView {
                    request_id: u32_at(bytes, 0),
                    status: ControlStatus::of_byte(bytes[4])->0,
                    data: bytes.skip(7),
                },
            )
        }
    }

    /// An answer that is not too long is read back as it was written.
    pub proof fn law_round_trip(self)
        requires
            self.data.len() <= CONTROL_DATA_MAX_LEN,
        ensures
            ControlResponseView::parse(self.wire()) == Ok::<ControlResponseView, MessageError>(
                self,
            ),
    {
        let bytes = self.wire();
        assert(bytes.subrange(0, 4) =~= le32(self.request_id));
        assert(bytes.subrange(5, 7) =~= le16(self.data.len() as u16));
        lemma_u32_in(bytes, 0, self.request_id);
        lemma_u16_in(bytes, 5, self.data.len() as u16);
        assert(bytes.skip(7) =~= self.data);
    }
}

/// What a result says, with the message taken by its view.
pub open spec fn control_response_result(r: Result<MirrorControlResponse, MessageError>) -> Result<
    ControlResponseView,
    MessageError,
> {
    match r {
        Ok(response) => Ok(response@),
        Err(error) => Err(error),
    }
}

impl MirrorControlResponse {
    /// The length is within the buffer, and the bytes behind it are zero.
    pub open(crate) spec fn wf(&self) -> bool {
        &&& self.length <= CONTROL_DATA_MAX_LEN
        &&& self.data@ == padded(self@.data, CONTROL_DATA_MAX_LEN as nat)
    }

    /// An answer around `data`, unless that is too long.
    pub fn new(request_id: u32, status: ControlStatus, data: &[u8]) -> (r: Result<
        Self,
        MessageError,
    >)
        ensures
            data@.len() <= CONTROL_DATA_MAX_LEN ==> r is Ok && r->Ok_0.wf() && r->Ok_0@
                == (ControlResponseView { request_id, status, data: data@ }),
            data@.len() > CONTROL_DATA_MAX_LEN ==> r is Err && r->Err_0
                == MessageError::InvalidLength,
    {
        if data.len() > CONTROL_DATA_MAX_LEN {
            return Err(MessageError::InvalidLength);
        }
        Ok(Self { request_id, status, length: data.len() as u16, data: zero_padded(data) })
    }

    /// The answer's data.
    pub fn data(&self) -> (r: &[u8])
        requires
            self.wf(),
        ensures
            r@ == self@.data,
            r@.len() <= CONTROL_DATA_MAX_LEN,
    {
        let r = part(&self.data, 0, self.length as usize);
        assert(r@ =~= self@.data);
        r
    }

    /// Writes the message to the front of `out` and says how long it is.
    pub fn encode(self, out: &mut [u8]) -> (r: Result<usize, MessageError>)
        requires
            self.wf(),
        ensures
            self@.wire().len() <= old(out)@.len() ==> r == Ok::<usize, MessageError>(
                self@.wire().len() as usize,
            ) && final(out)@ == self@.wire() + old(out)@.skip(self@.wire().len() as int),
            self@.wire().len() > old(out)@.len() ==> r == Err::<usize, MessageError>(
                MessageError::InvalidLength,
            ) && final(out)@ == old(out)@,
    {
        let data = self.data();
        let length: usize = CONTROL_RESPONSE_HEADER_LEN + data.len();
        if out.len() < length {
            return Err(MessageError::InvalidLength);
        }
        let i = to_le32(self.request_id);
        let l = to_le16(data.len() as u16);
        let head: [u8; 7] = [i[0], i[1], i[2], i[3], self.status.to_byte(), l[0], l[1]];
        write_front(out, &head, data);
        assert(head@ + data@ =~= self@.wire());
        Ok(length)
    }

    /// The message that `bytes` are.
    pub fn decode(bytes: &[u8]) -> (r: Result<Self, MessageError>)
        ensures
            control_response_result(r) == ControlResponseView::parse(bytes@),
            r is Ok ==> r->Ok_0.wf(),
    {
        let n: usize = bytes.len();
        if n < CONTROL_RESPONSE_HEADER_LEN || get16(bytes, 5) as usize != n
            - CONTROL_RESPONSE_HEADER_LEN {
            return Err(MessageError::InvalidLength);
        }
        let status = match ControlStatus::from_byte(bytes[4]) {
            Some(status) => status,
            None => {
                return Err(MessageError::InvalidStatus);
            },
        };
        let data = part(bytes, CONTROL_RESPONSE_HEADER_LEN, n);
        assert(data@ =~= bytes@.skip(7));
        Self::new(get32(bytes, 0), status, data)
    }
}

/// A piece of a profile, where it stands in a buffer.
#[derive(Clone, Copy, Debug, PartialEq, Eq)]
pub struct ProfileChunk<'a> {
    pub transfer_id: u32,
    pub offset: u32,
    pub data: &'a [u8],
}

/// What a piece of a profile says.
pub struct ChunkView {
    pub transfer_id: u32,
    pub offset: u32,
    pub data: Seq<u8>,
}

impl<'a> View for ProfileChunk<'a> {
    type V = ChunkView;

    open spec fn view(&self) -> ChunkView {
        ChunkView { transfer_id: self.transfer_id, offset: self.offset, data: self.data@ }
    }
}

impl ChunkView {
    /// The bytes of the message.
    pub open spec fn wire(self) -> Seq<u8> {
        le32(self.transfer_id) + le32(self.offset) + self.data
    }

    /// The message that these bytes are.
    pub open spec fn parse(bytes: Seq<u8>) -> Result<ChunkView, MessageError> {
        if bytes.len() < PROFILE_CHUNK_HEADER_LEN || bytes.len() > PROFILE_CHUNK_HEADER_LEN
            + PROFILE_CHUNK_MAX_DATA_LEN {
            Err(MessageError::InvalidLength)
        } else {
            Ok(
                ChunkView {
                    transfer_id: u32_at(bytes, 0),
                    offset: u32_at(bytes, 4),
                    data: bytes.skip(8),
                },
            )
        }
    }

    /// A piece that is not too long is read back as it was written.
    pub proof fn law_round_trip(self)
        requires
            self.data.len() <= PROFILE_CHUNK_MAX_DATA_LEN,
        ensures
            ChunkView::parse(self.wire()) == Ok::<ChunkView, MessageError>(self),
    {
        let bytes = self.wire();
        assert(bytes.subrange(0, 4) =~= le32(self.transfer_id));
        assert(bytes.subrange(4, 8) =~= le32(self.offset));
        lemma_u32_in(bytes, 0, self.transfer_id);
        lemma_u32_in(bytes, 4, self.offset);
        assert(bytes.skip(8) =~= self.data);
    }
}

/// What a result says, with the message taken by its view.
pub open spec fn chunk_result<'a>(r: Result<ProfileChunk<'a>, MessageError>) -> Result<
    ChunkView,
    MessageError,
> {
    match r {
        Ok(chunk) => Ok(chunk@),
        Err(error) => Err(error),
    }
}

impl<'a> ProfileChunk<'a> {
    /// The message that `bytes` are.
    pub fn decode(bytes: &'a [u8]) -> (r: Result<Self, MessageError>)
        ensures
            chunk_result(r) == ChunkView::parse(bytes@),
    {
        let n: usize = bytes.len();
        if n < PROFILE_CHUNK_HEADER_LEN || n > PROFILE_CHUNK_HEADER_LEN
            + PROFILE_CHUNK_MAX_DATA_LEN {
            return Err(MessageError::InvalidLength);
        }
        let data = part(bytes, PROFILE_CHUNK_HEADER_LEN, n);
        assert(data@ =~= bytes@.skip(8));
        Ok(Self { transfer_id: get32(bytes, 0), offset: get32(bytes, 4), data })
    }

    /// Writes the message to the front of `out` and says how long it is.
    pub fn encode(self, out: &mut [u8]) -> (r: Result<usize, MessageError>)
        ensures
            self@.data.len() <= PROFILE_CHUNK_MAX_DATA_LEN && self@.wire().len()
                <= old(out)@.len() ==> r == Ok::<usize, MessageError>(
                self@.wire().len() as usize,
            ) && final(out)@ == self@.wire() + old(out)@.skip(self@.wire().len() as int),
            self@.data.len() > PROFILE_CHUNK_MAX_DATA_LEN || self@.wire().len() > old(out)@.len()
                ==> r == Err::<usize, MessageError>(MessageError::InvalidLength) && final(out)@
                == old(out)@,
    {
        if self.data.len() > PROFILE_CHUNK_MAX_DATA_LEN || out.len() < PROFILE_CHUNK_HEADER_LEN
            + self.data.len() {
            return Err(MessageError::InvalidLength);
        }
        let t = to_le32(self.transfer_id);
        let o = to_le32(self.offset);
        let head: [u8; 8] = [t[0], t[1], t[2], t[3], o[0], o[1], o[2], o[3]];
        write_front(out, &head, self.data);
        assert(head@ + self.data@ =~= self@.wire());
        Ok(PROFILE_CHUNK_HEADER_LEN + self.data.len())
    }
}

/// A piece of a profile that owns its bytes.
#[derive(Clone, Copy, Debug, PartialEq, Eq)]
pub struct ProfileChunkData {
    pub(crate) transfer_id: u32,
    pub(crate) offset: u32,
    pub(crate) length: u8,
    pub(crate) data: [u8; PROFILE_CHUNK_MAX_DATA_LEN],
}

impl View for ProfileChunkData {
    type V = ChunkView;

    open(crate) spec fn view(&self) -> ChunkView {
        ChunkView {
            transfer_id: self.transfer_id,
            offset: self.offset,
            data: self.data@.take(self.length as int),
        }
    }
}

impl ProfileChunkData {
    /// The length is within the buffer, and the bytes behind it are zero.
    pub open(crate) spec fn wf(&self) -> bool {
        &&& self.length <= PROFILE_CHUNK_MAX_DATA_LEN
        &&& self.data@ == padded(self@.data, PROFILE_CHUNK_MAX_DATA_LEN as nat)
    }

    /// The piece with its bytes copied, unless they are too many.
    pub fn from_borrowed(chunk: ProfileChunk<'_>) -> (r: Result<Self, MessageError>)
        ensures
            chunk@.data.len() <= PROFILE_CHUNK_MAX_DATA_LEN ==> r is Ok && r->Ok_0.wf()
                && r->Ok_0@ == chunk@,
            chunk@.data.len() > PROFILE_CHUNK_MAX_DATA_LEN ==> r is Err && r->Err_0
                == MessageError::InvalidLength,
    {
        if chunk.data.len() > PROFILE_CHUNK_MAX_DATA_LEN {
            return Err(MessageError::InvalidLength);
        }
        Ok(
            Self {
                transfer_id: chunk.transfer_id,
                offset: chunk.offset,
                length: chunk.data.len() as u8,
                data: zero_padded(chunk.data),
            },
        )
    }

    /// The transfer that the piece belongs to.
    pub fn transfer_id(&self) -> (r: u32)
        ensures
            r == self@.transfer_id,
    {
        self.transfer_id
    }

    /// The piece without its own bytes.
    pub fn as_borrowed(&self) -> (r: ProfileChunk<'_>)
        requires
            self.wf(),
        ensures
            r@ == self@,
    {
        let data = part(&self.data, 0, self.length as usize);
        assert(data@ =~= self@.data);
        ProfileChunk { transfer_id: self.transfer_id, offset: self.offset, data }
    }
}

/// How a profile transfer ended.
#[derive(Clone, Copy, Debug, PartialEq, Eq, Structural)]
pub enum ProfileResultStatus {
    Accepted,
    AlreadyStored,
    InvalidImage,
    Unsupported,
    ResourceExhausted,
    StorageError,
    Busy,
}

impl ProfileResultStatus {
    /// The byte that stands for the status.
    pub open spec fn byte(self) -> u8 {
        match self {
            ProfileResultStatus::Accepted => 0,
            ProfileResultStatus::AlreadyStored => 1,
            ProfileResultStatus::InvalidImage => 2,
            ProfileResultStatus::Unsupported => 3,
            ProfileResultStatus::ResourceExhausted => 4,
            ProfileResultStatus::StorageError => 5,
            ProfileResultStatus::Busy => 6,
        }
    }

    /// The status that a byte stands for.
    pub open spec fn of_byte(value: u8) -> Option<ProfileResultStatus> {
        if value == 0 {
            Some(ProfileResultStatus::Accepted)
        } else if value == 1 {
            Some(ProfileResultStatus::AlreadyStored)
        } else if value == 2 {
            Some(ProfileResultStatus::InvalidImage)
        } else if value == 3 {
            Some(ProfileResultStatus::Unsupported)
        } else if value == 4 {
            Some(ProfileResultStatus::ResourceExhausted)
        } else if value == 5 {
            Some(ProfileResultStatus::StorageError)
        } else if value == 6 {
            Some(ProfileResultStatus::Busy)
        } else {
            None
        }
    }

    fn to_byte(self) -> (r: u8)
        ensures
            r == self.byte(),
    {
        match self {
            Self::Accepted => 0,
            Self::AlreadyStored => 1,
            Self::InvalidImage => 2,
            Self::Unsupported => 3,
            Self::ResourceExhausted => 4,
            Self::StorageError => 5,
            Self::Busy => 6,
        }
    }

    fn from_byte(value: u8) -> (r: Option<Self>)
        ensures
            r == ProfileResultStatus::of_byte(value),
    {
        match value {
            0 => Some(Self::Accepted),
            1 => Some(Self::AlreadyStored),
            2 => Some(Self::InvalidImage),
            3 => Some(Self::Unsupported),
            4 => Some(Self::ResourceExhausted),
            5 => Some(Self::StorageError),
            6 => Some(Self::Busy),
            _ => None,
        }
    }
}

/// The answer to a profile transfer.
#[derive(Clone, Copy, Debug, PartialEq, Eq, Structural)]
pub struct ProfileResult {
    pub transfer_id: u32,
    pub profile_hash: u32,
    pub status: ProfileResultStatus,
    pub reject_reason: u8,
    pub detail: u16,
}

impl ProfileResult {
    /// The bytes of the message.
    pub open spec fn wire(self) -> Seq<u8> {
        le32(self.transfer_id) + le32(self.profile_hash) + seq![
            self.status.byte(),
            self.reject_reason,
        ] + le16(self.detail)
    }

    /// The message that these bytes are.
    pub open spec fn parse(bytes: Seq<u8>) -> Result<ProfileResult, MessageError> {
        if bytes.len() != PROFILE_RESULT_WIRE_LEN {
            Err(MessageError::InvalidLength)
        } else if ProfileResultStatus::of_byte(bytes[8]) is None {
            Err(MessageError::InvalidStatus)
        } else {
            Ok(
                ProfileResult {
                    transfer_id: u32_at(bytes, 0),
                    profile_hash: u32_at(bytes, 4),
                    status: ProfileResultStatus::of_byte(bytes[8])->0,
                    reject_reason: bytes[9],
                    detail: u16_at(bytes, 10),
                },
            )
        }
    }

    /// The message's bytes.
    pub fn encode(self) -> (r: [u8; PROFILE_RESULT_WIRE_LEN])
        ensures
            r@ == self.wire(),
    {
        let t = to_le32(self.transfer_id);
        let h = to_le32(self.profile_hash);
        let d = to_le16(self.detail);
        let r = [
            t[0], t[1], t[2], t[3], h[0], h[1], h[2], h[3], self.status.to_byte(),
            self.reject_reason, d[0], d[1],
        ];
        assert(r@ =~= self.wire());
        r
    }

    /// The message that `bytes` are.
    pub fn decode(bytes: &[u8]) -> (r: Result<Self, MessageError>)
        ensures
            r == ProfileResult::parse(bytes@),
    {
        if bytes.len() != PROFILE_RESULT_WIRE_LEN {
            return Err(MessageError::InvalidLength);
        }
        let status = match ProfileResultStatus::from_byte(bytes[8]) {
            Some(status) => status,
            None => {
                return Err(MessageError::InvalidStatus);
            },
        };
        Ok(
            Self {
                transfer_id: get32(bytes, 0),
                profile_hash: get32(bytes, 4),
                status,
                reject_reason: bytes[9],
                detail: get16(bytes, 10),
            },
        )
    }

    /// The message is read back as it was written.
    pub proof fn law_round_trip(self)
        ensures
            ProfileResult::parse(self.wire()) == Ok::<ProfileResult, MessageError>(self),
    {
        let bytes = self.wire();
        assert(bytes.subrange(0, 4) =~= le32(self.transfer_id));
        assert(bytes.subrange(4, 8) =~= le32(self.profile_hash));
        assert(bytes.subrange(10, 12) =~= le16(self.detail));
        lemma_u32_in(bytes, 0, self.transfer_id);
        lemma_u32_in(bytes, 4, self.profile_hash);
        lemma_u16_in(bytes, 10, self.detail);
    }
}

/// The order to use a profile.
#[derive(Clone, Copy, Debug, PartialEq, Eq, Structural)]
pub struct ActivateProfile {
    pub operation_id: u32,
    pub profile_hash: u32,
}

impl ActivateProfile {
    /// The bytes of the message.
    pub open spec fn wire(self) -> Seq<u8> {
        le32(self.operation_id) + le32(self.profile_hash)
    }

    /// The message that these bytes are.
    pub open spec fn parse(bytes: Seq<u8>) -> Result<ActivateProfile, MessageError> {
        if bytes.len() != ACTIVATE_PROFILE_WIRE_LEN {
            Err(MessageError::InvalidLength)
        } else {
            Ok(
                ActivateProfile {
                    operation_id: u32_at(bytes, 0),
                    profile_hash: u32_at(bytes, 4),
                },
            )
        }
    }

    /// The message's bytes.
    pub fn encode(self) -> (r: [u8; ACTIVATE_PROFILE_WIRE_LEN])
        ensures
            r@ == self.wire(),
    {
        let o = to_le32(self.operation_id);
        let h = to_le32(self.profile_hash);
        let r = [o[0], o[1], o[2], o[3], h[0], h[1], h[2], h[3]];
        assert(r@ =~= self.wire());
        r
    }

    /// The message that `bytes` are.
    pub fn decode(bytes: &[u8]) -> (r: Result<Self, MessageError>)
        ensures
            r == ActivateProfile::parse(bytes@),
    {
        if bytes.len() != ACTIVATE_PROFILE_WIRE_LEN {
            return Err(MessageError::InvalidLength);
        }
        Ok(Self { operation_id: get32(bytes, 0), profile_hash: get32(bytes, 4) })
    }

    /// The message is read back as it was written.
    pub proof fn law_round_trip(self)
        ensures
            ActivateProfile::parse(self.wire()) == Ok::<ActivateProfile, MessageError>(self),
    {
        let bytes = self.wire();
        assert(bytes.subrange(0, 4) =~= le32(self.operation_id));
        assert(bytes.subrange(4, 8) =~= le32(self.profile_hash));
        lemma_u32_in(bytes, 0, self.operation_id);
        lemma_u32_in(bytes, 4, self.profile_hash);
    }
}

/// The state of the USB side.
#[derive(Clone, Copy, Debug, PartialEq, Eq, Structural)]
pub struct UsbState {
    pub attached: bool,
    pub configured: bool,
    pub fallback_active: bool,
    pub healthy: bool,
    pub active_profile_hash: u32,
    pub error_code: u16,
}

/// One bit of a flag byte.
pub open spec fn flag(on: bool, bit: u8) -> int {
    if on {
        bit as int
    } else {
        0
    }
}

/// Whether the byte's bit of weight `bit` is on.
pub open spec fn has_flag(byte: u8, bit: u8) -> bool {
    (byte / bit) % 2 == 1
}

impl UsbState {
    /// The flag byte.
    pub open spec fn flags(self) -> u8 {
        (flag(self.attached, 1) + flag(self.configured, 2) + flag(self.fallback_active, 4) + flag(
            self.healthy,
            8,
        )) as u8
    }

    /// The bytes of the message.
    pub open spec fn wire(self) -> Seq<u8> {
        seq![self.flags(), 0u8] + le32(self.active_profile_hash) + le16(self.error_code)
    }

    /// The message that these bytes are.
    pub open spec fn parse(bytes: Seq<u8>) -> Result<UsbState, MessageError> {
        if bytes.len() != USB_STATE_WIRE_LEN {
            Err(MessageError::InvalidLength)
        } else if bytes[1] != 0 || bytes[0] >= 16 {
            Err(MessageError::InvalidFlags)
        } else {
            Ok(
                UsbState {
                    attached: has_flag(bytes[0], 1),
                    configured: has_flag(bytes[0], 2),
                    fallback_active: has_flag(bytes[0], 4),
                    healthy: has_flag(bytes[0], 8),
                    active_profile_hash: u32_at(bytes, 2),
                    error_code: u16_at(bytes, 6),
                },
            )
        }
    }

    /// The message's bytes.
    pub fn encode(self) -> (r: [u8; USB_STATE_WIRE_LEN])
        ensures
            r@ == self.wire(),
    {
        let mut flags: u8 = 0;
        if self.attached {
            flags += 1;
        }
        if self.configured {
            flags += 2;
        }
        if self.fallback_active {
            flags += 4;
        }
        if self.healthy {
            flags += 8;
        }
        let h = to_le32(self.active_profile_hash);
        let e = to_le16(self.error_code);
        let r = [flags, 0, h[0], h[1], h[2], h[3], e[0], e[1]];
        assert(r@ =~= self.wire());
        r
    }

    /// The message that `bytes` are.
    pub fn decode(bytes: &[u8]) -> (r: Result<Self, MessageError>)
        ensures
            r == UsbState::parse(bytes@),
    {
        if bytes.len() != USB_STATE_WIRE_LEN {
            return Err(MessageError::InvalidLength);
        }
        let flags: u8 = bytes[0];
        if bytes[1] != 0 || flags >= 16 {
            return Err(MessageError::InvalidFlags);
        }
        Ok(
            Self {
                attached: flags % 2 == 1,
                configured: (flags / 2) % 2 == 1,
                fallback_active: (flags / 4) % 2 == 1,
                healthy: (flags / 8) % 2 == 1,
                active_profile_hash: get32(bytes, 2),
                error_code: get16(bytes, 6),
            },
        )
    }

    /// The message is read back as it was written.
    pub proof fn law_round_trip(self)
        ensures
            UsbState::parse(self.wire()) == Ok::<UsbState, MessageError>(self),
    {
        let bytes = self.wire();
        assert(bytes.subrange(2, 6) =~= le32(self.active_profile_hash));
        assert(bytes.subrange(6, 8) =~= le16(self.error_code));
        lemma_u32_in(bytes, 2, self.active_profile_hash);
        lemma_u16_in(bytes, 6, self.error_code);
    }
}

/// Why a report could not be read.
#[derive(Clone, Copy, Debug, PartialEq, Eq, Structural)]
pub enum StandardInputReportError {
    InvalidLength,
    InvalidKind,
    InvalidReportLength,
}

/// Why a report could not be written or read.
#[derive(Clone, Copy, Debug, PartialEq, Eq, Structural)]
pub enum StandardOutputReportError {
    DataTooLong,
    InvalidLength,
}

/// A report for the standard interfaces of the device.
#[derive(Clone, Copy, Debug, PartialEq, Eq)]
pub struct StandardInputReport {
    pub flags: u8,
    pub sequence: u16,
    pub report: StandardHidReport,
}

/// What a report for the standard interfaces says.
pub struct StandardInputView {
    pub flags: u8,
    pub sequence: u16,
    pub report: ReportBytes,
}

impl View for StandardInputReport {
    type V = StandardInputView;

    open spec fn view(&self) -> StandardInputView {
        StandardInputView { flags: self.flags, sequence: self.sequence, report: self.report@ }
    }
}

impl StandardInputView {
    /// The byte that stands for the kind of report.
    pub open spec fn kind(self) -> u8 {
        match self.report {
            ReportBytes::Keyboard(_) => 1,
            ReportBytes::Mouse(_) => 2,
            ReportBytes::Consumer(_) => 3,
        }
    }

    /// The bytes of the message.
    pub open spec fn wire(self) -> Seq<u8> {
        seq![self.kind(), self.flags] + le16(self.sequence) + seq![self.report.bytes().len() as u8]
            + self.report.bytes()
    }

    /// The message that these bytes are.
    pub open spec fn parse(bytes: Seq<u8>) -> Result<StandardInputView, StandardInputReportError> {
        if bytes.len() < STANDARD_INPUT_HEADER_LEN || bytes.len() != STANDARD_INPUT_HEADER_LEN
            + bytes[4] {
            Err(StandardInputReportError::InvalidLength)
        } else if bytes[0] == 0 || bytes[0] > 3 {
            Err(StandardInputReportError::InvalidKind)
        } else {
            let data = bytes.skip(5);
            let report = if bytes[0] == 1 {
                ReportBytes::Keyboard(data)
            } else if bytes[0] == 2 {
                ReportBytes::Mouse(data)
            } else {
                ReportBytes::Consumer(data)
            };
            if !report.wf() {
                Err(StandardInputReportError::InvalidReportLength)
            } else {
                Ok(StandardInputView { flags: bytes[1], sequence: u16_at(bytes, 2), report })
            }
        }
    }

    /// A report is read back as it was written.
    pub proof fn law_round_trip(self)
        requires
            self.report.wf(),
        ensures
            StandardInputView::parse(self.wire()) == Ok::<
                StandardInputView,
                StandardInputReportError,
            >(self),
    {
        let bytes = self.wire();
        assert(bytes.subrange(2, 4) =~= le16(self.sequence));
        lemma_u16_in(bytes, 2, self.sequence);
        assert(bytes.skip(5) =~= self.report.bytes());
    }
}

/// What a result says, with the message taken by its view.
pub open spec fn standard_input_result(
    r: Result<StandardInputReport, StandardInputReportError>,
) -> Result<StandardInputView, StandardInputReportError> {
    match r {
        Ok(report) => Ok(report@),
        Err(error) => Err(error),
    }
}

impl StandardInputReport {
    /// The message's bytes, in a buffer of zeros, and how many they are.
    pub fn encode(self) -> (r: ([u8; STANDARD_INPUT_MAX_LEN], u8))
        ensures
            r.0@ == padded(self@.wire(), STANDARD_INPUT_MAX_LEN as nat),
            r.1 == self@.wire().len(),
            self@.report.wf(),
            r.1 <= STANDARD_INPUT_MAX_LEN,
    {
        let kind: u8 = match self.report {
            StandardHidReport::Keyboard(_) => 1,
            StandardHidReport::Mouse(_) => 2,
            StandardHidReport::Consumer(_) => 3,
        };
        let data: &[u8] = match &self.report {
            StandardHidReport::Keyboard(report) => report.as_bytes(),
            StandardHidReport::Mouse(report) => report.as_bytes(),
            StandardHidReport::Consumer(report) => report.as_bytes(),
        };
        let s = to_le16(self.sequence);
        let head: [u8; 5] = [kind, self.flags, s[0], s[1], data.len() as u8];
        let mut bytes = [0u8; STANDARD_INPUT_MAX_LEN];
        write_at(&mut bytes, 0, &head);
        write_at(&mut bytes, 5, data);
        assert(bytes@ =~= padded(self@.wire(), STANDARD_INPUT_MAX_LEN as nat));
        (bytes, (STANDARD_INPUT_HEADER_LEN + data.len()) as u8)
    }

    /// The message that `bytes` are.
    pub fn decode(bytes: &[u8]) -> (r: Result<Self, StandardInputReportError>)
        ensures
            standard_input_result(r) == StandardInputView::parse(bytes@),
    {
        let n: usize = bytes.len();
        if n < STANDARD_INPUT_HEADER_LEN {
            return Err(StandardInputReportError::InvalidLength);
        }
        let data_len: usize = bytes[4] as usize;
        if n != STANDARD_INPUT_HEADER_LEN + data_len {
            return Err(StandardInputReportError::InvalidLength);
        }
        let data = part(bytes, STANDARD_INPUT_HEADER_LEN, n);
        assert(data@ =~= bytes@.skip(5));
        let report = match bytes[0] {
            1 => {
                if data_len != KEYBOARD_REPORT_LEN {
                    return Err(StandardInputReportError::InvalidReportLength);
                }
                let raw: [u8; KEYBOARD_REPORT_LEN] = zero_padded(data);
                assert(raw@ =~= data@);
                StandardHidReport::Keyboard(Keyboard6KroReport::from_bytes(raw))
            },
            2 => {
                if data_len != MOUSE_REPORT_LEN {
                    return Err(StandardInputReportError::InvalidReportLength);
                }
                let raw: [u8; MOUSE_REPORT_LEN] = zero_padded(data);
                assert(raw@ =~= data@);
                StandardHidReport::Mouse(MouseReport::from_bytes(raw))
            },
            3 => {
                if data_len != CONSUMER_REPORT_LEN {
                    return Err(StandardInputReportError::InvalidReportLength);
                }
                proof {
                    crate::bytes::lemma_join16(data@[0], data@[1]);
                    assert(data@ =~= seq![data@[0], data@[1]]);
                }
                StandardHidReport::Consumer(ConsumerReport::from_usage_id(get16(data, 0)))
            },
            _ => {
                return Err(StandardInputReportError::InvalidKind);
            },
        };
        Ok(Self { flags: bytes[1], sequence: get16(bytes, 2), report })
    }
}

/// A report that a host sent to the standard interfaces.
#[derive(Clone, Copy, Debug, PartialEq, Eq)]
pub struct StandardOutputReport {
    pub kind: u8,
    pub length: u8,
    pub data: [u8; STANDARD_OUTPUT_MAX_DATA_LEN],
}

/// What a report to the standard interfaces says.
pub struct StandardOutputView {
    pub kind: u8,
    pub data: Seq<u8>,
}

impl View for StandardOutputReport {
    type V = StandardOutputView;

    open spec fn view(&self) -> StandardOutputView {
        StandardOutputView { kind: self.kind, data: self.data@.take(self.length as int) }
    }
}

impl StandardOutputView {
    /// The bytes of the message.
    pub open spec fn wire(self) -> Seq<u8> {
        padded(
            seq![self.kind, self.data.len() as u8] + self.data,
            STANDARD_OUTPUT_WIRE_LEN as nat,
        )
    }

    /// The message that these bytes are.
    pub open spec fn parse(bytes: Seq<u8>) -> Result<
        StandardOutputView,
        StandardOutputReportError,
    > {
        if bytes.len() != STANDARD_OUTPUT_WIRE_LEN || bytes[1] > STANDARD_OUTPUT_MAX_DATA_LEN
            || exists|i: int| 2 + bytes[1] <= i < STANDARD_OUTPUT_WIRE_LEN && bytes[i] != 0 {
            Err(StandardOutputReportError::InvalidLength)
        } else {
            Ok(StandardOutputView { kind: bytes[0], data: bytes.subrange(2, 2 + bytes[1]) })
        }
    }

    /// A report that is not too long is read back as it was written.
    pub proof fn law_round_trip(self)
        requires
            self.data.len() <= STANDARD_OUTPUT_MAX_DATA_LEN,
        ensures
            StandardOutputView::parse(self.wire()) == Ok::<
                StandardOutputView,
                StandardOutputReportError,
            >(self),
    {
        let bytes = self.wire();
        assert(bytes.subrange(2, 2 + self.data.len() as int) =~= self.data);
    }
}

/// What a result says, with the message taken by its view.
pub open spec fn standard_output_result(
    r: Result<StandardOutputReport, StandardOutputReportError>,
) -> Result<StandardOutputView, StandardOutputReportError> {
    match r {
        Ok(report) => Ok(report@),
        Err(error) => Err(error),
    }
}

impl StandardOutputReport {
    /// The length is within the buffer, and the bytes behind it are zero.
    pub open spec fn wf(&self) -> bool {
        &&& self.length <= STANDARD_OUTPUT_MAX_DATA_LEN
        &&& self.data@ == padded(self@.data, STANDARD_OUTPUT_MAX_DATA_LEN as nat)
    }

    /// A report around `data`, unless that is too long.
    pub fn new(kind: u8, data: &[u8]) -> (r: Result<Self, StandardOutputReportError>)
        ensures
            data@.len() <= STANDARD_OUTPUT_MAX_DATA_LEN ==> r is Ok && r->Ok_0.wf() && r->Ok_0@
                == (StandardOutputView { kind, data: data@ }),
            data@.len() > STANDARD_OUTPUT_MAX_DATA_LEN ==> r is Err && r->Err_0
                == StandardOutputReportError::DataTooLong,
    {
        if data.len() > STANDARD_OUTPUT_MAX_DATA_LEN {
            return Err(StandardOutputReportError::DataTooLong);
        }
        Ok(Self { kind, length: data.len() as u8, data: zero_padded(data) })
    }

    /// The report's data.
    pub fn data(&self) -> (r: &[u8])
        requires
            self.length <= STANDARD_OUTPUT_MAX_DATA_LEN,
        ensures
            r@ == self@.data,
    {
        let r = part(&self.data, 0, self.length as usize);
        assert(r@ =~= self@.data);
        r
    }

    /// The message's bytes: kind, length and the whole buffer.
    pub fn encode(self) -> (r: [u8; STANDARD_OUTPUT_WIRE_LEN])
        ensures
            r@ == seq![self.kind, self.length] + self.data@,
            self.wf() ==> r@ == self@.wire(),
    {
        let d = self.data;
        let r = [
            self.kind, self.length, d[0], d[1], d[2], d[3], d[4], d[5], d[6], d[7],
        ];
        assert(r@ =~= seq![self.kind, self.length] + self.data@);
        proof {
            if self.wf() {
                assert(self@.data.len() == self.length);
                assert(r@ =~= self@.wire());
            }
        }
        r
    }

    /// The message that `bytes` are.
    pub fn decode(bytes: &[u8]) -> (r: Result<Self, StandardOutputReportError>)
        ensures
            standard_output_result(r) == StandardOutputView::parse(bytes@),
            r is Ok ==> r->Ok_0.wf(),
    {
        if bytes.len() != STANDARD_OUTPUT_WIRE_LEN {
            return Err(StandardOutputReportError::InvalidLength);
        }
        let length: usize = bytes[1] as usize;
        if length > STANDARD_OUTPUT_MAX_DATA_LEN || !all_zero(
            bytes,
            2 + length,
            STANDARD_OUTPUT_WIRE_LEN,
        ) {
            return Err(StandardOutputReportError::InvalidLength);
        }
        let data: [u8; STANDARD_OUTPUT_MAX_DATA_LEN] = zero_padded(part(bytes, 2, 2 + length));
        Ok(Self { kind: bytes[0], length: length as u8, data })
    }
}

} // verus!
