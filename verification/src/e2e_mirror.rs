//! Fixed-size packets by which the hardware harness drives a mirrored device.

use vstd::prelude::*;

use crate::bytes::{
    all_zero, array_at, get16, get32, le16, le32, lemma_join16, lemma_u16_in, lemma_u32_in,
    padded, part, same_bytes, splice, to_le16, to_le32, u16_at, u32_at, write_at, zeros,
};
use crate::checksum::{crc16, crc16_ccitt_false, law_crc16_detects_a_changed_byte};
use crate::hex::{hex_of, is_hex, law_hex_round_trip, read_hex, unhex, write_hex};
use crate::link::message::clamped;

verus! {

/// The protocol version on the wire.
pub const MIRROR_E2E_VERSION: u8 = 1;

/// The bytes of a packet.
pub const MIRROR_E2E_PACKET_LEN: usize = 64;

/// The longest payload.
pub const MIRROR_E2E_PAYLOAD_MAX: usize = 47;

/// The front of a line: "@HIDSHIFT-MIRROR:".
pub const MIRROR_E2E_LINE_PREFIX: [u8; 17] = [
    0x40, 0x48, 0x49, 0x44, 0x53, 0x48, 0x49, 0x46, 0x54, 0x2d, 0x4d, 0x49, 0x52, 0x52, 0x4f, 0x52,
    0x3a,
];

/// The bytes of a line.
pub const MIRROR_E2E_LINE_LEN: usize = 145;

pub const OPCODE_HELLO: u8 = 0x01;

pub const OPCODE_REGISTER_BEGIN: u8 = 0x10;

pub const OPCODE_REGISTER_CHUNK: u8 = 0x11;

pub const OPCODE_REGISTER_COMMIT: u8 = 0x12;

pub const OPCODE_CLEAR_CANDIDATES: u8 = 0x13;

pub const OPCODE_INJECT_ENDPOINT_IN: u8 = 0x20;

pub const OPCODE_SET_CONTROL_RESPONSE: u8 = 0x21;

pub const OPCODE_READ_MOCK_STATUS: u8 = 0x22;

pub const OPCODE_RESET_MOCK_STATUS: u8 = 0x23;

pub const OPCODE_INJECT_SPI_CRC_FAILURE: u8 = 0x30;

pub const OPCODE_RESET_DEVICE_S3: u8 = 0x31;

pub const OPCODE_DROP_SPI_CELLS: u8 = 0x32;

/// The longest report that is injected.
pub const MIRROR_RAW_REPORT_MAX: usize = 64;

/// The most cells that are dropped.
pub const MIRROR_E2E_SPI_DROP_MAX: u32 = 10_000;

/// Why bytes are no packet.
#[derive(Clone, Copy, Debug, PartialEq, Eq, Structural)]
pub enum MirrorE2eError {
    InvalidLength,
    UnsupportedVersion,
    PayloadTooLarge,
    InvalidPayloadLength,
    InvalidHex,
    CrcMismatch,
}

/// A packet.
#[derive(Clone, Copy, Debug, PartialEq, Eq)]
pub struct MirrorE2ePacket {
    pub version: u8,
    pub opcode: u8,
    pub sequence: u32,
    pub transfer_id: u32,
    pub offset: u32,
    pub(crate) payload_len: u8,
    pub(crate) payload: [u8; MIRROR_E2E_PAYLOAD_MAX],
}

/// What a packet says.
pub struct MirrorView {
    pub version: u8,
    pub opcode: u8,
    pub sequence: u32,
    pub transfer_id: u32,
    pub offset: u32,
    pub payload: Seq<u8>,
}

impl View for MirrorE2ePacket {
    type V = MirrorView;

    open(crate) spec fn view(&self) -> MirrorView {
        MirrorView {
            version: self.version,
            opcode: self.opcode,
            sequence: self.sequence,
            transfer_id: self.transfer_id,
            offset: self.offset,
            payload: self.payload@.take(self.payload_len as int),
        }
    }
}

impl MirrorView {
    /// The packet's bytes before its checksum.
    pub open spec fn body(self) -> Seq<u8> {
        padded(
            seq![self.version, self.opcode] + le32(self.sequence) + le32(self.transfer_id) + le32(
                self.offset,
            ) + seq![self.payload.len() as u8] + self.payload,
            62,
        )
    }

    /// The packet's bytes.
    pub open spec fn wire(self) -> Seq<u8> {
        self.body() + le16(crc16(self.body()))
    }

    /// The packet's line.
    pub open spec fn line(self) -> Seq<u8> {
        MIRROR_E2E_LINE_PREFIX@ + hex_of(self.wire())
    }

    /// The packet that bytes say.
    pub open spec fn of(bytes: Seq<u8>) -> MirrorView {
        MirrorView {
            version: bytes[0],
            opcode: bytes[1],
            sequence: u32_at(bytes, 2),
            transfer_id: u32_at(bytes, 6),
            offset: u32_at(bytes, 10),
            payload: bytes.subrange(15, 15 + bytes[14]),
        }
    }
}

/// Why bytes are no packet, where they are none.
pub open spec fn mirror_error(bytes: Seq<u8>) -> Option<MirrorE2eError> {
    if bytes.len() != MIRROR_E2E_PACKET_LEN {
        Some(MirrorE2eError::InvalidLength)
    } else if bytes[0] != MIRROR_E2E_VERSION {
        Some(MirrorE2eError::UnsupportedVersion)
    } else if u16_at(bytes, 62) != crc16(bytes.take(62)) {
        Some(MirrorE2eError::CrcMismatch)
    } else if bytes[14] > MIRROR_E2E_PAYLOAD_MAX || bytes.subrange(15 + bytes[14], 62) != zeros(
        (47 - bytes[14]) as nat,
    ) {
        Some(MirrorE2eError::InvalidPayloadLength)
    } else {
        None
    }
}

/// Why bytes are no line, where they are none.
pub open spec fn mirror_line_error(line: Seq<u8>) -> Option<MirrorE2eError> {
    if line.len() != MIRROR_E2E_LINE_LEN || line.take(17) != MIRROR_E2E_LINE_PREFIX@ {
        Some(MirrorE2eError::InvalidLength)
    } else if !is_hex(line.skip(17)) {
        Some(MirrorE2eError::InvalidHex)
    } else {
        mirror_error(unhex(line.skip(17)))
    }
}

impl MirrorE2ePacket {
    /// The payload is no longer than it can be, and zeros stand behind it.
    pub open(crate) spec fn wf(&self) -> bool {
        &&& self.payload_len <= MIRROR_E2E_PAYLOAD_MAX
        &&& self.payload@ == padded(self@.payload, MIRROR_E2E_PAYLOAD_MAX as nat)
    }

    /// A packet around a payload that is not too long.
    pub fn new(opcode: u8, sequence: u32, transfer_id: u32, offset: u32, payload: &[u8]) -> (r:
        Result<Self, MirrorE2eError>)
        ensures
            payload@.len() > MIRROR_E2E_PAYLOAD_MAX ==> r == Err::<Self, MirrorE2eError>(
                MirrorE2eError::PayloadTooLarge,
            ),
            payload@.len() <= MIRROR_E2E_PAYLOAD_MAX ==> r is Ok && r->Ok_0.wf() && r->Ok_0@ == (
            MirrorView {
                version: MIRROR_E2E_VERSION,
                opcode,
                sequence,
                transfer_id,
                offset,
                payload: payload@,
            }),
    {
        if payload.len() > MIRROR_E2E_PAYLOAD_MAX {
            return Err(MirrorE2eError::PayloadTooLarge);
        }
        let mut packet = Self {
            version: MIRROR_E2E_VERSION,
            opcode,
            sequence,
            transfer_id,
            offset,
            payload_len: payload.len() as u8,
            payload: [0;MIRROR_E2E_PAYLOAD_MAX],
        };
        write_at(&mut packet.payload, 0, payload);
        assert(packet@.payload =~= payload@);
        assert(packet.payload@ =~= padded(payload@, MIRROR_E2E_PAYLOAD_MAX as nat));
        Ok(packet)
    }

    /// The payload.
    pub fn payload(&self) -> (r: &[u8])
        requires
            self.wf(),
        ensures
            r@ == self@.payload,
            r@.len() <= MIRROR_E2E_PAYLOAD_MAX,
    {
        let r = part(self.payload.as_slice(), 0, self.payload_len as usize);
        assert(r@ =~= self@.payload);
        r
    }

    /// The packet's bytes.
    pub fn encode(self) -> (r: [u8; MIRROR_E2E_PACKET_LEN])
        requires
            self.wf(),
        ensures
            r@ == self@.wire(),
    {
        let mut bytes = [0u8; MIRROR_E2E_PACKET_LEN];
        bytes[0] = self.version;
        bytes[1] = self.opcode;
        write_at(&mut bytes, 2, &to_le32(self.sequence));
        write_at(&mut bytes, 6, &to_le32(self.transfer_id));
        write_at(&mut bytes, 10, &to_le32(self.offset));
        bytes[14] = self.payload_len;
        write_at(&mut bytes, 15, &self.payload);
        assert(self@.payload.len() == self.payload_len);
        assert(bytes@.take(62) =~= self@.body());
        let crc = to_le16(crc16_ccitt_false(part(&bytes, 0, 62)));
        write_at(&mut bytes, 62, &crc);
        assert(bytes@ =~= self@.wire());
        bytes
    }

    /// The packet of these bytes.
    pub fn decode(bytes: &[u8]) -> (r: Result<Self, MirrorE2eError>)
        ensures
            match mirror_error(bytes@) {
                Some(error) => r == Err::<Self, MirrorE2eError>(error),
                None => r is Ok && r->Ok_0.wf() && r->Ok_0@ == MirrorView::of(bytes@),
            },
    {
        if bytes.len() != MIRROR_E2E_PACKET_LEN {
            return Err(MirrorE2eError::InvalidLength);
        }
        if bytes[0] != MIRROR_E2E_VERSION {
            return Err(MirrorE2eError::UnsupportedVersion);
        }
        if get16(bytes, 62) != crc16_ccitt_false(part(bytes, 0, 62)) {
            return Err(MirrorE2eError::CrcMismatch);
        }
        let payload_len: usize = bytes[14] as usize;
        if payload_len > MIRROR_E2E_PAYLOAD_MAX {
            return Err(MirrorE2eError::InvalidPayloadLength);
        }
        let tail = part(bytes, 15 + payload_len, 62);
        if !all_zero(tail, 0, tail.len()) {
            assert(tail@ != zeros((47 - payload_len) as nat));
            return Err(MirrorE2eError::InvalidPayloadLength);
        }
        assert(tail@ =~= zeros((47 - payload_len) as nat));
        let r = Self {
            version: bytes[0],
            opcode: bytes[1],
            sequence: get32(bytes, 2),
            transfer_id: get32(bytes, 6),
            offset: get32(bytes, 10),
            payload_len: payload_len as u8,
            payload: array_at::<MIRROR_E2E_PAYLOAD_MAX>(bytes, 15),
        };
        assert(r@.payload =~= MirrorView::of(bytes@).payload);
        assert(r.payload@ =~= padded(r@.payload, 47)) by {
            assert forall|i: int| payload_len <= i < 47 implies r.payload@[i] == 0 by {
                assert(tail@[i - payload_len] == bytes@[15 + i]);
            }
        }
        Ok(r)
    }

    /// The packet of this line.
    pub fn decode_line(line: &[u8]) -> (r: Result<Self, MirrorE2eError>)
        ensures
            match mirror_line_error(line@) {
                Some(error) => r == Err::<Self, MirrorE2eError>(error),
                None => r is Ok && r->Ok_0.wf() && r->Ok_0@ == MirrorView::of(
                    unhex(line@.skip(17)),
                ),
            },
    {
        if line.len() != MIRROR_E2E_LINE_LEN {
            return Err(MirrorE2eError::InvalidLength);
        }
        let prefix = MIRROR_E2E_LINE_PREFIX;
        assert(line@.take(17) =~= line@.subrange(0, 17));
        assert(line@.skip(17) =~= line@.subrange(17, 145));
        if !same_bytes(part(line, 0, 17), prefix.as_slice()) {
            return Err(MirrorE2eError::InvalidLength);
        }
        match read_hex::<MIRROR_E2E_PACKET_LEN>(part(line, 17, 145)) {
            None => Err(MirrorE2eError::InvalidHex),
            Some(bytes) => Self::decode(bytes.as_slice()),
        }
    }

    /// The packet's line.
    pub fn encode_line(self) -> (r: [u8; MIRROR_E2E_LINE_LEN])
        requires
            self.wf(),
        ensures
            r@ == self@.line(),
    {
        let mut line = [0u8; MIRROR_E2E_LINE_LEN];
        let prefix = MIRROR_E2E_LINE_PREFIX;
        write_at(&mut line, 0, &prefix);
        let bytes = self.encode();
        write_hex(&mut line, 17, bytes.as_slice());
        assert(line@ =~= self@.line());
        line
    }
}

/// A packet comes back from its bytes, and from its line.
pub proof fn law_mirror_round_trip(packet: MirrorView)
    requires
        packet.version == MIRROR_E2E_VERSION,
        packet.payload.len() <= MIRROR_E2E_PAYLOAD_MAX,
    ensures
        mirror_error(packet.wire()) is None,
        MirrorView::of(packet.wire()) == packet,
        mirror_line_error(packet.line()) is None,
        unhex(packet.line().skip(17)) == packet.wire(),
{
    let wire = packet.wire();
    let body = packet.body();
    let n = packet.payload.len() as int;
    assert(body.len() == 62);
    assert(wire.take(62) =~= body);
    assert(wire.subrange(62, 64) =~= le16(crc16(body)));
    lemma_u16_in(wire, 62, crc16(body));
    assert(wire.subrange(2, 6) =~= le32(packet.sequence));
    lemma_u32_in(wire, 2, packet.sequence);
    assert(wire.subrange(6, 10) =~= le32(packet.transfer_id));
    lemma_u32_in(wire, 6, packet.transfer_id);
    assert(wire.subrange(10, 14) =~= le32(packet.offset));
    lemma_u32_in(wire, 10, packet.offset);
    assert(wire[14] == n);
    assert(wire.subrange(15, 15 + n) =~= packet.payload);
    assert(wire.subrange(15 + n, 62) =~= zeros((47 - n) as nat));
    let line = packet.line();
    assert(line.take(17) =~= MIRROR_E2E_LINE_PREFIX@);
    assert(line.skip(17) =~= hex_of(wire));
    law_hex_round_trip(wire);
}

/// A packet of which one byte was changed is refused.
pub proof fn law_mirror_corruption(bytes: Seq<u8>, at: int, byte: u8)
    requires
        mirror_error(bytes) is None,
        0 <= at < 64,
        byte != bytes[at],
    ensures
        mirror_error(bytes.update(at, byte)) == Some(
            if at == 0 {
                MirrorE2eError::UnsupportedVersion
            } else {
                MirrorE2eError::CrcMismatch
            },
        ),
{
    let changed = bytes.update(at, byte);
    if at < 62 {
        law_crc16_detects_a_changed_byte(bytes.take(62), at, byte);
        assert(changed.take(62) =~= bytes.take(62).update(at, byte));
    } else {
        assert(changed.take(62) =~= bytes.take(62));
        lemma_join16(bytes[62], bytes[63]);
        lemma_join16(changed[62], changed[63]);
        if u16_at(changed, 62) == u16_at(bytes, 62) {
            let a = seq![bytes[62], bytes[63]];
            let b = seq![changed[62], changed[63]];
            assert(a[at - 62] == b[at - 62]);
        }
    }
}

/// How many cells a packet asks to be dropped, if it does: at least one.
pub fn requested_spi_drop_cells(packet: &MirrorE2ePacket) -> (r: Option<u32>)
    requires
        packet.wf(),
    ensures
        r == if packet@.opcode == OPCODE_DROP_SPI_CELLS && packet@.payload.len() == 0 {
            Some(
                clamped(packet@.transfer_id as int, 1, MIRROR_E2E_SPI_DROP_MAX as int) as u32,
            )
        } else {
            None
        },
{
    if packet.opcode == OPCODE_DROP_SPI_CELLS && packet.payload().len() == 0 {
        if packet.transfer_id < 1 {
            Some(1)
        } else if packet.transfer_id > MIRROR_E2E_SPI_DROP_MAX {
            Some(MIRROR_E2E_SPI_DROP_MAX)
        } else {
            Some(packet.transfer_id)
        }
    } else {
        None
    }
}

/// A report that is to be injected.
#[derive(Clone, Copy, Debug, PartialEq, Eq)]
pub struct MirrorRawInjection {
    pub endpoint_address: u8,
    pub(crate) length: u8,
    pub(crate) data: [u8; MIRROR_RAW_REPORT_MAX],
}

/// A report that is to be injected.
pub struct InjectionView {
    pub endpoint_address: u8,
    pub data: Seq<u8>,
}

impl View for MirrorRawInjection {
    type V = InjectionView;

    open(crate) spec fn view(&self) -> InjectionView {
        InjectionView {
            endpoint_address: self.endpoint_address,
            data: self.data@.take(self.length as int),
        }
    }
}

impl MirrorRawInjection {
    /// The report is no longer than it can be.
    pub open(crate) spec fn wf(&self) -> bool {
        self.length <= MIRROR_RAW_REPORT_MAX
    }

    /// The report.
    pub fn data(&self) -> (r: &[u8])
        requires
            self.wf(),
        ensures
            r@ == self@.data,
    {
        let r = part(self.data.as_slice(), 0, self.length as usize);
        assert(r@ =~= self@.data);
        r
    }
}

/// Why a part of a report was refused.
#[derive(Clone, Copy, Debug, PartialEq, Eq, Structural)]
pub enum MirrorRawInjectionError {
    InvalidEndpoint,
    InvalidTotalLength,
    InvalidOffset,
    TransferMismatch,
}

/// Puts reports together that come in parts.
pub struct MirrorRawInjectionReceiver {
    endpoint_address: u8,
    total_length: u8,
    received: u8,
    data: [u8; MIRROR_RAW_REPORT_MAX],
}

/// How much of which report is there.
pub struct ReceiverView {
    pub endpoint_address: u8,
    pub total_length: u8,
    pub received: u8,
    pub data: Seq<u8>,
}

impl View for MirrorRawInjectionReceiver {
    type V = ReceiverView;

    closed spec fn view(&self) -> ReceiverView {
        ReceiverView {
            endpoint_address: self.endpoint_address,
            total_length: self.total_length,
            received: self.received,
            data: self.data@,
        }
    }
}

/// The endpoint that a transfer is for.
pub open spec fn endpoint_of(transfer_id: u32) -> u8 {
    (transfer_id % 256) as u8
}

/// The length of the report that is transferred.
pub open spec fn total_of(transfer_id: u32) -> u8 {
    ((transfer_id / 256) % 256) as u8
}

impl ReceiverView {
    /// Where a part is the first, the report begins anew.
    pub open spec fn begun(self, packet: MirrorView) -> ReceiverView {
        if packet.offset == 0 {
            ReceiverView {
                endpoint_address: endpoint_of(packet.transfer_id),
                total_length: total_of(packet.transfer_id),
                received: 0,
                data: self.data,
            }
        } else {
            self
        }
    }

    /// Why a part is refused before anything begins, where it is.
    pub open spec fn transfer_error(self, packet: MirrorView) -> Option<MirrorRawInjectionError> {
        let endpoint = endpoint_of(packet.transfer_id);
        let total = total_of(packet.transfer_id);
        if packet.transfer_id >= 0x1_0000 || endpoint < 0x80 {
            Some(MirrorRawInjectionError::InvalidEndpoint)
        } else if total == 0 || total > MIRROR_RAW_REPORT_MAX {
            Some(MirrorRawInjectionError::InvalidTotalLength)
        } else if packet.offset != 0 && (endpoint != self.endpoint_address || total
            != self.total_length) {
            Some(MirrorRawInjectionError::TransferMismatch)
        } else {
            None
        }
    }

    /// Whether a part does not come where it belongs, or is too long.
    pub open spec fn is_misplaced(self, packet: MirrorView) -> bool {
        packet.offset != self.received || self.received + packet.payload.len() > total_of(
            packet.transfer_id,
        )
    }

    /// With a part that comes where it belongs.
    pub open spec fn with_part(self, packet: MirrorView) -> ReceiverView {
        ReceiverView {
            data: splice(self.data, self.received as int, packet.payload),
            received: (self.received + packet.payload.len()) as u8,
            ..self
        }
    }
}

impl MirrorRawInjectionReceiver {
    /// Nothing yet.
    pub fn new() -> (r: Self)
        ensures
            r@ == (ReceiverView {
                endpoint_address: 0,
                total_length: 0,
                received: 0,
                data: zeros(64),
            }),
    {
        let r = Self {
            endpoint_address: 0,
            total_length: 0,
            received: 0,
            data: [0;MIRROR_RAW_REPORT_MAX],
        };
        assert(r@.data =~= zeros(64));
        r
    }

    /// Takes a part, and gives the report once it is there in full.
    pub fn push(&mut self, packet: &MirrorE2ePacket) -> (r: Result<
        Option<MirrorRawInjection>,
        MirrorRawInjectionError,
    >)
        requires
            packet.wf(),
        ensures
            ({
                let begun = old(self)@.begun(packet@);
                let after = begun.with_part(packet@);
                let error = old(self)@.transfer_error(packet@);
                &&& error is Some ==> r == Err::<
                    Option<MirrorRawInjection>,
                    MirrorRawInjectionError,
                >(error->0) && final(self)@ == old(self)@
                &&& error is None && begun.is_misplaced(packet@) ==> r == Err::<
                    Option<MirrorRawInjection>,
                    MirrorRawInjectionError,
                >(MirrorRawInjectionError::InvalidOffset) && final(self)@ == begun
                &&& error is None && !begun.is_misplaced(packet@) && after.received
                    != after.total_length ==> r == Ok::<
                    Option<MirrorRawInjection>,
                    MirrorRawInjectionError,
                >(None) && final(self)@ == after
                &&& error is None && !begun.is_misplaced(packet@) && after.received
                    == after.total_length ==> {
                    &&& r is Ok
                    &&& r->Ok_0 is Some
                    &&& r->Ok_0->0.wf()
                    &&& r->Ok_0->0@ == (InjectionView {
                        endpoint_address: after.endpoint_address,
                        data: after.data.take(after.total_length as int),
                    })
                    &&& final(self)@ == (ReceiverView { received: 0, ..after })
                }
            }),
    {
        let endpoint_address: u8 = (packet.transfer_id % 256) as u8;
        let total_length: u8 = ((packet.transfer_id / 256) % 256) as u8;
        if packet.transfer_id >= 0x1_0000 || endpoint_address < 0x80 {
            return Err(MirrorRawInjectionError::InvalidEndpoint);
        }
        if total_length == 0 || total_length > 64 {
            return Err(MirrorRawInjectionError::InvalidTotalLength);
        }
        if packet.offset == 0 {
            self.endpoint_address = endpoint_address;
            self.total_length = total_length;
            self.received = 0;
        } else if endpoint_address != self.endpoint_address || total_length != self.total_length {
            return Err(MirrorRawInjectionError::TransferMismatch);
        }
        let payload = packet.payload();
        let start: usize = self.received as usize;
        if packet.offset != self.received as u32 || start + payload.len() > total_length as usize {
            return Err(MirrorRawInjectionError::InvalidOffset);
        }
        write_at(&mut self.data, start, payload);
        self.received = self.received + payload.len() as u8;
        if self.received != total_length {
            return Ok(None);
        }
        let injection = MirrorRawInjection {
            endpoint_address,
            length: total_length,
            data: self.data,
        };
        self.received = 0;
        Ok(Some(injection))
    }
}

impl Default for MirrorRawInjectionReceiver {
    fn default() -> (r: Self)
        ensures
            r@ == (ReceiverView {
                endpoint_address: 0,
                total_length: 0,
                received: 0,
                data: zeros(64),
            }),
    {
        Self::new()
    }
}

/// The number of a transfer of a report of some length to an endpoint.
pub fn raw_injection_transfer_id(endpoint_address: u8, total_length: u8) -> (r: u32)
    ensures
        r == endpoint_address + 256 * total_length,
        endpoint_of(r) == endpoint_address,
        total_of(r) == total_length,
{
    endpoint_address as u32 + 256 * (total_length as u32)
}

/// Parts that follow on each other add up: where the first `k` bytes of a report
/// are there and the next part comes, more of it is there, and once all parts
/// came, exactly the report comes out.
pub proof fn law_parts_add_up(
    v: ReceiverView,
    report: Seq<u8>,
    k: int,
    m: int,
    packet: MirrorView,
)
    requires
        1 <= report.len() <= 64,
        0 <= k < m <= report.len(),
        v.data.len() == 64,
        k > 0 ==> v.received == k && v.endpoint_address == endpoint_of(packet.transfer_id)
            && v.total_length == report.len() && v.data.take(k) == report.take(k),
        packet.transfer_id < 0x1_0000,
        endpoint_of(packet.transfer_id) >= 0x80,
        total_of(packet.transfer_id) == report.len(),
        packet.offset == k,
        packet.payload == report.subrange(k, m),
    ensures
        v.transfer_error(packet) is None,
        !v.begun(packet).is_misplaced(packet),
        ({
            let after = v.begun(packet).with_part(packet);
            &&& after.received == m
            &&& after.endpoint_address == endpoint_of(packet.transfer_id)
            &&& after.total_length == report.len()
            &&& after.data.len() == 64
            &&& after.data.take(m) == report.take(m)
            &&& m == report.len() ==> after.data.take(after.total_length as int) == report
        }),
{
    let after = v.begun(packet).with_part(packet);
    assert forall|i: int| 0 <= i < m implies after.data[i] == report[i] by {
        if i < k {
            assert(v.data.take(k)[i] == report.take(k)[i]);
        } else {
            assert(packet.payload[i - k] == report[i]);
        }
    }
    assert(after.data.take(m) =~= report.take(m));
    assert(report.take(report.len() as int) =~= report);
}

} // verus!
