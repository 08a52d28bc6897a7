//! Radio packets, and messages cut into them.

use vstd::prelude::*;

use super::message::MAX_BRIDGE_MESSAGE_SIZE;
use crate::bytes::{
    get16, get32, le16, le32, lemma_u16_in, lemma_u32_in, part, splice, to_le16, to_le32, u16_at,
    u32_at, write_at,
};
use crate::checksum::{crc16, crc16_continue, law_crc16_detects_a_changed_byte, law_crc16_pieces};

verus! {

/// The protocol version on the wire.
pub const BRIDGE_LINK_PROTOCOL_VERSION: u8 = 2;

/// The longest packet.
pub const ESP_NOW_PAYLOAD_MAX: usize = 230;

/// The bytes of a packet before its payload.
pub const WIRE_HEADER_LEN: usize = 24;

/// The longest payload of a packet.
pub const WIRE_PAYLOAD_MAX: usize = 206;

/// What a packet is for.
#[derive(Clone, Copy, Debug, PartialEq, Eq, Structural)]
pub enum PacketKind {
    Data,
    Heartbeat,
    Reset,
}

impl PacketKind {
    /// The byte that stands for the kind.
    pub open spec fn byte(self) -> u8 {
        match self {
            PacketKind::Data => 1,
            PacketKind::Heartbeat => 3,
            PacketKind::Reset => 4,
        }
    }

    /// The kind that a byte stands for.
    pub open spec fn of_byte(value: u8) -> Result<PacketKind, WirePacketError> {
        if value == 1 {
            Ok(PacketKind::Data)
        } else if value == 3 {
            Ok(PacketKind::Heartbeat)
        } else if value == 4 {
            Ok(PacketKind::Reset)
        } else {
            Err(WirePacketError::UnknownKind)
        }
    }

    fn to_byte(self) -> (r: u8)
        ensures
            r == self.byte(),
    {
        match self {
            Self::Data => 1,
            Self::Heartbeat => 3,
            Self::Reset => 4,
        }
    }

    fn decode(value: u8) -> (r: Result<Self, WirePacketError>)
        ensures
            r == PacketKind::of_byte(value),
    {
        match value {
            1 => Ok(Self::Data),
            3 => Ok(Self::Heartbeat),
            4 => Ok(Self::Reset),
            _ => Err(WirePacketError::UnknownKind),
        }
    }
}

/// Whether a packet is the first or the last of its message.
#[derive(Clone, Copy, Debug, PartialEq, Eq, Structural)]
pub struct PacketFlags(pub(crate) u8);

impl PacketFlags {
    /// One bit for each flag in the set.
    pub open(crate) spec fn mask(self) -> u8 {
        self.0
    }

    /// The set with these bits.
    pub open(crate) spec fn of_mask(bits: u8) -> PacketFlags {
        PacketFlags(bits)
    }

    /// The set of a mask has that mask, and a set is known by its mask.
    pub proof fn lemma_mask(flags: PacketFlags, bits: u8)
        ensures
            PacketFlags::of_mask(bits).mask() == bits,
            PacketFlags::of_mask(flags.mask()) == flags,
    {
    }

    /// The first packet of a message.
    pub fn first() -> (r: Self)
        ensures
            r == PacketFlags::of_mask(1),
    {
        Self(1)
    }

    /// The last packet of a message.
    pub fn last() -> (r: Self)
        ensures
            r == PacketFlags::of_mask(2),
    {
        Self(2)
    }

    /// Neither flag.
    pub fn empty() -> (r: Self)
        ensures
            r == PacketFlags::of_mask(0),
    {
        Self(0)
    }

    /// The mask.
    pub fn bits(&self) -> (r: u8)
        ensures
            r == self.mask(),
    {
        self.0
    }

    /// The flags of a mask that has no other bits.
    pub fn from_bits(bits: u8) -> (r: Option<Self>)
        ensures
            r == if bits <= 3 {
                Some(PacketFlags::of_mask(bits))
            } else {
                None
            },
    {
        if bits <= 3 {
            Some(Self(bits))
        } else {
            None
        }
    }

    /// Whether all of `other` is in the set.
    pub fn contains(&self, other: Self) -> (r: bool)
        ensures
            r == (self.mask() & other.mask() == other.mask()),
    {
        self.0 & other.0 == other.0
    }
}

/// A packet as it is sent.
#[derive(Clone, Debug, PartialEq, Eq)]
pub struct WirePacket {
    bytes: [u8; ESP_NOW_PAYLOAD_MAX],
    len: u8,
}

/// A packet as it was read.
#[derive(Clone, Copy, Debug, PartialEq, Eq)]
pub struct WirePacketView<'a> {
    pub kind: PacketKind,
    pub flags: PacketFlags,
    pub fragment_index: u8,
    pub fragment_count: u8,
    pub session: u32,
    pub sequence: u32,
    pub message_id: u32,
    pub message_len: u16,
    pub payload: &'a [u8],
}

/// What a packet says.
pub struct PacketFields {
    pub kind: PacketKind,
    pub flags: PacketFlags,
    pub fragment_index: u8,
    pub fragment_count: u8,
    pub session: u32,
    pub sequence: u32,
    pub message_id: u32,
    pub message_len: u16,
    pub payload: Seq<u8>,
}

impl<'a> View for WirePacketView<'a> {
    type V = PacketFields;

    open spec fn view(&self) -> PacketFields {
        PacketFields {
            kind: self.kind,
            flags: self.flags,
            fragment_index: self.fragment_index,
            fragment_count: self.fragment_count,
            session: self.session,
            sequence: self.sequence,
            message_id: self.message_id,
            message_len: self.message_len,
            payload: self.payload@,
        }
    }
}

/// Why a packet could not be written or read.
#[derive(Clone, Copy, Debug, PartialEq, Eq, Structural)]
pub enum WirePacketError {
    TooShort,
    TooLong,
    PayloadTooLong,
    InvalidMagic,
    UnsupportedVersion,
    UnknownKind,
    InvalidFlags,
    InvalidFragment,
    InvalidMessageLength,
    InvalidChecksum,
}

/// What is wrong with a packet of these fields, where something is. Only data
/// packets carry a fragment. A fragment is flagged as first and last exactly
/// where it is, all but the last are full, and the last ends the message.
pub open spec fn fragment_error(
    kind: PacketKind,
    flags: u8,
    index: int,
    count: int,
    message_len: int,
    payload_len: int,
) -> Option<WirePacketError> {
    let offset = index * WIRE_PAYLOAD_MAX;
    let first = flags & 1 == 1;
    let last = flags & 2 == 2;
    if kind != PacketKind::Data {
        if index != 0 || count != 0 || message_len != 0 || payload_len != 0 {
            Some(WirePacketError::InvalidFragment)
        } else {
            None
        }
    } else if index >= count || first != (index == 0) || last != (index + 1 == count) {
        Some(WirePacketError::InvalidFragment)
    } else if message_len == 0 || message_len > MAX_BRIDGE_MESSAGE_SIZE || offset + payload_len
        > message_len {
        Some(WirePacketError::InvalidMessageLength)
    } else if !last && payload_len != WIRE_PAYLOAD_MAX {
        Some(WirePacketError::InvalidFragment)
    } else if last && offset + payload_len != message_len {
        Some(WirePacketError::InvalidMessageLength)
    } else {
        None
    }
}

/// What is wrong with a packet, where something is.
pub open spec fn packet_error(p: PacketFields) -> Option<WirePacketError> {
    fragment_error(
        p.kind,
        p.flags.mask(),
        p.fragment_index as int,
        p.fragment_count as int,
        p.message_len as int,
        p.payload.len() as int,
    )
}

/// The bytes of a packet before its checksum.
pub open spec fn packet_head(p: PacketFields) -> Seq<u8> {
    seq![
        0x48u8,
        0x53u8,
        BRIDGE_LINK_PROTOCOL_VERSION,
        p.kind.byte(),
        p.flags.mask(),
        p.fragment_index,
        p.fragment_count,
        p.payload.len() as u8,
    ] + le32(p.session) + le32(p.sequence) + le32(p.message_id) + le16(p.message_len)
}

/// The bytes of a packet.
pub open spec fn packet_bytes(p: PacketFields) -> Seq<u8> {
    packet_head(p) + le16(crc16(packet_head(p) + p.payload)) + p.payload
}

/// The packet that these bytes are, or why they are none.
pub open spec fn parse_packet(bytes: Seq<u8>) -> Result<PacketFields, WirePacketError> {
    let n = bytes.len() as int;
    if n < WIRE_HEADER_LEN {
        Err(WirePacketError::TooShort)
    } else if n > ESP_NOW_PAYLOAD_MAX {
        Err(WirePacketError::TooLong)
    } else if bytes[0] != 0x48 || bytes[1] != 0x53 {
        Err(WirePacketError::InvalidMagic)
    } else if bytes[2] != BRIDGE_LINK_PROTOCOL_VERSION {
        Err(WirePacketError::UnsupportedVersion)
    } else if PacketKind::of_byte(bytes[3]) is Err {
        Err(WirePacketError::UnknownKind)
    } else if bytes[4] > 3 {
        Err(WirePacketError::InvalidFlags)
    } else if n != WIRE_HEADER_LEN + bytes[7] {
        Err(WirePacketError::InvalidMessageLength)
    } else if crc16(bytes.take(22) + bytes.skip(24)) != u16_at(bytes, 22) {
        Err(WirePacketError::InvalidChecksum)
    } else {
        let p = PacketFields {
            kind: PacketKind::of_byte(bytes[3])->Ok_0,
            flags: PacketFlags::of_mask(bytes[4]),
            fragment_index: bytes[5],
            fragment_count: bytes[6],
            session: u32_at(bytes, 8),
            sequence: u32_at(bytes, 12),
            message_id: u32_at(bytes, 16),
            message_len: u16_at(bytes, 20),
            payload: bytes.skip(24),
        };
        match packet_error(p) {
            Some(error) => Err(error),
            None => Ok(p),
        }
    }
}

/// What a result says, with the packet taken by its view.
pub open spec fn packet_result<'a>(r: Result<WirePacketView<'a>, WirePacketError>) -> Result<
    PacketFields,
    WirePacketError,
> {
    match r {
        Ok(packet) => Ok(packet@),
        Err(error) => Err(error),
    }
}

impl View for WirePacket {
    type V = Seq<u8>;

    closed spec fn view(&self) -> Seq<u8> {
        self.bytes@.take(self.len as int)
    }
}

impl WirePacket {
    /// The length is within the buffer.
    pub closed spec fn wf(&self) -> bool {
        self.len <= ESP_NOW_PAYLOAD_MAX
    }

    /// What `wf` says of the view.
    pub proof fn lemma_wf(&self)
        requires
            self.wf(),
        ensures
            self@.len() <= ESP_NOW_PAYLOAD_MAX,
    {
    }

    /// The packet of these fields, or what is wrong with them.
    pub fn new(
        kind: PacketKind,
        flags: PacketFlags,
        fragment_index: u8,
        fragment_count: u8,
        session: u32,
        sequence: u32,
        message_id: u32,
        message_len: u16,
        payload: &[u8],
    ) -> (r: Result<Self, WirePacketError>)
        ensures
            ({
                let p = PacketFields {
                    kind,
                    flags,
                    fragment_index,
                    fragment_count,
                    session,
                    sequence,
                    message_id,
                    message_len,
                    payload: payload@,
                };
                &&& payload@.len() > WIRE_PAYLOAD_MAX ==> r is Err && r->Err_0
                    == WirePacketError::PayloadTooLong
                &&& payload@.len() <= WIRE_PAYLOAD_MAX && packet_error(p) is Some ==> r is Err
                    && r->Err_0 == packet_error(p)->0
                &&& payload@.len() <= WIRE_PAYLOAD_MAX && packet_error(p) is None ==> r is Ok
                    && r->Ok_0.wf() && r->Ok_0@ == packet_bytes(p)
            }),
    {
        if payload.len() > WIRE_PAYLOAD_MAX {
            return Err(WirePacketError::PayloadTooLong);
        }
        match validate_fragment(
            kind,
            flags,
            fragment_index,
            fragment_count,
            message_len,
            payload.len(),
        ) {
            Ok(_) => {},
            Err(error) => {
                return Err(error);
            },
        }
        let ghost p = PacketFields {
            kind,
            flags,
            fragment_index,
            fragment_count,
            session,
            sequence,
            message_id,
            message_len,
            payload: payload@,
        };
        let mut bytes = [0u8; ESP_NOW_PAYLOAD_MAX];
        let start: [u8; 8] = [
            0x48,
            0x53,
            BRIDGE_LINK_PROTOCOL_VERSION,
            kind.to_byte(),
            flags.bits(),
            fragment_index,
            fragment_count,
            payload.len() as u8,
        ];
        write_at(&mut bytes, 0, &start);
        write_at(&mut bytes, 8, &to_le32(session));
        write_at(&mut bytes, 12, &to_le32(sequence));
        write_at(&mut bytes, 16, &to_le32(message_id));
        write_at(&mut bytes, 20, &to_le16(message_len));
        assert(bytes@.take(22) =~= packet_head(p));
        write_at(&mut bytes, WIRE_HEADER_LEN, payload);
        assert(bytes@.take(22) =~= packet_head(p));
        let head = part(&bytes, 0, 22);
        assert(head@ =~= packet_head(p));
        let checksum: u16 = packet_crc16(head, payload);
        write_at(&mut bytes, 22, &to_le16(checksum));
        let len: u8 = (WIRE_HEADER_LEN + payload.len()) as u8;
        assert(bytes@.take(len as int) =~= packet_bytes(p)) by {
            assert(bytes@.take(22) =~= packet_head(p));
        }
        Ok(Self { bytes, len })
    }

    /// The packet's bytes.
    pub fn as_bytes(&self) -> (r: &[u8])
        requires
            self.wf(),
        ensures
            r@ == self@,
            r@.len() <= ESP_NOW_PAYLOAD_MAX,
    {
        let r = part(&self.bytes, 0, self.len as usize);
        assert(r@ =~= self@);
        r
    }

    /// The packet that `bytes` are.
    pub fn decode(bytes: &[u8]) -> (r: Result<WirePacketView<'_>, WirePacketError>)
        ensures
            packet_result(r) == parse_packet(bytes@),
    {
        let n: usize = bytes.len();
        if n < WIRE_HEADER_LEN {
            return Err(WirePacketError::TooShort);
        }
        if n > ESP_NOW_PAYLOAD_MAX {
            return Err(WirePacketError::TooLong);
        }
        if bytes[0] != 0x48 || bytes[1] != 0x53 {
            return Err(WirePacketError::InvalidMagic);
        }
        if bytes[2] != BRIDGE_LINK_PROTOCOL_VERSION {
            return Err(WirePacketError::UnsupportedVersion);
        }
        let kind = match PacketKind::decode(bytes[3]) {
            Ok(kind) => kind,
            Err(error) => {
                return Err(error);
            },
        };
        let flags = match PacketFlags::from_bits(bytes[4]) {
            Some(flags) => flags,
            None => {
                return Err(WirePacketError::InvalidFlags);
            },
        };
        let payload_len: usize = bytes[7] as usize;
        if n != WIRE_HEADER_LEN + payload_len {
            return Err(WirePacketError::InvalidMessageLength);
        }
        let payload = part(bytes, WIRE_HEADER_LEN, n);
        let expected: u16 = get16(bytes, 22);
        assert(payload@ =~= bytes@.skip(24));
        assert(bytes@.subrange(0, 22) =~= bytes@.take(22));
        if packet_crc16(part(bytes, 0, 22), payload) != expected {
            return Err(WirePacketError::InvalidChecksum);
        }
        let message_len: u16 = get16(bytes, 20);
        match validate_fragment(kind, flags, bytes[5], bytes[6], message_len, payload_len) {
            Ok(_) => {},
            Err(error) => {
                return Err(error);
            },
        }
        Ok(
            WirePacketView {
                kind,
                flags,
                fragment_index: bytes[5],
                fragment_count: bytes[6],
                session: get32(bytes, 8),
                sequence: get32(bytes, 12),
                message_id: get32(bytes, 16),
                message_len,
                payload,
            },
        )
    }
}

fn validate_fragment(
    kind: PacketKind,
    flags: PacketFlags,
    fragment_index: u8,
    fragment_count: u8,
    message_len: u16,
    payload_len: usize,
) -> (r: Result<(), WirePacketError>)
    requires
        payload_len <= 255,
    ensures
        ({
            let error = fragment_error(
                kind,
                flags.mask(),
                fragment_index as int,
                fragment_count as int,
                message_len as int,
                payload_len as int,
            );
            &&& error is Some ==> r == Err::<(), WirePacketError>(error->0)
            &&& error is None ==> r is Ok
        }),
{
    if kind != PacketKind::Data {
        if fragment_index != 0 || fragment_count != 0 || message_len != 0 || payload_len != 0 {
            return Err(WirePacketError::InvalidFragment);
        }
        return Ok(());
    }
    if fragment_count == 0 || fragment_index >= fragment_count {
        return Err(WirePacketError::InvalidFragment);
    }
    let is_first = flags.contains(PacketFlags::first());
    let is_last = flags.contains(PacketFlags::last());
    if is_first != (fragment_index == 0) || is_last != (fragment_index + 1 == fragment_count) {
        return Err(WirePacketError::InvalidFragment);
    }
    if message_len == 0 || message_len as usize > MAX_BRIDGE_MESSAGE_SIZE {
        return Err(WirePacketError::InvalidMessageLength);
    }
    let expected_offset: usize = fragment_index as usize * WIRE_PAYLOAD_MAX;
    if expected_offset + payload_len > message_len as usize {
        return Err(WirePacketError::InvalidMessageLength);
    }
    if !is_last && payload_len != WIRE_PAYLOAD_MAX {
        return Err(WirePacketError::InvalidFragment);
    }
    if is_last && expected_offset + payload_len != message_len as usize {
        return Err(WirePacketError::InvalidMessageLength);
    }
    Ok(())
}

/// The checksum over header and payload.
fn packet_crc16(header: &[u8], payload: &[u8]) -> (r: u16)
    ensures
        r == crc16(header@ + payload@),
{
    proof {
        law_crc16_pieces(0xffff, header@, payload@);
    }
    crc16_continue(crc16_continue(0xffff, header), payload)
}

/// A packet with nothing wrong is read back as it was written.
pub proof fn law_packet_round_trip(p: PacketFields)
    requires
        p.payload.len() <= WIRE_PAYLOAD_MAX,
        p.flags.mask() <= 3,
        packet_error(p) is None,
    ensures
        parse_packet(packet_bytes(p)) == Ok::<PacketFields, WirePacketError>(p),
{
    let head = packet_head(p);
    let bytes = packet_bytes(p);
    assert(head.len() == 22);
    assert(bytes.take(22) =~= head);
    assert(bytes.skip(24) =~= p.payload);
    assert(bytes.subrange(22, 24) =~= le16(crc16(head + p.payload)));
    lemma_u16_in(bytes, 22, crc16(head + p.payload));
    assert(bytes.subrange(8, 12) =~= le32(p.session));
    assert(bytes.subrange(12, 16) =~= le32(p.sequence));
    assert(bytes.subrange(16, 20) =~= le32(p.message_id));
    assert(bytes.subrange(20, 22) =~= le16(p.message_len));
    lemma_u32_in(bytes, 8, p.session);
    lemma_u32_in(bytes, 12, p.sequence);
    lemma_u32_in(bytes, 16, p.message_id);
    lemma_u16_in(bytes, 20, p.message_len);
}

/// A packet of which one byte of the payload was changed on the way is
/// refused by its checksum.
pub proof fn law_packet_corruption(p: PacketFields, at: int, byte: u8)
    requires
        p.payload.len() <= WIRE_PAYLOAD_MAX,
        p.flags.mask() <= 3,
        packet_error(p) is None,
        WIRE_HEADER_LEN <= at < WIRE_HEADER_LEN + p.payload.len(),
        byte != packet_bytes(p)[at],
    ensures
        parse_packet(packet_bytes(p).update(at, byte)) == Err::<PacketFields, WirePacketError>(
            WirePacketError::InvalidChecksum,
        ),
{
    law_packet_round_trip(p);
    let bytes = packet_bytes(p);
    let changed = bytes.update(at, byte);
    let covered = bytes.take(22) + bytes.skip(24);
    assert(changed.take(22) + changed.skip(24) =~= covered.update(at - 2, byte));
    assert(covered[at - 2] == bytes[at]);
    law_crc16_detects_a_changed_byte(covered, at - 2, byte);
}

/// How many packets a message of `len` bytes takes.
pub open spec fn packets_for(len: int) -> int {
    (len + WIRE_PAYLOAD_MAX - 1) / (WIRE_PAYLOAD_MAX as int)
}

/// The bytes of a message that its packet number `index` carries.
pub open spec fn fragment_of(message: Seq<u8>, index: int) -> Seq<u8> {
    let start = index * WIRE_PAYLOAD_MAX;
    let end = if start + WIRE_PAYLOAD_MAX < message.len() {
        start + WIRE_PAYLOAD_MAX
    } else {
        message.len() as int
    };
    message.subrange(start, end)
}

/// The packet number `index` of a message.
pub open spec fn fragment_packet(
    message: Seq<u8>,
    session: u32,
    sequence: u32,
    message_id: u32,
    index: int,
) -> PacketFields {
    let count = packets_for(message.len() as int);
    let first: u8 = if index == 0 {
        1
    } else {
        0
    };
    let last: u8 = if index + 1 == count {
        2
    } else {
        0
    };
    PacketFields {
        kind: PacketKind::Data,
        flags: PacketFlags::of_mask((first + last) as u8),
        fragment_index: index as u8,
        fragment_count: count as u8,
        session,
        sequence,
        message_id,
        message_len: message.len() as u16,
        payload: fragment_of(message, index),
    }
}

/// Every packet of a message that is not too long is in order.
pub proof fn law_fragments_are_valid(
    message: Seq<u8>,
    session: u32,
    sequence: u32,
    message_id: u32,
    index: int,
)
    requires
        0 < message.len() <= MAX_BRIDGE_MESSAGE_SIZE,
        0 <= index < packets_for(message.len() as int),
    ensures
        packet_error(fragment_packet(message, session, sequence, message_id, index)) is None,
        fragment_packet(message, session, sequence, message_id, index).payload.len()
            <= WIRE_PAYLOAD_MAX,
        fragment_packet(message, session, sequence, message_id, index).flags.mask() <= 3,
        packets_for(message.len() as int) <= 6,
{
    assert(0u8 & 1 == 0 && 0u8 & 2 == 0 && 1u8 & 1 == 1 && 1u8 & 2 == 0 && 2u8 & 1 == 0 && 2u8 & 2
        == 2 && 3u8 & 1 == 1 && 3u8 & 2 == 2) by (bit_vector);
}

/// Cuts a message into packets.
pub struct FragmentEncoder<'a> {
    message: &'a [u8],
    session: u32,
    next_sequence: u32,
    message_id: u32,
    fragment_index: u8,
    fragment_count: u8,
}

/// What an encoder is to do yet.
pub struct EncoderView {
    pub message: Seq<u8>,
    pub session: u32,
    pub next_sequence: u32,
    pub message_id: u32,
    pub index: int,
}

impl<'a> View for FragmentEncoder<'a> {
    type V = EncoderView;

    closed spec fn view(&self) -> EncoderView {
        EncoderView {
            message: self.message@,
            session: self.session,
            next_sequence: self.next_sequence,
            message_id: self.message_id,
            index: self.fragment_index as int,
        }
    }
}

impl<'a> FragmentEncoder<'a> {
    /// The message can be cut, and no more than all of its packets are out.
    pub closed spec fn wf(&self) -> bool {
        &&& 0 < self.message@.len() <= MAX_BRIDGE_MESSAGE_SIZE
        &&& self.fragment_count == packets_for(self.message@.len() as int)
        &&& self.fragment_index <= self.fragment_count
    }

    /// What `wf` says of the view.
    pub proof fn lemma_wf(&self)
        requires
            self.wf(),
        ensures
            0 < self@.message.len() <= MAX_BRIDGE_MESSAGE_SIZE,
            0 <= self@.index <= packets_for(self@.message.len() as int),
    {
    }

    /// An encoder for a message that is neither empty nor too long.
    pub fn new(message: &'a [u8], session: u32, first_sequence: u32, message_id: u32) -> (r: Result<
        Self,
        WirePacketError,
    >)
        ensures
            0 < message@.len() <= MAX_BRIDGE_MESSAGE_SIZE ==> r is Ok && r->Ok_0.wf() && r->Ok_0@
                == (EncoderView {
                message: message@,
                session,
                next_sequence: first_sequence,
                message_id,
                index: 0,
            }),
            message@.len() == 0 || message@.len() > MAX_BRIDGE_MESSAGE_SIZE ==> r is Err
                && r->Err_0 == WirePacketError::InvalidMessageLength,
    {
        if message.len() == 0 || message.len() > MAX_BRIDGE_MESSAGE_SIZE {
            return Err(WirePacketError::InvalidMessageLength);
        }
        let fragment_count: usize = (message.len() + WIRE_PAYLOAD_MAX - 1) / WIRE_PAYLOAD_MAX;
        Ok(
            Self {
                message,
                session,
                next_sequence: first_sequence,
                message_id,
                fragment_index: 0,
                fragment_count: fragment_count as u8,
            },
        )
    }

    /// How many packets the message takes.
    pub fn fragment_count(&self) -> (r: u8)
        requires
            self.wf(),
        ensures
            r == packets_for(self@.message.len() as int),
    {
        self.fragment_count
    }

    /// The next packet, if one is left.
    pub fn next(&mut self) -> (r: Option<WirePacket>)
        requires
            old(self).wf(),
        ensures
            final(self).wf(),
            old(self)@.index >= packets_for(old(self)@.message.len() as int) ==> r is None
                && final(self)@ == old(self)@,
            old(self)@.index < packets_for(old(self)@.message.len() as int) ==> {
                &&& r is Some
                &&& r->0.wf()
                &&& r->0@ == packet_bytes(
                    fragment_packet(
                        old(self)@.message,
                        old(self)@.session,
                        old(self)@.next_sequence,
                        old(self)@.message_id,
                        old(self)@.index,
                    ),
                )
                &&& final(self)@ == (EncoderView {
                    next_sequence: old(self)@.next_sequence.wrapping_add(1),
                    index: old(self)@.index + 1,
                    ..old(self)@
                })
            },
    {
        if self.fragment_index >= self.fragment_count {
            return None;
        }
        let ghost fields = fragment_packet(
            self@.message,
            self@.session,
            self@.next_sequence,
            self@.message_id,
            self@.index,
        );
        proof {
            law_fragments_are_valid(
                self@.message,
                self@.session,
                self@.next_sequence,
                self@.message_id,
                self@.index,
            );
        }
        let offset: usize = self.fragment_index as usize * WIRE_PAYLOAD_MAX;
        let end: usize = if offset + WIRE_PAYLOAD_MAX < self.message.len() {
            offset + WIRE_PAYLOAD_MAX
        } else {
            self.message.len()
        };
        let mut flags: u8 = 0;
        if self.fragment_index == 0 {
            flags += 1;
        }
        if self.fragment_index + 1 == self.fragment_count {
            flags += 2;
        }
        let payload = part(self.message, offset, end);
        let packet = WirePacket::new(
            PacketKind::Data,
            PacketFlags(flags),
            self.fragment_index,
            self.fragment_count,
            self.session,
            self.next_sequence,
            self.message_id,
            self.message.len() as u16,
            payload,
        );
        self.fragment_index += 1;
        self.next_sequence = self.next_sequence.wrapping_add(1);
        match packet {
            Ok(packet) => Some(packet),
            Err(_) => None,
        }
    }
}

/// Puts a message together from its packets, in whatever order they come.
#[derive(Clone, Debug, PartialEq, Eq)]
pub struct Reassembler {
    session: Option<u32>,
    message_id: Option<u32>,
    message_len: usize,
    fragment_count: u8,
    received: u8,
    received_mask: u8,
    buffer: [u8; MAX_BRIDGE_MESSAGE_SIZE],
}

/// What a reassembler has so far.
pub struct ReassemblerView {
    pub session: Option<u32>,
    pub message_id: Option<u32>,
    pub message_len: int,
    pub fragment_count: u8,
    pub received: u8,
    pub received_mask: u8,
    pub buffer: Seq<u8>,
}

/// Why a packet did not go into a message.
#[derive(Clone, Copy, Debug, PartialEq, Eq, Structural)]
pub enum ReassemblyError {
    Wire(WirePacketError),
    NotData,
    TooManyFragments,
    ConflictingMessage,
}

impl ReassemblerView {
    /// Whether a packet begins another message than the one in the works.
    pub open spec fn begins(self, p: PacketFields) -> bool {
        self.session != Some(p.session) || self.message_id != Some(p.message_id) || self.received
            == self.fragment_count
    }

    /// Why a packet is refused, where it is.
    pub open spec fn refusal(self, bytes: Seq<u8>) -> Option<ReassemblyError> {
        match parse_packet(bytes) {
            Err(error) => Some(ReassemblyError::Wire(error)),
            Ok(p) => if p.kind != PacketKind::Data {
                Some(ReassemblyError::NotData)
            } else if p.fragment_count > 8 {
                Some(ReassemblyError::TooManyFragments)
            } else if !self.begins(p) && (self.message_len != p.message_len || self.fragment_count
                != p.fragment_count) {
                Some(ReassemblyError::ConflictingMessage)
            } else {
                None
            },
        }
    }

    /// The reassembler ready for a packet: as it is, or emptied for another
    /// message.
    pub open spec fn ready_for(self, p: PacketFields) -> ReassemblerView {
        if self.begins(p) {
            ReassemblerView {
                session: Some(p.session),
                message_id: Some(p.message_id),
                message_len: p.message_len as int,
                fragment_count: p.fragment_count,
                received: 0,
                received_mask: 0,
                buffer: self.buffer,
            }
        } else {
            self
        }
    }

    /// The reassembler once a packet that is not refused has come. A packet
    /// that came before changes nothing.
    pub open spec fn with_packet(self, p: PacketFields) -> ReassemblerView {
        let ready = self.ready_for(p);
        let bit = 1u8 << p.fragment_index;
        if ready.received_mask & bit == 0 {
            ReassemblerView {
                received_mask: ready.received_mask | bit,
                received: (ready.received + 1) as u8,
                buffer: splice(
                    ready.buffer,
                    p.fragment_index * WIRE_PAYLOAD_MAX as int,
                    p.payload,
                ),
                ..ready
            }
        } else {
            ready
        }
    }

    /// The message, where all of it is there.
    pub open spec fn message(self) -> Option<Seq<u8>> {
        if self.received == self.fragment_count {
            Some(self.buffer.take(self.message_len))
        } else {
            None
        }
    }
}

impl View for Reassembler {
    type V = ReassemblerView;

    closed spec fn view(&self) -> ReassemblerView {
        ReassemblerView {
            session: self.session,
            message_id: self.message_id,
            message_len: self.message_len as int,
            fragment_count: self.fragment_count,
            received: self.received,
            received_mask: self.received_mask,
            buffer: self.buffer@,
        }
    }
}

impl Reassembler {
    /// No more packets came than the message has, and it fits the buffer.
    pub closed spec fn wf(&self) -> bool {
        &&& self.message_len <= MAX_BRIDGE_MESSAGE_SIZE
        &&& self.received <= self.fragment_count <= 8
    }

    /// What `wf` says of the view.
    pub proof fn lemma_wf(&self)
        requires
            self.wf(),
        ensures
            0 <= self@.message_len <= MAX_BRIDGE_MESSAGE_SIZE,
            self@.received <= self@.fragment_count <= 8,
    {
    }

    /// The buffer has room for the longest message.
    pub proof fn lemma_view(&self)
        ensures
            self@.buffer.len() == MAX_BRIDGE_MESSAGE_SIZE,
    {
    }

    /// A reassembler that has nothing.
    pub fn new() -> (r: Self)
        ensures
            r.wf(),
            r@ == (ReassemblerView {
                session: None,
                message_id: None,
                message_len: 0,
                fragment_count: 0,
                received: 0,
                received_mask: 0,
                buffer: crate::bytes::zeros(MAX_BRIDGE_MESSAGE_SIZE as nat),
            }),
    {
        let r = Self {
            session: None,
            message_id: None,
            message_len: 0,
            fragment_count: 0,
            received: 0,
            received_mask: 0,
            buffer: [0; MAX_BRIDGE_MESSAGE_SIZE],
        };
        assert(r@.buffer =~= crate::bytes::zeros(MAX_BRIDGE_MESSAGE_SIZE as nat));
        r
    }

    /// Takes in a packet, and gives the message where that completes it.
    pub fn push(&mut self, bytes: &[u8]) -> (r: Result<Option<&[u8]>, ReassemblyError>)
        requires
            old(self).wf(),
        ensures
            final(self).wf(),
            old(self)@.refusal(bytes@) is Some ==> r is Err && r->Err_0 == old(self)@.refusal(
                bytes@,
            )->0 && final(self)@ == old(self)@,
            old(self)@.refusal(bytes@) is None ==> {
                let after = old(self)@.with_packet(parse_packet(bytes@)->Ok_0);
                &&& final(self)@ == after
                &&& r is Ok
                &&& r->Ok_0 is Some <==> after.message() is Some
                &&& r->Ok_0 is Some ==> r->Ok_0->0@ == after.message()->0
            },
    {
        let packet = match WirePacket::decode(bytes) {
            Ok(packet) => packet,
            Err(error) => {
                return Err(ReassemblyError::Wire(error));
            },
        };
        if packet.kind != PacketKind::Data {
            return Err(ReassemblyError::NotData);
        }
        if packet.fragment_count > 8 {
            return Err(ReassemblyError::TooManyFragments);
        }
        let same_session = match self.session {
            Some(session) => session == packet.session,
            None => false,
        };
        let same_message = match self.message_id {
            Some(message_id) => message_id == packet.message_id,
            None => false,
        };
        if !same_session || !same_message || self.received == self.fragment_count {
            self.session = Some(packet.session);
            self.message_id = Some(packet.message_id);
            self.message_len = packet.message_len as usize;
            self.fragment_count = packet.fragment_count;
            self.received = 0;
            self.received_mask = 0;
        } else if self.message_len != packet.message_len as usize || self.fragment_count
            != packet.fragment_count {
            return Err(ReassemblyError::ConflictingMessage);
        }
        let bit: u8 = 1u8 << packet.fragment_index;
        if self.received_mask & bit == 0 {
            let offset: usize = packet.fragment_index as usize * WIRE_PAYLOAD_MAX;
            write_at(&mut self.buffer, offset, packet.payload);
            self.received_mask = self.received_mask | bit;
            self.received += 1;
        }
        if self.received == self.fragment_count {
            let message = part(&self.buffer, 0, self.message_len);
            assert(message@ =~= self@.buffer.take(self@.message_len));
            Ok(Some(message))
        } else {
            Ok(None)
        }
    }
}

impl Default for Reassembler {
    fn default() -> (r: Self)
        ensures
            r.wf(),
            r@ == (ReassemblerView {
                session: None,
                message_id: None,
                message_len: 0,
                fragment_count: 0,
                received: 0,
                received_mask: 0,
                buffer: crate::bytes::zeros(MAX_BRIDGE_MESSAGE_SIZE as nat),
            }),
    {
        Self::new()
    }
}

/// Whether packet number `index` is marked as received.
pub open spec fn marked(mask: u8, index: u8) -> bool {
    mask & (1u8 << index) != 0
}

/// How many of the first `n` packets are marked.
pub open spec fn marked_count(mask: u8, n: nat) -> nat
    decreases n,
{
    if n == 0 {
        0
    } else {
        marked_count(mask, (n - 1) as nat) + (if marked(mask, (n - 1) as u8) {
            1nat
        } else {
            0
        })
    }
}

/// Whether `v` has part of `message` and nothing else: every packet that is
/// marked stands in the buffer, and as many are counted.
pub open spec fn collecting(
    v: ReassemblerView,
    message: Seq<u8>,
    session: u32,
    message_id: u32,
) -> bool {
    let count = packets_for(message.len() as int);
    &&& v.session == Some(session)
    &&& v.message_id == Some(message_id)
    &&& v.message_len == message.len()
    &&& v.fragment_count == count
    &&& v.buffer.len() == MAX_BRIDGE_MESSAGE_SIZE
    &&& v.received == marked_count(v.received_mask, count as nat)
    &&& forall|i: u8|
        0 <= i < count && #[trigger] marked(v.received_mask, i) ==> v.buffer.subrange(
            i * WIRE_PAYLOAD_MAX,
            i * WIRE_PAYLOAD_MAX + fragment_of(message, i as int).len(),
        ) == fragment_of(message, i as int)
}

proof fn lemma_mark(mask: u8, k: u8, i: u8)
    requires
        k < 8,
        i < 8,
    ensures
        marked(mask | (1u8 << k), i) <==> (marked(mask, i) || i == k),
{
    assert(k < 8 && i < 8 ==> (((mask | (1u8 << k)) & (1u8 << i) != 0) <==> (mask & (1u8 << i) != 0
        || i == k))) by (bit_vector);
}

proof fn lemma_mark_count(mask: u8, k: u8, n: nat)
    requires
        k < 8,
        n <= 8,
        !marked(mask, k),
    ensures
        marked_count(mask | (1u8 << k), n) == marked_count(mask, n) + (if k < n {
            1nat
        } else {
            0
        }),
    decreases n,
{
    if n > 0 {
        lemma_mark_count(mask, k, (n - 1) as nat);
        lemma_mark(mask, k, (n - 1) as u8);
    }
}

proof fn lemma_count(mask: u8, n: nat)
    requires
        n <= 8,
    ensures
        marked_count(mask, n) <= n,
        marked_count(mask, n) == n <==> (forall|i: u8| i < n ==> #[trigger] marked(mask, i)),
    decreases n,
{
    if n > 0 {
        lemma_count(mask, (n - 1) as nat);
        if marked_count(mask, n) == n {
            assert forall|i: u8| i < n implies #[trigger] marked(mask, i) by {
                if i < n - 1 {
                } else {
                    assert(i == (n - 1) as u8);
                }
            }
        } else {
            if forall|i: u8| i < n ==> #[trigger] marked(mask, i) {
                assert(marked(mask, (n - 1) as u8));
            }
        }
    }
}

proof fn lemma_none_marked(n: nat)
    requires
        n <= 8,
    ensures
        marked_count(0, n) == 0,
        forall|i: u8| i < 8 ==> !#[trigger] marked(0, i),
    decreases n,
{
    assert forall|i: u8| i < 8 implies !#[trigger] marked(0, i) by {
        assert(0u8 & (1u8 << i) == 0) by (bit_vector);
    }
    if n > 0 {
        lemma_none_marked((n - 1) as nat);
    }
}

/// A message comes out whole, whatever the order of its packets and however
/// often each of them comes: a packet of the message is taken by a reassembler
/// that is at the message or that it makes begin it, keeps it at the message,
/// and gives the message exactly when every packet has come.
pub proof fn law_reassembly_in_any_order(
    v: ReassemblerView,
    message: Seq<u8>,
    session: u32,
    sequence: u32,
    message_id: u32,
    index: int,
)
    requires
        0 < message.len() <= MAX_BRIDGE_MESSAGE_SIZE,
        0 <= index < packets_for(message.len() as int),
        v.buffer.len() == MAX_BRIDGE_MESSAGE_SIZE,
        v.begins(fragment_packet(message, session, sequence, message_id, index)) || collecting(
            v,
            message,
            session,
            message_id,
        ),
    ensures
        ({
            let p = fragment_packet(message, session, sequence, message_id, index);
            let ready = v.ready_for(p);
            let after = v.with_packet(p);
            &&& parse_packet(packet_bytes(p)) == Ok::<PacketFields, WirePacketError>(p)
            &&& v.refusal(packet_bytes(p)) is None
            &&& collecting(after, message, session, message_id)
            &&& forall|i: u8|
                i < 8 ==> (#[trigger] marked(after.received_mask, i) <==> (marked(
                    ready.received_mask,
                    i,
                ) || i == index))
            &&& after.message() is Some <==> (forall|i: u8|
                i < packets_for(message.len() as int) ==> #[trigger] marked(
                    after.received_mask,
                    i,
                ))
            &&& after.message() is Some ==> after.message()->0 == message
        }),
{
    let p = fragment_packet(message, session, sequence, message_id, index);
    let count = packets_for(message.len() as int) as nat;
    law_fragments_are_valid(message, session, sequence, message_id, index);
    law_packet_round_trip(p);
    lemma_none_marked(count);
    let ready = v.ready_for(p);
    let after = v.with_packet(p);
    let k = index as u8;
    let bit = 1u8 << k;
    let at = index * WIRE_PAYLOAD_MAX;
    assert(collecting(ready, message, session, message_id));
    lemma_count(ready.received_mask, count);
    if marked(ready.received_mask, k) {
        assert(after == ready);
    } else {
        lemma_mark_count(ready.received_mask, k, count);
        lemma_count(ready.received_mask | bit, count);
        assert forall|i: u8| i < 8 implies (#[trigger] marked(after.received_mask, i) <==> (marked(
            ready.received_mask,
            i,
        ) || i == index)) by {
            lemma_mark(ready.received_mask, k, i);
        }
        assert forall|i: u8|
            0 <= i < count && #[trigger] marked(
                after.received_mask,
                i,
            ) implies after.buffer.subrange(
            i * WIRE_PAYLOAD_MAX,
            i * WIRE_PAYLOAD_MAX + fragment_of(message, i as int).len(),
        ) == fragment_of(message, i as int) by {
            lemma_mark(ready.received_mask, k, i);
            let part = after.buffer.subrange(
                i * WIRE_PAYLOAD_MAX,
                i * WIRE_PAYLOAD_MAX + fragment_of(message, i as int).len(),
            );
            if i == k {
                assert(part =~= fragment_of(message, index));
            } else {
                assert(marked(ready.received_mask, i));
                assert(part =~= ready.buffer.subrange(
                    i * WIRE_PAYLOAD_MAX,
                    i * WIRE_PAYLOAD_MAX + fragment_of(message, i as int).len(),
                ));
            }
        }
    }
    lemma_count(after.received_mask, count);
    if after.message() is Some {
        assert forall|j: int| 0 <= j < message.len() implies after.buffer[j] == message[j] by {
            let i = (j / (WIRE_PAYLOAD_MAX as int)) as u8;
            assert(marked(after.received_mask, i));
            let part = after.buffer.subrange(
                i * WIRE_PAYLOAD_MAX,
                i * WIRE_PAYLOAD_MAX + fragment_of(message, i as int).len(),
            );
            let off = j - i * WIRE_PAYLOAD_MAX;
            assert(part[off] == after.buffer[j]);
            assert(fragment_of(message, i as int)[off] == message[j]);
        }
        assert(after.message()->0 =~= message);
    }
}

} // verus!
