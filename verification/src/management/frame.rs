//! Transport-neutral management envelope.
//!
//! Bluetooth characteristics and serial streams carry the same logical frame.
//! Byte streams use consistent overhead byte stuffing with a zero delimiter.

use vstd::prelude::*;

use crate::bytes::{get16, le16, part, to_le16, u16_at};
use crate::checksum::{crc16, crc16_ccitt_false, law_crc16_detects_a_changed_byte};
use crate::fixed;
use crate::fixed::{bytes_in_512, bytes_in_524, bytes_in_528};

verus! {

/// The envelope version on the wire.
pub const FRAME_VERSION: u8 = 1;

/// The longest payload.
pub const FRAME_PAYLOAD_CAPACITY: usize = 512;

/// The bytes before the payload.
pub const FRAME_HEADER_LEN: usize = 10;

/// The bytes after the payload.
pub const FRAME_CRC_LEN: usize = 2;

/// The longest frame.
pub const FRAME_CAPACITY: usize = 524;

/// The longest frame once it is stuffed and delimited.
pub const STREAM_FRAME_CAPACITY: usize = 528;

/// What a frame carries.
#[derive(Clone, Copy, Debug, PartialEq, Eq, Structural)]
pub enum FrameKind {
    Request,
    Response,
    Event,
    Log,
    Update,
}

impl FrameKind {
    /// The byte that stands for the kind.
    pub open spec fn byte(self) -> u8 {
        match self {
            FrameKind::Request => 1,
            FrameKind::Response => 2,
            FrameKind::Event => 3,
            FrameKind::Log => 4,
            FrameKind::Update => 5,
        }
    }

    /// The kind that a byte stands for.
    pub open spec fn of_byte(value: u8) -> Result<FrameKind, FrameError> {
        if value == 1 {
            Ok(FrameKind::Request)
        } else if value == 2 {
            Ok(FrameKind::Response)
        } else if value == 3 {
            Ok(FrameKind::Event)
        } else if value == 4 {
            Ok(FrameKind::Log)
        } else if value == 5 {
            Ok(FrameKind::Update)
        } else {
            Err(FrameError::InvalidKind)
        }
    }

    fn to_byte(self) -> (r: u8)
        ensures
            r == self.byte(),
    {
        match self {
            Self::Request => 1,
            Self::Response => 2,
            Self::Event => 3,
            Self::Log => 4,
            Self::Update => 5,
        }
    }

    fn from_byte(value: u8) -> (r: Result<Self, FrameError>)
        ensures
            r == FrameKind::of_byte(value),
    {
        match value {
            1 => Ok(Self::Request),
            2 => Ok(Self::Response),
            3 => Ok(Self::Event),
            4 => Ok(Self::Log),
            5 => Ok(Self::Update),
            _ => Err(FrameError::InvalidKind),
        }
    }
}

/// The node that a frame is meant for or comes from.
#[derive(Clone, Copy, Debug, PartialEq, Eq, Structural)]
pub enum NodeId {
    Host,
    Device,
}

impl NodeId {
    /// The byte that stands for the node.
    pub open spec fn byte(self) -> u8 {
        match self {
            NodeId::Host => 1,
            NodeId::Device => 2,
        }
    }

    /// The node that a byte stands for.
    pub open spec fn of_byte(value: u8) -> Result<NodeId, FrameError> {
        if value == 1 {
            Ok(NodeId::Host)
        } else if value == 2 {
            Ok(NodeId::Device)
        } else {
            Err(FrameError::InvalidNode)
        }
    }

    fn to_byte(self) -> (r: u8)
        ensures
            r == self.byte(),
    {
        match self {
            Self::Host => 1,
            Self::Device => 2,
        }
    }

    fn from_byte(value: u8) -> (r: Result<Self, FrameError>)
        ensures
            r == NodeId::of_byte(value),
    {
        match value {
            1 => Ok(Self::Host),
            2 => Ok(Self::Device),
            _ => Err(FrameError::InvalidNode),
        }
    }
}

/// Why a frame was refused.
#[derive(Clone, Copy, Debug, PartialEq, Eq, Structural)]
pub enum FrameError {
    Truncated,
    InvalidMagic,
    UnsupportedVersion,
    InvalidKind,
    InvalidNode,
    InvalidLength,
    PayloadTooLarge,
    CrcMismatch,
    MalformedCobs,
}

/// A management frame.
#[derive(Clone, Debug, PartialEq, Eq)]
pub struct Frame {
    pub kind: FrameKind,
    pub request_id: u16,
    pub node: NodeId,
    pub flags: u8,
    pub payload: heapless::Vec<u8, FRAME_PAYLOAD_CAPACITY>,
}

/// What a frame says.
pub struct FrameView {
    pub kind: FrameKind,
    pub request_id: u16,
    pub node: NodeId,
    pub flags: u8,
    pub payload: Seq<u8>,
}

impl View for Frame {
    type V = FrameView;

    open spec fn view(&self) -> FrameView {
        FrameView {
            kind: self.kind,
            request_id: self.request_id,
            node: self.node,
            flags: self.flags,
            payload: bytes_in_512(self.payload),
        }
    }
}

/// The bytes of a frame before its checksum.
pub open spec fn frame_body(f: FrameView) -> Seq<u8> {
    seq![0x48u8, 0x53u8, FRAME_VERSION, f.kind.byte()] + le16(f.request_id) + seq![
        f.node.byte(),
        f.flags,
    ] + le16(f.payload.len() as u16) + f.payload
}

/// The bytes of a frame.
pub open spec fn frame_bytes(f: FrameView) -> Seq<u8> {
    frame_body(f) + le16(crc16(frame_body(f)))
}

/// The frame that these bytes are, or why they are none.
pub open spec fn parse_frame(bytes: Seq<u8>) -> Result<FrameView, FrameError> {
    let n = bytes.len() as int;
    if n < FRAME_HEADER_LEN + FRAME_CRC_LEN {
        Err(FrameError::Truncated)
    } else if bytes[0] != 0x48 || bytes[1] != 0x53 {
        Err(FrameError::InvalidMagic)
    } else if bytes[2] != FRAME_VERSION {
        Err(FrameError::UnsupportedVersion)
    } else if u16_at(bytes, 8) > FRAME_PAYLOAD_CAPACITY {
        Err(FrameError::PayloadTooLarge)
    } else if n != FRAME_HEADER_LEN + u16_at(bytes, 8) + FRAME_CRC_LEN {
        Err(FrameError::InvalidLength)
    } else if crc16(bytes.subrange(0, n - 2)) != u16_at(bytes, n - 2) {
        Err(FrameError::CrcMismatch)
    } else if FrameKind::of_byte(bytes[3]) is Err {
        Err(FrameError::InvalidKind)
    } else if NodeId::of_byte(bytes[6]) is Err {
        Err(FrameError::InvalidNode)
    } else {
        Ok(
            FrameView {
                kind: FrameKind::of_byte(bytes[3])->Ok_0,
                request_id: u16_at(bytes, 4),
                node: NodeId::of_byte(bytes[6])->Ok_0,
                flags: bytes[7],
                payload: bytes.subrange(10, n - 2),
            },
        )
    }
}

/// What a result says, with the frame taken by its view.
pub open spec fn frame_result(r: Result<Frame, FrameError>) -> Result<FrameView, FrameError> {
    match r {
        Ok(frame) => Ok(frame@),
        Err(error) => Err(error),
    }
}

impl Frame {
    /// Whether the payload is within its capacity, as every payload is.
    pub open spec fn wf(&self) -> bool {
        self@.payload.len() <= FRAME_PAYLOAD_CAPACITY
    }

    /// A frame around `payload`, unless that is too long.
    pub fn new(
        kind: FrameKind,
        request_id: u16,
        node: NodeId,
        flags: u8,
        payload: &[u8],
    ) -> (r: Result<Self, FrameError>)
        ensures
            payload@.len() <= FRAME_PAYLOAD_CAPACITY ==> r is Ok && r->Ok_0@ == (FrameView {
                kind,
                request_id,
                node,
                flags,
                payload: payload@,
            }),
            payload@.len() > FRAME_PAYLOAD_CAPACITY ==> r is Err && r->Err_0
                == FrameError::PayloadTooLarge,
    {
        let mut owned = fixed::new_512();
        match fixed::extend(&mut owned, payload) {
            Err(_) => Err(FrameError::PayloadTooLarge),
            Ok(_) => {
                assert(bytes_in_512(owned) =~= payload@);
                Ok(Self { kind, request_id, node, flags, payload: owned })
            },
        }
    }

    /// The frame's bytes.
    pub fn encode(&self) -> (r: heapless::Vec<u8, FRAME_CAPACITY>)
        ensures
            bytes_in_524(r) == frame_bytes(self@),
            self.wf(),
    {
        let payload = fixed::items(&self.payload);
        let mut bytes = fixed::new_524();
        let id = to_le16(self.request_id);
        let length = to_le16(payload.len() as u16);
        let header: [u8; 10] = [
            0x48,
            0x53,
            FRAME_VERSION,
            self.kind.to_byte(),
            id[0],
            id[1],
            self.node.to_byte(),
            self.flags,
            length[0],
            length[1],
        ];
        let _ = fixed::extend(&mut bytes, &header);
        let _ = fixed::extend(&mut bytes, payload);
        assert(bytes_in_524(bytes) =~= frame_body(self@));
        let crc: u16 = crc16_ccitt_false(fixed::items(&bytes));
        let _ = fixed::extend(&mut bytes, &to_le16(crc));
        bytes
    }

    /// The frame that `bytes` are.
    pub fn decode(bytes: &[u8]) -> (r: Result<Self, FrameError>)
        ensures
            frame_result(r) == parse_frame(bytes@),
    {
        let n: usize = bytes.len();
        if n < FRAME_HEADER_LEN + FRAME_CRC_LEN {
            return Err(FrameError::Truncated);
        }
        if bytes[0] != 0x48 || bytes[1] != 0x53 {
            return Err(FrameError::InvalidMagic);
        }
        if bytes[2] != FRAME_VERSION {
            return Err(FrameError::UnsupportedVersion);
        }
        let payload_len: usize = get16(bytes, 8) as usize;
        if payload_len > FRAME_PAYLOAD_CAPACITY {
            return Err(FrameError::PayloadTooLarge);
        }
        if n != FRAME_HEADER_LEN + payload_len + FRAME_CRC_LEN {
            return Err(FrameError::InvalidLength);
        }
        let body_end: usize = n - FRAME_CRC_LEN;
        let expected: u16 = get16(bytes, body_end);
        if crc16_ccitt_false(part(bytes, 0, body_end)) != expected {
            return Err(FrameError::CrcMismatch);
        }
        let kind = match FrameKind::from_byte(bytes[3]) {
            Ok(kind) => kind,
            Err(error) => return Err(error),
        };
        let node = match NodeId::from_byte(bytes[6]) {
            Ok(node) => node,
            Err(error) => return Err(error),
        };
        Self::new(kind, get16(bytes, 4), node, bytes[7], part(bytes, FRAME_HEADER_LEN, body_end))
    }
}

/// A frame's bytes decode to the frame.
pub proof fn law_frame_round_trip(f: FrameView)
    requires
        f.payload.len() <= FRAME_PAYLOAD_CAPACITY,
    ensures
        parse_frame(frame_bytes(f)) == Ok::<FrameView, FrameError>(f),
{
    let body = frame_body(f);
    let bytes = frame_bytes(f);
    let n = bytes.len() as int;
    assert(le16(f.request_id).len() == 2);
    assert(body.len() == 10 + f.payload.len());
    assert(bytes.subrange(0, n - 2) =~= body);
    assert(bytes.subrange(10, n - 2) =~= f.payload);
    assert(bytes[8] == le16(f.payload.len() as u16)[0]);
    assert(bytes[9] == le16(f.payload.len() as u16)[1]);
    assert(bytes[4] == le16(f.request_id)[0]);
    assert(bytes[5] == le16(f.request_id)[1]);
    assert(bytes[n - 2] == le16(crc16(body))[0]);
    assert(bytes[n - 1] == le16(crc16(body))[1]);
    assert(bytes[3] == f.kind.byte());
    assert(bytes[6] == f.node.byte());
    assert(bytes[7] == f.flags);
}

/// A frame of which one byte of the payload was changed on the way is refused
/// by its checksum.
pub proof fn law_frame_corruption(f: FrameView, at: int, byte: u8)
    requires
        f.payload.len() <= FRAME_PAYLOAD_CAPACITY,
        FRAME_HEADER_LEN <= at < FRAME_HEADER_LEN + f.payload.len(),
        byte != frame_bytes(f)[at],
    ensures
        parse_frame(frame_bytes(f).update(at, byte)) == Err::<FrameView, FrameError>(
            FrameError::CrcMismatch,
        ),
{
    law_frame_round_trip(f);
    let bytes = frame_bytes(f);
    let changed = bytes.update(at, byte);
    let n = bytes.len() as int;
    assert(changed.subrange(0, n - 2) =~= bytes.subrange(0, n - 2).update(at, byte));
    assert(bytes.subrange(0, n - 2)[at] == bytes[at]);
    law_crc16_detects_a_changed_byte(bytes.subrange(0, n - 2), at, byte);
}

/// How many of the first `limit` bytes come before the first zero.
pub open spec fn nonzero_run(data: Seq<u8>, limit: nat) -> nat
    decreases limit,
{
    if limit == 0 || data.len() == 0 || data[0] == 0 {
        0
    } else {
        1 + nonzero_run(data.skip(1), (limit - 1) as nat)
    }
}

/// `data` in consistent overhead byte stuffing, without the delimiter: groups
/// of up to 254 bytes that are not zero, each after one more than its length.
/// A group of fewer than 254 bytes stands for itself and a zero after it,
/// except at the end.
pub open spec fn stuffed(data: Seq<u8>) -> Seq<u8>
    decreases data.len(),
{
    let n = nonzero_run(data, 254) as int;
    if n >= 254 {
        if data.len() < 254 {
            seq![]
        } else {
            seq![0xffu8] + data.take(254) + stuffed(data.skip(254))
        }
    } else if n < data.len() {
        seq![(n + 1) as u8] + data.take(n) + stuffed(data.skip(n + 1))
    } else {
        seq![(n + 1) as u8] + data
    }
}

/// What is left of a stream once its delimiter is off.
pub open spec fn undelimited(bytes: Seq<u8>) -> Seq<u8> {
    if bytes.len() > 0 && bytes.last() == 0 {
        bytes.drop_last()
    } else {
        bytes
    }
}

/// What `stream` stands for, after `before`, or why it is refused.
pub open spec fn unstuffed(stream: Seq<u8>, before: Seq<u8>) -> Result<Seq<u8>, FrameError>
    decreases stream.len(),
{
    if stream.len() == 0 {
        Ok(before)
    } else {
        let code = stream[0] as int;
        if code == 0 || code > stream.len() {
            Err(FrameError::MalformedCobs)
        } else {
            let data = before + stream.subrange(1, code);
            let rest = stream.skip(code);
            if data.len() > FRAME_CAPACITY {
                Err(FrameError::PayloadTooLarge)
            } else if code != 0xff && rest.len() > 0 {
                if data.len() >= FRAME_CAPACITY {
                    Err(FrameError::PayloadTooLarge)
                } else {
                    unstuffed(rest, data.push(0))
                }
            } else {
                unstuffed(rest, data)
            }
        }
    }
}

/// The frame in a delimited stream, or why there is none.
pub open spec fn parse_stream(bytes: Seq<u8>) -> Result<FrameView, FrameError> {
    match unstuffed(undelimited(bytes), seq![]) {
        Err(error) => Err(error),
        Ok(data) => parse_frame(data),
    }
}

proof fn lemma_run(data: Seq<u8>, limit: nat, n: nat)
    requires
        n <= limit,
        n <= data.len(),
        forall|i: int| 0 <= i < n ==> data[i] != 0,
        n == limit || n == data.len() || data[n as int] == 0,
    ensures
        nonzero_run(data, limit) == n,
    decreases limit,
{
    if n > 0 {
        let rest = data.skip(1);
        assert forall|i: int| 0 <= i < n - 1 implies rest[i] != 0 by {
            assert(rest[i] == data[i + 1]);
        }
        lemma_run(rest, (limit - 1) as nat, (n - 1) as nat);
    }
}

proof fn lemma_run_is(data: Seq<u8>, limit: nat)
    ensures
        nonzero_run(data, limit) <= limit,
        nonzero_run(data, limit) <= data.len(),
        forall|i: int| 0 <= i < nonzero_run(data, limit) ==> data[i] != 0,
        nonzero_run(data, limit) < limit && nonzero_run(data, limit) < data.len()
            ==> data[nonzero_run(data, limit) as int] == 0,
    decreases limit,
{
    if limit == 0 || data.len() == 0 || data[0] == 0 {
    } else {
        lemma_run_is(data.skip(1), (limit - 1) as nat);
        let m = nonzero_run(data.skip(1), (limit - 1) as nat) as int;
        assert forall|i: int| 0 <= i < m + 1 implies data[i] != 0 by {
            if i > 0 {
                assert(data.skip(1)[i - 1] == data[i]);
            }
        }
        if m < limit - 1 && m + 1 < data.len() {
            assert(data.skip(1)[m] == data[m + 1]);
        }
    }
}

/// A stuffed stream holds no zero, so that a zero can end it.
pub proof fn law_stuffed_has_no_zero(data: Seq<u8>)
    ensures
        forall|i: int| 0 <= i < stuffed(data).len() ==> stuffed(data)[i] != 0,
        stuffed(data).len() > 0,
    decreases data.len(),
{
    lemma_run_is(data, 254);
    let n = nonzero_run(data, 254) as int;
    if n >= 254 {
        law_stuffed_has_no_zero(data.skip(254));
    } else if n < data.len() {
        law_stuffed_has_no_zero(data.skip(n + 1));
    }
}

proof fn lemma_unstuff(data: Seq<u8>, before: Seq<u8>)
    requires
        before.len() + data.len() <= FRAME_CAPACITY,
    ensures
        unstuffed(stuffed(data), before) == Ok::<Seq<u8>, FrameError>(before + data),
    decreases data.len(),
{
    lemma_run_is(data, 254);
    let n = nonzero_run(data, 254) as int;
    let stream = stuffed(data);
    if n >= 254 {
        let tail = stuffed(data.skip(254));
        assert(stream.skip(255) =~= tail);
        assert(stream.subrange(1, 255) =~= data.take(254));
        law_stuffed_has_no_zero(data.skip(254));
        lemma_unstuff(data.skip(254), before + data.take(254));
        assert((before + data.take(254)) + data.skip(254) =~= before + data);
    } else if n < data.len() {
        let tail = stuffed(data.skip(n + 1));
        law_stuffed_has_no_zero(data.skip(n + 1));
        assert(stream.skip(n + 1) =~= tail);
        assert(stream.subrange(1, n + 1) =~= data.take(n));
        let next = (before + data.take(n)).push(0);
        lemma_unstuff(data.skip(n + 1), next);
        assert(next + data.skip(n + 1) =~= before + data);
    } else {
        assert(stream.skip(n + 1) =~= Seq::<u8>::empty());
        assert(stream.subrange(1, n + 1) =~= data);
        assert(unstuffed(stream.skip(n + 1), before + data) == Ok::<Seq<u8>, FrameError>(
            before + data,
        ));
    }
}

/// A delimited stream of a frame gives the frame back.
pub proof fn law_stream_round_trip(f: FrameView)
    requires
        f.payload.len() <= FRAME_PAYLOAD_CAPACITY,
    ensures
        parse_stream(stuffed(frame_bytes(f)).push(0)) == Ok::<FrameView, FrameError>(f),
{
    let data = frame_bytes(f);
    assert(undelimited(stuffed(data).push(0)) =~= stuffed(data));
    lemma_unstuff(data, seq![]);
    assert(Seq::<u8>::empty() + data =~= data);
    law_frame_round_trip(f);
}

proof fn lemma_stuffed_len(data: Seq<u8>)
    ensures
        stuffed(data).len() <= data.len() + data.len() / 254 + 1,
    decreases data.len(),
{
    lemma_run_is(data, 254);
    let n = nonzero_run(data, 254) as int;
    if n >= 254 {
        lemma_stuffed_len(data.skip(254));
    } else if n < data.len() {
        lemma_stuffed_len(data.skip(n + 1));
    }
}

/// The frame in consistent overhead byte stuffing, with its delimiter.
pub fn encode_stream(frame: &Frame) -> (r: heapless::Vec<u8, STREAM_FRAME_CAPACITY>)
    ensures
        bytes_in_528(r) == stuffed(frame_bytes(frame@)).push(0),
{
    let frame_vec = frame.encode();
    let source = fixed::items(&frame_vec);
    let mut encoded = fixed::new_528();
    let mut code_index: usize = 0;
    let _ = fixed::push(&mut encoded, 0);
    let mut code: u8 = 1;
    let mut i: usize = 0;
    let ghost mut done = Seq::<u8>::empty();
    assert(source@.skip(0) =~= source@);
    assert(done + stuffed(source@) =~= stuffed(source@));
    assert(bytes_in_528(encoded) =~= done.push(0) + source@.subrange(0, 0));
    while i < source.len()
        invariant
            i <= source@.len() <= 524,
            1 <= code < 255,
            code - 1 <= i,
            code_index == done.len(),
            done + stuffed(source@.skip(i - (code - 1))) == stuffed(source@),
            bytes_in_528(encoded) == done.push(0) + source@.subrange(i - (code - 1), i as int),
            forall|j: int| i - (code - 1) <= j < i ==> source@[j] != 0,
            done.len() <= (i - (code - 1)) + (i - (code - 1)) / 254,
        decreases source@.len() - i,
    {
        let byte: u8 = source[i];
        let ghost from = i - (code - 1);
        let ghost data = source@.skip(from);
        let ghost before = done;
        if byte == 0 {
            proof {
                assert forall|j: int| 0 <= j < code - 1 implies data[j] != 0 by {
                    assert(data[j] == source@[from + j]);
                }
                assert(data[code - 1] == 0);
                lemma_run(data, 254, (code - 1) as nat);
                done = before + (seq![code] + data.take(code - 1));
                assert(data.skip(code as int) =~= source@.skip(i + 1));
                assert(done + stuffed(source@.skip(i + 1)) =~= before + stuffed(data));
            }
            fixed::set(&mut encoded, code_index, code);
            assert(bytes_in_528(encoded) =~= done);
            code_index = fixed::items(&encoded).len();
            let _ = fixed::push(&mut encoded, 0);
            code = 1;
            assert(bytes_in_528(encoded) =~= done.push(0) + source@.subrange(i + 1, i + 1));
        } else {
            let _ = fixed::push(&mut encoded, byte);
            code += 1;
            assert(bytes_in_528(encoded) =~= before.push(0) + source@.subrange(from, i + 1));
            if code == 0xff {
                proof {
                    assert forall|j: int| 0 <= j < 254 implies data[j] != 0 by {
                        assert(data[j] == source@[from + j]);
                    }
                    lemma_run(data, 254, 254);
                    done = before + (seq![0xffu8] + data.take(254));
                    assert(data.skip(254) =~= source@.skip(i + 1));
                    assert(done + stuffed(source@.skip(i + 1)) =~= before + stuffed(data));
                }
                fixed::set(&mut encoded, code_index, code);
                assert(bytes_in_528(encoded) =~= done);
                code_index = fixed::items(&encoded).len();
                let _ = fixed::push(&mut encoded, 0);
                code = 1;
                assert(bytes_in_528(encoded) =~= done.push(0) + source@.subrange(i + 1, i + 1));
            }
        }
        i += 1;
    }
    proof {
        let from = i - (code - 1);
        let data = source@.skip(from);
        assert forall|j: int| 0 <= j < code - 1 implies data[j] != 0 by {
            assert(data[j] == source@[from + j]);
        }
        lemma_run(data, 254, (code - 1) as nat);
        assert(source@.subrange(from, i as int) =~= data);
    }
    fixed::set(&mut encoded, code_index, code);
    assert(bytes_in_528(encoded) =~= stuffed(source@));
    proof {
        lemma_stuffed_len(source@);
    }
    let _ = fixed::push(&mut encoded, 0);
    encoded
}

/// The frame in a stuffed stream, with or without its delimiter.
pub fn decode_stream(bytes: &[u8]) -> (r: Result<Frame, FrameError>)
    ensures
        frame_result(r) == parse_stream(bytes@),
{
    let mut n: usize = bytes.len();
    if n > 0 && bytes[n - 1] == 0 {
        n -= 1;
    }
    let encoded = part(bytes, 0, n);
    assert(encoded@ =~= undelimited(bytes@));
    let mut decoded = fixed::new_524();
    let mut index: usize = 0;
    assert(encoded@.skip(0) =~= encoded@);
    while index < encoded.len()
        invariant
            index <= encoded@.len(),
            encoded@.len() == n,
            encoded@ == undelimited(bytes@),
            bytes_in_524(decoded).len() <= 524,
            unstuffed(encoded@.skip(index as int), bytes_in_524(decoded)) == unstuffed(
                encoded@,
                seq![],
            ),
        decreases encoded@.len() - index,
    {
        let ghost stream = encoded@.skip(index as int);
        let ghost before = bytes_in_524(decoded);
        let code: usize = encoded[index] as usize;
        if code == 0 || code > n - index {
            return Err(FrameError::MalformedCobs);
        }
        index += 1;
        let end: usize = index + (code - 1);
        assert(stream.subrange(1, code as int) =~= encoded@.subrange(index as int, end as int));
        assert(stream.skip(code as int) =~= encoded@.skip(end as int));
        match fixed::extend(&mut decoded, part(encoded, index, end)) {
            Ok(_) => {},
            Err(_) => {
                return Err(FrameError::PayloadTooLarge);
            },
        }
        index = end;
        if code != 0xff && index < encoded.len() {
            match fixed::push(&mut decoded, 0) {
                Ok(_) => {},
                Err(_) => {
                    return Err(FrameError::PayloadTooLarge);
                },
            }
        }
    }
    assert(encoded@.skip(index as int) =~= Seq::<u8>::empty());
    Frame::decode(fixed::items(&decoded))
}

} // verus!
