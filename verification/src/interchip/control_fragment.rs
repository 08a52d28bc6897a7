//! Control requests and their answers, cut to fit one cell each.

use vstd::prelude::*;

use super::message::{
    ControlRequestView, ControlResponseView, ControlStatus, MessageError, MirrorControlRequest,
    MirrorControlResponse, CONTROL_DATA_MAX_LEN,
};
use crate::bytes::{
    get16, get32, le16, le32, lemma_u16_in, lemma_u32_in, padded, part, same_bytes, splice,
    to_le16, to_le32, u16_at, u32_at, write_at, write_front, zeros,
};

verus! {

/// The first fragment.
pub const CONTROL_FRAGMENT_FIRST: u8 = 1;

/// The last fragment.
pub const CONTROL_FRAGMENT_LAST: u8 = 2;

/// The longest data of a fragment: record headers and alignment must also fit
/// the payload of a cell.
pub const CONTROL_FRAGMENT_DATA_MAX_LEN: usize = 86;

pub const CONTROL_REQUEST_FRAGMENT_HEADER_LEN: usize = 18;

pub const CONTROL_RESPONSE_FRAGMENT_HEADER_LEN: usize = 10;

pub const CONTROL_REQUEST_FRAGMENT_MAX_WIRE_LEN: usize = 104;

pub const CONTROL_RESPONSE_FRAGMENT_MAX_WIRE_LEN: usize = 96;

/// Why a fragment was refused.
#[derive(Clone, Copy, Debug, PartialEq, Eq, Structural)]
pub enum ControlFragmentError {
    Malformed,
    OutOfOrder,
    TooLarge,
}

/// Whether the flags say that the fragment is the first.
pub open spec fn is_first(flags: u8) -> bool {
    flags % 2 == 1
}

/// Whether the flags say that the fragment is the last.
pub open spec fn is_last(flags: u8) -> bool {
    (flags / 2) % 2 == 1
}

/// Where the fragment at `offset` of `total` bytes ends.
pub open spec fn fragment_end(total: int, offset: int) -> int {
    if offset + CONTROL_FRAGMENT_DATA_MAX_LEN < total {
        offset + CONTROL_FRAGMENT_DATA_MAX_LEN
    } else {
        total
    }
}

/// The flags of the fragment at `offset` of `total` bytes.
pub open spec fn flags_at(total: int, offset: int) -> u8 {
    ((if offset == 0 {
        1int
    } else {
        0
    }) + (if fragment_end(total, offset) == total {
        2int
    } else {
        0
    })) as u8
}

/// Why there is no fragment at `offset` of `total` bytes, where there is none.
pub open spec fn bounds_error(total: int, offset: int) -> Option<ControlFragmentError> {
    if offset > total {
        Some(ControlFragmentError::TooLarge)
    } else if total != 0 && offset == total {
        Some(ControlFragmentError::OutOfOrder)
    } else {
        None
    }
}

/// Whether the flags, place and length of a fragment go together.
pub open spec fn fragment_valid(flags: u8, offset: int, total: int, len: int) -> bool {
    &&& flags <= 3
    &&& total <= CONTROL_DATA_MAX_LEN
    &&& offset + len <= total
    &&& is_first(flags) == (offset == 0)
    &&& is_last(flags) == (offset + len == total)
}

fn fragment_bounds(total_length: usize, offset: usize) -> (r: Result<(), ControlFragmentError>)
    requires
        total_length <= CONTROL_DATA_MAX_LEN,
    ensures
        bounds_error(total_length as int, offset as int) is None ==> r is Ok,
        bounds_error(total_length as int, offset as int) is Some ==> r == Err::<
            (),
            ControlFragmentError,
        >(bounds_error(total_length as int, offset as int)->0),
{
    if offset > total_length {
        return Err(ControlFragmentError::TooLarge);
    }
    if total_length != 0 && offset == total_length {
        return Err(ControlFragmentError::OutOfOrder);
    }
    Ok(())
}

fn fragment_flags(offset: usize, end: usize, total_length: usize) -> (r: u8)
    requires
        total_length <= CONTROL_DATA_MAX_LEN,
        end == fragment_end(total_length as int, offset as int),
    ensures
        r == flags_at(total_length as int, offset as int),
{
    let mut flags: u8 = 0;
    if offset == 0 {
        flags += CONTROL_FRAGMENT_FIRST;
    }
    if end == total_length {
        flags += CONTROL_FRAGMENT_LAST;
    }
    flags
}

fn validate_fragment(flags: u8, offset: u16, total_length: u16, data_length: usize) -> (r: Result<
    (),
    ControlFragmentError,
>)
    requires
        data_length <= CONTROL_FRAGMENT_DATA_MAX_LEN,
    ensures
        r is Ok <==> fragment_valid(
            flags,
            offset as int,
            total_length as int,
            data_length as int,
        ),
        r is Err ==> r->Err_0 == ControlFragmentError::Malformed,
{
    let end: usize = offset as usize + data_length;
    let total: usize = total_length as usize;
    if flags > 3 || total > CONTROL_DATA_MAX_LEN || end > total || (flags % 2 == 1) != (offset == 0)
        || ((flags / 2) % 2 == 1) != (end == total) {
        return Err(ControlFragmentError::Malformed);
    }
    Ok(())
}

/// Copies `data` to the front of a buffer of zeros.
fn fragment_buffer(data: &[u8]) -> (r: [u8; CONTROL_FRAGMENT_DATA_MAX_LEN])
    requires
        data@.len() <= CONTROL_FRAGMENT_DATA_MAX_LEN,
    ensures
        r@ == padded(data@, CONTROL_FRAGMENT_DATA_MAX_LEN as nat),
        r@.take(data@.len() as int) == data@,
{
    let mut r = [0u8; CONTROL_FRAGMENT_DATA_MAX_LEN];
    write_at(&mut r, 0, data);
    assert(r@ =~= padded(data@, CONTROL_FRAGMENT_DATA_MAX_LEN as nat));
    assert(r@.take(data@.len() as int) =~= data@);
    r
}

/// A part of a control request.
#[derive(Clone, Copy, Debug, PartialEq, Eq)]
pub struct ControlRequestFragment {
    pub request_id: u32,
    pub setup_packet: [u8; 8],
    pub offset: u16,
    pub total_length: u16,
    pub flags: u8,
    pub(crate) length: u8,
    pub(crate) data: [u8; CONTROL_FRAGMENT_DATA_MAX_LEN],
}

/// What a part of a control request says.
pub struct RequestFragmentView {
    pub request_id: u32,
    pub setup_packet: Seq<u8>,
    pub offset: u16,
    pub total_length: u16,
    pub flags: u8,
    pub data: Seq<u8>,
}

impl View for ControlRequestFragment {
    type V = RequestFragmentView;

    open(crate) spec fn view(&self) -> RequestFragmentView {
        RequestFragmentView {
            request_id: self.request_id,
            setup_packet: self.setup_packet@,
            offset: self.offset,
            total_length: self.total_length,
            flags: self.flags,
            data: self.data@.take(self.length as int),
        }
    }
}

impl RequestFragmentView {
    /// The part of a request at `offset`.
    pub open spec fn of(request: ControlRequestView, offset: int) -> RequestFragmentView {
        let total = request.data.len() as int;
        RequestFragmentView {
            request_id: request.request_id,
            setup_packet: request.setup_packet,
            offset: offset as u16,
            total_length: total as u16,
            flags: flags_at(total, offset),
            data: request.data.subrange(offset, fragment_end(total, offset)),
        }
    }

    /// The bytes of the part.
    pub open spec fn wire(self) -> Seq<u8> {
        le32(self.request_id) + seq![self.flags, 0u8] + le16(self.offset) + le16(self.total_length)
            + self.setup_packet + self.data
    }

    /// The part that these bytes are.
    pub open spec fn parse(bytes: Seq<u8>) -> Result<RequestFragmentView, ControlFragmentError> {
        let len = bytes.len() - CONTROL_REQUEST_FRAGMENT_HEADER_LEN;
        if len < 0 || bytes[5] != 0 || len > CONTROL_FRAGMENT_DATA_MAX_LEN || !fragment_valid(
            bytes[4],
            u16_at(bytes, 6) as int,
            u16_at(bytes, 8) as int,
            len,
        ) {
            Err(ControlFragmentError::Malformed)
        } else {
            Ok(
                RequestFragmentView {
                    request_id: u32_at(bytes, 0),
                    setup_packet: bytes.subrange(10, 18),
                    offset: u16_at(bytes, 6),
                    total_length: u16_at(bytes, 8),
                    flags: bytes[4],
                    data: bytes.skip(18),
                },
            )
        }
    }

    /// A part whose fields go together is read back as it was written.
    pub proof fn law_round_trip(self)
        requires
            self.setup_packet.len() == 8,
            self.data.len() <= CONTROL_FRAGMENT_DATA_MAX_LEN,
            fragment_valid(
                self.flags,
                self.offset as int,
                self.total_length as int,
                self.data.len() as int,
            ),
        ensures
            RequestFragmentView::parse(self.wire()) == Ok::<
                RequestFragmentView,
                ControlFragmentError,
            >(self),
    {
        let bytes = self.wire();
        assert(bytes.subrange(0, 4) =~= le32(self.request_id));
        assert(bytes.subrange(6, 8) =~= le16(self.offset));
        assert(bytes.subrange(8, 10) =~= le16(self.total_length));
        assert(bytes.subrange(10, 18) =~= self.setup_packet);
        lemma_u32_in(bytes, 0, self.request_id);
        lemma_u16_in(bytes, 6, self.offset);
        lemma_u16_in(bytes, 8, self.total_length);
        assert(bytes.skip(18) =~= self.data);
    }
}

/// What a result says, with the fragment taken by its view.
pub open spec fn request_fragment_result(
    r: Result<ControlRequestFragment, ControlFragmentError>,
) -> Result<RequestFragmentView, ControlFragmentError> {
    match r {
        Ok(fragment) => Ok(fragment@),
        Err(error) => Err(error),
    }
}

impl ControlRequestFragment {
    /// The length is within the buffer, and the bytes behind it are zero.
    pub open(crate) spec fn wf(&self) -> bool {
        &&& self.length <= CONTROL_FRAGMENT_DATA_MAX_LEN
        &&& self.data@ == padded(self@.data, CONTROL_FRAGMENT_DATA_MAX_LEN as nat)
    }

    /// The part of a request at `offset`.
    pub fn from_request(request: MirrorControlRequest, offset: usize) -> (r: Result<
        Self,
        ControlFragmentError,
    >)
        requires
            request.wf(),
        ensures
            ({
                let error = bounds_error(request@.data.len() as int, offset as int);
                &&& error is Some ==> r is Err && r->Err_0 == error->0
                &&& error is None ==> r is Ok && r->Ok_0.wf() && r->Ok_0@
                    == RequestFragmentView::of(request@, offset as int)
            }),
    {
        let data = request.data();
        match fragment_bounds(data.len(), offset) {
            Ok(_) => {},
            Err(error) => {
                return Err(error);
            },
        }
        let end: usize = if offset + CONTROL_FRAGMENT_DATA_MAX_LEN < data.len() {
            offset + CONTROL_FRAGMENT_DATA_MAX_LEN
        } else {
            data.len()
        };
        Ok(
            Self {
                request_id: request.request_id,
                setup_packet: request.setup_packet,
                offset: offset as u16,
                total_length: data.len() as u16,
                flags: fragment_flags(offset, end, data.len()),
                length: (end - offset) as u8,
                data: fragment_buffer(part(data, offset, end)),
            },
        )
    }

    /// The part's data.
    pub fn data(&self) -> (r: &[u8])
        requires
            self.wf(),
        ensures
            r@ == self@.data,
            r@.len() <= CONTROL_FRAGMENT_DATA_MAX_LEN,
    {
        let r = part(&self.data, 0, self.length as usize);
        assert(r@ =~= self@.data);
        r
    }

    /// Writes the part to the front of `out` and says how long it is.
    pub fn encode(self, out: &mut [u8]) -> (r: Result<usize, MessageError>)
        requires
            self.wf(),
        ensures
            self@.wire().len() <= old(out)@.len() ==> r == Ok::<usize, MessageError>(
                self@.wire().len() as usize,
            ) && final(out)@ == self@.wire() + old(out)@.skip(self@.wire().len() as int),
            self@.wire().len() > old(out)@.len() ==> r == Err::<usize, MessageError>(
                MessageError::InvalidLength,
            ) && final(out)@ == old(out)@,
    {
        let data = self.data();
        let length: usize = CONTROL_REQUEST_FRAGMENT_HEADER_LEN + data.len();
        if out.len() < length {
            return Err(MessageError::InvalidLength);
        }
        let i = to_le32(self.request_id);
        let o = to_le16(self.offset);
        let t = to_le16(self.total_length);
        let p = self.setup_packet;
        let head: [u8; 18] = [
            i[0], i[1], i[2], i[3], self.flags, 0, o[0], o[1], t[0], t[1], p[0], p[1], p[2], p[3],
            p[4], p[5], p[6], p[7],
        ];
        write_front(out, &head, data);
        assert(head@ + data@ =~= self@.wire());
        Ok(length)
    }

    /// The part that `bytes` are.
    pub fn decode(bytes: &[u8]) -> (r: Result<Self, ControlFragmentError>)
        ensures
            request_fragment_result(r) == RequestFragmentView::parse(bytes@),
            r is Ok ==> r->Ok_0.wf(),
    {
        let n: usize = bytes.len();
        if n < CONTROL_REQUEST_FRAGMENT_HEADER_LEN || bytes[5] != 0 || n
            - CONTROL_REQUEST_FRAGMENT_HEADER_LEN > CONTROL_FRAGMENT_DATA_MAX_LEN {
            return Err(ControlFragmentError::Malformed);
        }
        let offset: u16 = get16(bytes, 6);
        let total_length: u16 = get16(bytes, 8);
        let length: usize = n - CONTROL_REQUEST_FRAGMENT_HEADER_LEN;
        match validate_fragment(bytes[4], offset, total_length, length) {
            Ok(_) => {},
            Err(error) => {
                return Err(error);
            },
        }
        let setup_packet: [u8; 8] = [
            bytes[10], bytes[11], bytes[12], bytes[13], bytes[14], bytes[15], bytes[16], bytes[17],
        ];
        assert(setup_packet@ =~= bytes@.subrange(10, 18));
        let data = part(bytes, CONTROL_REQUEST_FRAGMENT_HEADER_LEN, n);
        assert(data@ =~= bytes@.skip(18));
        Ok(
            Self {
                request_id: get32(bytes, 0),
                setup_packet,
                offset,
                total_length,
                flags: bytes[4],
                length: length as u8,
                data: fragment_buffer(data),
            },
        )
    }
}

/// A part of the answer to a control request.
#[derive(Clone, Copy, Debug, PartialEq, Eq)]
pub struct ControlResponseFragment {
    pub request_id: u32,
    pub status: ControlStatus,
    pub offset: u16,
    pub total_length: u16,
    pub flags: u8,
    pub(crate) length: u8,
    pub(crate) data: [u8; CONTROL_FRAGMENT_DATA_MAX_LEN],
}

/// What a part of the answer to a control request says.
pub struct ResponseFragmentView {
    pub request_id: u32,
    pub status: ControlStatus,
    pub offset: u16,
    pub total_length: u16,
    pub flags: u8,
    pub data: Seq<u8>,
}

impl View for ControlResponseFragment {
    type V = ResponseFragmentView;

    open(crate) spec fn view(&self) -> ResponseFragmentView {
        ResponseFragmentView {
            request_id: self.request_id,
            status: self.status,
            offset: self.offset,
            total_length: self.total_length,
            flags: self.flags,
            data: self.data@.take(self.length as int),
        }
    }
}

impl ResponseFragmentView {
    /// The part of an answer at `offset`.
    pub open spec fn of(response: ControlResponseView, offset: int) -> ResponseFragmentView {
        let total = response.data.len() as int;
        ResponseFragmentView {
            request_id: response.request_id,
            status: response.status,
            offset: offset as u16,
            total_length: total as u16,
            flags: flags_at(total, offset),
            data: response.data.subrange(offset, fragment_end(total, offset)),
        }
    }

    /// The bytes of the part.
    pub open spec fn wire(self) -> Seq<u8> {
        le32(self.request_id) + seq![self.status.byte(), self.flags] + le16(self.offset) + le16(
            self.total_length,
        ) + self.data
    }

    /// The part that these bytes are.
    pub open spec fn parse(bytes: Seq<u8>) -> Result<ResponseFragmentView, ControlFragmentError> {
        let len = bytes.len() - CONTROL_RESPONSE_FRAGMENT_HEADER_LEN;
        if len < 0 || len > CONTROL_FRAGMENT_DATA_MAX_LEN || ControlStatus::of_byte(bytes[4]) is None
            || !fragment_valid(
            bytes[5],
            u16_at(bytes, 6) as int,
            u16_at(bytes, 8) as int,
            len,
        ) {
            Err(ControlFragmentError::Malformed)
        } else {
            Ok(
                ResponseFragmentView {
                    request_id: u32_at(bytes, 0),
                    status: ControlStatus::of_byte(bytes[4])->0,
                    offset: u16_at(bytes, 6),
                    total_length: u16_at(bytes, 8),
                    flags: bytes[5],
                    data: bytes.skip(10),
                },
            )
        }
    }

    /// A part whose fields go together is read back as it was written.
    pub proof fn law_round_trip(self)
        requires
            self.data.len() <= CONTROL_FRAGMENT_DATA_MAX_LEN,
            fragment_valid(
                self.flags,
                self.offset as int,
                self.total_length as int,
                self.data.len() as int,
            ),
        ensures
            ResponseFragmentView::parse(self.wire()) == Ok::<
                ResponseFragmentView,
                ControlFragmentError,
            >(self),
    {
        let bytes = self.wire();
        assert(bytes.subrange(0, 4) =~= le32(self.request_id));
        assert(bytes.subrange(6, 8) =~= le16(self.offset));
        assert(bytes.subrange(8, 10) =~= le16(self.total_length));
        lemma_u32_in(bytes, 0, self.request_id);
        lemma_u16_in(bytes, 6, self.offset);
        lemma_u16_in(bytes, 8, self.total_length);
        assert(bytes.skip(10) =~= self.data);
    }
}

/// What a result says, with the fragment taken by its view.
pub open spec fn response_fragment_result(
    r: Result<ControlResponseFragment, ControlFragmentError>,
) -> Result<ResponseFragmentView, ControlFragmentError> {
    match r {
        Ok(fragment) => Ok(fragment@),
        Err(error) => Err(error),
    }
}

impl ControlResponseFragment {
    /// The length is within the buffer, and the bytes behind it are zero.
    pub open(crate) spec fn wf(&self) -> bool {
        &&& self.length <= CONTROL_FRAGMENT_DATA_MAX_LEN
        &&& self.data@ == padded(self@.data, CONTROL_FRAGMENT_DATA_MAX_LEN as nat)
    }

    /// The part of an answer at `offset`.
    pub fn from_response(response: MirrorControlResponse, offset: usize) -> (r: Result<
        Self,
        ControlFragmentError,
    >)
        requires
            response.wf(),
        ensures
            ({
                let error = bounds_error(response@.data.len() as int, offset as int);
                &&& error is Some ==> r is Err && r->Err_0 == error->0
                &&& error is None ==> r is Ok && r->Ok_0.wf() && r->Ok_0@
                    == ResponseFragmentView::of(response@, offset as int)
            }),
    {
        let data = response.data();
        match fragment_bounds(data.len(), offset) {
            Ok(_) => {},
            Err(error) => {
                return Err(error);
            },
        }
        let end: usize = if offset + CONTROL_FRAGMENT_DATA_MAX_LEN < data.len() {
            offset + CONTROL_FRAGMENT_DATA_MAX_LEN
        } else {
            data.len()
        };
        Ok(
            Self {
                request_id: response.request_id,
                status: response.status,
                offset: offset as u16,
                total_length: data.len() as u16,
                flags: fragment_flags(offset, end, data.len()),
                length: (end - offset) as u8,
                data: fragment_buffer(part(data, offset, end)),
            },
        )
    }

    /// The part's data.
    pub fn data(&self) -> (r: &[u8])
        requires
            self.wf(),
        ensures
            r@ == self@.data,
            r@.len() <= CONTROL_FRAGMENT_DATA_MAX_LEN,
    {
        let r = part(&self.data, 0, self.length as usize);
        assert(r@ =~= self@.data);
        r
    }

    /// Writes the part to the front of `out` and says how long it is.
    pub fn encode(self, out: &mut [u8]) -> (r: Result<usize, MessageError>)
        requires
            self.wf(),
        ensures
            self@.wire().len() <= old(out)@.len() ==> r == Ok::<usize, MessageError>(
                self@.wire().len() as usize,
            ) && final(out)@ == self@.wire() + old(out)@.skip(self@.wire().len() as int),
            self@.wire().len() > old(out)@.len() ==> r == Err::<usize, MessageError>(
                MessageError::InvalidLength,
            ) && final(out)@ == old(out)@,
    {
        let data = self.data();
        let length: usize = CONTROL_RESPONSE_FRAGMENT_HEADER_LEN + data.len();
        if out.len() < length {
            return Err(MessageError::InvalidLength);
        }
        let i = to_le32(self.request_id);
        let o = to_le16(self.offset);
        let t = to_le16(self.total_length);
        let head: [u8; 10] = [
            i[0], i[1], i[2], i[3], self.status.to_byte(), self.flags, o[0], o[1], t[0], t[1],
        ];
        write_front(out, &head, data);
        assert(head@ + data@ =~= self@.wire());
        Ok(length)
    }

    /// The part that `bytes` are.
    pub fn decode(bytes: &[u8]) -> (r: Result<Self, ControlFragmentError>)
        ensures
            response_fragment_result(r) == ResponseFragmentView::parse(bytes@),
            r is Ok ==> r->Ok_0.wf(),
    {
        let n: usize = bytes.len();
        if n < CONTROL_RESPONSE_FRAGMENT_HEADER_LEN || n - CONTROL_RESPONSE_FRAGMENT_HEADER_LEN
            > CONTROL_FRAGMENT_DATA_MAX_LEN {
            return Err(ControlFragmentError::Malformed);
        }
        let status = match ControlStatus::from_byte(bytes[4]) {
            Some(status) => status,
            None => {
                return Err(ControlFragmentError::Malformed);
            },
        };
        let offset: u16 = get16(bytes, 6);
        let total_length: u16 = get16(bytes, 8);
        let length: usize = n - CONTROL_RESPONSE_FRAGMENT_HEADER_LEN;
        match validate_fragment(bytes[5], offset, total_length, length) {
            Ok(_) => {},
            Err(error) => {
                return Err(error);
            },
        }
        let data = part(bytes, CONTROL_RESPONSE_FRAGMENT_HEADER_LEN, n);
        assert(data@ =~= bytes@.skip(10));
        Ok(
            Self {
                request_id: get32(bytes, 0),
                status,
                offset,
                total_length,
                flags: bytes[5],
                length: length as u8,
                data: fragment_buffer(data),
            },
        )
    }
}

/// Puts a control request together from its parts, which must come in order.
#[derive(Clone, Copy, Debug, PartialEq, Eq)]
pub struct ControlRequestAssembler {
    request_id: Option<u32>,
    setup_packet: [u8; 8],
    total_length: u16,
    next_offset: u16,
    data: [u8; CONTROL_DATA_MAX_LEN],
}

/// What an assembler has so far.
pub struct RequestAssemblerView {
    pub request_id: Option<u32>,
    pub setup_packet: Seq<u8>,
    pub total_length: u16,
    pub next_offset: u16,
    pub data: Seq<u8>,
}

impl View for ControlRequestAssembler {
    type V = RequestAssemblerView;

    closed spec fn view(&self) -> RequestAssemblerView {
        RequestAssemblerView {
            request_id: self.request_id,
            setup_packet: self.setup_packet@,
            total_length: self.total_length,
            next_offset: self.next_offset,
            data: self.data@,
        }
    }
}

impl RequestAssemblerView {
    /// The assembler with nothing in the works.
    pub open spec fn idle(self) -> RequestAssemblerView {
        RequestAssemblerView { request_id: None, total_length: 0, next_offset: 0, ..self }
    }

    /// The assembler ready for a part: a first part begins another request.
    pub open spec fn ready_for(self, f: RequestFragmentView) -> RequestAssemblerView {
        if is_first(f.flags) {
            RequestAssemblerView {
                request_id: Some(f.request_id),
                setup_packet: f.setup_packet,
                total_length: f.total_length,
                next_offset: 0,
                data: self.data,
            }
        } else {
            self
        }
    }

    /// The assembler after a part, and what the part leads to: nothing yet, the
    /// whole request with the last part, or an error where the part does not
    /// continue what is in the works, which is then dropped.
    pub open spec fn pushed(self, f: RequestFragmentView) -> (
        RequestAssemblerView,
        Result<Option<ControlRequestView>, ControlFragmentError>,
    ) {
        let ready = self.ready_for(f);
        if ready.request_id != Some(f.request_id) || ready.setup_packet != f.setup_packet
            || ready.total_length != f.total_length || ready.next_offset != f.offset {
            (ready.idle(), Err(ControlFragmentError::OutOfOrder))
        } else {
            let end = f.offset + f.data.len();
            let next = RequestAssemblerView {
                data: splice(ready.data, f.offset as int, f.data),
                next_offset: end as u16,
                ..ready
            };
            if is_last(f.flags) {
                (
                    next.idle(),
                    Ok(
                        Some(
                            ControlRequestView {
                                request_id: f.request_id,
                                setup_packet: f.setup_packet,
                                data: next.data.take(end),
                            },
                        ),
                    ),
                )
            } else {
                (next, Ok(None))
            }
        }
    }
}

/// What a result says, with the request taken by its view.
pub open spec fn request_push_result(
    r: Result<Option<MirrorControlRequest>, ControlFragmentError>,
) -> Result<Option<ControlRequestView>, ControlFragmentError> {
    match r {
        Ok(Some(request)) => Ok(Some(request@)),
        Ok(None) => Ok(None),
        Err(error) => Err(error),
    }
}

impl ControlRequestAssembler {
    /// The buffer has room for the longest data.
    pub proof fn lemma_view(&self)
        ensures
            self@.data.len() == CONTROL_DATA_MAX_LEN,
            self@.setup_packet.len() == 8,
    {
    }

    /// An assembler with nothing in the works.
    pub fn new() -> (r: Self)
        ensures
            r@ == (RequestAssemblerView {
                request_id: None,
                setup_packet: zeros(8),
                total_length: 0,
                next_offset: 0,
                data: zeros(CONTROL_DATA_MAX_LEN as nat),
            }),
    {
        let r = Self {
            request_id: None,
            setup_packet: [0; 8],
            total_length: 0,
            next_offset: 0,
            data: [0; CONTROL_DATA_MAX_LEN],
        };
        assert(r@.setup_packet =~= zeros(8));
        assert(r@.data =~= zeros(CONTROL_DATA_MAX_LEN as nat));
        r
    }

    /// Takes in a part, and gives the request with the last one.
    pub fn push(&mut self, fragment: ControlRequestFragment) -> (r: Result<
        Option<MirrorControlRequest>,
        ControlFragmentError,
    >)
        requires
            fragment.wf(),
            old(self)@.pushed(fragment@).1 is Ok ==> fragment@.offset + fragment@.data.len()
                <= CONTROL_DATA_MAX_LEN,
        ensures
            (final(self)@, request_push_result(r)) == old(self)@.pushed(fragment@),
            r matches Ok(Some(request)) ==> request.wf(),
    {
        if fragment.flags % 2 == 1 {
            self.request_id = Some(fragment.request_id);
            self.setup_packet = fragment.setup_packet;
            self.total_length = fragment.total_length;
            self.next_offset = 0;
        }
        let same_request = match self.request_id {
            Some(request_id) => request_id == fragment.request_id,
            None => false,
        };
        if !same_request || !same_bytes(&self.setup_packet, &fragment.setup_packet)
            || self.total_length != fragment.total_length || self.next_offset != fragment.offset {
            self.reset();
            return Err(ControlFragmentError::OutOfOrder);
        }
        let data = fragment.data();
        let end: usize = fragment.offset as usize + data.len();
        write_at(&mut self.data, fragment.offset as usize, data);
        self.next_offset = end as u16;
        if (fragment.flags / 2) % 2 == 0 {
            return Ok(None);
        }
        let whole = part(&self.data, 0, end);
        assert(whole@ =~= self@.data.take(end as int));
        let request = MirrorControlRequest::new(fragment.request_id, fragment.setup_packet, whole);
        self.reset();
        match request {
            Ok(request) => Ok(Some(request)),
            Err(_) => Err(ControlFragmentError::Malformed),
        }
    }

    /// Drops what is in the works.
    pub fn reset(&mut self)
        ensures
            final(self)@ == old(self)@.idle(),
    {
        self.request_id = None;
        self.total_length = 0;
        self.next_offset = 0;
    }
}

impl Default for ControlRequestAssembler {
    fn default() -> (r: Self)
        ensures
            r@ == (RequestAssemblerView {
                request_id: None,
                setup_packet: zeros(8),
                total_length: 0,
                next_offset: 0,
                data: zeros(CONTROL_DATA_MAX_LEN as nat),
            }),
    {
        Self::new()
    }
}

/// Whether the assembler has the first `done` bytes of a request.
pub open spec fn has_request_up_to(
    v: RequestAssemblerView,
    request: ControlRequestView,
    done: int,
) -> bool {
    &&& v.request_id == Some(request.request_id)
    &&& v.setup_packet == request.setup_packet
    &&& v.total_length == request.data.len()
    &&& v.next_offset == done
    &&& v.data.len() == CONTROL_DATA_MAX_LEN
    &&& v.data.take(done) == request.data.take(done)
}

/// A request comes out of its parts as it went in: each part, in order, brings
/// the assembler as far as the part goes, and the last one gives the request.
pub proof fn law_request_comes_out_whole(
    v: RequestAssemblerView,
    request: ControlRequestView,
    offset: int,
)
    requires
        request.data.len() <= CONTROL_DATA_MAX_LEN,
        0 <= offset,
        bounds_error(request.data.len() as int, offset) is None,
        v.data.len() == CONTROL_DATA_MAX_LEN,
        offset > 0 ==> has_request_up_to(v, request, offset),
    ensures
        ({
            let f = RequestFragmentView::of(request, offset);
            let end = fragment_end(request.data.len() as int, offset);
            let after = v.pushed(f);
            &&& end == request.data.len() ==> after.1 == Ok::<
                Option<ControlRequestView>,
                ControlFragmentError,
            >(Some(request))
            &&& end < request.data.len() ==> after.1 == Ok::<
                Option<ControlRequestView>,
                ControlFragmentError,
            >(None) && has_request_up_to(after.0, request, end)
        }),
{
    let f = RequestFragmentView::of(request, offset);
    let end = fragment_end(request.data.len() as int, offset);
    let ready = v.ready_for(f);
    let next = splice(ready.data, offset, f.data);
    assert(next.take(end) =~= request.data.take(end)) by {
        assert forall|i: int| 0 <= i < end implies next[i] == request.data[i] by {
            if i < offset {
                assert(v.data.take(offset)[i] == request.data.take(offset)[i]);
            }
        }
    }
    assert(request.data.take(request.data.len() as int) =~= request.data);
}

/// Puts the answer to a control request together from its parts, which must
/// come in order.
#[derive(Clone, Copy, Debug, PartialEq, Eq)]
pub struct ControlResponseAssembler {
    request_id: Option<u32>,
    status: ControlStatus,
    total_length: u16,
    next_offset: u16,
    data: [u8; CONTROL_DATA_MAX_LEN],
}

/// What an assembler has so far.
pub struct ResponseAssemblerView {
    pub request_id: Option<u32>,
    pub status: ControlStatus,
    pub total_length: u16,
    pub next_offset: u16,
    pub data: Seq<u8>,
}

impl View for ControlResponseAssembler {
    type V = ResponseAssemblerView;

    closed spec fn view(&self) -> ResponseAssemblerView {
        ResponseAssemblerView {
            request_id: self.request_id,
            status: self.status,
            total_length: self.total_length,
            next_offset: self.next_offset,
            data: self.data@,
        }
    }
}

impl ResponseAssemblerView {
    /// The assembler with nothing in the works.
    pub open spec fn idle(self) -> ResponseAssemblerView {
        ResponseAssemblerView { request_id: None, total_length: 0, next_offset: 0, ..self }
    }

    /// The assembler ready for a part: a first part begins another answer.
    pub open spec fn ready_for(self, f: ResponseFragmentView) -> ResponseAssemblerView {
        if is_first(f.flags) {
            ResponseAssemblerView {
                request_id: Some(f.request_id),
                status: f.status,
                total_length: f.total_length,
                next_offset: 0,
                data: self.data,
            }
        } else {
            self
        }
    }

    /// The assembler after a part, and what the part leads to: nothing yet, the
    /// whole answer with the last part, or an error where the part does not
    /// continue what is in the works, which is then dropped.
    pub open spec fn pushed(self, f: ResponseFragmentView) -> (
        ResponseAssemblerView,
        Result<Option<ControlResponseView>, ControlFragmentError>,
    ) {
        let ready = self.ready_for(f);
        if ready.request_id != Some(f.request_id) || ready.status != f.status || ready.total_length
            != f.total_length || ready.next_offset != f.offset {
            (ready.idle(), Err(ControlFragmentError::OutOfOrder))
        } else {
            let end = f.offset + f.data.len();
            let next = ResponseAssemblerView {
                data: splice(ready.data, f.offset as int, f.data),
                next_offset: end as u16,
                ..ready
            };
            if is_last(f.flags) {
                (
                    next.idle(),
                    Ok(
                        Some(
                            ControlResponseView {
                                request_id: f.request_id,
                                status: f.status,
                                data: next.data.take(end),
                            },
                        ),
                    ),
                )
            } else {
                (next, Ok(None))
            }
        }
    }
}

/// What a result says, with the answer taken by its view.
pub open spec fn response_push_result(
    r: Result<Option<MirrorControlResponse>, ControlFragmentError>,
) -> Result<Option<ControlResponseView>, ControlFragmentError> {
    match r {
        Ok(Some(response)) => Ok(Some(response@)),
        Ok(None) => Ok(None),
        Err(error) => Err(error),
    }
}

impl ControlResponseAssembler {
    /// The buffer has room for the longest data.
    pub proof fn lemma_view(&self)
        ensures
            self@.data.len() == CONTROL_DATA_MAX_LEN,
    {
    }

    /// An assembler with nothing in the works.
    pub fn new() -> (r: Self)
        ensures
            r@ == (ResponseAssemblerView {
                request_id: None,
                status: ControlStatus::Success,
                total_length: 0,
                next_offset: 0,
                data: zeros(CONTROL_DATA_MAX_LEN as nat),
            }),
    {
        let r = Self {
            request_id: None,
            status: ControlStatus::Success,
            total_length: 0,
            next_offset: 0,
            data: [0; CONTROL_DATA_MAX_LEN],
        };
        assert(r@.data =~= zeros(CONTROL_DATA_MAX_LEN as nat));
        r
    }

    /// Takes in a part, and gives the answer with the last one.
    pub fn push(&mut self, fragment: ControlResponseFragment) -> (r: Result<
        Option<MirrorControlResponse>,
        ControlFragmentError,
    >)
        requires
            fragment.wf(),
            old(self)@.pushed(fragment@).1 is Ok ==> fragment@.offset + fragment@.data.len()
                <= CONTROL_DATA_MAX_LEN,
        ensures
            (final(self)@, response_push_result(r)) == old(self)@.pushed(fragment@),
            r matches Ok(Some(response)) ==> response.wf(),
    {
        if fragment.flags % 2 == 1 {
            self.request_id = Some(fragment.request_id);
            self.status = fragment.status;
            self.total_length = fragment.total_length;
            self.next_offset = 0;
        }
        let same_request = match self.request_id {
            Some(request_id) => request_id == fragment.request_id,
            None => false,
        };
        if !same_request || self.status != fragment.status || self.total_length
            != fragment.total_length || self.next_offset != fragment.offset {
            self.reset();
            return Err(ControlFragmentError::OutOfOrder);
        }
        let data = fragment.data();
        let end: usize = fragment.offset as usize + data.len();
        write_at(&mut self.data, fragment.offset as usize, data);
        self.next_offset = end as u16;
        if (fragment.flags / 2) % 2 == 0 {
            return Ok(None);
        }
        let whole = part(&self.data, 0, end);
        assert(whole@ =~= self@.data.take(end as int));
        let response = MirrorControlResponse::new(fragment.request_id, fragment.status, whole);
        self.reset();
        match response {
            Ok(response) => Ok(Some(response)),
            Err(_) => Err(ControlFragmentError::Malformed),
        }
    }

    /// Drops what is in the works.
    pub fn reset(&mut self)
        ensures
            final(self)@ == old(self)@.idle(),
    {
        self.request_id = None;
        self.total_length = 0;
        self.next_offset = 0;
    }
}

impl Default for ControlResponseAssembler {
    fn default() -> (r: Self)
        ensures
            r@ == (ResponseAssemblerView {
                request_id: None,
                status: ControlStatus::Success,
                total_length: 0,
                next_offset: 0,
                data: zeros(CONTROL_DATA_MAX_LEN as nat),
            }),
    {
        Self::new()
    }
}

/// Whether the assembler has the first `done` bytes of an answer.
pub open spec fn has_response_up_to(
    v: ResponseAssemblerView,
    response: ControlResponseView,
    done: int,
) -> bool {
    &&& v.request_id == Some(response.request_id)
    &&& v.status == response.status
    &&& v.total_length == response.data.len()
    &&& v.next_offset == done
    &&& v.data.len() == CONTROL_DATA_MAX_LEN
    &&& v.data.take(done) == response.data.take(done)
}

/// An answer comes out of its parts as it went in: each part, in order, brings
/// the assembler as far as the part goes, and the last one gives the answer.
pub proof fn law_response_comes_out_whole(
    v: ResponseAssemblerView,
    response: ControlResponseView,
    offset: int,
)
    requires
        response.data.len() <= CONTROL_DATA_MAX_LEN,
        0 <= offset,
        bounds_error(response.data.len() as int, offset) is None,
        v.data.len() == CONTROL_DATA_MAX_LEN,
        offset > 0 ==> has_response_up_to(v, response, offset),
    ensures
        ({
            let f = ResponseFragmentView::of(response, offset);
            let end = fragment_end(response.data.len() as int, offset);
            let after = v.pushed(f);
            &&& end == response.data.len() ==> after.1 == Ok::<
                Option<ControlResponseView>,
                ControlFragmentError,
            >(Some(response))
            &&& end < response.data.len() ==> after.1 == Ok::<
                Option<ControlResponseView>,
                ControlFragmentError,
            >(None) && has_response_up_to(after.0, response, end)
        }),
{
    let f = ResponseFragmentView::of(response, offset);
    let end = fragment_end(response.data.len() as int, offset);
    let ready = v.ready_for(f);
    let next = splice(ready.data, offset, f.data);
    assert(next.take(end) =~= response.data.take(end)) by {
        assert forall|i: int| 0 <= i < end implies next[i] == response.data[i] by {
            if i < offset {
                assert(v.data.take(offset)[i] == response.data.take(offset)[i]);
            }
        }
    }
    assert(response.data.take(response.data.len() as int) =~= response.data);
}

} // verus!
