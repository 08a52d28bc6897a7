//! The fixed-size cell that one transaction between the chips carries.

use vstd::prelude::*;

use crate::bytes::{
    all_zero, get16, get32, le16, le32, lemma_join16, lemma_u16_in, lemma_u32_in, padded, part,
    to_le16, to_le32, u16_at, u32_at, write_at, zeros,
};
use crate::checksum::{crc16, crc16_ccitt_false, law_crc16_detects_a_changed_byte};

verus! {

/// The bytes of a cell.
pub const SPI_CELL_LEN: usize = 128;

/// The bytes of its header.
pub const SPI_CELL_HEADER_LEN: usize = 16;

/// The bytes of its payload.
pub const SPI_CELL_PAYLOAD_LEN: usize = 110;

/// The first two bytes of every cell.
pub const SPI_CELL_MAGIC: u16 = 0x4853;

/// The protocol version on the wire.
pub const SPI_PROTOCOL_VERSION: u8 = 1;

/// The header of a cell.
#[derive(Clone, Copy, Debug, PartialEq, Eq, Structural)]
pub struct SpiCellHeader {
    pub magic: u16,
    pub version: u8,
    pub flags: u8,
    pub session_id: u32,
    pub tx_sequence: u16,
    pub cumulative_ack: u16,
    pub payload_len: u16,
    pub record_count: u8,
    pub receive_window: u8,
}

impl SpiCellHeader {
    /// The header of a cell without payload.
    pub open spec fn blank(session_id: u32) -> SpiCellHeader {
        SpiCellHeader {
            magic: SPI_CELL_MAGIC,
            version: SPI_PROTOCOL_VERSION,
            flags: 0,
            session_id,
            tx_sequence: 0,
            cumulative_ack: 0,
            payload_len: 0,
            record_count: 0,
            receive_window: 4,
        }
    }

    /// The bytes of the header.
    pub open spec fn wire(self) -> Seq<u8> {
        le16(self.magic) + seq![self.version, self.flags] + le32(self.session_id) + le16(
            self.tx_sequence,
        ) + le16(self.cumulative_ack) + le16(self.payload_len) + seq![
            self.record_count,
            self.receive_window,
        ]
    }

    /// The header at the front of these bytes.
    pub open spec fn parse(bytes: Seq<u8>) -> SpiCellHeader {
        SpiCellHeader {
            magic: u16_at(bytes, 0),
            version: bytes[2],
            flags: bytes[3],
            session_id: u32_at(bytes, 4),
            tx_sequence: u16_at(bytes, 8),
            cumulative_ack: u16_at(bytes, 10),
            payload_len: u16_at(bytes, 12),
            record_count: bytes[14],
            receive_window: bytes[15],
        }
    }

    /// What is wrong with the payload that the header announces. A cell
    /// without a sequence number carries nothing.
    pub open spec fn payload_error(self) -> Option<SpiCellError> {
        if self.payload_len > SPI_CELL_PAYLOAD_LEN {
            Some(SpiCellError::PayloadTooLong)
        } else if self.tx_sequence == 0 && (self.payload_len != 0 || self.record_count != 0) {
            Some(SpiCellError::SequenceZeroHasPayload)
        } else {
            None
        }
    }

    /// The header of a cell without payload.
    pub fn new(session_id: u32) -> (r: Self)
        ensures
            r == SpiCellHeader::blank(session_id),
    {
        Self {
            magic: SPI_CELL_MAGIC,
            version: SPI_PROTOCOL_VERSION,
            flags: 0,
            session_id,
            tx_sequence: 0,
            cumulative_ack: 0,
            payload_len: 0,
            record_count: 0,
            receive_window: 4,
        }
    }

    fn encode(self) -> (r: [u8; SPI_CELL_HEADER_LEN])
        ensures
            r@ == self.wire(),
    {
        let m = to_le16(self.magic);
        let s = to_le32(self.session_id);
        let t = to_le16(self.tx_sequence);
        let a = to_le16(self.cumulative_ack);
        let l = to_le16(self.payload_len);
        let r = [
            m[0], m[1], self.version, self.flags, s[0], s[1], s[2], s[3], t[0], t[1], a[0], a[1],
            l[0], l[1], self.record_count, self.receive_window,
        ];
        assert(r@ =~= self.wire());
        r
    }

    fn decode(bytes: &[u8]) -> (r: Self)
        requires
            bytes@.len() >= SPI_CELL_HEADER_LEN,
        ensures
            r == SpiCellHeader::parse(bytes@),
    {
        Self {
            magic: get16(bytes, 0),
            version: bytes[2],
            flags: bytes[3],
            session_id: get32(bytes, 4),
            tx_sequence: get16(bytes, 8),
            cumulative_ack: get16(bytes, 10),
            payload_len: get16(bytes, 12),
            record_count: bytes[14],
            receive_window: bytes[15],
        }
    }
}

/// A header and its payload.
#[derive(Clone, Copy, Debug, PartialEq, Eq)]
pub struct SpiCell {
    pub header: SpiCellHeader,
    pub payload: [u8; SPI_CELL_PAYLOAD_LEN],
}

/// Why a cell could not be written or read.
#[derive(Clone, Copy, Debug, PartialEq, Eq, Structural)]
pub enum SpiCellError {
    InvalidMagic,
    UnsupportedVersion,
    PayloadTooLong,
    SequenceZeroHasPayload,
    NonZeroTrailingBytes,
    CrcMismatch,
}

/// What a cell says: its header and as much payload as that announces.
pub struct CellView {
    pub header: SpiCellHeader,
    pub payload: Seq<u8>,
}

impl View for SpiCell {
    type V = CellView;

    open spec fn view(&self) -> CellView {
        CellView {
            header: self.header,
            payload: self.payload@.take(self.header.payload_len as int),
        }
    }
}

impl CellView {
    /// The bytes of a cell before its checksum.
    pub open spec fn body(self) -> Seq<u8> {
        padded(self.header.wire() + self.payload, (SPI_CELL_LEN - 2) as nat)
    }

    /// The bytes of a cell.
    pub open spec fn wire(self) -> Seq<u8> {
        self.body() + le16(crc16(self.body()))
    }

    /// The cell that these bytes are, or why they are none.
    pub open spec fn parse(bytes: Seq<u8>) -> Result<CellView, SpiCellError> {
        let header = SpiCellHeader::parse(bytes);
        if crc16(bytes.take(126)) != u16_at(bytes, 126) {
            Err(SpiCellError::CrcMismatch)
        } else if header.magic != SPI_CELL_MAGIC {
            Err(SpiCellError::InvalidMagic)
        } else if header.version != SPI_PROTOCOL_VERSION {
            Err(SpiCellError::UnsupportedVersion)
        } else if header.payload_error() is Some {
            Err(header.payload_error()->0)
        } else if exists|i: int| 16 + header.payload_len <= i < 126 && bytes[i] != 0 {
            Err(SpiCellError::NonZeroTrailingBytes)
        } else {
            Ok(CellView { header, payload: bytes.subrange(16, 16 + header.payload_len) })
        }
    }
}

/// What a result says, with the cell taken by its view.
pub open spec fn cell_result(r: Result<SpiCell, SpiCellError>) -> Result<CellView, SpiCellError> {
    match r {
        Ok(cell) => Ok(cell@),
        Err(error) => Err(error),
    }
}

impl SpiCell {
    /// A cell without payload.
    pub fn empty(session_id: u32) -> (r: Self)
        ensures
            r.header == SpiCellHeader::blank(session_id),
            r.payload@ == zeros(SPI_CELL_PAYLOAD_LEN as nat),
    {
        let r = Self {
            header: SpiCellHeader::new(session_id),
            payload: [0; SPI_CELL_PAYLOAD_LEN],
        };
        assert(r.payload@ =~= zeros(SPI_CELL_PAYLOAD_LEN as nat));
        r
    }

    /// The cell's bytes.
    pub fn encode(&self) -> (r: Result<[u8; SPI_CELL_LEN], SpiCellError>)
        ensures
            self.header.payload_error() is Some ==> r is Err && r->Err_0
                == self.header.payload_error()->0,
            self.header.payload_error() is None ==> r is Ok && r->Ok_0@ == self@.wire(),
    {
        let payload_len: usize = self.header.payload_len as usize;
        if payload_len > SPI_CELL_PAYLOAD_LEN {
            return Err(SpiCellError::PayloadTooLong);
        }
        if self.header.tx_sequence == 0 && (payload_len != 0 || self.header.record_count != 0) {
            return Err(SpiCellError::SequenceZeroHasPayload);
        }
        let mut bytes = [0u8; SPI_CELL_LEN];
        write_at(&mut bytes, 0, &self.header.encode());
        write_at(&mut bytes, SPI_CELL_HEADER_LEN, part(&self.payload, 0, payload_len));
        let ghost body = self@.body();
        assert(self.header.wire().len() == 16);
        assert(bytes@.take(126) =~= body);
        let covered = part(&bytes, 0, SPI_CELL_LEN - 2);
        assert(covered@ =~= body);
        let crc: u16 = crc16_ccitt_false(covered);
        write_at(&mut bytes, SPI_CELL_LEN - 2, &to_le16(crc));
        assert(bytes@ =~= self@.wire()) by {
            assert(bytes@.take(126) =~= body);
        }
        Ok(bytes)
    }

    /// The cell that `bytes` are. What is not payload is zero.
    pub fn decode(bytes: &[u8; SPI_CELL_LEN]) -> (r: Result<Self, SpiCellError>)
        ensures
            cell_result(r) == CellView::parse(bytes@),
            r is Ok ==> r->Ok_0.payload@ == padded(r->Ok_0@.payload, SPI_CELL_PAYLOAD_LEN as nat),
    {
        let expected: u16 = get16(bytes, SPI_CELL_LEN - 2);
        let covered = part(bytes, 0, SPI_CELL_LEN - 2);
        assert(covered@ =~= bytes@.take(126));
        if crc16_ccitt_false(covered) != expected {
            return Err(SpiCellError::CrcMismatch);
        }
        let header = SpiCellHeader::decode(bytes);
        if header.magic != SPI_CELL_MAGIC {
            return Err(SpiCellError::InvalidMagic);
        }
        if header.version != SPI_PROTOCOL_VERSION {
            return Err(SpiCellError::UnsupportedVersion);
        }
        let payload_len: usize = header.payload_len as usize;
        if payload_len > SPI_CELL_PAYLOAD_LEN {
            return Err(SpiCellError::PayloadTooLong);
        }
        if header.tx_sequence == 0 && (payload_len != 0 || header.record_count != 0) {
            return Err(SpiCellError::SequenceZeroHasPayload);
        }
        if !all_zero(bytes, SPI_CELL_HEADER_LEN + payload_len, SPI_CELL_LEN - 2) {
            return Err(SpiCellError::NonZeroTrailingBytes);
        }
        let mut payload = [0u8; SPI_CELL_PAYLOAD_LEN];
        let data = part(bytes, SPI_CELL_HEADER_LEN, SPI_CELL_HEADER_LEN + payload_len);
        write_at(&mut payload, 0, data);
        assert(payload@ =~= padded(data@, SPI_CELL_PAYLOAD_LEN as nat));
        assert(payload@.take(payload_len as int) =~= data@);
        Ok(Self { header, payload })
    }

    /// As much of the payload as the header announces.
    pub fn payload(&self) -> (r: &[u8])
        requires
            self.header.payload_len <= SPI_CELL_PAYLOAD_LEN,
        ensures
            r@ == self@.payload,
    {
        let r = part(&self.payload, 0, self.header.payload_len as usize);
        assert(r@ =~= self@.payload);
        r
    }
}

proof fn lemma_header(header: SpiCellHeader, bytes: Seq<u8>)
    requires
        bytes.len() >= 16,
        bytes.take(16) == header.wire(),
    ensures
        SpiCellHeader::parse(bytes) == header,
{
    let w = header.wire();
    assert(forall|i: int| 0 <= i < 16 ==> bytes[i] == bytes.take(16)[i]);
    assert(bytes.subrange(0, 2) =~= le16(header.magic));
    assert(bytes.subrange(4, 8) =~= le32(header.session_id));
    assert(bytes.subrange(8, 10) =~= le16(header.tx_sequence));
    assert(bytes.subrange(10, 12) =~= le16(header.cumulative_ack));
    assert(bytes.subrange(12, 14) =~= le16(header.payload_len));
    lemma_u16_in(bytes, 0, header.magic);
    lemma_u32_in(bytes, 4, header.session_id);
    lemma_u16_in(bytes, 8, header.tx_sequence);
    lemma_u16_in(bytes, 10, header.cumulative_ack);
    lemma_u16_in(bytes, 12, header.payload_len);
}

/// A cell with nothing wrong is read back as it was written.
pub proof fn law_cell_round_trip(c: CellView)
    requires
        c.header.magic == SPI_CELL_MAGIC,
        c.header.version == SPI_PROTOCOL_VERSION,
        c.header.payload_error() is None,
        c.payload.len() == c.header.payload_len,
    ensures
        CellView::parse(c.wire()) == Ok::<CellView, SpiCellError>(c),
        c.wire().len() == SPI_CELL_LEN,
{
    let bytes = c.wire();
    let body = c.body();
    assert(c.header.wire().len() == 16);
    assert(body.len() == 126);
    assert(bytes.take(126) =~= body);
    assert(bytes.take(16) =~= c.header.wire());
    assert(bytes.subrange(126, 128) =~= le16(crc16(body)));
    lemma_u16_in(bytes, 126, crc16(body));
    lemma_header(c.header, bytes);
    assert(bytes.subrange(16, 16 + c.header.payload_len) =~= c.payload);
}

/// A cell of which one byte was changed on the way is refused by its checksum
/// before anything in it is looked at.
pub proof fn law_cell_corruption(c: CellView, at: int, byte: u8)
    requires
        c.header.magic == SPI_CELL_MAGIC,
        c.header.version == SPI_PROTOCOL_VERSION,
        c.header.payload_error() is None,
        c.payload.len() == c.header.payload_len,
        0 <= at < SPI_CELL_LEN,
        byte != c.wire()[at],
    ensures
        CellView::parse(c.wire().update(at, byte)) == Err::<CellView, SpiCellError>(
            SpiCellError::CrcMismatch,
        ),
{
    law_cell_round_trip(c);
    let bytes = c.wire();
    let changed = bytes.update(at, byte);
    if at < 126 {
        assert(changed.take(126) =~= bytes.take(126).update(at, byte));
        law_crc16_detects_a_changed_byte(bytes.take(126), at, byte);
    } else {
        assert(changed.take(126) =~= bytes.take(126));
        lemma_join16(bytes[126], bytes[127]);
        lemma_join16(changed[126], changed[127]);
        if u16_at(changed, 126) == u16_at(bytes, 126) {
            let a = seq![bytes[126], bytes[127]];
            let b = seq![changed[126], changed[127]];
            assert(a[at - 126] == b[at - 126]);
        }
    }
}

} // verus!
