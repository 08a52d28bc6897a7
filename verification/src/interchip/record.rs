//! The records that the payload of a cell is made of.

use vstd::prelude::*;

use super::cell::SPI_CELL_PAYLOAD_LEN;
use crate::bytes::{
    all_zero, fill_zero, get16, le16, lemma_part_of_part, lemma_u16_in, padded, part, to_le16,
    u16_at, write_at, zeros,
};

verus! {

/// The bytes of a record before its data.
pub const RECORD_HEADER_LEN: usize = 4;

/// A record to be written.
#[derive(Clone, Copy, Debug, PartialEq, Eq)]
pub struct Record<'a> {
    pub record_type: u8,
    pub flags: u8,
    pub data: &'a [u8],
}

/// A record that was read.
#[derive(Clone, Copy, Debug, PartialEq, Eq)]
pub struct RecordRef<'a> {
    pub record_type: u8,
    pub flags: u8,
    pub data: &'a [u8],
}

/// Why records could not be written or read.
#[derive(Clone, Copy, Debug, PartialEq, Eq, Structural)]
pub enum RecordCodecError {
    TooManyRecords,
    RecordTooLong,
    PayloadCapacity,
    MalformedRecord,
    NonZeroPadding,
    RecordCountMismatch,
}

/// What a record says.
pub struct SpiRecord {
    pub record_type: u8,
    pub flags: u8,
    pub data: Seq<u8>,
}

impl<'a> View for Record<'a> {
    type V = SpiRecord;

    open spec fn view(&self) -> SpiRecord {
        SpiRecord { record_type: self.record_type, flags: self.flags, data: self.data@ }
    }
}

impl<'a> View for RecordRef<'a> {
    type V = SpiRecord;

    open spec fn view(&self) -> SpiRecord {
        SpiRecord { record_type: self.record_type, flags: self.flags, data: self.data@ }
    }
}

/// `n` brought up to a multiple of four.
pub open spec fn aligned(n: int) -> int {
    ((n + 3) / 4) * 4
}

impl SpiRecord {
    /// The bytes of a record, brought up to a multiple of four with zeros.
    pub open spec fn wire(self) -> Seq<u8> {
        padded(
            seq![self.record_type, self.flags] + le16(self.data.len() as u16) + self.data,
            aligned(4 + self.data.len() as int) as nat,
        )
    }
}

/// The bytes of records one after the other.
pub open spec fn records_wire(records: Seq<SpiRecord>) -> Seq<u8>
    decreases records.len(),
{
    if records.len() == 0 {
        seq![]
    } else {
        records_wire(records.drop_last()) + records.last().wire()
    }
}

/// How many of the records, from the first on, fit into one payload.
pub open spec fn fitting(records: Seq<SpiRecord>) -> int
    decreases records.len(),
{
    if records.len() == 0 {
        0
    } else {
        let before = fitting(records.drop_last());
        if before == records.len() - 1 && records_wire(records).len() <= SPI_CELL_PAYLOAD_LEN {
            before + 1
        } else {
            before
        }
    }
}

/// The views of records.
pub open spec fn record_views(records: Seq<Record<'_>>) -> Seq<SpiRecord> {
    Seq::new(records.len(), |i: int| records[i]@)
}

proof fn lemma_fitting_is(records: Seq<SpiRecord>, k: int)
    requires
        0 <= k <= records.len(),
        forall|j: int|
            0 <= j <= k ==> (#[trigger] records_wire(records.take(j))).len()
                <= SPI_CELL_PAYLOAD_LEN,
        k < records.len() ==> records_wire(records.take(k + 1)).len() > SPI_CELL_PAYLOAD_LEN,
    ensures
        fitting(records) == k,
    decreases records.len(),
{
    if records.len() > 0 {
        let rest = records.drop_last();
        assert(records.take(records.len() as int) =~= records);
        if k == records.len() {
            assert forall|j: int| 0 <= j <= rest.len() implies (#[trigger] records_wire(
                rest.take(j),
            )).len() <= SPI_CELL_PAYLOAD_LEN by {
                assert(rest.take(j) =~= records.take(j));
            }
            lemma_fitting_is(rest, k - 1);
        } else {
            assert forall|j: int| 0 <= j <= k implies (#[trigger] records_wire(
                rest.take(j),
            )).len() <= SPI_CELL_PAYLOAD_LEN by {
                assert(rest.take(j) =~= records.take(j));
            }
            if k < rest.len() {
                assert(rest.take(k + 1) =~= records.take(k + 1));
            } else {
                assert(records.take(k + 1) =~= records);
            }
            lemma_fitting_is(rest, k);
        }
    }
}

/// Writes records to the front of a payload, and zeros behind them. Says how
/// long they are and how many.
pub fn encode_records(records: &[Record<'_>], out: &mut [u8; SPI_CELL_PAYLOAD_LEN]) -> (r: Result<
    (u16, u8),
    RecordCodecError,
>)
    ensures
        ({
            let all = record_views(records@);
            let k = fitting(all);
            &&& all.len() > 255 ==> r == Err::<(u16, u8), RecordCodecError>(
                RecordCodecError::TooManyRecords,
            ) && final(out)@ == old(out)@
            &&& all.len() <= 255 ==> final(out)@ == padded(
                records_wire(all.take(k)),
                SPI_CELL_PAYLOAD_LEN as nat,
            )
            &&& all.len() <= 255 && k == all.len() ==> r == Ok::<(u16, u8), RecordCodecError>(
                (records_wire(all).len() as u16, all.len() as u8),
            )
            &&& all.len() <= 255 && k < all.len() ==> r == Err::<(u16, u8), RecordCodecError>(
                if all[k].data.len() > 65535 {
                    RecordCodecError::RecordTooLong
                } else {
                    RecordCodecError::PayloadCapacity
                },
            )
        }),
{
    if records.len() > 255 {
        return Err(RecordCodecError::TooManyRecords);
    }
    let ghost all = record_views(records@);
    fill_zero(out);
    let mut offset: usize = 0;
    let mut i: usize = 0;
    assert(all.take(0) =~= Seq::<SpiRecord>::empty());
    assert(out@ =~= padded(records_wire(all.take(0)), SPI_CELL_PAYLOAD_LEN as nat));
    while i < records.len()
        invariant
            i <= records@.len() <= 255,
            all == record_views(records@),
            offset == records_wire(all.take(i as int)).len(),
            offset <= SPI_CELL_PAYLOAD_LEN,
            forall|j: int|
                0 <= j <= i ==> (#[trigger] records_wire(all.take(j))).len()
                    <= SPI_CELL_PAYLOAD_LEN,
            out@ == padded(records_wire(all.take(i as int)), SPI_CELL_PAYLOAD_LEN as nat),
        decreases records@.len() - i,
    {
        let record = &records[i];
        let ghost before = records_wire(all.take(i as int));
        proof {
            assert(all.take(i + 1).drop_last() =~= all.take(i as int));
            assert(all.take(i + 1).last() == record@);
        }
        if record.data.len() > 65535 {
            proof {
                lemma_fitting_is(all, i as int);
            }
            return Err(RecordCodecError::RecordTooLong);
        }
        let padded_len: usize = align4(RECORD_HEADER_LEN + record.data.len());
        if offset + padded_len > SPI_CELL_PAYLOAD_LEN {
            proof {
                lemma_fitting_is(all, i as int);
            }
            return Err(RecordCodecError::PayloadCapacity);
        }
        let l = to_le16(record.data.len() as u16);
        let header: [u8; 4] = [record.record_type, record.flags, l[0], l[1]];
        write_at(out, offset, &header);
        write_at(out, offset + 4, record.data);
        assert(out@ =~= padded(before + record@.wire(), SPI_CELL_PAYLOAD_LEN as nat));
        offset += padded_len;
        i += 1;
    }
    proof {
        lemma_fitting_is(all, i as int);
        assert(all.take(i as int) =~= all);
    }
    Ok((offset as u16, records.len() as u8))
}

/// `value` brought up to a multiple of four.
pub(crate) fn align4(value: usize) -> (r: usize)
    requires
        value + 3 <= usize::MAX,
    ensures
        r == aligned(value as int),
{
    ((value + 3) / 4) * 4
}

/// Where the record at `at` ends and what it says, or why there is none.
pub open spec fn read_record(bytes: Seq<u8>, at: int) -> Result<(SpiRecord, int), RecordCodecError> {
    if at + 4 > bytes.len() {
        Err(RecordCodecError::MalformedRecord)
    } else {
        let raw = at + 4 + u16_at(bytes, at + 2);
        let end = at + aligned(4 + u16_at(bytes, at + 2));
        if end > bytes.len() {
            Err(RecordCodecError::MalformedRecord)
        } else if exists|i: int| raw <= i < end && bytes[i] != 0 {
            Err(RecordCodecError::NonZeroPadding)
        } else {
            Ok(
                (
                    SpiRecord {
                        record_type: bytes[at],
                        flags: bytes[at + 1],
                        data: bytes.subrange(at + 4, raw),
                    },
                    end,
                ),
            )
        }
    }
}

/// Reads the records of a payload one after the other.
#[derive(Clone, Debug)]
pub struct RecordIter<'a> {
    bytes: &'a [u8],
    offset: usize,
    remaining: u8,
    failed: bool,
}

/// Where a reader stands.
pub struct RecordIterView {
    pub bytes: Seq<u8>,
    pub offset: int,
    pub remaining: u8,
    pub failed: bool,
}

impl<'a> View for RecordIter<'a> {
    type V = RecordIterView;

    closed spec fn view(&self) -> RecordIterView {
        RecordIterView {
            bytes: self.bytes@,
            offset: self.offset as int,
            remaining: self.remaining,
            failed: self.failed,
        }
    }
}

impl RecordIterView {
    /// What the reader says at the end: whether it read all records, and they
    /// were all of the payload.
    pub open spec fn verdict(self) -> Result<(), RecordCodecError> {
        if self.failed {
            Err(RecordCodecError::MalformedRecord)
        } else if self.remaining != 0 || self.offset != self.bytes.len() {
            Err(RecordCodecError::RecordCountMismatch)
        } else {
            Ok(())
        }
    }

    /// The reader after one more record, and the record.
    pub open spec fn stepped(self) -> (RecordIterView, Option<Result<SpiRecord, RecordCodecError>>) {
        if self.failed || self.remaining == 0 {
            (self, None)
        } else {
            match read_record(self.bytes, self.offset) {
                Err(error) => (RecordIterView { failed: true, ..self }, Some(Err(error))),
                Ok((record, end)) => (
                    RecordIterView {
                        offset: end,
                        remaining: (self.remaining - 1) as u8,
                        ..self
                    },
                    Some(Ok(record)),
                ),
            }
        }
    }
}

/// What a step says, with the record taken by its view.
pub open spec fn step_result<'a>(r: Option<Result<RecordRef<'a>, RecordCodecError>>) -> Option<
    Result<SpiRecord, RecordCodecError>,
> {
    match r {
        None => None,
        Some(Ok(record)) => Some(Ok(record@)),
        Some(Err(error)) => Some(Err(error)),
    }
}

impl<'a> RecordIter<'a> {
    /// The reader is within the payload.
    pub open spec fn wf(&self) -> bool {
        0 <= self@.offset <= self@.bytes.len()
    }

    /// A reader at the first of `record_count` records.
    pub fn new(bytes: &'a [u8], record_count: u8) -> (r: Self)
        ensures
            r.wf(),
            r@ == (RecordIterView {
                bytes: bytes@,
                offset: 0,
                remaining: record_count,
                failed: false,
            }),
    {
        Self { bytes, offset: 0, remaining: record_count, failed: false }
    }

    /// Whether the records that were read were all of the payload.
    pub fn finish(self) -> (r: Result<(), RecordCodecError>)
        ensures
            r == self@.verdict(),
    {
        if self.failed {
            return Err(RecordCodecError::MalformedRecord);
        }
        if self.remaining != 0 || self.offset != self.bytes.len() {
            return Err(RecordCodecError::RecordCountMismatch);
        }
        Ok(())
    }

    /// The next record, or what is wrong with it. After that, and after the
    /// last record, there is none.
    pub fn next(&mut self) -> (r: Option<Result<RecordRef<'a>, RecordCodecError>>)
        requires
            old(self).wf(),
        ensures
            final(self).wf(),
            final(self)@ == old(self)@.stepped().0,
            step_result(r) == old(self)@.stepped().1,
    {
        if self.failed || self.remaining == 0 {
            return None;
        }
        let bytes = self.bytes;
        let n: usize = bytes.len();
        let start: usize = self.offset;
        if n - start < RECORD_HEADER_LEN {
            self.failed = true;
            return Some(Err(RecordCodecError::MalformedRecord));
        }
        let data_len: usize = get16(bytes, start + 2) as usize;
        let raw_len: usize = RECORD_HEADER_LEN + data_len;
        let padded_len: usize = align4(raw_len);
        if padded_len > n - start {
            self.failed = true;
            return Some(Err(RecordCodecError::MalformedRecord));
        }
        if !all_zero(bytes, start + raw_len, start + padded_len) {
            self.failed = true;
            return Some(Err(RecordCodecError::NonZeroPadding));
        }
        self.offset = start + padded_len;
        self.remaining -= 1;
        Some(
            Ok(
                RecordRef {
                    record_type: bytes[start],
                    flags: bytes[start + 1],
                    data: part(bytes, start + RECORD_HEADER_LEN, start + raw_len),
                },
            ),
        )
    }
}

/// The `count` records from `at` on, and where they end.
pub open spec fn read_records(bytes: Seq<u8>, count: nat, at: int) -> Result<
    (Seq<SpiRecord>, int),
    RecordCodecError,
>
    decreases count,
{
    if count == 0 {
        Ok((seq![], at))
    } else {
        match read_record(bytes, at) {
            Err(error) => Err(error),
            Ok((record, end)) => match read_records(bytes, (count - 1) as nat, end) {
                Err(error) => Err(error),
                Ok((rest, last)) => Ok((seq![record] + rest, last)),
            },
        }
    }
}

proof fn lemma_read_record(bytes: Seq<u8>, at: int, r: SpiRecord)
    requires
        r.data.len() <= 65535,
        0 <= at,
        at + r.wire().len() <= bytes.len(),
        bytes.subrange(at, at + r.wire().len()) == r.wire(),
    ensures
        read_record(bytes, at) == Ok::<(SpiRecord, int), RecordCodecError>(
            (r, at + r.wire().len()),
        ),
{
    let w = r.wire();
    let n = r.data.len() as int;
    assert(w.len() == aligned(4 + n));
    assert(w.subrange(0, 2) =~= seq![r.record_type, r.flags]);
    assert(w.subrange(2, 4) =~= le16(n as u16));
    assert(w.subrange(4, 4 + n) =~= r.data);
    assert(w.subrange(4 + n, w.len() as int) =~= zeros((w.len() - 4 - n) as nat));
    lemma_part_of_part(bytes, at, w, 0, 2);
    lemma_part_of_part(bytes, at, w, 2, 4);
    lemma_part_of_part(bytes, at, w, 4, 4 + n);
    lemma_part_of_part(bytes, at, w, 4 + n, w.len() as int);
    lemma_u16_in(bytes, at + 2, n as u16);
    let first = bytes.subrange(at, at + 2);
    assert(first[0] == bytes[at] && first[1] == bytes[at + 1]);
    let pad = bytes.subrange(at + 4 + n, at + w.len());
    assert forall|i: int| at + 4 + n <= i < at + w.len() implies bytes[i] == 0 by {
        assert(pad[i - (at + 4 + n)] == bytes[i]);
    }
}

proof fn lemma_front(records: Seq<SpiRecord>)
    requires
        records.len() > 0,
    ensures
        records_wire(records) == records[0].wire() + records_wire(records.skip(1)),
    decreases records.len(),
{
    if records.len() == 1 {
        assert(records.drop_last() =~= Seq::<SpiRecord>::empty());
        assert(records.skip(1) =~= Seq::<SpiRecord>::empty());
        assert(records_wire(records) =~= records[0].wire() + records_wire(records.skip(1)));
    } else {
        lemma_front(records.drop_last());
        assert(records.drop_last().skip(1) =~= records.skip(1).drop_last());
        assert(records_wire(records) =~= records[0].wire() + records_wire(records.skip(1)));
    }
}

proof fn lemma_read_records(bytes: Seq<u8>, at: int, records: Seq<SpiRecord>)
    requires
        forall|i: int| 0 <= i < records.len() ==> (#[trigger] records[i]).data.len() <= 65535,
        0 <= at,
        at + records_wire(records).len() <= bytes.len(),
        bytes.subrange(at, at + records_wire(records).len()) == records_wire(records),
    ensures
        read_records(bytes, records.len(), at) == Ok::<(Seq<SpiRecord>, int), RecordCodecError>(
            (records, at + records_wire(records).len()),
        ),
    decreases records.len(),
{
    if records.len() == 0 {
        assert(records =~= seq![]);
    } else {
        let first = records[0];
        let rest = records.skip(1);
        let len = first.wire().len() as int;
        let all = records_wire(records);
        lemma_front(records);
        assert(all.subrange(0, len) =~= first.wire());
        assert(all.subrange(len, all.len() as int) =~= records_wire(rest));
        lemma_part_of_part(bytes, at, all, 0, len);
        lemma_part_of_part(bytes, at, all, len, all.len() as int);
        lemma_read_record(bytes, at, first);
        assert forall|i: int| 0 <= i < rest.len() implies (#[trigger] rest[i]).data.len()
            <= 65535 by {
            assert(rest[i] == records[i + 1]);
        }
        lemma_read_records(bytes, at + len, rest);
        assert(seq![first] + rest =~= records);
    }
}

/// Records are read back one by one as they were written, and end where the
/// payload ends.
pub proof fn law_records_round_trip(records: Seq<SpiRecord>)
    requires
        forall|i: int| 0 <= i < records.len() ==> (#[trigger] records[i]).data.len() <= 65535,
    ensures
        read_records(records_wire(records), records.len(), 0) == Ok::<
            (Seq<SpiRecord>, int),
            RecordCodecError,
        >((records, records_wire(records).len() as int)),
{
    let bytes = records_wire(records);
    assert(bytes.subrange(0, bytes.len() as int) =~= bytes);
    lemma_read_records(bytes, 0, records);
}

} // verus!
