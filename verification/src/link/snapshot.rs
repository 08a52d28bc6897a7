//! Self-healing snapshots of recent input.

use vstd::prelude::*;

use super::input_record::{InputReportRecord, ReportView};
use super::message::{
    decode_motion, encode_motion, lemma_motion, motion_at, motion_bytes, InputLane,
    MotionCumulative, MAX_HID_REPORT_SIZE,
};
use crate::bytes::{
    get16, get32, le16, le32, lemma_part_of_part, lemma_u16_in, lemma_u32_in, part, splice, to_le16, to_le32, u16_at, u32_at, write_at,
};
use crate::ids::{DeviceId, InterfaceId};

verus! {

/// The bytes of a record before its motion and report.
pub const INPUT_SNAPSHOT_RECORD_HEADER_LEN: usize = 13;

/// Number of ordered critical transitions repeated in realtime state frames.
///
/// Three records recover a complete short tap even when both the press and
/// release broadcasts are lost: the next critical or cumulative-motion frame
/// still carries both transitions.
pub const REALTIME_CRITICAL_JOURNAL_CAPACITY: usize = 3;

/// The bytes that a motion record has more than a critical one.
pub const INPUT_SNAPSHOT_MOTION_EXTENSION_LEN: usize = 16;

/// Why a snapshot could not be written or read.
#[derive(Clone, Copy, Debug, PartialEq, Eq, Structural)]
pub enum SnapshotError {
    Empty,
    BufferTooSmall,
    InvalidLength,
    ReportTooLarge,
    TooManyRecords,
    InvalidLane,
}

/// How much of a buffer a snapshot took.
#[derive(Clone, Copy, Debug, PartialEq, Eq, Structural)]
pub struct EncodedInputSnapshot {
    pub record_count: u8,
    pub records_len: usize,
}

/// One record of a snapshot.
#[derive(Clone, Copy, Debug, PartialEq, Eq)]
pub struct InputSnapshotRecord<'a> {
    pub lane: InputLane,
    pub device_id: DeviceId,
    pub interface_id: InterfaceId,
    pub sequence: u32,
    pub e2e_sequence: u32,
    pub motion: MotionCumulative,
    pub report: &'a [u8],
}

/// What a record says.
pub struct RecordView {
    pub lane: InputLane,
    pub device_id: DeviceId,
    pub interface_id: InterfaceId,
    pub sequence: u32,
    pub e2e_sequence: u32,
    pub motion: MotionCumulative,
    pub report: Seq<u8>,
}

impl<'a> View for InputSnapshotRecord<'a> {
    type V = RecordView;

    open spec fn view(&self) -> RecordView {
        RecordView {
            lane: self.lane,
            device_id: self.device_id,
            interface_id: self.interface_id,
            sequence: self.sequence,
            e2e_sequence: self.e2e_sequence,
            motion: self.motion,
            report: self.report@,
        }
    }
}

/// The bytes that a record of the lane has beside header and report.
pub open spec fn extension_len(lane: InputLane) -> int {
    match lane {
        InputLane::Critical => 0,
        InputLane::Motion => 16,
    }
}

/// The bytes of a record.
pub open spec fn record_bytes(r: RecordView) -> Seq<u8> {
    seq![r.lane.byte(), r.device_id.0, r.interface_id.0] + le32(r.sequence) + le32(r.e2e_sequence)
        + le16(r.report.len() as u16) + (if r.lane == InputLane::Motion {
        motion_bytes(r.motion)
    } else {
        seq![]
    }) + r.report
}

/// Where the record at `at` ends, or why there is none.
pub open spec fn record_end(bytes: Seq<u8>, at: int) -> Result<int, SnapshotError> {
    if at + 13 > bytes.len() {
        Err(SnapshotError::InvalidLength)
    } else {
        match InputLane::of_byte(bytes[at]) {
            Err(_) => Err(SnapshotError::InvalidLane),
            Ok(lane) => {
                let body = at + 13 + extension_len(lane);
                let end = body + u16_at(bytes, at + 11);
                if body > bytes.len() {
                    Err(SnapshotError::InvalidLength)
                } else if u16_at(bytes, at + 11) > MAX_HID_REPORT_SIZE {
                    Err(SnapshotError::ReportTooLarge)
                } else if end > bytes.len() {
                    Err(SnapshotError::InvalidLength)
                } else {
                    Ok(end)
                }
            },
        }
    }
}

/// Where `count` records from `at` on end, or why they are not there.
pub open spec fn records_end(bytes: Seq<u8>, count: nat, at: int) -> Result<int, SnapshotError>
    decreases count,
{
    if count == 0 {
        Ok(at)
    } else {
        match record_end(bytes, at) {
            Err(error) => Err(error),
            Ok(end) => records_end(bytes, (count - 1) as nat, end),
        }
    }
}

/// Whether `bytes` are `count` records, of which there must be one.
pub open spec fn check_records(count: u8, bytes: Seq<u8>) -> Result<(), SnapshotError> {
    if count == 0 {
        Err(SnapshotError::Empty)
    } else {
        match records_end(bytes, count as nat, 0) {
            Err(error) => Err(error),
            Ok(end) => if end == bytes.len() {
                Ok(())
            } else {
                Err(SnapshotError::InvalidLength)
            },
        }
    }
}

/// The record at `at`, where there is one.
pub open spec fn record_at(bytes: Seq<u8>, at: int) -> RecordView {
    let lane = InputLane::of_byte(bytes[at])->Ok_0;
    let body = at + 13 + extension_len(lane);
    RecordView {
        lane,
        device_id: DeviceId(bytes[at + 1]),
        interface_id: InterfaceId(bytes[at + 2]),
        sequence: u32_at(bytes, at + 3),
        e2e_sequence: u32_at(bytes, at + 7),
        motion: if lane == InputLane::Motion {
            motion_at(bytes, at + 13)
        } else {
            MotionCumulative::still()
        },
        report: bytes.subrange(body, body + u16_at(bytes, at + 11)),
    }
}

/// The `count` records from `at` on.
pub open spec fn records_from(bytes: Seq<u8>, count: nat, at: int) -> Seq<RecordView>
    decreases count,
{
    if count == 0 {
        seq![]
    } else {
        seq![record_at(bytes, at)] + records_from(
            bytes,
            (count - 1) as nat,
            record_end(bytes, at)->Ok_0,
        )
    }
}

/// Validated records of one input snapshot.
///
/// The outer bridge message owns the record count. Validating the complete
/// stream first prevents a truncated recovery record from being partially
/// applied to USB HID.
#[derive(Clone, Copy, Debug, PartialEq, Eq)]
pub struct InputSnapshotRecords<'a> {
    bytes: &'a [u8],
    remaining: u8,
    offset: usize,
}

impl<'a> View for InputSnapshotRecords<'a> {
    type V = Seq<RecordView>;

    /// The records that are still to come.
    closed spec fn view(&self) -> Seq<RecordView> {
        records_from(self.bytes@, self.remaining as nat, self.offset as int)
    }
}

impl<'a> InputSnapshotRecords<'a> {
    /// What is left is exactly the remaining records.
    pub closed spec fn wf(&self) -> bool {
        &&& self.offset <= self.bytes@.len()
        &&& records_end(self.bytes@, self.remaining as nat, self.offset as int) == Ok::<
            int,
            SnapshotError,
        >(self.bytes@.len() as int)
    }

    /// The records in `bytes`, which must be `record_count` records exactly.
    pub fn new(record_count: u8, bytes: &'a [u8]) -> (r: Result<Self, SnapshotError>)
        ensures
            check_records(record_count, bytes@) is Ok ==> r is Ok && r->Ok_0.wf() && r->Ok_0@
                == records_from(bytes@, record_count as nat, 0),
            check_records(record_count, bytes@) is Err ==> r is Err && r->Err_0 == check_records(
                record_count,
                bytes@,
            )->Err_0,
    {
        if record_count == 0 {
            return Err(SnapshotError::Empty);
        }
        let mut offset: usize = 0;
        let mut left: u8 = record_count;
        while left > 0
            invariant
                offset <= bytes@.len(),
                records_end(bytes@, left as nat, offset as int) == records_end(
                    bytes@,
                    record_count as nat,
                    0,
                ),
                record_count != 0,
            decreases left,
        {
            if bytes.len() - offset < INPUT_SNAPSHOT_RECORD_HEADER_LEN {
                return Err(SnapshotError::InvalidLength);
            }
            let lane = match InputLane::decode(bytes[offset]) {
                Ok(lane) => lane,
                Err(_) => {
                    return Err(SnapshotError::InvalidLane);
                },
            };
            let body: usize = offset + INPUT_SNAPSHOT_RECORD_HEADER_LEN;
            let extension: usize = motion_extension_len(lane);
            if bytes.len() - body < extension {
                return Err(SnapshotError::InvalidLength);
            }
            let report_len: usize = get16(bytes, offset + 11) as usize;
            if report_len > MAX_HID_REPORT_SIZE {
                return Err(SnapshotError::ReportTooLarge);
            }
            if bytes.len() - body - extension < report_len {
                return Err(SnapshotError::InvalidLength);
            }
            offset = body + extension + report_len;
            left -= 1;
        }
        if offset != bytes.len() {
            return Err(SnapshotError::InvalidLength);
        }
        Ok(Self { bytes, remaining: record_count, offset: 0 })
    }

    /// The next record, if one is left.
    pub fn next(&mut self) -> (r: Option<InputSnapshotRecord<'a>>)
        requires
            old(self).wf(),
        ensures
            final(self).wf(),
            old(self)@.len() == 0 ==> r is None && final(self)@ == old(self)@,
            old(self)@.len() > 0 ==> r is Some && r->0@ == old(self)@[0] && final(self)@ == old(
                self,
            )@.skip(1),
    {
        if self.remaining == 0 {
            return None;
        }
        let bytes = self.bytes;
        let at: usize = self.offset;
        let lane = match InputLane::decode(bytes[at]) {
            Ok(lane) => lane,
            Err(_) => {
                return None;
            },
        };
        let body: usize = at + INPUT_SNAPSHOT_RECORD_HEADER_LEN + motion_extension_len(lane);
        let motion = match lane {
            InputLane::Motion => decode_motion(bytes, at + INPUT_SNAPSHOT_RECORD_HEADER_LEN),
            InputLane::Critical => MotionCumulative::zero(),
        };
        let end: usize = body + get16(bytes, at + 11) as usize;
        let record = InputSnapshotRecord {
            lane,
            device_id: DeviceId(bytes[at + 1]),
            interface_id: InterfaceId(bytes[at + 2]),
            sequence: get32(bytes, at + 3),
            e2e_sequence: get32(bytes, at + 7),
            motion,
            report: part(bytes, body, end),
        };
        self.offset = end;
        self.remaining -= 1;
        assert(old(self)@.skip(1) =~= self@);
        Some(record)
    }
}

fn motion_extension_len(lane: InputLane) -> (r: usize)
    ensures
        r == extension_len(lane),
{
    match lane {
        InputLane::Critical => 0,
        InputLane::Motion => INPUT_SNAPSHOT_MOTION_EXTENSION_LEN,
    }
}

/// The bytes of records one after the other.
pub open spec fn stream_bytes(records: Seq<RecordView>) -> Seq<u8>
    decreases records.len(),
{
    if records.len() == 0 {
        seq![]
    } else {
        stream_bytes(records.drop_last()) + record_bytes(records.last())
    }
}

/// A report as a record of the critical lane, which carries no motion.
pub open spec fn critical_record(r: ReportView) -> RecordView {
    RecordView {
        lane: InputLane::Critical,
        device_id: r.device_id,
        interface_id: r.interface_id,
        sequence: r.sequence,
        e2e_sequence: r.e2e_sequence,
        motion: MotionCumulative::still(),
        report: r.report,
    }
}

/// A report as a record of the motion lane.
pub open spec fn motion_record(r: ReportView) -> RecordView {
    RecordView {
        lane: InputLane::Motion,
        device_id: r.device_id,
        interface_id: r.interface_id,
        sequence: r.sequence,
        e2e_sequence: r.e2e_sequence,
        motion: r.motion,
        report: r.report,
    }
}

/// How many of the newest reports fit into `budget` bytes as critical records.
pub open spec fn newest_fitting(history: Seq<ReportView>, budget: int) -> nat
    decreases history.len(),
{
    if history.len() == 0 {
        0
    } else {
        let len = 13 + history.last().report.len();
        if len > budget {
            0
        } else {
            1 + newest_fitting(history.drop_last(), budget - len)
        }
    }
}

/// The newest `n` reports as critical records, oldest first.
pub open spec fn newest_records(history: Seq<ReportView>, n: int) -> Seq<RecordView> {
    Seq::new(n as nat, |i: int| critical_record(history[history.len() - n + i]))
}

/// The records of a state frame of `history` and, last, `motion`, for a buffer
/// of `space` bytes of which `target` should be enough: as many of the newest
/// reports as fit. The newest report alone is taken though it is over the
/// target where there is no motion and the buffer has room.
pub open spec fn state_records(
    history: Seq<ReportView>,
    space: int,
    target: int,
    motion: Option<ReportView>,
) -> Result<Seq<RecordView>, SnapshotError> {
    let within = if target < space {
        target
    } else {
        space
    };
    match motion {
        None => if history.len() == 0 {
            Err(SnapshotError::Empty)
        } else if 13 + history.last().report.len() > space {
            Err(SnapshotError::BufferTooSmall)
        } else {
            let n = if 13 + history.last().report.len() > within {
                1
            } else {
                newest_fitting(history, within)
            };
            if n > 255 {
                Err(SnapshotError::TooManyRecords)
            } else {
                Ok(newest_records(history, n as int))
            }
        },
        Some(report) => {
            let len = 29 + report.report.len();
            let n = newest_fitting(
                history,
                if len < within {
                    within - len
                } else {
                    0
                },
            );
            if len > space {
                Err(SnapshotError::BufferTooSmall)
            } else if n + 1 > 255 {
                Err(SnapshotError::TooManyRecords)
            } else {
                Ok(newest_records(history, n as int).push(motion_record(report)))
            }
        },
    }
}

proof fn lemma_record_len(r: RecordView)
    ensures
        record_bytes(r).len() == 13 + extension_len(r.lane) + r.report.len(),
{
}

proof fn lemma_newest_fitting(history: Seq<ReportView>, budget: int)
    requires
        budget >= 0,
    ensures
        newest_fitting(history, budget) <= history.len(),
        stream_bytes(newest_records(history, newest_fitting(history, budget) as int)).len()
            <= budget,
    decreases history.len(),
{
    if history.len() > 0 {
        let len = 13 + history.last().report.len();
        if len <= budget {
            let rest = history.drop_last();
            lemma_newest_fitting(rest, budget - len);
            let n = newest_fitting(history, budget) as int;
            let records = newest_records(history, n);
            assert(records.drop_last() =~= newest_records(rest, n - 1));
            lemma_record_len(records.last());
        }
    }
}

/// The newest reports that fit are all that fit: with one more they would not.
pub proof fn law_no_longer_suffix_fits(history: Seq<ReportView>, budget: int)
    requires
        budget >= 0,
    ensures
        newest_fitting(history, budget) <= history.len(),
        stream_bytes(newest_records(history, newest_fitting(history, budget) as int)).len()
            <= budget,
        newest_fitting(history, budget) < history.len() ==> stream_bytes(
            newest_records(history, newest_fitting(history, budget) as int + 1),
        ).len() > budget,
    decreases history.len(),
{
    lemma_newest_fitting(history, budget);
    if history.len() > 0 {
        let len = 13 + history.last().report.len();
        let n = newest_fitting(history, budget) as int;
        let rest = history.drop_last();
        let records = newest_records(history, n + 1);
        if n < history.len() {
            lemma_record_len(records.last());
            assert(records.last() == critical_record(history.last()));
            if len <= budget {
                law_no_longer_suffix_fits(rest, budget - len);
                assert(records.drop_last() =~= newest_records(rest, n));
            }
        }
    }
}

/// Writes one record at `offset` and says where it ends.
fn encode_record(
    out: &mut [u8],
    offset: usize,
    lane: InputLane,
    report: &InputReportRecord,
    Ghost(record): Ghost<RecordView>,
) -> (r: usize)
    requires
        report.wf(),
        record == (if lane == InputLane::Motion {
            motion_record(report@)
        } else {
            critical_record(report@)
        }),
        offset + record_bytes(record).len() <= old(out)@.len(),
    ensures
        r == offset + record_bytes(record).len(),
        final(out)@ == splice(old(out)@, offset as int, record_bytes(record)),
{
    let n: usize = out.len();
    proof {
        lemma_record_len(record);
    }
    let bytes = report.report();
    let s = to_le32(report.sequence);
    let e = to_le32(report.e2e_sequence);
    let l = to_le16(bytes.len() as u16);
    let header: [u8; 13] = [
        lane.to_byte(), report.device_id.0, report.interface_id.0, s[0], s[1], s[2], s[3], e[0],
        e[1], e[2], e[3], l[0], l[1],
    ];
    let ghost head = seq![lane.byte(), record.device_id.0, record.interface_id.0] + le32(
        record.sequence,
    ) + le32(record.e2e_sequence) + le16(record.report.len() as u16);
    assert(header@ =~= head);
    write_at(out, offset, &header);
    let mut end: usize = offset + INPUT_SNAPSHOT_RECORD_HEADER_LEN;
    match lane {
        InputLane::Motion => {
            write_at(out, end, &encode_motion(report.motion));
            end += INPUT_SNAPSHOT_MOTION_EXTENSION_LEN;
            assert(record_bytes(record) =~= head + motion_bytes(record.motion) + record.report);
        },
        InputLane::Critical => {
            assert(record_bytes(record) =~= head + record.report);
        },
    }
    write_at(out, end, bytes);
    assert(out@ =~= splice(old(out)@, offset as int, record_bytes(record)));
    end + bytes.len()
}

/// Fixed-size rolling transition journal used to build self-healing input
/// snapshots. Each new snapshot carries the newest suffix which fits in the
/// requested radio budget; no packet identity is retained or retransmitted.
pub struct InputSnapshotHistory<const CAPACITY: usize> {
    entries: [Option<InputReportRecord>; CAPACITY],
    start: usize,
    len: usize,
}

impl<const CAPACITY: usize> View for InputSnapshotHistory<CAPACITY> {
    type V = Seq<ReportView>;

    /// The reports, oldest first.
    closed spec fn view(&self) -> Seq<ReportView> {
        Seq::new(self.len as nat, |i: int| self.entries@[self.slot(i)]->0@)
    }
}

impl<const CAPACITY: usize> InputSnapshotHistory<CAPACITY> {
    closed spec fn slot(&self, logical: int) -> int {
        if logical < CAPACITY - self.start {
            self.start + logical
        } else {
            logical - (CAPACITY - self.start)
        }
    }

    /// The ring is within its buffer and every place in it is taken.
    pub closed spec fn wf(&self) -> bool {
        &&& self.len <= CAPACITY
        &&& self.start < CAPACITY || CAPACITY == 0
        &&& forall|i: int|
            0 <= i < self.len ==> (#[trigger] self.entries@[self.slot(i)]) is Some
                && self.entries@[self.slot(i)]->0.wf()
    }

    /// What `wf` says of the view.
    pub proof fn lemma_wf(&self)
        requires
            self.wf(),
        ensures
            self@.len() <= CAPACITY,
            forall|i: int|
                0 <= i < self@.len() ==> (#[trigger] self@[i]).report.len() <= MAX_HID_REPORT_SIZE,
    {
        assert forall|i: int| 0 <= i < self@.len() implies (#[trigger] self@[i]).report.len()
            <= MAX_HID_REPORT_SIZE by {
            assert(self.entries@[self.slot(i)]->0.wf());
        }
    }

    /// An empty journal.
    pub fn new() -> (r: Self)
        ensures
            r.wf(),
            r@.len() == 0,
    {
        Self { entries: [None; CAPACITY], start: 0, len: 0 }
    }

    /// Adds the newest report, in place of the oldest where the journal is
    /// full.
    pub fn push(&mut self, report: InputReportRecord)
        requires
            old(self).wf(),
            report.wf(),
        ensures
            final(self).wf(),
            final(self)@ == if CAPACITY == 0 {
                old(self)@
            } else if old(self)@.len() < CAPACITY {
                old(self)@.push(report@)
            } else {
                old(self)@.skip(1).push(report@)
            },
    {
        if CAPACITY == 0 {
            return ;
        }
        if self.len < CAPACITY {
            let index: usize = if self.len < CAPACITY - self.start {
                self.start + self.len
            } else {
                self.len - (CAPACITY - self.start)
            };
            self.entries[index] = Some(report);
            self.len += 1;
            proof {
                assert forall|i: int| 0 <= i < self.len implies (#[trigger] self.entries@[self.slot(
                    i,
                )]) is Some && self.entries@[self.slot(i)]->0.wf() by {
                    if i < self.len - 1 {
                        assert(self.slot(i) == old(self).slot(i));
                        assert(old(self).entries@[old(self).slot(i)] is Some);
                    }
                }
            }
            assert(self@ =~= old(self)@.push(report@));
        } else {
            let index: usize = self.start;
            self.entries[index] = Some(report);
            self.start = if index + 1 == CAPACITY {
                0
            } else {
                index + 1
            };
            proof {
                assert forall|i: int| 0 <= i < self.len implies (#[trigger] self.entries@[self.slot(
                    i,
                )]) is Some && self.entries@[self.slot(i)]->0.wf() by {
                    if i < self.len - 1 {
                        assert(self.slot(i) == old(self).slot(i + 1));
                        assert(old(self).entries@[old(self).slot(i + 1)] is Some);
                    }
                }
                assert(self@ =~= old(self)@.skip(1).push(report@)) by {
                    assert forall|i: int| 0 <= i < self.len implies self@[i] == old(self)@.skip(
                        1,
                    ).push(report@)[i] by {
                        if i < self.len - 1 {
                            assert(self.slot(i) == old(self).slot(i + 1));
                        }
                    }
                }
            }
        }
    }

    /// How many reports the journal holds.
    pub fn len(&self) -> (r: usize)
        ensures
            r == self@.len(),
    {
        self.len
    }

    /// Whether the journal holds none.
    pub fn is_empty(&self) -> (r: bool)
        ensures
            r == (self@.len() == 0),
    {
        self.len == 0
    }

    /// Forgets all reports.
    pub fn clear(&mut self)
        ensures
            final(self).wf(),
            final(self)@.len() == 0,
    {
        self.entries = [None; CAPACITY];
        self.start = 0;
        self.len = 0;
    }

    fn entry(&self, logical: usize) -> (r: &InputReportRecord)
        requires
            self.wf(),
            logical < self@.len(),
        ensures
            r@ == self@[logical as int],
            r.wf(),
    {
        let index: usize = if logical < CAPACITY - self.start {
            self.start + logical
        } else {
            logical - (CAPACITY - self.start)
        };
        assert(self.entries@[self.slot(logical as int)] is Some);
        match &self.entries[index] {
            Some(record) => record,
            None => vstd::pervasive::unreached(),
        }
    }

    /// Encode the largest chronological suffix which fits `target_len`.
    /// A single oversized newest report is still emitted when it fits `out`,
    /// allowing the wire fragmenter to handle uncommon long reports.
    pub fn encode_recent(&self, out: &mut [u8], target_len: usize) -> (r: Result<
        EncodedInputSnapshot,
        SnapshotError,
    >)
        requires
            self.wf(),
        ensures
            ({
                let records = state_records(
                    self@,
                    old(out)@.len() as int,
                    target_len as int,
                    None,
                );
                &&& records is Err ==> r == Err::<EncodedInputSnapshot, SnapshotError>(
                    records->Err_0,
                ) && final(out)@ == old(out)@
                &&& records is Ok ==> r == Ok::<EncodedInputSnapshot, SnapshotError>(
                    (EncodedInputSnapshot {
                        record_count: records->Ok_0.len() as u8,
                        records_len: stream_bytes(records->Ok_0).len() as usize,
                    }),
                ) && final(out)@ == stream_bytes(records->Ok_0) + old(out)@.skip(
                    stream_bytes(records->Ok_0).len() as int,
                )
            }),
    {
        self.encode_state(out, target_len, None)
    }

    /// How many of the newest reports a state frame carries.
    fn select_critical(
        &self,
        space: usize,
        target_len: usize,
        motion: Option<&InputReportRecord>,
    ) -> (r: Result<usize, SnapshotError>)
        requires
            self.wf(),
            motion is Some ==> motion->0.wf(),
        ensures
            ({
                let records = state_records(
                    self@,
                    space as int,
                    target_len as int,
                    viewed(motion),
                );
                &&& records is Err ==> r == Err::<usize, SnapshotError>(records->Err_0)
                &&& records is Ok ==> {
                    &&& r is Ok
                    &&& r->Ok_0 <= self@.len()
                    &&& records->Ok_0 == match motion {
                        None => newest_records(self@, r->Ok_0 as int),
                        Some(report) => newest_records(self@, r->Ok_0 as int).push(
                            motion_record(report@),
                        ),
                    }
                    &&& records->Ok_0.len() <= 255
                    &&& stream_bytes(records->Ok_0).len() <= space
                }
            }),
    {
        if self.len == 0 && motion.is_none() {
            return Err(SnapshotError::Empty);
        }
        let budget: usize = if target_len < space {
            target_len
        } else {
            space
        };
        let motion_len: usize = match motion {
            None => 0,
            Some(report) => 29 + report.report().len(),
        };
        if motion_len > space {
            return Err(SnapshotError::BufferTooSmall);
        }
        let critical_budget: usize = if motion_len < budget {
            budget - motion_len
        } else {
            0
        };
        let mut selected: usize = 0;
        let oversized = match motion {
            Some(_) => false,
            None => {
                let newest: usize = 13 + self.entry(self.len - 1).report().len();
                if newest > space {
                    return Err(SnapshotError::BufferTooSmall);
                }
                newest > critical_budget
            },
        };
        if oversized {
            selected = 1;
            proof {
                let records = newest_records(self@, 1);
                assert(records.drop_last() =~= Seq::<RecordView>::empty());
                lemma_record_len(records.last());
                assert(stream_bytes(records) == stream_bytes(records.drop_last()) + record_bytes(
                    records.last(),
                ));
                assert(records.last() == critical_record(self@.last()));
                assert(stream_bytes(records).len() <= space);
            }
        } else {
            selected = self.count_fitting(critical_budget);
            proof {
                lemma_newest_fitting(self@, critical_budget as int);
            }
        }
        if selected > 255 || (selected == 255 && motion.is_some()) {
            return Err(SnapshotError::TooManyRecords);
        }
        proof {
            let critical = newest_records(self@, selected as int);
            if let Some(report) = motion {
                let records = critical.push(motion_record(report@));
                assert(records.drop_last() =~= critical);
                lemma_record_len(records.last());
                assert(stream_bytes(records).len() <= space);
            } else {
                assert(stream_bytes(critical).len() <= space);
            }
        }
        Ok(selected)
    }

    /// How many of the newest reports fit into `budget` bytes.
    fn count_fitting(&self, budget: usize) -> (r: usize)
        requires
            self.wf(),
        ensures
            r == newest_fitting(self@, budget as int),
            r <= self@.len(),
    {
        let mut selected: usize = 0;
        let mut selected_len: usize = 0;
        assert(self@.take(self.len as int) =~= self@);
        while selected < self.len
            invariant_except_break
                newest_fitting(self@, budget as int) == selected + newest_fitting(
                    self@.take(self.len - selected),
                    budget - selected_len,
                ),
            invariant
                self.wf(),
                selected <= self.len,
                self.len == self@.len(),
                selected_len <= budget,
            ensures
                selected == newest_fitting(self@, budget as int),
            decreases self.len - selected,
        {
            let ghost rest = self@.take(self.len - selected);
            let record_len: usize = 13 + self.entry(self.len - 1 - selected).report().len();
            assert(rest.last() == self@[self.len - 1 - selected]);
            if record_len > budget - selected_len {
                break ;
            }
            assert(rest.drop_last() =~= self@.take(self.len - (selected + 1)));
            selected += 1;
            selected_len += record_len;
        }
        selected
    }

    /// Encode recent critical transitions and, when present, the latest
    /// cumulative motion in one broadcast state frame. Motion is always the
    /// final record; older critical transitions are trimmed first.
    pub fn encode_state(
        &self,
        out: &mut [u8],
        target_len: usize,
        motion: Option<&InputReportRecord>,
    ) -> (r: Result<EncodedInputSnapshot, SnapshotError>)
        requires
            self.wf(),
            motion is Some ==> motion->0.wf(),
        ensures
            ({
                let records = state_records(
                    self@,
                    old(out)@.len() as int,
                    target_len as int,
                    viewed(motion),
                );
                &&& records is Err ==> r == Err::<EncodedInputSnapshot, SnapshotError>(
                    records->Err_0,
                ) && final(out)@ == old(out)@
                &&& records is Ok ==> r == Ok::<EncodedInputSnapshot, SnapshotError>(
                    (EncodedInputSnapshot {
                        record_count: records->Ok_0.len() as u8,
                        records_len: stream_bytes(records->Ok_0).len() as usize,
                    }),
                ) && final(out)@ == stream_bytes(records->Ok_0) + old(out)@.skip(
                    stream_bytes(records->Ok_0).len() as int,
                )
            }),
    {
        let space: usize = out.len();
        let selected: usize = match self.select_critical(space, target_len, motion) {
            Ok(selected) => selected,
            Err(error) => {
                return Err(error);
            },
        };
        let ghost critical = newest_records(self@, selected as int);
        let ghost records = match motion {
            None => critical,
            Some(report) => critical.push(motion_record(report@)),
        };
        proof {
            if motion is Some {
                assert(records.drop_last() =~= critical);
                lemma_record_len(records.last());
            }
            assert(critical.take(0) =~= Seq::<RecordView>::empty());
        }
        let mut offset: usize = 0;
        let mut index: usize = 0;
        assert(out@ =~= stream_bytes(critical.take(0)) + old(out)@.skip(0));
        while index < selected
            invariant
                self.wf(),
                self.len == self@.len(),
                index <= selected <= self.len,
                space == old(out)@.len(),
                critical == newest_records(self@, selected as int),
                stream_bytes(critical).len() <= space,
                offset == stream_bytes(critical.take(index as int)).len(),
                out@ == stream_bytes(critical.take(index as int)) + old(out)@.skip(offset as int),
                offset <= space,
            decreases selected - index,
        {
            let logical: usize = self.len - selected + index;
            let report = self.entry(logical);
            let ghost before = stream_bytes(critical.take(index as int));
            let ghost record = critical[index as int];
            proof {
                lemma_prefix_len(critical, index + 1);
                assert(critical.take(index + 1).drop_last() =~= critical.take(index as int));
                assert(critical.take(index + 1).last() == record);
            }
            offset = encode_record(out, offset, InputLane::Critical, report, Ghost(record));
            index += 1;
            assert(out@ =~= before + record_bytes(record) + old(out)@.skip(offset as int));
        }
        assert(critical.take(index as int) =~= critical);
        if let Some(report) = motion {
            let ghost before = stream_bytes(critical);
            let ghost record = motion_record(report@);
            assert(records.drop_last() =~= critical);
            offset = encode_record(out, offset, InputLane::Motion, report, Ghost(record));
            assert(out@ =~= before + record_bytes(record) + old(out)@.skip(offset as int));
        }
        let count: usize = if motion.is_some() {
            selected + 1
        } else {
            selected
        };
        Ok(EncodedInputSnapshot { record_count: count as u8, records_len: offset })
    }
}

impl<const CAPACITY: usize> Default for InputSnapshotHistory<CAPACITY> {
    fn default() -> (r: Self)
        ensures
            r.wf(),
            r@.len() == 0,
    {
        Self::new()
    }
}

/// What an optional report says.
pub open spec fn viewed(report: Option<&InputReportRecord>) -> Option<ReportView> {
    match report {
        Some(report) => Some(report@),
        None => None,
    }
}

proof fn lemma_prefix_len(records: Seq<RecordView>, n: int)
    requires
        0 <= n <= records.len(),
    ensures
        stream_bytes(records.take(n)).len() <= stream_bytes(records).len(),
    decreases records.len() - n,
{
    if n < records.len() {
        lemma_prefix_len(records, n + 1);
        assert(records.take(n + 1).drop_last() =~= records.take(n));
    } else {
        assert(records.take(n) =~= records);
    }
}

/// What a record must be for its bytes to say all of it.
pub open spec fn record_valid(r: RecordView) -> bool {
    &&& r.report.len() <= MAX_HID_REPORT_SIZE
    &&& r.lane == InputLane::Critical ==> r.motion == MotionCumulative::still()
}

proof fn lemma_record_at(bytes: Seq<u8>, at: int, r: RecordView)
    requires
        record_valid(r),
        0 <= at,
        at + record_bytes(r).len() <= bytes.len(),
        bytes.subrange(at, at + record_bytes(r).len()) == record_bytes(r),
    ensures
        record_end(bytes, at) == Ok::<int, SnapshotError>(at + record_bytes(r).len()),
        record_at(bytes, at) == r,
{
    lemma_record_len(r);
    let b = record_bytes(r);
    let ext = extension_len(r.lane);
    let body = at + 13 + ext;
    assert(b.subrange(0, 3) =~= seq![r.lane.byte(), r.device_id.0, r.interface_id.0]);
    assert(b.subrange(3, 7) =~= le32(r.sequence));
    assert(b.subrange(7, 11) =~= le32(r.e2e_sequence));
    assert(b.subrange(11, 13) =~= le16(r.report.len() as u16));
    assert(b.subrange(13 + ext, b.len() as int) =~= r.report);
    lemma_part_of_part(bytes, at, b, 0, 3);
    lemma_part_of_part(bytes, at, b, 3, 7);
    lemma_part_of_part(bytes, at, b, 7, 11);
    lemma_part_of_part(bytes, at, b, 11, 13);
    lemma_part_of_part(bytes, at, b, 13 + ext, b.len() as int);
    let first = bytes.subrange(at, at + 3);
    assert(first[0] == bytes[at] && first[1] == bytes[at + 1] && first[2] == bytes[at + 2]);
    lemma_u32_in(bytes, at + 3, r.sequence);
    lemma_u32_in(bytes, at + 7, r.e2e_sequence);
    lemma_u16_in(bytes, at + 11, r.report.len() as u16);
    if r.lane == InputLane::Motion {
        assert(b.subrange(13, 29) =~= motion_bytes(r.motion));
        lemma_part_of_part(bytes, at, b, 13, 29);
        lemma_motion(bytes, at + 13, r.motion);
    }
}

proof fn lemma_stream_front(records: Seq<RecordView>)
    requires
        records.len() > 0,
    ensures
        stream_bytes(records) == record_bytes(records[0]) + stream_bytes(records.skip(1)),
    decreases records.len(),
{
    if records.len() == 1 {
        assert(records.drop_last() =~= Seq::<RecordView>::empty());
        assert(records.skip(1) =~= Seq::<RecordView>::empty());
        assert(stream_bytes(records) =~= record_bytes(records[0]) + stream_bytes(records.skip(1)));
    } else {
        lemma_stream_front(records.drop_last());
        assert(records.drop_last().skip(1) =~= records.skip(1).drop_last());
        assert(stream_bytes(records) =~= record_bytes(records[0]) + stream_bytes(records.skip(1)));
    }
}

proof fn lemma_read_stream(bytes: Seq<u8>, at: int, records: Seq<RecordView>)
    requires
        forall|i: int| 0 <= i < records.len() ==> record_valid(#[trigger] records[i]),
        0 <= at,
        at + stream_bytes(records).len() <= bytes.len(),
        bytes.subrange(at, at + stream_bytes(records).len()) == stream_bytes(records),
    ensures
        records_end(bytes, records.len(), at) == Ok::<int, SnapshotError>(
            at + stream_bytes(records).len(),
        ),
        records_from(bytes, records.len(), at) == records,
    decreases records.len(),
{
    if records.len() == 0 {
        assert(records_from(bytes, 0, at) =~= records);
    } else {
        let first = records[0];
        let rest = records.skip(1);
        let len = record_bytes(first).len();
        let all = stream_bytes(records);
        lemma_stream_front(records);
        assert(bytes.subrange(at, at + len) =~= all.subrange(0, len as int));
        assert(all.subrange(0, len as int) =~= record_bytes(first));
        lemma_record_at(bytes, at, first);
        assert(bytes.subrange(at + len, at + len + stream_bytes(rest).len()) =~= all.subrange(
            len as int,
            all.len() as int,
        ));
        assert(all.subrange(len as int, all.len() as int) =~= stream_bytes(rest));
        assert forall|i: int| 0 <= i < rest.len() implies record_valid(#[trigger] rest[i]) by {
            assert(rest[i] == records[i + 1]);
        }
        lemma_read_stream(bytes, at + len, rest);
        assert(seq![first] + rest =~= records);
    }
}

/// A stream of records is accepted and read back record for record.
pub proof fn law_snapshot_round_trip(records: Seq<RecordView>)
    requires
        0 < records.len() <= 255,
        forall|i: int| 0 <= i < records.len() ==> record_valid(#[trigger] records[i]),
    ensures
        check_records(records.len() as u8, stream_bytes(records)) is Ok,
        records_from(stream_bytes(records), records.len(), 0) == records,
{
    let bytes = stream_bytes(records);
    assert(bytes.subrange(0, bytes.len() as int) =~= bytes);
    lemma_read_stream(bytes, 0, records);
}

/// A state frame, however much of the history it has room for, ends with the
/// newest report of the journal, or with the motion where there is one, and
/// the report before it in the frame is the one before it in the journal.
pub proof fn law_state_frame_keeps_the_newest(
    history: Seq<ReportView>,
    space: int,
    target: int,
    motion: Option<ReportView>,
)
    requires
        0 <= space,
        0 <= target,
        state_records(history, space, target, motion) is Ok,
    ensures
        ({
            let records = state_records(history, space, target, motion)->Ok_0;
            &&& 0 < records.len() <= 255
            &&& motion is Some ==> records.last() == motion_record(motion->0)
            &&& motion is None ==> records.last() == critical_record(history.last())
            &&& forall|i: int|
                0 <= i < records.len() - (if motion is Some {
                    1int
                } else {
                    0
                }) ==> {
                    let n = records.len() - (if motion is Some {
                        1int
                    } else {
                        0
                    });
                    #[trigger] records[i] == critical_record(history[history.len() - n + i])
                }
        }),
{
}

/// A report in a snapshot is that of its device and interface, with its numbers and
/// its bytes; one of the motion lane has the movement too.
pub proof fn law_records_are_their_reports(r: ReportView)
    ensures
        critical_record(r).lane == InputLane::Critical,
        critical_record(r).device_id == r.device_id,
        critical_record(r).interface_id == r.interface_id,
        critical_record(r).sequence == r.sequence,
        critical_record(r).e2e_sequence == r.e2e_sequence,
        critical_record(r).report == r.report,
        motion_record(r).lane == InputLane::Motion,
        motion_record(r).device_id == r.device_id,
        motion_record(r).interface_id == r.interface_id,
        motion_record(r).sequence == r.sequence,
        motion_record(r).e2e_sequence == r.e2e_sequence,
        motion_record(r).motion == r.motion,
        motion_record(r).report == r.report,
{
}

/// The newest reports of a journal are its end, in order.
pub proof fn law_newest_records_are_the_end(history: Seq<ReportView>, n: int, i: int)
    requires
        0 <= i < n <= history.len(),
    ensures
        newest_records(history, n).len() == n,
        newest_records(history, n)[i].report == history[history.len() - n + i].report,
        newest_records(history, n)[i].sequence == history[history.len() - n + i].sequence,
        newest_records(history, n)[i].interface_id == history[history.len() - n + i].interface_id,
        newest_records(history, n).last().report == history.last().report,
{
}

} // verus!
