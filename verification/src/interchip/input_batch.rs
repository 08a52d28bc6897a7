//! Several input reports in one cell.

use vstd::prelude::*;

use super::cell::SPI_CELL_PAYLOAD_LEN;
use super::message::{
    RawEndpointReport, RawReportView, StandardInputReport, StandardInputView,
    RAW_ENDPOINT_MAX_WIRE_LEN, RECORD_RAW_ENDPOINT_IN, RECORD_STANDARD_INPUT_REPORT,
};
use super::record::{align4, records_wire, SpiRecord, RECORD_HEADER_LEN};
use crate::bytes::{padded, part, to_le16, write_at};

verus! {

/// Matches the fixed per-cell event capacity of the device firmware.
pub const INPUT_REPORT_BATCH_MAX_REPORTS: usize = 4;

/// A report of either kind.
#[derive(Clone, Copy, Debug, PartialEq, Eq)]
pub enum InputReport {
    Raw(RawEndpointReport),
    Standard(StandardInputReport),
}

/// What a report of either kind says.
pub enum InputReportView {
    Raw(RawReportView),
    Standard(StandardInputView),
}

impl View for InputReport {
    type V = InputReportView;

    open spec fn view(&self) -> InputReportView {
        match *self {
            InputReport::Raw(report) => InputReportView::Raw(report@),
            InputReport::Standard(report) => InputReportView::Standard(report@),
        }
    }
}

impl InputReportView {
    /// The record that carries the report.
    pub open spec fn record(self) -> SpiRecord {
        match self {
            InputReportView::Raw(report) => SpiRecord {
                record_type: RECORD_RAW_ENDPOINT_IN,
                flags: 0,
                data: report.wire(),
            },
            InputReportView::Standard(report) => SpiRecord {
                record_type: RECORD_STANDARD_INPUT_REPORT,
                flags: 0,
                data: report.wire(),
            },
        }
    }
}

impl InputReport {
    /// A raw report is within its buffer.
    pub open spec fn wf(&self) -> bool {
        match *self {
            InputReport::Raw(report) => report.wf(),
            InputReport::Standard(_) => true,
        }
    }

    fn encode(self) -> (r: (u8, [u8; RAW_ENDPOINT_MAX_WIRE_LEN], usize))
        requires
            self.wf(),
        ensures
            r.0 == self@.record().record_type,
            r.2 <= RAW_ENDPOINT_MAX_WIRE_LEN,
            r.1@.take(r.2 as int) == self@.record().data,
    {
        let mut data = [0u8; RAW_ENDPOINT_MAX_WIRE_LEN];
        match self {
            Self::Raw(report) => {
                let payload = report.data();
                let s = to_le16(report.packet_sequence);
                let l = to_le16(payload.len() as u16);
                let head: [u8; 6] = [report.endpoint_address, 0, s[0], s[1], l[0], l[1]];
                write_at(&mut data, 0, &head);
                write_at(&mut data, 6, payload);
                let n: usize = 6 + payload.len();
                assert(data@.take(n as int) =~= self@.record().data);
                (RECORD_RAW_ENDPOINT_IN, data, n)
            },
            Self::Standard(report) => {
                let (encoded, length) = report.encode();
                let n: usize = length as usize;
                write_at(&mut data, 0, part(&encoded, 0, n));
                assert(data@.take(n as int) =~= self@.record().data);
                (RECORD_STANDARD_INPUT_REPORT, data, n)
            },
        }
    }
}

/// Up to four reports, as records of one cell.
#[derive(Clone, Debug, PartialEq, Eq)]
pub struct InputReportBatch {
    payload: [u8; SPI_CELL_PAYLOAD_LEN],
    payload_len: u8,
    report_count: u8,
}

/// The records of a batch as they stand in the cell.
pub struct BatchView {
    pub bytes: Seq<u8>,
    pub count: u8,
}

impl View for InputReportBatch {
    type V = BatchView;

    closed spec fn view(&self) -> BatchView {
        BatchView { bytes: self.payload@.take(self.payload_len as int), count: self.report_count }
    }
}

impl BatchView {
    /// Whether one more report fits.
    pub open spec fn takes(self, report: InputReportView) -> bool {
        self.count < INPUT_REPORT_BATCH_MAX_REPORTS && self.bytes.len()
            + report.record().wire().len() <= SPI_CELL_PAYLOAD_LEN
    }

    /// The batch with one more report behind the others.
    pub open spec fn with_report(self, report: InputReportView) -> BatchView {
        BatchView {
            bytes: self.bytes + report.record().wire(),
            count: (self.count + 1) as u8,
        }
    }
}

impl InputReportBatch {
    /// The records are within the payload, and the bytes behind them are zero.
    pub closed spec fn wf(&self) -> bool {
        &&& self.payload_len <= SPI_CELL_PAYLOAD_LEN
        &&& self.report_count <= INPUT_REPORT_BATCH_MAX_REPORTS
        &&& self.payload@ == padded(self@.bytes, SPI_CELL_PAYLOAD_LEN as nat)
    }

    /// What `wf` says of the view.
    pub proof fn lemma_wf(&self)
        requires
            self.wf(),
        ensures
            self@.bytes.len() <= SPI_CELL_PAYLOAD_LEN,
            self@.count <= INPUT_REPORT_BATCH_MAX_REPORTS,
    {
    }

    /// A batch of one report.
    pub fn new(report: InputReport) -> (r: Self)
        requires
            report.wf(),
        ensures
            r.wf(),
            r@ == (BatchView { bytes: report@.record().wire(), count: 1 }),
    {
        let mut batch = Self {
            payload: [0; SPI_CELL_PAYLOAD_LEN],
            payload_len: 0,
            report_count: 0,
        };
        assert(batch@.bytes =~= Seq::<u8>::empty());
        assert(batch.payload@ =~= padded(batch@.bytes, SPI_CELL_PAYLOAD_LEN as nat));
        let (record_type, data, data_len) = report.encode();
        let bytes = part(&data, 0, data_len);
        assert(bytes@ =~= report@.record().data);
        batch.push_encoded(record_type, bytes, Ghost(report@.record()));
        assert(batch@.bytes =~= report@.record().wire());
        batch
    }

    /// Adds a report only when the complete record still fits in one cell.
    /// The rejected report is returned unchanged so the caller can preserve
    /// ordering in a pending slot.
    pub fn try_push(&mut self, report: InputReport) -> (r: Result<(), InputReport>)
        requires
            old(self).wf(),
            report.wf(),
        ensures
            final(self).wf(),
            old(self)@.takes(report@) ==> r is Ok && final(self)@ == old(self)@.with_report(
                report@,
            ),
            !old(self)@.takes(report@) ==> r == Err::<(), InputReport>(report) && final(self)@
                == old(self)@,
    {
        if self.report_count as usize >= INPUT_REPORT_BATCH_MAX_REPORTS {
            return Err(report);
        }
        let (record_type, data, data_len) = report.encode();
        let bytes = part(&data, 0, data_len);
        assert(bytes@ =~= report@.record().data);
        let record_len: usize = align4(RECORD_HEADER_LEN + data_len);
        if self.payload_len as usize + record_len > SPI_CELL_PAYLOAD_LEN {
            return Err(report);
        }
        self.push_encoded(record_type, bytes, Ghost(report@.record()));
        Ok(())
    }

    fn push_encoded(&mut self, record_type: u8, data: &[u8], Ghost(record): Ghost<SpiRecord>)
        requires
            old(self).wf(),
            old(self)@.count < INPUT_REPORT_BATCH_MAX_REPORTS,
            data@.len() <= RAW_ENDPOINT_MAX_WIRE_LEN,
            record == (SpiRecord { record_type, flags: 0, data: data@ }),
            old(self)@.bytes.len() + record.wire().len() <= SPI_CELL_PAYLOAD_LEN,
        ensures
            final(self).wf(),
            final(self)@ == (BatchView {
                bytes: old(self)@.bytes + record.wire(),
                count: (old(self)@.count + 1) as u8,
            }),
    {
        let record_len: usize = align4(RECORD_HEADER_LEN + data.len());
        let offset: usize = self.payload_len as usize;
        let l = to_le16(data.len() as u16);
        let head: [u8; 4] = [record_type, 0, l[0], l[1]];
        write_at(&mut self.payload, offset, &head);
        write_at(&mut self.payload, offset + RECORD_HEADER_LEN, data);
        self.payload_len = (offset + record_len) as u8;
        self.report_count += 1;
        assert(self.payload@.take(offset + record_len) =~= old(self)@.bytes + record.wire());
        assert(self.payload@ =~= padded(self@.bytes, SPI_CELL_PAYLOAD_LEN as nat));
    }

    /// How many reports the batch has.
    pub fn len(&self) -> (r: usize)
        ensures
            r == self@.count,
    {
        self.report_count as usize
    }

    /// The records, and how many they are.
    pub fn encoded(&self) -> (r: (&[u8], u8))
        requires
            self.wf(),
        ensures
            r.0@ == self@.bytes,
            r.1 == self@.count,
    {
        let bytes = part(&self.payload, 0, self.payload_len as usize);
        assert(bytes@ =~= self@.bytes);
        (bytes, self.report_count)
    }
}

/// A batch of the records of some reports, with one report more, is the
/// records of those reports and that one, in order.
pub proof fn law_batch_keeps_the_order(
    batch: BatchView,
    records: Seq<SpiRecord>,
    report: InputReportView,
)
    requires
        batch.bytes == records_wire(records),
        batch.count == records.len(),
        batch.takes(report),
    ensures
        batch.with_report(report).bytes == records_wire(records.push(report.record())),
        batch.with_report(report).count == records.push(report.record()).len(),
{
    assert(records.push(report.record()).drop_last() =~= records);
}

} // verus!
