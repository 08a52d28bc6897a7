//! An owned input report.

use vstd::prelude::*;

use super::message::{MotionCumulative, MAX_HID_REPORT_SIZE};
use crate::bytes::{padded, part, write_at};
use crate::ids::{DeviceId, InterfaceId};

verus! {

/// Owned, fixed-capacity HID report at the radio input boundary.
///
/// The same representation is used by the critical transition journal and by
/// the writer on the device side, while transport-specific packet metadata
/// stays outside the USB HID layer.
#[derive(Clone, Copy, Debug, PartialEq, Eq)]
pub struct InputReportRecord {
    pub device_id: DeviceId,
    pub interface_id: InterfaceId,
    pub sequence: u32,
    pub e2e_sequence: u32,
    pub motion: MotionCumulative,
    pub(crate) report_len: u16,
    pub(crate) report: [u8; MAX_HID_REPORT_SIZE],
}

/// What an input report says.
pub struct ReportView {
    pub device_id: DeviceId,
    pub interface_id: InterfaceId,
    pub sequence: u32,
    pub e2e_sequence: u32,
    pub motion: MotionCumulative,
    pub report: Seq<u8>,
}

impl View for InputReportRecord {
    type V = ReportView;

    open(crate) spec fn view(&self) -> ReportView {
        ReportView {
            device_id: self.device_id,
            interface_id: self.interface_id,
            sequence: self.sequence,
            e2e_sequence: self.e2e_sequence,
            motion: self.motion,
            report: self.report@.take(self.report_len as int),
        }
    }
}

impl InputReportRecord {
    /// The length is within the buffer, and the bytes behind it are zero.
    pub open(crate) spec fn wf(&self) -> bool {
        &&& self.report_len <= MAX_HID_REPORT_SIZE
        &&& self.report@ == padded(self@.report, MAX_HID_REPORT_SIZE as nat)
    }

    /// A report without motion, unless it is too long.
    pub fn new(
        device_id: DeviceId,
        interface_id: InterfaceId,
        sequence: u32,
        e2e_sequence: u32,
        report: &[u8],
    ) -> (r: Option<Self>)
        ensures
            r is Some <==> report@.len() <= MAX_HID_REPORT_SIZE,
            r is Some ==> r->0.wf() && r->0@ == (ReportView {
                device_id,
                interface_id,
                sequence,
                e2e_sequence,
                motion: MotionCumulative::still(),
                report: report@,
            }),
    {
        Self::new_with_motion(
            device_id,
            interface_id,
            sequence,
            e2e_sequence,
            MotionCumulative::zero(),
            report,
        )
    }

    /// A report with motion, unless it is too long.
    pub fn new_with_motion(
        device_id: DeviceId,
        interface_id: InterfaceId,
        sequence: u32,
        e2e_sequence: u32,
        motion: MotionCumulative,
        report: &[u8],
    ) -> (r: Option<Self>)
        ensures
            r is Some <==> report@.len() <= MAX_HID_REPORT_SIZE,
            r is Some ==> r->0.wf() && r->0@ == (ReportView {
                device_id,
                interface_id,
                sequence,
                e2e_sequence,
                motion,
                report: report@,
            }),
    {
        if report.len() > MAX_HID_REPORT_SIZE {
            return None;
        }
        let mut bytes = [0u8; MAX_HID_REPORT_SIZE];
        write_at(&mut bytes, 0, report);
        assert(bytes@.take(report@.len() as int) =~= report@);
        assert(bytes@ =~= padded(report@, MAX_HID_REPORT_SIZE as nat));
        Some(
            Self {
                device_id,
                interface_id,
                sequence,
                e2e_sequence,
                motion,
                report_len: report.len() as u16,
                report: bytes,
            },
        )
    }

    /// The report's bytes.
    pub fn report(&self) -> (r: &[u8])
        requires
            self.wf(),
        ensures
            r@ == self@.report,
            r@.len() <= MAX_HID_REPORT_SIZE,
    {
        let r = part(&self.report, 0, self.report_len as usize);
        assert(r@ =~= self@.report);
        r
    }
}

} // verus!
