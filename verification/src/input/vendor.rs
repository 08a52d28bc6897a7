//! Reports of vendors' own pages.

use vstd::prelude::*;

use super::InputError;
use crate::fixed;
use crate::fixed::bytes_in_64;
use crate::ids::{DeviceId, InterfaceId, ReportId};

verus! {

/// The longest vendor report.
pub const MAX_VENDOR_REPORT_SIZE: usize = 64;

/// Where a report goes.
#[derive(Clone, Copy, Debug, PartialEq, Eq, Structural)]
pub enum HidDirection {
    Input,
    Output,
    Feature,
}

/// A vendor report.
#[derive(Clone, Debug, PartialEq, Eq)]
pub struct VendorHidFrame {
    pub device_id: DeviceId,
    pub interface_id: InterfaceId,
    pub usage_page: u16,
    pub report_id: Option<ReportId>,
    pub direction: HidDirection,
    pub(crate) payload: heapless::Vec<u8, MAX_VENDOR_REPORT_SIZE>,
}

/// What a vendor report says.
pub struct VendorView {
    pub device_id: DeviceId,
    pub interface_id: InterfaceId,
    pub usage_page: u16,
    pub report_id: Option<ReportId>,
    pub direction: HidDirection,
    pub payload: Seq<u8>,
}

impl View for VendorHidFrame {
    type V = VendorView;

    open(crate) spec fn view(&self) -> VendorView {
        VendorView {
            device_id: self.device_id,
            interface_id: self.interface_id,
            usage_page: self.usage_page,
            report_id: self.report_id,
            direction: self.direction,
            payload: bytes_in_64(self.payload),
        }
    }
}

impl VendorHidFrame {
    /// A report around `payload`, unless that is too long.
    pub fn new(
        device_id: DeviceId,
        interface_id: InterfaceId,
        usage_page: u16,
        report_id: Option<ReportId>,
        direction: HidDirection,
        payload: &[u8],
    ) -> (r: Result<Self, InputError>)
        ensures
            payload@.len() <= MAX_VENDOR_REPORT_SIZE ==> r is Ok && r->Ok_0@ == (VendorView {
                device_id,
                interface_id,
                usage_page,
                report_id,
                direction,
                payload: payload@,
            }),
            payload@.len() > MAX_VENDOR_REPORT_SIZE ==> r is Err && r->Err_0
                == InputError::VendorPayloadCapacity,
    {
        let mut owned = fixed::new_64();
        match fixed::extend(&mut owned, payload) {
            Err(_) => Err(InputError::VendorPayloadCapacity),
            Ok(_) => {
                assert(bytes_in_64(owned) =~= payload@);
                Ok(
                    Self {
                        device_id,
                        interface_id,
                        usage_page,
                        report_id,
                        direction,
                        payload: owned,
                    },
                )
            },
        }
    }

    /// The report's bytes.
    pub fn payload(&self) -> (r: &[u8])
        ensures
            r@ == self@.payload,
    {
        fixed::items(&self.payload)
    }
}

} // verus!
