use hidshift::ids::{DeviceId, InterfaceId};
use hidshift::link::MAX_HID_REPORT_SIZE;
use hidshift::link::input_record::InputReportRecord;

#[test]
fn fixed_record_rejects_oversized_reports_without_partial_state() {
    let oversized = [0xaa; MAX_HID_REPORT_SIZE + 1];
    assert!(InputReportRecord::new(DeviceId(1), InterfaceId(2), 3, 4, &oversized).is_none());
}
