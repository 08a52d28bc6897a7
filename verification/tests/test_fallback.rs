use hidshift::fallback::{
    CONSUMER_REPORT_DESCRIPTOR, FALLBACK_USB_PRODUCT, FALLBACK_USB_PRODUCT_ID,
    FALLBACK_USB_VENDOR_ID, KEYBOARD_REPORT_DESCRIPTOR, MOUSE_REPORT_DESCRIPTOR,
};

use hidreport::ReportDescriptor;

#[test]
fn every_builtin_descriptor_is_valid_hid() {
    for descriptor in [
        &KEYBOARD_REPORT_DESCRIPTOR[..],
        &MOUSE_REPORT_DESCRIPTOR[..],
        &CONSUMER_REPORT_DESCRIPTOR[..],
    ] {
        assert!(ReportDescriptor::try_from(descriptor).is_ok());
    }
}

#[test]
fn fallback_identity_is_not_a_serial_or_management_device() {
    assert_eq!(FALLBACK_USB_PRODUCT, "HIDShift Wired");
    assert_ne!(FALLBACK_USB_VENDOR_ID, 0);
    assert_ne!(FALLBACK_USB_PRODUCT_ID, 0);
}
