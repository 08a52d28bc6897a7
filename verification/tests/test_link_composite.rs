use hidshift::ids::InterfaceId;
use hidshift::link::MAX_HID_REPORT_SIZE;
use hidshift::link::composite::{CompositeDescriptor, CompositeDescriptorError};

// Minimal keyboard-like descriptor without a Report ID.
const KEYBOARD: &[u8] = &[
    0x05, 0x01, 0x09, 0x06, 0xa1, 0x01, 0x75, 0x08, 0x95, 0x08, 0x81, 0x02, 0xc0,
];
const VENDOR_WITH_IDS: &[u8] = &[
    0x06, 0x00, 0xff, 0x09, 0x01, 0xa1, 0x01, 0x85, 0x07, 0x75, 0x08, 0x95, 0x03, 0x81, 0x02,
    0x85, 0x09, 0x95, 0x02, 0x91, 0x02, 0xc0,
];

#[test]
fn interfaces_without_ids_get_unique_prefixes() {
    let mut composite = CompositeDescriptor::new();
    composite.add_interface(InterfaceId(1), KEYBOARD).unwrap();
    composite.add_interface(InterfaceId(2), KEYBOARD).unwrap();
    assert_eq!(&composite.descriptor()[..2], &[0x85, 1]);
    assert_eq!(
        &composite.descriptor()[KEYBOARD.len() + 2..KEYBOARD.len() + 4],
        &[0x85, 2]
    );

    let mut report = [0; MAX_HID_REPORT_SIZE + 1];
    assert_eq!(
        composite.encode_input_report(InterfaceId(2), &[0, 4, 0], &mut report),
        Ok(4)
    );
    assert_eq!(&report[..4], &[2, 0, 4, 0]);
}

#[test]
fn existing_ids_are_remapped_and_bidirectional_reports_are_reversible() {
    let mut composite = CompositeDescriptor::new();
    composite
        .add_interface(InterfaceId(4), VENDOR_WITH_IDS)
        .unwrap();
    assert_eq!(composite.mappings().len(), 2);
    assert_eq!(composite.mappings()[0].source_report_id, Some(7));
    assert_eq!(composite.mappings()[1].source_report_id, Some(9));
    assert!(
        composite
            .descriptor()
            .windows(2)
            .any(|item| item == [0x85, 1])
    );
    assert!(
        composite
            .descriptor()
            .windows(2)
            .any(|item| item == [0x85, 2])
    );

    let mut wire = [0; MAX_HID_REPORT_SIZE + 1];
    let len = composite
        .encode_input_report(InterfaceId(4), &[7, 0xaa, 0xbb], &mut wire)
        .unwrap();
    assert_eq!(&wire[..len], &[1, 0xaa, 0xbb]);

    let mut source = [0; MAX_HID_REPORT_SIZE];
    let (interface, id, len) = composite
        .decode_host_report(&[2, 0x10, 0x20], &mut source)
        .unwrap();
    assert_eq!((interface, id), (InterfaceId(4), Some(9)));
    assert_eq!(&source[..len], &[9, 0x10, 0x20]);
}

#[test]
fn malformed_descriptor_does_not_partially_mutate_composite() {
    let mut composite = CompositeDescriptor::new();
    composite.add_interface(InterfaceId(1), KEYBOARD).unwrap();
    let before = composite.clone();
    assert_eq!(
        composite.add_interface(InterfaceId(2), &[0x75]),
        Err(CompositeDescriptorError::MalformedDescriptor)
    );
    assert_eq!(composite, before);
}
