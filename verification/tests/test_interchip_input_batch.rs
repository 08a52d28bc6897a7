use hidshift::interchip::RecordIter;
use hidshift::interchip::input_batch::{
    INPUT_REPORT_BATCH_MAX_REPORTS, InputReport, InputReportBatch,
};
use hidshift::interchip::message::{
    RECORD_RAW_ENDPOINT_IN, RECORD_STANDARD_INPUT_REPORT, RawEndpointReport, StandardInputReport,
};
use hidshift::reports::{MouseReport, StandardHidReport};

fn standard_mouse(sequence: u16, x: i8) -> StandardInputReport {
    StandardInputReport {
        flags: 0,
        sequence,
        report: StandardHidReport::Mouse(MouseReport::from_bytes([0, x as u8, 0, 0, 0])),
    }
}

#[test]
fn four_standard_reports_share_one_cell_in_order() {
    let reports = [
        standard_mouse(1, 1),
        standard_mouse(2, 2),
        standard_mouse(3, 3),
        standard_mouse(4, 4),
    ];
    let mut batch = InputReportBatch::new(InputReport::Standard(reports[0]));
    for report in &reports[1..] {
        batch.try_push(InputReport::Standard(*report)).unwrap();
    }

    let (payload, count) = batch.encoded();
    let mut iter = RecordIter::new(payload, count);
    let mut decoded = Vec::new();
    while let Some(record) = iter.next() {
        let record = record.unwrap();
        assert_eq!(record.record_type, RECORD_STANDARD_INPUT_REPORT);
        decoded.push(StandardInputReport::decode(record.data).unwrap());
    }

    assert_eq!(decoded.as_slice(), &reports);
}

#[test]
fn raw_and_standard_reports_can_share_a_cell_without_reordering() {
    let raw = RawEndpointReport::new(0x82, 9, &[1, 2, 3]).unwrap();
    let standard = standard_mouse(10, -4);
    let mut batch = InputReportBatch::new(InputReport::Raw(raw));
    batch.try_push(InputReport::Standard(standard)).unwrap();

    let (payload, count) = batch.encoded();
    let mut iter = RecordIter::new(payload, count);
    let mut records = Vec::new();
    while let Some(record) = iter.next() {
        records.push(record);
    }
    assert_eq!(
        records[0].as_ref().unwrap().record_type,
        RECORD_RAW_ENDPOINT_IN
    );
    assert_eq!(
        records[1].as_ref().unwrap().record_type,
        RECORD_STANDARD_INPUT_REPORT
    );
    assert_eq!(
        RawEndpointReport::decode(records[0].as_ref().unwrap().data),
        Ok(raw)
    );
    assert_eq!(
        StandardInputReport::decode(records[1].as_ref().unwrap().data),
        Ok(standard)
    );
}

#[test]
fn report_that_does_not_fit_is_returned_for_ordered_retry() {
    let large = RawEndpointReport::new(0x81, 1, &[0x5a; 64]).unwrap();
    let next = RawEndpointReport::new(0x82, 2, &[0xa5; 64]).unwrap();
    let mut batch = InputReportBatch::new(InputReport::Raw(large));

    assert_eq!(
        batch.try_push(InputReport::Raw(next)),
        Err(InputReport::Raw(next))
    );
    assert_eq!(batch.len(), 1);
}

#[test]
fn fixed_event_capacity_returns_the_fifth_report() {
    let first = RawEndpointReport::new(0x81, 1, &[]).unwrap();
    let mut batch = InputReportBatch::new(InputReport::Raw(first));
    for sequence in 2..=4 {
        batch
            .try_push(InputReport::Raw(
                RawEndpointReport::new(0x81, sequence, &[]).unwrap(),
            ))
            .unwrap();
    }
    let fifth = RawEndpointReport::new(0x81, 5, &[]).unwrap();

    assert_eq!(
        batch.try_push(InputReport::Raw(fifth)),
        Err(InputReport::Raw(fifth))
    );
    assert_eq!(batch.len(), INPUT_REPORT_BATCH_MAX_REPORTS);
}
