use hidshift::interchip::cell::SPI_CELL_PAYLOAD_LEN;
use hidshift::interchip::record::{Record, RecordCodecError, RecordIter, RecordRef, encode_records};

#[test]
fn multiple_records_round_trip_with_zero_padding() {
    let records = [
        Record {
            record_type: 1,
            flags: 2,
            data: &[1, 2, 3],
        },
        Record {
            record_type: 0x26,
            flags: 0,
            data: &[4, 5, 6, 7],
        },
    ];
    let mut payload = [0; SPI_CELL_PAYLOAD_LEN];
    let (length, count) = encode_records(&records, &mut payload).unwrap();
    let mut iter = RecordIter::new(&payload[..length as usize], count);
    assert_eq!(
        iter.next().unwrap().unwrap(),
        RecordRef {
            record_type: 1,
            flags: 2,
            data: &[1, 2, 3]
        }
    );
    assert_eq!(iter.next().unwrap().unwrap().data, &[4, 5, 6, 7]);
    assert!(iter.next().is_none());
    assert_eq!(iter.finish(), Ok(()));
}

#[test]
fn nonzero_padding_and_trailing_records_are_rejected() {
    let mut payload = [0; SPI_CELL_PAYLOAD_LEN];
    let (length, _) = encode_records(
        &[Record {
            record_type: 1,
            flags: 0,
            data: &[9],
        }],
        &mut payload,
    )
    .unwrap();
    payload[5] = 1;
    let mut iter = RecordIter::new(&payload[..length as usize], 1);
    assert_eq!(iter.next(), Some(Err(RecordCodecError::NonZeroPadding)));

    let iter = RecordIter::new(&[1, 0, 0, 0], 0);
    assert_eq!(iter.finish(), Err(RecordCodecError::RecordCountMismatch));
}
