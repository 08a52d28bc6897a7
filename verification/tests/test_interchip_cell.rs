use hidshift::interchip::cell::{SpiCell, SpiCellError};

#[test]
fn cell_round_trips_exact_fixed_wire_size() {
    let mut cell = SpiCell::empty(0x1234_5678);
    cell.header.tx_sequence = 7;
    cell.header.cumulative_ack = 5;
    cell.header.payload_len = 3;
    cell.header.record_count = 1;
    cell.payload[..3].copy_from_slice(&[1, 2, 3]);
    let bytes = cell.encode().unwrap();
    assert_eq!(bytes.len(), 128);
    assert_eq!(SpiCell::decode(&bytes), Ok(cell));
}

#[test]
fn corruption_is_rejected_before_payload_processing() {
    let mut bytes = SpiCell::empty(9).encode().unwrap();
    bytes[40] ^= 0x80;
    assert_eq!(SpiCell::decode(&bytes), Err(SpiCellError::CrcMismatch));
}

#[test]
fn sequence_zero_cannot_carry_records() {
    let mut cell = SpiCell::empty(1);
    cell.header.payload_len = 4;
    assert_eq!(cell.encode(), Err(SpiCellError::SequenceZeroHasPayload));
}
