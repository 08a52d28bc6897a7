use hidshift::checksum::crc16_ccitt_false;
use hidshift::e2e_mirror::{
    MIRROR_E2E_SPI_DROP_MAX, MirrorE2eError, MirrorE2ePacket, MirrorRawInjectionError,
    MirrorRawInjectionReceiver, OPCODE_DROP_SPI_CELLS, OPCODE_INJECT_ENDPOINT_IN,
    OPCODE_INJECT_SPI_CRC_FAILURE, raw_injection_transfer_id, requested_spi_drop_cells,
};

#[test]
fn packet_and_uart_line_round_trip_exact_fixed_sizes() {
    let packet = MirrorE2ePacket::new(0x11, 2, 3, 47, &[1, 2, 3]).unwrap();
    assert_eq!(packet.encode().len(), 64);
    assert_eq!(packet.encode_line().len(), 145);
    assert_eq!(MirrorE2ePacket::decode(&packet.encode()), Ok(packet));
    assert_eq!(
        MirrorE2ePacket::decode_line(&packet.encode_line()),
        Ok(packet)
    );
}

#[test]
fn corruption_and_noncanonical_tail_are_rejected() {
    let packet = MirrorE2ePacket::new(1, 2, 3, 4, &[5]).unwrap();
    let mut bytes = packet.encode();
    bytes[20] = 1;
    let crc = crc16_ccitt_false(&bytes[..62]).to_le_bytes();
    bytes[62..64].copy_from_slice(&crc);
    assert_eq!(
        MirrorE2ePacket::decode(&bytes),
        Err(MirrorE2eError::InvalidPayloadLength)
    );
    bytes[62] ^= 1;
    assert_eq!(
        MirrorE2ePacket::decode(&bytes),
        Err(MirrorE2eError::CrcMismatch)
    );
}

#[test]
fn raw_injection_reassembles_a_64_byte_report_without_changing_bytes() {
    let expected = core::array::from_fn::<_, 64, _>(|index| index as u8);
    let transfer_id = raw_injection_transfer_id(0x82, 64);
    let first = MirrorE2ePacket::new(
        OPCODE_INJECT_ENDPOINT_IN,
        10,
        transfer_id,
        0,
        &expected[..47],
    )
    .unwrap();
    let second = MirrorE2ePacket::new(
        OPCODE_INJECT_ENDPOINT_IN,
        11,
        transfer_id,
        47,
        &expected[47..],
    )
    .unwrap();
    let mut receiver = MirrorRawInjectionReceiver::new();
    assert_eq!(receiver.push(&first), Ok(None));
    let completed = receiver.push(&second).unwrap().unwrap();
    assert_eq!(completed.endpoint_address, 0x82);
    assert_eq!(completed.data(), &expected);
}

#[test]
fn raw_injection_rejects_a_gap_or_directionless_endpoint() {
    let mut receiver = MirrorRawInjectionReceiver::new();
    let invalid_endpoint = MirrorE2ePacket::new(
        OPCODE_INJECT_ENDPOINT_IN,
        1,
        raw_injection_transfer_id(0x02, 1),
        0,
        &[1],
    )
    .unwrap();
    assert_eq!(
        receiver.push(&invalid_endpoint),
        Err(MirrorRawInjectionError::InvalidEndpoint)
    );
    let gap = MirrorE2ePacket::new(
        OPCODE_INJECT_ENDPOINT_IN,
        2,
        raw_injection_transfer_id(0x82, 64),
        1,
        &[1],
    )
    .unwrap();
    assert_eq!(
        receiver.push(&gap),
        Err(MirrorRawInjectionError::TransferMismatch)
    );
}

#[test]
fn spi_drop_fault_requires_the_opcode_and_clamps_the_poll_count() {
    let one = MirrorE2ePacket::new(OPCODE_DROP_SPI_CELLS, 1, 0, 0, &[]).unwrap();
    let bounded = MirrorE2ePacket::new(OPCODE_DROP_SPI_CELLS, 2, u32::MAX, 0, &[]).unwrap();
    let payload = MirrorE2ePacket::new(OPCODE_DROP_SPI_CELLS, 3, 4, 0, &[1]).unwrap();
    let other = MirrorE2ePacket::new(OPCODE_INJECT_SPI_CRC_FAILURE, 4, 4, 0, &[]).unwrap();

    assert_eq!(requested_spi_drop_cells(&one), Some(1));
    assert_eq!(
        requested_spi_drop_cells(&bounded),
        Some(MIRROR_E2E_SPI_DROP_MAX)
    );
    assert_eq!(requested_spi_drop_cells(&payload), None);
    assert_eq!(requested_spi_drop_cells(&other), None);
}
