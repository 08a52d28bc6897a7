use hidshift::checksum::{crc16_ccitt_false, crc32_ieee};

#[test]
fn ccitt_false_matches_standard_check_value() {
    assert_eq!(crc16_ccitt_false(b"123456789"), 0x29b1);
}

#[test]
fn ieee_crc32_matches_standard_check_value() {
    assert_eq!(crc32_ieee(b"123456789"), 0xcbf4_3926);
}
