use hidshift::espnow_pairing::{
    ESPNOW_KEY_LEN, EspNowPairing, EspNowPairingError, EspNowPairingTransaction, EspNowRole,
    select_newest_pairing,
};

const PEER: [u8; 6] = [0x68, 0xee, 0x8f, 0x63, 0x94, 0xa0];
const KEY: [u8; ESPNOW_KEY_LEN] = *b"pairing-key-0001";

#[test]
fn pairing_image_round_trips_and_detects_partial_writes() {
    let pairing = EspNowPairing {
        generation: 42,
        local_role: EspNowRole::UsbHost,
        peer_address: PEER,
        channel: 6,
        key: KEY,
    };
    let image = pairing.encode().unwrap();
    assert_eq!(EspNowPairing::decode(&image), Ok(pairing));

    let mut corrupt = image;
    corrupt[20] ^= 0x80;
    assert_eq!(
        EspNowPairing::decode(&corrupt),
        Err(EspNowPairingError::CrcMismatch)
    );
}

#[test]
fn transaction_requires_every_key_byte_before_commit() {
    let mut transaction = EspNowPairingTransaction::new(EspNowRole::UsbHost);
    transaction.begin(PEER, 6).unwrap();
    transaction.write_key_chunk(0, &KEY[..14]).unwrap();
    assert_eq!(
        transaction.commit(1),
        Err(EspNowPairingError::IncompleteKey)
    );
    transaction.write_key_chunk(14, &KEY[14..]).unwrap();
    assert_eq!(transaction.commit(1).unwrap().key, KEY);
}

#[test]
fn cancelled_or_invalid_pairing_cannot_be_committed() {
    let mut transaction = EspNowPairingTransaction::new(EspNowRole::UsbDevice);
    assert_eq!(
        transaction.begin([0xff; 6], 6),
        Err(EspNowPairingError::InvalidPeerAddress)
    );
    transaction.begin(PEER, 6).unwrap();
    transaction.write_key_chunk(0, &[0; 14]).unwrap();
    transaction.write_key_chunk(14, &[0; 2]).unwrap();
    assert_eq!(transaction.commit(1), Err(EspNowPairingError::InvalidKey));
    transaction.cancel();
    assert_eq!(
        transaction.commit(1),
        Err(EspNowPairingError::NoTransaction)
    );
}

#[test]
fn newest_pairing_selection_survives_generation_wrap() {
    let pairing = |generation| EspNowPairing {
        generation,
        local_role: EspNowRole::UsbHost,
        peer_address: PEER,
        channel: 6,
        key: KEY,
    };
    let before_wrap = pairing(u32::MAX).encode().unwrap();
    let after_wrap = pairing(0).encode().unwrap();
    assert_eq!(
        select_newest_pairing(&before_wrap, &after_wrap),
        Some(pairing(0))
    );
}
