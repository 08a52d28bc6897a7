use hidshift::espnow_pairing::EspNowRole;
use hidshift::espnow_security::{
    EspNowSecurityError, SECURE_HEADER_LEN, SecureEspNowFrame, derive_session_key,
};

const KEY: [u8; 16] = *b"pairing-key-0001";

#[test]
fn authenticated_frame_round_trips_without_exposing_plaintext() {
    let plaintext = b"keyboard vendor report";
    let sealed =
        SecureEspNowFrame::seal(&KEY, EspNowRole::UsbHost, 0x1234, 7, plaintext).unwrap();
    assert!(
        !sealed
            .as_bytes()
            .windows(plaintext.len())
            .any(|w| w == plaintext)
    );
    let mut received = SecureEspNowFrame::decode(sealed.as_bytes()).unwrap();
    let opened = received.open(&KEY, EspNowRole::UsbHost).unwrap();
    assert_eq!(opened.bytes, plaintext);
    assert_eq!((opened.session, opened.sequence), (0x1234, 7));
}

#[test]
fn tampering_wrong_key_and_reflected_direction_are_rejected() {
    let sealed = SecureEspNowFrame::seal(&KEY, EspNowRole::UsbHost, 1, 2, b"input").unwrap();
    let mut bytes = sealed.as_bytes().to_vec();
    bytes[SECURE_HEADER_LEN] ^= 1;
    let mut tampered = SecureEspNowFrame::decode(&bytes).unwrap();
    assert_eq!(
        tampered.open(&KEY, EspNowRole::UsbHost),
        Err(EspNowSecurityError::AuthenticationFailed)
    );
    let mut wrong_key = sealed.clone();
    assert_eq!(
        wrong_key.open(&[0x55; 16], EspNowRole::UsbHost),
        Err(EspNowSecurityError::AuthenticationFailed)
    );
    let mut reflected = sealed;
    assert_eq!(
        reflected.open(&KEY, EspNowRole::UsbDevice),
        Err(EspNowSecurityError::WrongSenderRole)
    );
}

#[test]
fn session_keys_are_directional_and_bound_to_both_boots() {
    let host_to_device = derive_session_key(&KEY, 10, 20, EspNowRole::UsbHost);
    let device_to_host = derive_session_key(&KEY, 10, 20, EspNowRole::UsbDevice);
    assert_ne!(host_to_device, device_to_host);
    assert_ne!(
        host_to_device,
        derive_session_key(&KEY, 11, 20, EspNowRole::UsbHost)
    );
    assert_ne!(
        host_to_device,
        derive_session_key(&KEY, 10, 21, EspNowRole::UsbHost)
    );

    let sealed =
        SecureEspNowFrame::seal(&host_to_device, EspNowRole::UsbHost, 10, 1, b"input").unwrap();
    let mut received = SecureEspNowFrame::decode(sealed.as_bytes()).unwrap();
    assert_eq!(
        received.open(&device_to_host, EspNowRole::UsbHost),
        Err(EspNowSecurityError::AuthenticationFailed)
    );
}
