use hidshift::management::frame::{
    FRAME_HEADER_LEN, FRAME_PAYLOAD_CAPACITY, Frame, FrameError, FrameKind, NodeId, decode_stream,
    encode_stream,
};

#[test]
fn variable_length_frames_round_trip_with_request_identity_and_node() {
    for length in [0, 1, 17, 128, FRAME_PAYLOAD_CAPACITY] {
        let payload = [0xa5; FRAME_PAYLOAD_CAPACITY];
        let frame = Frame::new(
            FrameKind::Response,
            0x4321,
            NodeId::Device,
            3,
            &payload[..length],
        )
        .unwrap();
        assert_eq!(Frame::decode(&frame.encode()), Ok(frame));
    }
}

#[test]
fn cobs_stream_round_trip_handles_zero_bytes_and_delimiter() {
    let frame = Frame::new(FrameKind::Event, 0, NodeId::Host, 0, &[0, 1, 0, 2, 0]).unwrap();
    let encoded = encode_stream(&frame);
    assert_eq!(encoded.last(), Some(&0));
    assert!(!encoded[..encoded.len() - 1].contains(&0));
    assert_eq!(decode_stream(&encoded), Ok(frame));
}

#[test]
fn corruption_is_rejected_before_payload_dispatch() {
    let frame = Frame::new(FrameKind::Request, 7, NodeId::Host, 0, b"status").unwrap();
    let mut bytes = frame.encode();
    bytes[FRAME_HEADER_LEN] ^= 0x80;
    assert_eq!(Frame::decode(&bytes), Err(FrameError::CrcMismatch));
}

#[test]
fn malformed_lengths_and_oversized_payloads_are_explicit() {
    assert_eq!(
        Frame::new(
            FrameKind::Update,
            1,
            NodeId::Host,
            0,
            &[0; FRAME_PAYLOAD_CAPACITY + 1]
        ),
        Err(FrameError::PayloadTooLarge)
    );
    let frame = Frame::new(FrameKind::Request, 1, NodeId::Host, 0, &[]).unwrap();
    let mut bytes = frame.encode();
    bytes[8] = 1;
    assert_eq!(Frame::decode(&bytes), Err(FrameError::InvalidLength));
}
