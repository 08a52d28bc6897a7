use hidshift::interchip::message::{
    ActivateProfile, CONTROL_DATA_MAX_LEN, CONTROL_REQUEST_MAX_WIRE_LEN,
    CONTROL_RESPONSE_MAX_WIRE_LEN, ControlStatus, Hello, InterchipRole, MessageError,
    MirrorControlRequest, MirrorControlResponse, PROFILE_CHUNK_MAX_DATA_LEN, ProfileBegin,
    ProfileChunk, ProfileChunkData, ProfileResult, ProfileResultStatus, RAW_ENDPOINT_MAX_WIRE_LEN,
    RawEndpointReport, StandardInputReport, StandardInputReportError, StandardOutputReport,
    StandardOutputReportError, UsbState,
};
use hidshift::reports::{ConsumerReport, Keyboard6KroReport, MouseReport, StandardHidReport};

#[test]
fn hello_round_trips_without_native_layout_assumptions() {
    let hello = Hello {
        role: InterchipRole::Host,
        protocol_version: 1,
        firmware_major: 2,
        firmware_minor: 3,
        capabilities: 0x1234_5678,
        active_profile_hash: 0xaabb_ccdd,
    };
    assert_eq!(Hello::decode(&hello.encode()), Ok(hello));
}

#[test]
fn usb_state_round_trips_and_rejects_reserved_bits() {
    let state = UsbState {
        attached: true,
        configured: true,
        fallback_active: true,
        healthy: true,
        active_profile_hash: 0x1234_5678,
        error_code: 9,
    };
    assert_eq!(UsbState::decode(&state.encode()), Ok(state));

    let mut invalid = state.encode();
    invalid[0] |= 0x80;
    assert_eq!(UsbState::decode(&invalid), Err(MessageError::InvalidFlags));
}

#[test]
fn every_standard_report_round_trips() {
    let reports = [
        StandardHidReport::Keyboard(Keyboard6KroReport::from_bytes([1, 0, 4, 5, 0, 0, 0, 0])),
        StandardHidReport::Mouse(MouseReport::from_bytes([1, 2, 3, 4, 5])),
        StandardHidReport::Consumer(ConsumerReport::from_usage_id(0x00e9)),
    ];
    for report in reports {
        let message = StandardInputReport {
            flags: 0x80,
            sequence: 42,
            report,
        };
        let (bytes, len) = message.encode();
        assert_eq!(
            StandardInputReport::decode(&bytes[..len as usize]),
            Ok(message)
        );
    }
}

#[test]
fn standard_output_report_round_trips_with_zeroed_tail() {
    let report = StandardOutputReport::new(1, &[0x05]).unwrap();
    assert_eq!(report.data(), &[0x05]);
    assert_eq!(StandardOutputReport::decode(&report.encode()), Ok(report));

    let mut noncanonical = report.encode();
    noncanonical[9] = 1;
    assert_eq!(
        StandardOutputReport::decode(&noncanonical),
        Err(StandardOutputReportError::InvalidLength)
    );
}

#[test]
fn kind_specific_length_is_enforced() {
    let invalid = [1, 0, 0, 0, 1, 0];
    assert_eq!(
        StandardInputReport::decode(&invalid),
        Err(StandardInputReportError::InvalidReportLength)
    );
}

#[test]
fn profile_transfer_messages_round_trip() {
    let begin = ProfileBegin {
        transfer_id: 7,
        total_length: 16_384,
        crc32: 0x1234_5678,
        profile_hash: 0xaabb_ccdd,
    };
    assert_eq!(ProfileBegin::decode(&begin.encode()), Ok(begin));

    let chunk = ProfileChunk {
        transfer_id: 7,
        offset: 96,
        data: &[1, 2, 3],
    };
    let mut encoded = [0; 104];
    let length = chunk.encode(&mut encoded).unwrap();
    assert_eq!(ProfileChunk::decode(&encoded[..length]), Ok(chunk));

    let result = ProfileResult {
        transfer_id: 7,
        profile_hash: 0xaabb_ccdd,
        status: ProfileResultStatus::Accepted,
        reject_reason: 0,
        detail: 42,
    };
    assert_eq!(ProfileResult::decode(&result.encode()), Ok(result));

    let activate = ActivateProfile {
        operation_id: 19,
        profile_hash: 0xaabb_ccdd,
    };
    assert_eq!(ActivateProfile::decode(&activate.encode()), Ok(activate));
}

#[test]
fn raw_endpoint_report_preserves_endpoint_sequence_and_payload() {
    let report = RawEndpointReport::new(0x82, 0xfffe, &[0x10; 64]).unwrap();
    let mut encoded = [0; RAW_ENDPOINT_MAX_WIRE_LEN];
    let length = report.encode(&mut encoded).unwrap();
    assert_eq!(RawEndpointReport::decode(&encoded[..length]), Ok(report));
    assert_eq!(report.data(), &[0x10; 64]);

    encoded[1] = 1;
    assert_eq!(
        RawEndpointReport::decode(&encoded[..length]),
        Err(MessageError::InvalidLength)
    );
}

#[test]
fn mirror_control_messages_preserve_setup_status_and_data() {
    let request =
        MirrorControlRequest::new(0x1122_3344, [0xa1, 1, 0x10, 3, 1, 0, 17, 0], &[]).unwrap();
    let mut request_bytes = [0; CONTROL_REQUEST_MAX_WIRE_LEN];
    let request_len = request.encode(&mut request_bytes).unwrap();
    assert_eq!(
        MirrorControlRequest::decode(&request_bytes[..request_len]),
        Ok(request)
    );

    let response =
        MirrorControlResponse::new(request.request_id, ControlStatus::Success, &[0x10; 17])
            .unwrap();
    let mut response_bytes = [0; CONTROL_RESPONSE_MAX_WIRE_LEN];
    let response_len = response.encode(&mut response_bytes).unwrap();
    assert_eq!(
        MirrorControlResponse::decode(&response_bytes[..response_len]),
        Ok(response)
    );
}

#[test]
fn mirror_control_messages_reject_oversize_and_unknown_status() {
    assert_eq!(
        MirrorControlRequest::new(1, [0; 8], &[0; CONTROL_DATA_MAX_LEN + 1]),
        Err(MessageError::InvalidLength)
    );
    assert_eq!(
        MirrorControlResponse::new(1, ControlStatus::Success, &[0; CONTROL_DATA_MAX_LEN + 1]),
        Err(MessageError::InvalidLength)
    );
    assert_eq!(
        MirrorControlResponse::decode(&[1, 0, 0, 0, 5, 0, 0]),
        Err(MessageError::InvalidStatus)
    );
}

#[test]
fn owned_profile_chunk_rejects_oversized_data_without_panicking() {
    let data = [0; PROFILE_CHUNK_MAX_DATA_LEN + 1];
    assert_eq!(
        ProfileChunkData::from_borrowed(ProfileChunk {
            transfer_id: 1,
            offset: 0,
            data: &data,
        }),
        Err(MessageError::InvalidLength)
    );
}
