use hidshift::ids::HostId;
use hidshift::management::{
    MANAGEMENT_PROTOCOL_VERSION, MANAGEMENT_REQUEST_LEN, MANAGEMENT_RESPONSE_LEN,
    ManagementCommand, ManagementDiagnostics, ManagementHistoryEvent, ManagementHostInfo,
    ManagementHostName, ManagementHostStatus, ManagementHostTiming, ManagementOutputTarget,
    ManagementOutputTargetStatus, ManagementProtocolError, ManagementRequest, ManagementResponse,
    ManagementResponsePayload, ManagementResult, ManagementSchema, ManagementSetting,
    ManagementStatus, ManagementUsbDevice, ManagementUsbPresentationKind, ManagementUsbStatus,
};
use hidshift::output_target::OutputTargetAvailability;
use hidshift::settings::{SettingId, SettingTarget};

#[test]
fn every_request_round_trips_in_one_att_packet() {
    let name = ManagementHostName::from_ascii("Work laptop").unwrap();
    for command in [
        ManagementCommand::GetStatus,
        ManagementCommand::SelectHost(HostId(2)),
        ManagementCommand::StartPairing(HostId(3)),
        ManagementCommand::ForgetHost(HostId(4)),
        ManagementCommand::GetHostInfo(HostId(1)),
        ManagementCommand::SetHostName {
            host_id: HostId(2),
            name,
        },
        ManagementCommand::CancelPairing,
        ManagementCommand::GetUsbDevice {
            index: 1,
            name_offset: 5,
        },
        ManagementCommand::GetDiagnostics,
        ManagementCommand::GetHostTiming(HostId(4)),
        ManagementCommand::GetHistory { index: 3 },
        ManagementCommand::GetSchema,
        ManagementCommand::GetSetting {
            id: SettingId::AutoReconnect,
            target: SettingTarget::Global,
        },
        ManagementCommand::SetSetting {
            id: SettingId::MouseSensitivityPercent,
            target: SettingTarget::Host(HostId(2)),
            value: 175,
        },
    ] {
        let request = ManagementRequest {
            request_id: 7,
            command,
        };
        assert_eq!(ManagementRequest::decode(&request.encode()), Ok(request));
    }
    assert_eq!(MANAGEMENT_REQUEST_LEN, 20);
    assert_eq!(MANAGEMENT_RESPONSE_LEN, 20);
}

#[test]
fn status_response_round_trips_usb_and_host_state() {
    let mut status = ManagementStatus::empty(4);
    status.active_host = Some(HostId(2));
    status.usb = ManagementUsbStatus {
        device_count: 2,
        interface_count: 3,
        keyboard_count: 1,
    };
    status.hosts[1] = ManagementHostStatus {
        known: true,
        connected: true,
        encrypted: true,
        bonded: true,
    };
    let response = ManagementResponse {
        request_id: 9,
        result: ManagementResult::Success,
        payload: ManagementResponsePayload::Status(status),
    };
    assert_eq!(ManagementResponse::decode(&response.encode()), Ok(response));
}

#[test]
fn output_target_commands_and_status_round_trip() {
    for command in [
        ManagementCommand::SelectOutputTarget(ManagementOutputTarget::Wired),
        ManagementCommand::SelectOutputTarget(ManagementOutputTarget::Ble(HostId(4))),
        ManagementCommand::GetOutputTargetStatus,
    ] {
        let request = ManagementRequest {
            request_id: 19,
            command,
        };
        assert_eq!(ManagementRequest::decode(&request.encode()), Ok(request));
    }

    let status = ManagementOutputTargetStatus {
        selected: ManagementOutputTarget::Wired,
        active: Some(ManagementOutputTarget::Wired),
        availability: OutputTargetAvailability::Ready,
        wired_ready: true,
        ready_ble_mask: 0b0101,
        effective_presentation: ManagementUsbPresentationKind::Fallback,
        mirror_configured: false,
        operation_id: 0x1234_5678,
    };
    let response = ManagementResponse {
        request_id: 19,
        result: ManagementResult::Success,
        payload: ManagementResponsePayload::OutputTargetStatus(status),
    };
    assert_eq!(ManagementResponse::decode(&response.encode()), Ok(response));

    let mut invalid = ManagementRequest {
        request_id: 1,
        command: ManagementCommand::SelectOutputTarget(ManagementOutputTarget::Wired),
    }
    .encode();
    invalid[5] = 1;
    assert_eq!(
        ManagementRequest::decode(&invalid),
        Err(ManagementProtocolError::InvalidArgument)
    );
}

#[test]
fn host_info_response_round_trips_name() {
    let response = ManagementResponse {
        request_id: 3,
        result: ManagementResult::Success,
        payload: ManagementResponsePayload::HostInfo(ManagementHostInfo {
            host_id: HostId(3),
            status: ManagementHostStatus::empty(),
            name: ManagementHostName::from_ascii("Gaming PC").unwrap(),
            name_source: 2,
        }),
    };
    assert_eq!(ManagementResponse::decode(&response.encode()), Ok(response));
}

#[test]
fn malformed_lengths_versions_and_names_are_rejected() {
    assert_eq!(
        ManagementRequest::decode(&[0; 19]),
        Err(ManagementProtocolError::InvalidLength)
    );
    let mut request = ManagementRequest {
        request_id: 1,
        command: ManagementCommand::GetStatus,
    }
    .encode();
    request[0] = MANAGEMENT_PROTOCOL_VERSION.wrapping_add(1);
    assert_eq!(
        ManagementRequest::decode(&request),
        Err(ManagementProtocolError::UnsupportedVersion)
    );
    assert!(ManagementHostName::from_ascii("name that is too long").is_err());
    assert!(ManagementHostName::from_ascii("bad\nname").is_err());
}

#[test]
fn extended_payloads_round_trip_in_default_att_packet() {
    let payloads = [
        ManagementResponsePayload::UsbDevice(ManagementUsbDevice {
            index: 1,
            device_id: 7,
            flags: 3,
            vendor_id: 0x1234,
            product_id: 0xabcd,
            name_len: 8,
            name_offset: 5,
            name_chunk_len: 3,
            name_chunk: *b"KBD\0\0",
        }),
        ManagementResponsePayload::Diagnostics(ManagementDiagnostics {
            uptime_seconds: 123,
            reset_reason: 15,
            brownout_count: 1,
            ble_disconnect_count: 2,
            ble_notify_failure_count: 3,
            usb_error_count: 4,
            flash_write_count: 5,
            flash_failure_count: 6,
        }),
        ManagementResponsePayload::History(ManagementHistoryEvent {
            kind: 2,
            sequence: 9,
            timestamp_seconds: 50,
            subject: 3,
            detail: 0x13,
            vendor_id: 0x1111,
            product_id: 0x2222,
        }),
        ManagementResponsePayload::Schema(ManagementSchema {
            version: 1,
            setting_count: 15,
            history_capacity: 16,
            usb_capacity: 8,
            hash: 0x12345678,
            firmware_major: 0,
            firmware_minor: 1,
            firmware_patch: 0,
        }),
        ManagementResponsePayload::Setting(ManagementSetting {
            id: SettingId::AutoReconnect,
            target: SettingTarget::Global,
            value: 1,
        }),
        ManagementResponsePayload::HostTiming(ManagementHostTiming {
            host_id: HostId(2),
            last_connected_seconds: 11,
            last_disconnected_seconds: 22,
            last_disconnect_reason: 0x13,
        }),
    ];
    for payload in payloads {
        let response = ManagementResponse {
            request_id: 42,
            result: ManagementResult::Success,
            payload,
        };
        assert_eq!(ManagementResponse::decode(&response.encode()), Ok(response));
    }
}
