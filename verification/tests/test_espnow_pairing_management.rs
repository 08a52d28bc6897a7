use hidshift::espnow_pairing::EspNowRole;
use hidshift::espnow_pairing_management::{
    EspNowPairingAction, EspNowPairingCommand, EspNowPairingPayload, EspNowPairingResult,
    EspNowPairingService, ManagementEspNowInfo,
};

#[test]
fn service_exposes_no_key_and_commits_only_complete_transactions() {
    let mut service = EspNowPairingService::new(EspNowRole::UsbHost, None);
    let info = service.handle(EspNowPairingCommand::GetEspNowInfo, [1; 6]);
    assert!(matches!(
        info.payload,
        EspNowPairingPayload::EspNowInfo(ManagementEspNowInfo { paired: false, .. })
    ));
    service.handle(
        EspNowPairingCommand::BeginEspNowPairing {
            peer_address: [2; 6],
            channel: 6,
        },
        [1; 6],
    );
    assert_eq!(
        service
            .handle(EspNowPairingCommand::CommitEspNowPairing, [1; 6])
            .result,
        EspNowPairingResult::InvalidPairing
    );
}

#[test]
fn complete_transaction_is_persisted_before_becoming_current() {
    let mut service = EspNowPairingService::new(EspNowRole::UsbDevice, None);
    let local_address = [1; 6];
    assert_eq!(
        service
            .handle(
                EspNowPairingCommand::BeginEspNowPairing {
                    peer_address: [2; 6],
                    channel: 6,
                },
                local_address,
            )
            .result,
        EspNowPairingResult::Success
    );
    for (offset, bytes) in [(0, &[1; 14][..]), (14, &[2; 2][..])] {
        assert_eq!(
            service
                .handle(
                    EspNowPairingCommand::WriteEspNowKey {
                        offset,
                        length: bytes.len() as u8,
                        bytes: {
                            let mut encoded = [0; 14];
                            encoded[..bytes.len()].copy_from_slice(bytes);
                            encoded
                        },
                    },
                    local_address,
                )
                .result,
            EspNowPairingResult::Success
        );
    }

    let outcome = service.handle(EspNowPairingCommand::CommitEspNowPairing, local_address);
    let EspNowPairingAction::Persist(pairing) = outcome.action else {
        panic!("complete pairing must request persistence");
    };
    assert_eq!(pairing.generation, 1);
    assert_eq!(pairing.local_role, EspNowRole::UsbDevice);

    let before_persist = service.handle(EspNowPairingCommand::GetEspNowInfo, local_address);
    assert!(matches!(
        before_persist.payload,
        EspNowPairingPayload::EspNowInfo(ManagementEspNowInfo { paired: false, .. })
    ));
    service.persisted(pairing);
    let after_persist = service.handle(EspNowPairingCommand::GetEspNowInfo, local_address);
    assert!(matches!(
        after_persist.payload,
        EspNowPairingPayload::EspNowInfo(ManagementEspNowInfo {
            paired: true,
            channel: 6,
            peer_address: [2, 2, 2, 2, 2, 2],
            ..
        })
    ));
}
