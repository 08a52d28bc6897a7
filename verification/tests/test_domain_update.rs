use hidshift::domain::update::{
    FirmwareNode, FirmwareUpdate, FirmwareUpdateError, FirmwareUpdatePhase, ImageMetadata,
    UpdateTarget,
};

fn image(node: FirmwareNode, byte: u8) -> ImageMetadata {
    ImageMetadata {
        node,
        size: 16,
        sha256: [byte; 32],
        version: [1, 2, 3],
    }
}

#[test]
fn dual_update_commits_only_after_both_images_and_shared_health_check() {
    let mut update = FirmwareUpdate::new();
    let bundle = [7; 16];
    update
        .begin(
            UpdateTarget::Both,
            bundle,
            Some(image(FirmwareNode::Host, 1)),
            Some(image(FirmwareNode::Device, 2)),
        )
        .unwrap();
    update.accept_chunk(FirmwareNode::Host, 0, 16).unwrap();
    update.accept_chunk(FirmwareNode::Device, 0, 16).unwrap();
    update.verify(Some([1; 32]), Some([2; 32])).unwrap();
    update.request_reboot().unwrap();
    update.start_health_check(bundle).unwrap();
    update.finish_health_check(true).unwrap();
    assert_eq!(update.phase(), FirmwareUpdatePhase::Committed);
}

#[test]
fn interrupted_transfer_reports_resume_offset_and_rejects_gaps() {
    let mut update = FirmwareUpdate::new();
    update
        .begin(
            UpdateTarget::Host,
            [1; 16],
            Some(image(FirmwareNode::Host, 1)),
            None,
        )
        .unwrap();
    update.accept_chunk(FirmwareNode::Host, 0, 8).unwrap();
    assert_eq!(update.received(FirmwareNode::Host), 8);
    assert_eq!(
        update.accept_chunk(FirmwareNode::Host, 12, 4),
        Err(FirmwareUpdateError::WrongOffset)
    );
}

#[test]
fn mismatched_dual_bundle_rolls_back_transaction() {
    let mut update = FirmwareUpdate::new();
    update
        .begin(
            UpdateTarget::Host,
            [1; 16],
            Some(image(FirmwareNode::Host, 1)),
            None,
        )
        .unwrap();
    update.accept_chunk(FirmwareNode::Host, 0, 16).unwrap();
    update.verify(Some([1; 32]), None).unwrap();
    update.request_reboot().unwrap();
    assert_eq!(
        update.start_health_check([2; 16]),
        Err(FirmwareUpdateError::BundleMismatch)
    );
    assert_eq!(update.phase(), FirmwareUpdatePhase::RolledBack);
}
