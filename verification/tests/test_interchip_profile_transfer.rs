use hidshift::checksum::crc32_ieee;
use hidshift::interchip::{
    PROFILE_CHUNK_MAX_DATA_LEN, ProfileBegin, ProfileChunk, ProfileResultStatus,
};
use hidshift::interchip::profile_transfer::{
    HSMI_MAX_SIZE, ProfileChunkDisposition, ProfileTransferCommand, ProfileTransferEncoder,
    ProfileTransferError, ProfileTransferReceiver,
};

fn fallback_image() -> ([u8; 1024], usize) {
    let mut image = [0; 1024];
    for (index, byte) in image.iter_mut().enumerate() {
        *byte = (index % 251) as u8;
    }
    (image, 300)
}

fn begin_for(image: &[u8], transfer_id: u32) -> ProfileBegin {
    ProfileBegin {
        transfer_id,
        total_length: image.len() as u32,
        crc32: crc32_ieee(image),
        profile_hash: 0x1234_5678,
    }
}

fn transfer_all(receiver: &mut ProfileTransferReceiver<'_>, image: &[u8], transfer_id: u32) {
    receiver.begin(begin_for(image, transfer_id)).unwrap();
    for (index, data) in image.chunks(PROFILE_CHUNK_MAX_DATA_LEN).enumerate() {
        receiver
            .chunk(ProfileChunk {
                transfer_id,
                offset: (index * PROFILE_CHUNK_MAX_DATA_LEN) as u32,
                data,
            })
            .unwrap();
    }
}

#[test]
fn complete_valid_profile_is_exposed_only_after_commit() {
    let (image, length) = fallback_image();
    let mut staging = [0; HSMI_MAX_SIZE];
    let mut receiver = ProfileTransferReceiver::new(&mut staging);
    transfer_all(&mut receiver, &image[..length], 7);

    assert!(receiver.committed().is_none());
    let result = receiver.commit(7, |_: &[u8]| Ok(()));
    assert_eq!(result.status, ProfileResultStatus::Accepted);
    let (metadata, committed) = receiver.committed().unwrap();
    assert_eq!(metadata.length, length);
    assert_eq!(committed, &image[..length]);
}

#[test]
fn identical_chunk_retry_is_idempotent_but_conflict_discards_transfer() {
    let (image, length) = fallback_image();
    let mut staging = [0; HSMI_MAX_SIZE];
    let mut receiver = ProfileTransferReceiver::new(&mut staging);
    receiver.begin(begin_for(&image[..length], 8)).unwrap();
    let chunk = ProfileChunk {
        transfer_id: 8,
        offset: 0,
        data: &image[..32],
    };
    assert_eq!(receiver.chunk(chunk), Ok(ProfileChunkDisposition::Appended));
    assert_eq!(
        receiver.chunk(chunk),
        Ok(ProfileChunkDisposition::Duplicate)
    );
    let mut conflicting = image[..32].to_vec();
    conflicting[0] ^= 1;
    assert_eq!(
        receiver.chunk(ProfileChunk {
            data: &conflicting,
            ..chunk
        }),
        Err(ProfileTransferError::ConflictingRetry)
    );
    assert_eq!(receiver.commit(8, |_: &[u8]| Ok(())).status, ProfileResultStatus::InvalidImage);
}

#[test]
fn offset_gap_and_crc_mismatch_never_publish_staging_data() {
    let (image, length) = fallback_image();
    let mut staging = [0; HSMI_MAX_SIZE];
    let mut receiver = ProfileTransferReceiver::new(&mut staging);
    receiver.begin(begin_for(&image[..length], 9)).unwrap();
    assert_eq!(
        receiver.chunk(ProfileChunk {
            transfer_id: 9,
            offset: 1,
            data: &image[1..10],
        }),
        Err(ProfileTransferError::OffsetGap)
    );
    assert!(receiver.committed().is_none());

    let mut bad_begin = begin_for(&image[..length], 10);
    bad_begin.crc32 ^= 1;
    receiver.begin(bad_begin).unwrap();
    for (index, data) in image[..length]
        .chunks(PROFILE_CHUNK_MAX_DATA_LEN)
        .enumerate()
    {
        receiver
            .chunk(ProfileChunk {
                transfer_id: 10,
                offset: (index * PROFILE_CHUNK_MAX_DATA_LEN) as u32,
                data,
            })
            .unwrap();
    }
    assert_eq!(
        receiver.commit(10, |_: &[u8]| Ok(())).status,
        ProfileResultStatus::InvalidImage
    );
    assert!(receiver.committed().is_none());
}

#[test]
fn sender_emits_begin_contiguous_chunks_and_commit() {
    let image = [0x5a; PROFILE_CHUNK_MAX_DATA_LEN * 2 + 1];
    let mut encoder = ProfileTransferEncoder::new(4, 5, &image).unwrap();
    let mut commands = std::vec::Vec::new();
    while let Some(command) = encoder.next() {
        commands.push(command);
    }
    assert!(matches!(commands[0], ProfileTransferCommand::Begin(_)));
    assert!(matches!(
        commands.last(),
        Some(ProfileTransferCommand::Commit { transfer_id: 4 })
    ));
    let chunks: std::vec::Vec<_> = commands
        .iter()
        .filter_map(|command| match command {
            ProfileTransferCommand::Chunk(chunk) => Some(chunk.as_borrowed()),
            _ => None,
        })
        .collect();
    assert_eq!(chunks.len(), 3);
    assert_eq!(chunks[0].offset, 0);
    assert_eq!(chunks[1].offset, PROFILE_CHUNK_MAX_DATA_LEN as u32);
    assert_eq!(chunks[2].data, &[0x5a]);
}
