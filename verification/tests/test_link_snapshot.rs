use hidshift::ids::{DeviceId, InterfaceId};
use hidshift::link::{InputReportRecord, InputSequenceDecision, InputSequenceWindow};
use hidshift::link::snapshot::{
    InputSnapshotHistory, InputSnapshotRecord, InputSnapshotRecords,
    REALTIME_CRITICAL_JOURNAL_CAPACITY, SnapshotError,
};

fn report(sequence: u32, bytes: &[u8]) -> InputReportRecord {
    InputReportRecord::new(DeviceId(1), InterfaceId(2), sequence, sequence + 100, bytes)
        .unwrap()
}

fn all_records(count: u8, bytes: &[u8]) -> Vec<InputSnapshotRecord<'_>> {
    let mut records = InputSnapshotRecords::new(count, bytes).unwrap();
    let mut all = Vec::new();
    while let Some(record) = records.next() {
        all.push(record);
    }
    all
}

#[test]
fn next_snapshot_recovers_a_dropped_keyboard_transition_without_packet_retransmission() {
    let mut history = InputSnapshotHistory::<8>::new();
    history.push(report(10, &[1, 0, 0, 4, 0, 0, 0, 0, 0]));

    let mut dropped = [0; 224];
    history.encode_recent(&mut dropped, 224).unwrap();

    history.push(report(11, &[1, 0, 0, 0, 0, 0, 0, 0, 0]));
    let mut delivered = [0; 224];
    let encoded = history.encode_recent(&mut delivered, 224).unwrap();
    let recovered: Vec<u32> =
        all_records(encoded.record_count, &delivered[..encoded.records_len])
            .iter()
            .map(|record| record.sequence)
            .collect();
    assert_eq!(recovered.as_slice(), &[10, 11]);
}

#[test]
fn duplicate_recovery_snapshots_do_not_reapply_keyboard_events() {
    let mut history = InputSnapshotHistory::<8>::new();
    history.push(report(42, &[1, 0, 0, 4, 0, 0, 0, 0, 0]));
    let mut payload = [0; 224];
    let encoded = history.encode_recent(&mut payload, 224).unwrap();
    let mut received = InputSequenceWindow::new();

    let mut applied = 0;
    for _ in 0..2 {
        for record in all_records(encoded.record_count, &payload[..encoded.records_len]) {
            if received.observe_forward_only(record.sequence) == InputSequenceDecision::New {
                applied += 1;
            }
        }
    }
    assert_eq!(applied, 1);
}

#[test]
fn snapshot_keeps_the_newest_suffix_inside_one_espnow_payload() {
    let mut history = InputSnapshotHistory::<16>::new();
    for sequence in 1..=16 {
        history.push(report(sequence, &[sequence as u8; 32]));
    }
    let mut payload = [0; 224];
    let encoded = history.encode_recent(&mut payload, 224).unwrap();
    assert!(encoded.records_len <= 224);
    let sequences: Vec<u32> = all_records(encoded.record_count, &payload[..encoded.records_len])
        .iter()
        .map(|record| record.sequence)
        .collect();
    assert_eq!(sequences.last(), Some(&16));
    assert!(sequences[0] > 1);
}

#[test]
fn malformed_snapshot_record_stream_is_rejected_before_hid_delivery() {
    let truncated = [1, 2, 3];
    assert_eq!(
        InputSnapshotRecords::new(1, &truncated),
        Err(SnapshotError::InvalidLength)
    );
}

#[test]
fn motion_state_frame_carries_cumulative_axes_and_recent_critical_history() {
    let mut history = InputSnapshotHistory::<8>::new();
    history.push(report(10, &[1, 0, 0, 4, 0, 0, 0, 0, 0]));
    let motion = InputReportRecord::new_with_motion(
        DeviceId(1),
        InterfaceId(3),
        20,
        120,
        hidshift::link::MotionCumulative {
            x: 101,
            y: -202,
            wheel: 3,
            pan: -4,
        },
        &[2, 0, 1, 0],
    )
    .unwrap();
    let mut payload = [0; 224];
    let encoded = history
        .encode_state(&mut payload, 224, Some(&motion))
        .unwrap();
    let records = all_records(encoded.record_count, &payload[..encoded.records_len]);

    assert_eq!(records.len(), 2);
    assert_eq!(records[0].lane, hidshift::link::InputLane::Critical);
    assert_eq!(records[0].sequence, 10);
    assert_eq!(records[1].lane, hidshift::link::InputLane::Motion);
    assert_eq!(records[1].sequence, 20);
    assert_eq!(records[1].motion, motion.motion);
    assert_eq!(records[1].report, &[2, 0, 1, 0]);
}

#[test]
fn motion_is_kept_when_only_a_suffix_of_critical_history_fits() {
    let mut history = InputSnapshotHistory::<16>::new();
    for sequence in 1..=16 {
        history.push(report(sequence, &[sequence as u8; 32]));
    }
    let motion = InputReportRecord::new_with_motion(
        DeviceId(1),
        InterfaceId(3),
        90,
        190,
        hidshift::link::MotionCumulative {
            x: 90,
            y: 0,
            wheel: 0,
            pan: 0,
        },
        &[2, 0],
    )
    .unwrap();
    let mut payload = [0; 224];
    let encoded = history
        .encode_state(&mut payload, 224, Some(&motion))
        .unwrap();
    let records = all_records(encoded.record_count, &payload[..encoded.records_len]);

    assert!(encoded.records_len <= 224);
    assert!(records.len() < 17);
    assert_eq!(records.last().unwrap().lane, hidshift::link::InputLane::Motion);
    assert_eq!(records.last().unwrap().sequence, 90);
}

#[test]
fn realtime_journal_recovers_two_lost_transitions_in_a_compact_motion_frame() {
    let mut history = InputSnapshotHistory::<REALTIME_CRITICAL_JOURNAL_CAPACITY>::new();
    history.push(report(10, &[1, 0, 0, 4, 0, 0, 0, 0, 0]));
    history.push(report(11, &[1, 0, 0, 0, 0, 0, 0, 0, 0]));
    history.push(report(12, &[3, 0, 0]));
    let motion = InputReportRecord::new_with_motion(
        DeviceId(1),
        InterfaceId(3),
        20,
        120,
        hidshift::link::MotionCumulative {
            x: 7,
            y: 0,
            wheel: 0,
            pan: 0,
        },
        &[2, 0, 7, 0, 0, 0, 0, 0],
    )
    .unwrap();
    let mut payload = [0; 224];
    let encoded = history
        .encode_state(&mut payload, 224, Some(&motion))
        .unwrap();
    let records = all_records(encoded.record_count, &payload[..encoded.records_len]);

    assert_eq!(
        records
            .iter()
            .map(|record| record.sequence)
            .collect::<Vec<u32>>()
            .as_slice(),
        &[10, 11, 12, 20]
    );
    assert!(encoded.records_len <= 100, "{}", encoded.records_len);
}
