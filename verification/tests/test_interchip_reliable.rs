use hidshift::interchip::cell::SpiCell;
use hidshift::interchip::reliable::{
    ReceiveDisposition, ReliableCommandSlot, ReliableReceiver, ReliableSender, RetransmitAction,
    SenderError,
};

#[test]
fn command_survives_session_reset_and_replacement_hello_ack() {
    let mut slot = ReliableCommandSlot::new();
    slot.stage(7u8);
    slot.mark_queued();
    slot.sender_reset();

    assert_eq!(slot.acknowledge(true), None);
    assert_eq!(slot.value(), Some(7));

    slot.mark_queued();
    assert_eq!(slot.acknowledge(false), None);
    assert_eq!(slot.value(), Some(7));
    slot.mark_queued();
    assert_eq!(slot.acknowledge(true), Some(7));
    assert_eq!(slot.value(), None);

    slot.stage(9);
    assert_eq!(slot.complete(), Some(9));
    assert_eq!(slot.value(), None);
}

#[test]
fn semantic_ack_can_discard_pending_transport_cell() {
    let mut sender = ReliableSender::new(1);
    sender.queue(&[1], 1, 0).unwrap();
    assert_eq!(sender.pending_len(), 1);
    assert_eq!(sender.discard_pending(), 1);
    assert_eq!(sender.pending_len(), 0);
}

#[test]
fn four_cell_window_and_cumulative_ack_release_prefix() {
    let mut sender = ReliableSender::new(7);
    for expected in 1..=4 {
        assert_eq!(
            sender
                .queue(&[expected as u8], 1, 0)
                .unwrap()
                .header
                .tx_sequence,
            expected
        );
    }
    assert_eq!(sender.queue(&[5], 1, 0), Err(SenderError::WindowFull));
    assert_eq!(sender.acknowledge(2), 2);
    assert_eq!(sender.pending_len(), 2);
    assert_eq!(sender.queue(&[5], 1, 0).unwrap().header.tx_sequence, 5);
}

#[test]
fn receiver_deduplicates_and_does_not_ack_across_gap() {
    let mut receiver = ReliableReceiver::new();
    let mut first = SpiCell::empty(9);
    first.header.tx_sequence = 1;
    assert_eq!(
        receiver.receive(&first),
        ReceiveDisposition::Accepted {
            session_changed: true,
            cumulative_ack: 1
        }
    );
    assert_eq!(
        receiver.receive(&first),
        ReceiveDisposition::Duplicate { cumulative_ack: 1 }
    );
    let mut second = first;
    second.header.tx_sequence = 2;
    assert!(matches!(
        receiver.receive(&second),
        ReceiveDisposition::Accepted {
            cumulative_ack: 2,
            ..
        }
    ));
    assert_eq!(
        receiver.receive(&first),
        ReceiveDisposition::Duplicate { cumulative_ack: 2 }
    );
    let mut third = first;
    third.header.tx_sequence = 3;
    let mut fourth = first;
    fourth.header.tx_sequence = 4;
    assert_eq!(
        receiver.receive(&fourth),
        ReceiveDisposition::Gap {
            expected: 3,
            cumulative_ack: 2
        }
    );
    assert_eq!(receiver.cumulative_ack(), 2);
    assert_eq!(
        receiver.receive(&third),
        ReceiveDisposition::Accepted {
            session_changed: false,
            cumulative_ack: 3
        }
    );
}

#[test]
fn retries_eventually_require_link_reset_without_double_delivery() {
    let mut sender = ReliableSender::new(1);
    let original = sender.queue(&[1, 2], 1, 10).unwrap();
    assert_eq!(sender.poll_retransmit(19, 10, 2), RetransmitAction::Idle);
    assert_eq!(
        sender.poll_retransmit(20, 10, 2),
        RetransmitAction::Send(original)
    );
    assert_eq!(
        sender.poll_retransmit(30, 10, 2),
        RetransmitAction::LinkResetRequired
    );
}

#[test]
fn session_change_discards_receive_history() {
    let mut receiver = ReliableReceiver::new();
    let mut old = SpiCell::empty(1);
    old.header.tx_sequence = 1;
    receiver.receive(&old);
    let mut new = SpiCell::empty(2);
    new.header.tx_sequence = 1;
    assert_eq!(
        receiver.receive(&new),
        ReceiveDisposition::Accepted {
            session_changed: true,
            cumulative_ack: 1
        }
    );
}

#[test]
fn sender_session_change_discards_every_pending_cell() {
    let mut sender = ReliableSender::new(1);
    sender.queue(&[1], 1, 0).unwrap();
    sender.queue(&[2], 1, 0).unwrap();
    sender.reset_session(9);
    assert_eq!(sender.session_id(), 9);
    assert_eq!(sender.pending_len(), 0);
    assert_eq!(sender.queue(&[3], 1, 0).unwrap().header.tx_sequence, 1);
}

#[test]
fn sequence_wrap_skips_reserved_zero() {
    let mut receiver = ReliableReceiver::new();
    for sequence in 1..=u16::MAX {
        let mut cell = SpiCell::empty(1);
        cell.header.tx_sequence = sequence;
        receiver.receive(&cell);
    }
    assert_eq!(receiver.cumulative_ack(), u16::MAX);
    let mut wrapped = SpiCell::empty(1);
    wrapped.header.tx_sequence = 1;
    assert_eq!(
        receiver.receive(&wrapped),
        ReceiveDisposition::Accepted {
            session_changed: false,
            cumulative_ack: 1
        }
    );
}

#[test]
fn sender_sequence_wrap_skips_reserved_zero() {
    let mut sender = ReliableSender::new(1);
    for sequence in 1..u16::MAX {
        sender.queue(&[0], 1, 0).unwrap();
        sender.acknowledge(sequence);
    }
    assert_eq!(
        sender.queue(&[1], 1, 0).unwrap().header.tx_sequence,
        u16::MAX
    );
    assert_eq!(sender.queue(&[2], 1, 0).unwrap().header.tx_sequence, 1);
}
