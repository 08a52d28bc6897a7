use hidshift::bounded::BoundedVec;
use hidshift::bridge::{BleHostStateMachine, Bridge, BridgeAction, BridgeEvent};
use hidshift::ids::{DeviceId, HostId, InterfaceId};
use hidshift::input::{
    MouseButtons, MouseFrame, MouseMovement, StandardInputFrame, UsbMovementCoalescer,
};
use hidshift::interchip::cell::{SpiCell, SpiCellError};
use hidshift::interchip::rate_budget::FixedIntervalBudget;
use hidshift::interchip::reliable::{
    ReceiveDisposition, ReliableReceiver, ReliableSender, RetransmitAction,
};
use hidshift::link::composite::CompositeDescriptor;
use hidshift::link::input_scheduler::{InputDeliveryClass, InputScheduler, ScheduledInput};
use hidshift::link::sequence::{InputSequenceDecision, ReplayWindow};
use hidshift::espnow_pairing::{EspNowPairing, EspNowPairingError, EspNowRole};
use hidshift::reports::{
    notifications_for_input_report, BleHidNotification, BleHidReport, BleMouseReport, ReportKind,
};

#[test]
fn no_more_is_granted_than_burst_and_elapsed_intervals() {
    let mut budget = FixedIntervalBudget::new(0, 100, 3);
    let mut granted = 0;
    for now in (10_000..=11_000).step_by(10) {
        if budget.try_take(now) {
            granted += 1;
        }
    }
    assert_eq!(granted, 3 + 10);
}

#[test]
fn no_recent_number_is_new_twice_in_a_run() {
    let mut window = ReplayWindow::new();
    let mut new = Vec::new();
    let mut number = u32::MAX - 20;
    for step in 0..200u32 {
        number = number.wrapping_add(step % 3);
        for back in [0, 5, 1, 31, 2, 5] {
            let sequence = number.wrapping_sub(back);
            if window.observe(sequence) == InputSequenceDecision::New {
                assert!(!new.contains(&sequence));
                new.push(sequence);
            }
        }
        assert_eq!(window.observe(number.wrapping_sub(32)), InputSequenceDecision::Stale);
    }
}

#[test]
fn a_number_is_new_again_once_the_number_space_went_round() {
    let mut window = ReplayWindow::new();
    for sequence in [0, 0x7fff_ffff, 0xffff_fffe, 5] {
        assert_eq!(window.observe(sequence), InputSequenceDecision::New);
    }
    assert_eq!(window.observe(0), InputSequenceDecision::New);
    assert_eq!(window.observe(0), InputSequenceDecision::Duplicate);
}

fn moved(interface: u8, x: i16, wheel: i8) -> StandardInputFrame {
    StandardInputFrame {
        device_id: DeviceId(interface),
        interface_id: InterfaceId(interface),
        keyboard: None,
        mouse: Some(MouseFrame {
            buttons: MouseButtons::empty(),
            movement: MouseMovement { x, y: -x, wheel, pan: -wheel },
        }),
        consumer: None,
    }
}

#[test]
fn movement_adds_up_for_each_interface() {
    let mut queue = UsbMovementCoalescer::<2>::new();
    let mut put_in = [0i32; 4];
    let mut taken = [0i32; 4];
    let mut tally = |frame: Option<StandardInputFrame>| -> bool {
        let Some(frame) = frame else {
            return false;
        };
        assert!(frame.keyboard.is_none() && frame.consumer.is_none());
        let movement = frame.mouse.unwrap().movement;
        assert!((-128..=127).contains(&movement.x));
        taken[usize::from(frame.interface_id.0)] += i32::from(movement.x);
        true
    };
    for step in 0..40i16 {
        for interface in 1..=3u8 {
            let x = step * 30 - 500;
            if queue.push(&moved(interface, x, 1)).is_ok() {
                put_in[usize::from(interface)] += i32::from(x);
            }
        }
        if step % 4 == 0 {
            tally(queue.take_next());
            tally(queue.take_for(InterfaceId(2)));
        }
    }
    assert_eq!(queue.take_for(InterfaceId(9)), None);
    while tally(queue.take_next()) {}
    assert_eq!(queue.stats().movement_saturated, 0);
    assert_eq!(put_in, taken);
}

#[test]
fn stored_hosts_are_taken_back_by_any_machine() {
    let mut hosts = BleHostStateMachine::<4>::new();
    for number in [3, 1, 4, 2] {
        hosts.on_connected(HostId(number)).unwrap();
    }
    hosts.clear_host(HostId(1));
    hosts.on_security_changed(HostId(4), true, true, None).unwrap();
    hosts.on_cccd_changed(HostId(4), ReportKind::Mouse, true).unwrap();
    hosts.set_active_target(HostId(4)).unwrap();
    let stored = hosts.storage_state(9).unwrap();
    let mut other = BleHostStateMachine::<4>::new();
    other.on_connected(HostId(1)).unwrap();
    other.restore(&stored).unwrap();
    assert_eq!(other.storage_state(9).unwrap(), stored);
    assert_eq!(other.active_target(), Some(HostId(4)));
    assert!(!other.can_send(HostId(4), ReportKind::Mouse));

    let mut bridge = Bridge::<4>::new();
    let mut actions = BoundedVec::<BridgeAction, 8>::new();
    bridge.restore_storage_state(&stored, &mut actions).unwrap();
    bridge
        .handle_event(BridgeEvent::HostConnected { host_id: HostId(4) }, &mut actions)
        .unwrap();
    assert_eq!(bridge.storage_state(9).unwrap(), stored);
}

#[test]
fn every_changed_byte_of_a_cell_is_seen_by_its_checksum() {
    let bytes = SpiCell::empty(7).encode().unwrap();
    for at in 0..128 {
        let mut changed = bytes;
        changed[at] ^= 0x40;
        assert_eq!(SpiCell::decode(&changed), Err(SpiCellError::CrcMismatch));
    }
}

#[test]
fn every_changed_byte_of_a_pairing_is_seen() {
    let image = EspNowPairing {
        generation: 1,
        local_role: EspNowRole::UsbDevice,
        peer_address: [2; 6],
        channel: 3,
        key: [4; 16],
    }
    .encode()
    .unwrap();
    for at in 0..64 {
        let mut changed = image;
        changed[at] ^= 0x10;
        let expected = match at {
            0..=3 => EspNowPairingError::InvalidMagic,
            4 => EspNowPairingError::UnsupportedVersion,
            _ => EspNowPairingError::CrcMismatch,
        };
        assert_eq!(EspNowPairing::decode(&changed), Err(expected));
    }
}

#[test]
fn composite_ids_count_up_from_one() {
    let mut composite = CompositeDescriptor::new();
    composite.add_interface(InterfaceId(5), &[0x85, 9, 0x85, 7]).unwrap();
    composite.add_interface(InterfaceId(6), &[0xc0]).unwrap();
    let ids: Vec<u8> =
        composite.mappings().iter().map(|mapping| mapping.composite_report_id).collect();
    assert_eq!(ids, [1, 2, 3]);
}

#[test]
fn notifications_have_zeros_behind_their_value() {
    let mut out = heapless::Vec::<BleHidNotification, 1>::new();
    let report = BleHidReport::Mouse(BleMouseReport::from_bytes([1, 2, 3, 4, 5]));
    notifications_for_input_report(report, &mut out).unwrap();
    assert_eq!(out[0].bytes, [1, 2, 3, 4, 5, 0, 0, 0]);
}

#[test]
fn acknowledgements_free_cells_across_the_wrap_of_numbers() {
    let mut sender = ReliableSender::new(1);
    for number in 1..=65533u16 {
        assert_eq!(sender.queue(&[], 0, 0).unwrap().header.tx_sequence, number);
        assert_eq!(sender.acknowledge(number), 1);
    }
    for number in [65534u16, 65535, 1, 2] {
        assert_eq!(sender.queue(&[], 0, 0).unwrap().header.tx_sequence, number);
    }
    assert_eq!(sender.acknowledge(0), 0);
    assert_eq!(sender.acknowledge(65533), 0);
    assert_eq!(sender.acknowledge(3), 0);
    assert_eq!(sender.acknowledge(1), 3);
    assert_eq!(sender.pending_len(), 1);
    assert_eq!(sender.acknowledge(1), 0);
    assert_eq!(sender.acknowledge(2), 1);
}

#[test]
fn payloads_are_delivered_once_and_in_order_over_a_link_that_loses_cells() {
    let mut sender = ReliableSender::new(7);
    let mut receiver = ReliableReceiver::new();
    let mut queued = Vec::new();
    let mut delivered = Vec::new();
    let mut chance = 1u32;
    for now in 0..4000u64 {
        chance = chance.wrapping_mul(1_664_525).wrapping_add(1_013_904_223);
        let arrives = chance >> 30 != 0;
        let acknowledged = chance >> 28 & 3 == 0;
        let payload = (now as u16).to_le_bytes();
        let cell = match sender.queue(&payload, 1, now) {
            Ok(cell) => {
                queued.push(payload.to_vec());
                Some(cell)
            }
            Err(_) => match sender.poll_retransmit(now, 2, u8::MAX) {
                RetransmitAction::Send(cell) => Some(cell),
                _ => None,
            },
        };
        if let Some(cell) = cell {
            if arrives {
                if let ReceiveDisposition::Accepted { .. } = receiver.receive(&cell) {
                    delivered.push(cell.payload().to_vec());
                }
            }
        }
        if acknowledged {
            sender.acknowledge(receiver.cumulative_ack());
        }
        assert_eq!(delivered[..], queued[..delivered.len()]);
        assert!(queued.len() - sender.pending_len() <= delivered.len());
    }
    assert!(delivered.len() > 300);
}

#[test]
fn critical_reports_keep_their_order_over_a_run() {
    fn input(interface_id: u8, value: u32, class: InputDeliveryClass) -> ScheduledInput {
        ScheduledInput::new(
            DeviceId(1),
            InterfaceId(interface_id),
            0,
            value,
            value,
            &value.to_le_bytes(),
            class,
        )
        .unwrap()
    }
    let mut scheduler = InputScheduler::<3, 2>::default();
    let mut taken = Vec::new();
    let mut left = Vec::new();
    for value in 0..60u32 {
        if scheduler.enqueue(input(1, value, InputDeliveryClass::Critical)).is_ok() {
            taken.push(value.to_le_bytes().to_vec());
        }
        for interface in 1..=3 {
            scheduler.enqueue(input(interface, value, InputDeliveryClass::Motion)).unwrap();
        }
        assert!(scheduler.len() <= 5);
        if value % 3 != 0 {
            let report = scheduler.pop_next().unwrap();
            assert_eq!(report.class(), InputDeliveryClass::Critical);
            left.push(report.report.as_slice().to_vec());
        }
    }
    assert!(taken.len() < 60);
    assert_eq!(left[..], taken[..left.len()]);
    assert!(taken.len() - left.len() <= 3);
}
