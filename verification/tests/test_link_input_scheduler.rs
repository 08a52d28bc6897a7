use hidshift::ids::{DeviceId, InterfaceId};
use hidshift::link::MotionCumulative;
use hidshift::link::input_scheduler::{InputDeliveryClass, InputScheduler, ScheduledInput};

fn input(interface_id: u8, value: u8, class: InputDeliveryClass) -> ScheduledInput {
    ScheduledInput::new(
        DeviceId(1),
        InterfaceId(interface_id),
        value as u64,
        value as u32,
        value as u32,
        &[value],
        class,
    )
    .unwrap()
}

#[test]
fn critical_reports_are_delivered_before_motion() {
    let mut scheduler = InputScheduler::<4, 2>::new();
    scheduler
        .enqueue(input(2, 1, InputDeliveryClass::Motion))
        .unwrap();
    scheduler
        .enqueue(input(1, 2, InputDeliveryClass::Critical))
        .unwrap();
    assert_eq!(scheduler.pop_next().unwrap().report.as_slice(), &[2]);
    assert_eq!(scheduler.pop_next().unwrap().report.as_slice(), &[1]);
}

#[test]
fn motion_is_coalesced_per_interface_without_affecting_critical_fifo() {
    let mut scheduler = InputScheduler::<4, 2>::new();
    scheduler
        .enqueue(
            input(2, 1, InputDeliveryClass::Motion).with_motion(MotionCumulative {
                x: 1,
                ..MotionCumulative::zero()
            }),
        )
        .unwrap();
    scheduler
        .enqueue(
            input(2, 2, InputDeliveryClass::Motion).with_motion(MotionCumulative {
                x: 2,
                ..MotionCumulative::zero()
            }),
        )
        .unwrap();
    scheduler
        .enqueue(input(1, 3, InputDeliveryClass::Critical))
        .unwrap();
    assert_eq!(scheduler.len(), 2);
    assert_eq!(scheduler.pop_next().unwrap().report.as_slice(), &[3]);
    let motion = scheduler.pop_next().unwrap();
    assert_eq!(motion.report.as_slice(), &[2]);
    assert_eq!(motion.motion.x, 2);
    assert_eq!(scheduler.stats().coalesced_motion, 1);
}

#[test]
fn full_critical_queue_rejects_new_critical_report() {
    let mut scheduler = InputScheduler::<1, 1>::new();
    scheduler
        .enqueue(input(1, 1, InputDeliveryClass::Critical))
        .unwrap();
    let rejected = scheduler.enqueue(input(1, 2, InputDeliveryClass::Critical));
    assert!(rejected.is_err());
    assert_eq!(scheduler.stats().rejected_critical, 1);
}

#[test]
fn full_motion_queue_replaces_oldest_motion() {
    let mut scheduler = InputScheduler::<1, 2>::new();
    scheduler
        .enqueue(input(1, 1, InputDeliveryClass::Motion))
        .unwrap();
    scheduler
        .enqueue(input(2, 2, InputDeliveryClass::Motion))
        .unwrap();
    scheduler
        .enqueue(input(3, 3, InputDeliveryClass::Motion))
        .unwrap();
    assert_eq!(scheduler.stats().dropped_motion, 1);
    assert_eq!(scheduler.pop_next().unwrap().report.as_slice(), &[2]);
    assert_eq!(scheduler.pop_next().unwrap().report.as_slice(), &[3]);
}
