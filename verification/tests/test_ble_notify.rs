use hidshift::ble_notify::{
    BleNotificationDispatchError, BleNotificationSink, BleTypedNotification,
    BleTypedNotificationError, dispatch_ble_task_command, dispatch_input_report_notifications,
    typed_notification,
};
use hidshift::bridge::NotifyReason;
use hidshift::ids::HostId;
use hidshift::reports::{
    BleConsumerReport, BleHidCharacteristic, BleHidNotification, BleHidReport,
    BleKeyboard6KroReport,
};
use hidshift::runtime::BleTaskCommand;

#[derive(Default)]
struct RecordingSink {
    notifications: heapless::Vec<(BleHidCharacteristic, heapless::Vec<u8, 9>), 4>,
    fail_on: Option<BleHidCharacteristic>,
}

#[derive(Clone, Copy, Debug, Eq, PartialEq)]
enum SinkError {
    Rejected,
}

impl BleNotificationSink for RecordingSink {
    type Error = SinkError;

    fn send_notification(
        &mut self,
        characteristic: BleHidCharacteristic,
        value: &[u8],
    ) -> Result<(), Self::Error> {
        if self.fail_on == Some(characteristic) {
            return Err(SinkError::Rejected);
        }
        let mut bytes = heapless::Vec::<u8, 9>::new();
        bytes.extend_from_slice(value).unwrap();
        self.notifications.push((characteristic, bytes)).unwrap();
        Ok(())
    }
}

#[test]
fn keyboard_command_dispatches_one_report_notification() {
    let mut sink = RecordingSink::default();

    dispatch_ble_task_command(
        BleTaskCommand::Notify {
            host_id: HostId(1),
            report: BleHidReport::Keyboard(BleKeyboard6KroReport::release()),
            reason: NotifyReason::Input,
        },
        &mut sink,
    )
    .unwrap();

    assert_eq!(sink.notifications.len(), 1);
    assert_eq!(
        sink.notifications[0].0,
        BleHidCharacteristic::KeyboardInputReport
    );
}

#[test]
fn consumer_command_dispatches_single_notification() {
    let mut sink = RecordingSink::default();

    dispatch_input_report_notifications(
        BleHidReport::Consumer(BleConsumerReport::release()),
        &mut sink,
    )
    .unwrap();

    assert_eq!(sink.notifications.len(), 1);
    assert_eq!(
        sink.notifications[0].0,
        BleHidCharacteristic::ConsumerInputReport
    );
}

#[test]
fn sink_failures_are_tagged_with_characteristic() {
    let mut sink = RecordingSink {
        fail_on: Some(BleHidCharacteristic::KeyboardInputReport),
        ..RecordingSink::default()
    };

    let err = dispatch_input_report_notifications(
        BleHidReport::Keyboard(BleKeyboard6KroReport::release()),
        &mut sink,
    )
    .unwrap_err();

    assert_eq!(
        err,
        BleNotificationDispatchError::Sink {
            characteristic: BleHidCharacteristic::KeyboardInputReport,
            error: SinkError::Rejected,
        }
    );
}

#[test]
fn typed_notification_maps_keyboard_report_characteristic_and_length() {
    let notification = BleHidNotification {
        characteristic: BleHidCharacteristic::KeyboardInputReport,
        len: 8,
        bytes: [0; 8],
    };

    assert_eq!(
        typed_notification(&notification),
        Ok(BleTypedNotification::KeyboardInputReport([0; 8]))
    );
}

#[test]
fn typed_notification_rejects_unexpected_payload_length() {
    let notification = BleHidNotification {
        characteristic: BleHidCharacteristic::KeyboardInputReport,
        len: 7,
        bytes: [0; 8],
    };

    assert_eq!(
        typed_notification(&notification),
        Err(BleTypedNotificationError::LengthMismatch {
            characteristic: BleHidCharacteristic::KeyboardInputReport
        })
    );
}
