//! From reports to notifications.

use vstd::prelude::*;

use crate::bytes::array_at;
use crate::fixed;
use crate::reports::{
    notification_of, notifications_for_input_report, BleHidCharacteristic, BleHidNotification,
    BleHidNotificationError, BleHidReport, NotificationView,
};
use crate::runtime::BleTaskCommand;

verus! {

/// Something that sends notifications.
pub trait BleNotificationSink {
    type Error;

    /// The notifications that were to be sent so far, each with what came of
    /// it. A sink says itself what that is. The body here is for sinks that
    /// are not verified: a sink that keeps it does not meet the contract of
    /// `send_notification`, since what it gives never changes.
    open spec fn history(&self) -> Seq<(NotificationView, Result<(), Self::Error>)> {
        arbitrary()
    }

    /// Sends a notification, or fails.
    fn send_notification(&mut self, characteristic: BleHidCharacteristic, value: &[u8]) -> (r:
        Result<(), Self::Error>)
        ensures
            final(self).history() == old(self).history().push(
                (NotificationView { characteristic, value: value@ }, r),
            ),
    ;
}

/// A notification with as many bytes as its characteristic has.
#[derive(Clone, Copy, Debug, PartialEq, Eq)]
pub enum BleTypedNotification {
    KeyboardInputReport([u8; 8]),
    MouseInputReport([u8; 5]),
    ConsumerInputReport([u8; 2]),
}

impl View for BleTypedNotification {
    type V = NotificationView;

    open spec fn view(&self) -> NotificationView {
        match *self {
            BleTypedNotification::KeyboardInputReport(bytes) => NotificationView {
                characteristic: BleHidCharacteristic::KeyboardInputReport,
                value: bytes@,
            },
            BleTypedNotification::MouseInputReport(bytes) => NotificationView {
                characteristic: BleHidCharacteristic::MouseInputReport,
                value: bytes@,
            },
            BleTypedNotification::ConsumerInputReport(bytes) => NotificationView {
                characteristic: BleHidCharacteristic::ConsumerInputReport,
                value: bytes@,
            },
        }
    }
}

impl BleTypedNotification {
    /// The characteristic that the notification is for.
    pub fn characteristic(&self) -> (r: BleHidCharacteristic)
        ensures
            r == self@.characteristic,
    {
        match self {
            Self::KeyboardInputReport(_) => BleHidCharacteristic::KeyboardInputReport,
            Self::MouseInputReport(_) => BleHidCharacteristic::MouseInputReport,
            Self::ConsumerInputReport(_) => BleHidCharacteristic::ConsumerInputReport,
        }
    }
}

/// Why a notification is not of its characteristic.
#[derive(Clone, Copy, Debug, PartialEq, Eq, Structural)]
pub enum BleTypedNotificationError {
    LengthMismatch { characteristic: BleHidCharacteristic },
}

/// Why notifications were not sent.
#[derive(Clone, Copy, Debug, PartialEq, Eq)]
pub enum BleNotificationDispatchError<E> {
    Plan(BleHidNotificationError),
    Sink { characteristic: BleHidCharacteristic, error: E },
}

/// What is reported for what came of a notification.
pub open spec fn told_of<E>(
    characteristic: BleHidCharacteristic,
    answer: Result<(), E>,
) -> Result<(), BleNotificationDispatchError<E>> {
    match answer {
        Ok(_) => Ok(()),
        Err(error) => Err(BleNotificationDispatchError::Sink { characteristic, error }),
    }
}

/// Whether exactly the notification of a report was to be sent, and `r` tells
/// what came of it.
pub open spec fn is_dispatched<E>(
    before: Seq<(NotificationView, Result<(), E>)>,
    after: Seq<(NotificationView, Result<(), E>)>,
    report: BleHidReport,
    r: Result<(), BleNotificationDispatchError<E>>,
) -> bool {
    &&& after.len() == before.len() + 1
    &&& after.drop_last() == before
    &&& after.last().0 == notification_of(report@)
    &&& r == told_of(after.last().0.characteristic, after.last().1)
}

/// Carries out a command, as far as it is about notifications.
pub fn dispatch_ble_task_command<S>(command: BleTaskCommand, sink: &mut S) -> (r: Result<
    (),
    BleNotificationDispatchError<S::Error>,
>) where S: BleNotificationSink
    ensures
        match command {
            BleTaskCommand::Notify { report, .. } => is_dispatched(
                old(sink).history(),
                final(sink).history(),
                report,
                r,
            ),
            _ => r is Ok && *final(sink) == *old(sink),
        },
{
    match command {
        BleTaskCommand::Notify { report, .. } => dispatch_input_report_notifications(report, sink),
        BleTaskCommand::AllowPairing { .. } => Ok(()),
        BleTaskCommand::RejectPairing { .. } => Ok(()),
        BleTaskCommand::ClearBond { .. } => Ok(()),
        BleTaskCommand::ManagementResponse { .. } => Ok(()),
    }
}

/// Sends the notifications of a report.
pub fn dispatch_input_report_notifications<S>(report: BleHidReport, sink: &mut S) -> (r: Result<
    (),
    BleNotificationDispatchError<S::Error>,
>) where S: BleNotificationSink
    ensures
        is_dispatched(old(sink).history(), final(sink).history(), report, r),
{
    let mut notifications = fixed::new_notifications();
    match notifications_for_input_report(report, &mut notifications) {
        Err(error) => {
            return Err(BleNotificationDispatchError::Plan(error));
        },
        Ok(_) => {},
    }
    let planned = fixed::items(&notifications);
    let characteristic = planned[0].characteristic;
    let answer = sink.send_notification(characteristic, planned[0].as_slice());
    assert(sink.history().drop_last() =~= old(sink).history());
    match answer {
        Ok(_) => Ok(()),
        Err(error) => Err(BleNotificationDispatchError::Sink { characteristic, error }),
    }
}

/// How many bytes a characteristic has.
pub open spec fn length_of(characteristic: BleHidCharacteristic) -> nat {
    match characteristic {
        BleHidCharacteristic::KeyboardInputReport => 8,
        BleHidCharacteristic::MouseInputReport => 5,
        BleHidCharacteristic::ConsumerInputReport => 2,
    }
}

/// The notification by its characteristic, where it has as many bytes as that.
pub fn typed_notification(notification: &BleHidNotification) -> (r: Result<
    BleTypedNotification,
    BleTypedNotificationError,
>)
    requires
        notification.wf(),
    ensures
        notification@.value.len() == length_of(notification@.characteristic) ==> r is Ok
            && r->Ok_0@ == notification@,
        notification@.value.len() != length_of(notification@.characteristic) ==> r == Err::<
            BleTypedNotification,
            BleTypedNotificationError,
        >(
            BleTypedNotificationError::LengthMismatch {
                characteristic: notification@.characteristic,
            },
        ),
{
    match notification.characteristic {
        BleHidCharacteristic::KeyboardInputReport => match notification_array(notification) {
            Ok(bytes) => Ok(BleTypedNotification::KeyboardInputReport(bytes)),
            Err(error) => Err(error),
        },
        BleHidCharacteristic::MouseInputReport => match notification_array(notification) {
            Ok(bytes) => Ok(BleTypedNotification::MouseInputReport(bytes)),
            Err(error) => Err(error),
        },
        BleHidCharacteristic::ConsumerInputReport => match notification_array(notification) {
            Ok(bytes) => Ok(BleTypedNotification::ConsumerInputReport(bytes)),
            Err(error) => Err(error),
        },
    }
}

fn notification_array<const N: usize>(notification: &BleHidNotification) -> (r: Result<
    [u8; N],
    BleTypedNotificationError,
>)
    requires
        notification.wf(),
    ensures
        notification@.value.len() == N ==> r is Ok && r->Ok_0@ == notification@.value,
        notification@.value.len() != N ==> r is Err && r->Err_0
            == (BleTypedNotificationError::LengthMismatch {
            characteristic: notification@.characteristic,
        }),
{
    let bytes = notification.as_slice();
    if bytes.len() != N {
        return Err(
            BleTypedNotificationError::LengthMismatch {
                characteristic: notification.characteristic,
            },
        );
    }
    let out = array_at::<N>(bytes, 0);
    assert(out@ =~= bytes@);
    Ok(out)
}

} // verus!
