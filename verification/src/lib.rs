//! Transport-independent core of a USB to Bluetooth HID bridge.

pub mod ble;
pub mod ble_connection;
pub mod ble_notify;
pub mod ble_runtime;
pub mod bounded;
pub mod bridge;
pub mod bytes;
pub mod checksum;
pub mod dispatch;
pub mod domain;
pub mod e2e;
pub mod e2e_mirror;
pub mod espnow_pairing;
pub mod espnow_pairing_management;
pub mod espnow_security;
pub mod fallback;
pub mod fixed;
pub mod hex;
pub mod ids;
pub mod input;
pub mod interchip;
pub mod link;
pub mod layouts;
pub mod lists;
pub mod management;
pub mod output_target;
pub mod reports;
pub mod runtime;
pub mod settings;
pub mod storage;
pub mod transport;

pub use ble::{
    bridge_events_from_ble_host_event, cccd_notify_enabled, BleHidAttribute, BleHostAdapterError,
    BleHostAdapterEvent,
};
pub use ble_connection::{
    BleConnectionEntry, BleConnectionSlot, BleConnectionSlotError, BleConnectionSlots,
    BleInputGate, BlePeerIdentity,
};
pub use ble_notify::{
    dispatch_ble_task_command, dispatch_input_report_notifications, typed_notification,
    BleNotificationDispatchError, BleNotificationSink, BleTypedNotification,
    BleTypedNotificationError,
};
pub use ble_runtime::BleHidAttributeHandles;
pub use bridge::{
    keyboard_led_event_from_ble_output, BleHostStateMachine, Bridge, BridgeAction, BridgeError,
    BridgeEvent, BridgeStatus, HostRuntimeState, HostStateError, NotifyReason, PairingMode,
    PairingSession, ReportReady,
};
pub use ids::{
    DeviceId, HostId, HostSlot, InterfaceId, InvalidHostSlot, ReportId, SlotId, HOST_SLOT_MAX,
    HOST_SLOT_MIN,
};
pub use input::{
    ConsumerUsage, InputEvent, KeyCode, KeyUsage, KeyboardEvent, KeyboardFrame, KeyboardLedState,
    KeyboardSuppression, Modifier, ModifierState, MouseButton, MouseButtons, MouseFrame,
    MouseInputReport, MouseMovement, PhysicalInputState, PhysicalKeyboardState, PhysicalMouseState,
    StandardInputFrame, VisibleKeyboardState,
};

use vstd::prelude::*;
use vstd::string::StringSliceAdditionalSpecFns;

verus! {

/// Firmware version reported through the management protocol.
pub const FIRMWARE_VERSION_MAJOR: u8 = 0;

/// Firmware version reported through the management protocol.
pub const FIRMWARE_VERSION_MINOR: u8 = 1;

/// Firmware version reported through the management protocol.
pub const FIRMWARE_VERSION_PATCH: u8 = 0;

/// Whether a byte is a decimal digit.
pub open spec fn is_digit(byte: u8) -> bool {
    0x30 <= byte <= 0x39
}

/// The number that decimal digits stand for.
pub open spec fn decimal(digits: Seq<u8>) -> int
    decreases digits.len(),
{
    if digits.len() == 0 {
        0
    } else {
        10 * decimal(digits.drop_last()) + (digits.last() - 0x30)
    }
}

proof fn lemma_decimal_grows(digits: Seq<u8>, n: int)
    requires
        0 <= n <= digits.len(),
        forall|i: int| 0 <= i < digits.len() ==> is_digit(#[trigger] digits[i]),
    ensures
        0 <= decimal(digits.take(n)) <= decimal(digits),
    decreases digits.len() - n,
{
    if n < digits.len() {
        lemma_decimal_grows(digits, n + 1);
        assert(digits.take(n + 1).drop_last() =~= digits.take(n));
        assert(is_digit(digits[n]));
        lemma_decimal_nonnegative(digits.take(n));
    } else {
        assert(digits.take(n) =~= digits);
        lemma_decimal_nonnegative(digits);
    }
}

proof fn lemma_decimal_nonnegative(digits: Seq<u8>)
    requires
        forall|i: int| 0 <= i < digits.len() ==> is_digit(#[trigger] digits[i]),
    ensures
        0 <= decimal(digits),
    decreases digits.len(),
{
    if digits.len() > 0 {
        let rest = digits.drop_last();
        assert forall|i: int| 0 <= i < rest.len() implies is_digit(#[trigger] rest[i]) by {
            assert(rest[i] == digits[i]);
        }
        lemma_decimal_nonnegative(rest);
        assert(is_digit(digits[digits.len() - 1]));
    }
}

/// A component of a version, which is a decimal number below 256.
pub fn parse_version_component(value: &str) -> (r: u8)
    requires
        forall|i: int|
            0 <= i < value.spec_bytes().len() ==> is_digit(#[trigger] value.spec_bytes()[i]),
        decimal(value.spec_bytes()) <= 255,
    ensures
        r == decimal(value.spec_bytes()),
{
    let bytes = value.as_bytes();
    let mut index: usize = 0;
    let mut result: u8 = 0;
    assert(bytes@.take(0) =~= Seq::<u8>::empty());
    while index < bytes.len()
        invariant
            index <= bytes@.len(),
            forall|i: int| 0 <= i < bytes@.len() ==> is_digit(#[trigger] bytes@[i]),
            decimal(bytes@) <= 255,
            result == decimal(bytes@.take(index as int)),
        decreases bytes@.len() - index,
    {
        let digit: u8 = bytes[index];
        proof {
            lemma_decimal_grows(bytes@, index + 1);
            assert(bytes@.take(index + 1).drop_last() =~= bytes@.take(index as int));
            assert(is_digit(bytes@[index as int]));
        }
        result = 10 * result + (digit - 0x30);
        index += 1;
    }
    assert(bytes@.take(index as int) =~= bytes@);
    result
}

} // verus!
