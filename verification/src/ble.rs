//! From what hosts do to events for the bridge.

use vstd::prelude::*;

use crate::bounded::BoundedVec;
use crate::bridge::{keyboard_led_event_from_ble_output, BridgeEvent};
use crate::bytes::{from_le16, part, u16_at};
use crate::ids::HostId;
use crate::input::KeyboardLedState;
use crate::reports::{BleKeyboardOutputError, ReportKind, KEYBOARD_REPORT_ID};
use crate::storage::StoredBond;

verus! {

/// An attribute that hosts write to.
#[derive(Clone, Copy, Debug, PartialEq, Eq, Structural)]
pub enum BleHidAttribute {
    KeyboardInputCccd,
    MouseInputCccd,
    ConsumerInputCccd,
    KeyboardOutputCccd,
    KeyboardOutputReport,
    BootKeyboardOutputReport,
    Unknown,
}

/// What a host did.
#[derive(Clone, Copy, Debug, PartialEq, Eq)]
pub enum BleHostAdapterEvent<'a> {
    Connected,
    Disconnected,
    SecurityChanged { encrypted: bool, bonded: bool, bond: Option<StoredBond> },
    GattWrite { attribute: BleHidAttribute, data: &'a [u8] },
}

/// Why what a host did was refused.
#[derive(Clone, Copy, Debug, PartialEq, Eq, Structural)]
pub enum BleHostAdapterError {
    Output(BleKeyboardOutputError),
    InvalidCccdLength,
    InvalidOutputReportLength,
    EventCapacity,
}

impl From<BleKeyboardOutputError> for BleHostAdapterError {
    fn from(error: BleKeyboardOutputError) -> (r: Self) {
        Self::Output(error)
    }
}

impl vstd::std_specs::convert::FromSpecImpl<BleKeyboardOutputError> for BleHostAdapterError {
    open spec fn obeys_from_spec() -> bool {
        true
    }

    open spec fn from_spec(error: BleKeyboardOutputError) -> Self {
        BleHostAdapterError::Output(error)
    }
}

/// The event of a subscription, where two bytes were written.
pub open spec fn subscription(host_id: HostId, report: ReportKind, data: Seq<u8>) -> Result<
    Option<BridgeEvent>,
    BleHostAdapterError,
> {
    if data.len() == 2 {
        Ok(
            Some(
                BridgeEvent::CccdChanged { host_id, report, enabled: u16_at(data, 0) & 1 != 0 },
            ),
        )
    } else {
        Err(BleHostAdapterError::InvalidCccdLength)
    }
}

/// The event of lock lights.
pub open spec fn lights(host_id: HostId, bits: u8) -> Option<BridgeEvent> {
    Some(
        BridgeEvent::HostKeyboardLedChanged {
            host_id,
            leds: KeyboardLedState::of_mask(bits & 7),
        },
    )
}

/// The event of a write to an attribute.
pub open spec fn write_event(host_id: HostId, attribute: BleHidAttribute, data: Seq<u8>) -> Result<
    Option<BridgeEvent>,
    BleHostAdapterError,
> {
    match attribute {
        BleHidAttribute::KeyboardInputCccd => subscription(host_id, ReportKind::Keyboard, data),
        BleHidAttribute::MouseInputCccd => subscription(host_id, ReportKind::Mouse, data),
        BleHidAttribute::ConsumerInputCccd => subscription(host_id, ReportKind::Consumer, data),
        BleHidAttribute::KeyboardOutputCccd => subscription(
            host_id,
            ReportKind::KeyboardOutput,
            data,
        ),
        BleHidAttribute::KeyboardOutputReport => if data.len() == 1 {
            Ok(lights(host_id, data[0]))
        } else if data.len() == 2 && data[0] == KEYBOARD_REPORT_ID {
            Ok(lights(host_id, data[1]))
        } else {
            Err(BleHostAdapterError::InvalidOutputReportLength)
        },
        BleHidAttribute::BootKeyboardOutputReport => if data.len() == 1 {
            Ok(lights(host_id, data[0]))
        } else {
            Err(BleHostAdapterError::Output(BleKeyboardOutputError::InvalidLength))
        },
        BleHidAttribute::Unknown => Ok(None),
    }
}

/// The event of what a host did, if any.
pub open spec fn host_event(host_id: HostId, event: BleHostAdapterEvent<'_>) -> Result<
    Option<BridgeEvent>,
    BleHostAdapterError,
> {
    match event {
        BleHostAdapterEvent::Connected => Ok(Some(BridgeEvent::HostConnected { host_id })),
        BleHostAdapterEvent::Disconnected => Ok(Some(BridgeEvent::HostDisconnected { host_id })),
        BleHostAdapterEvent::SecurityChanged { encrypted, bonded, bond } => Ok(
            Some(BridgeEvent::HostSecurityChanged { host_id, encrypted, bonded, bond }),
        ),
        BleHostAdapterEvent::GattWrite { attribute, data } => write_event(
            host_id,
            attribute,
            data@,
        ),
    }
}

/// Whether the list and the result are those of an event, where the list takes
/// `n` events.
pub open spec fn is_told(
    told: Result<Option<BridgeEvent>, BleHostAdapterError>,
    n: nat,
    out: Seq<BridgeEvent>,
    r: Result<(), BleHostAdapterError>,
) -> bool {
    match told {
        Err(error) => r == Err::<(), BleHostAdapterError>(error) && out.len() == 0,
        Ok(None) => r is Ok && out.len() == 0,
        Ok(Some(event)) => if n > 0 {
            r is Ok && out == seq![event]
        } else {
            r == Err::<(), BleHostAdapterError>(BleHostAdapterError::EventCapacity) && out.len()
                == 0
        },
    }
}

/// Fills `out` with the events of what a host did.
pub fn bridge_events_from_ble_host_event<const N: usize>(
    host_id: HostId,
    event: BleHostAdapterEvent<'_>,
    out: &mut BoundedVec<BridgeEvent, N>,
) -> (r: Result<(), BleHostAdapterError>)
    ensures
        is_told(host_event(host_id, event), N as nat, final(out)@, r),
{
    out.clear();
    match event {
        BleHostAdapterEvent::Connected => push_event(out, BridgeEvent::HostConnected { host_id }),
        BleHostAdapterEvent::Disconnected => push_event(
            out,
            BridgeEvent::HostDisconnected { host_id },
        ),
        BleHostAdapterEvent::SecurityChanged { encrypted, bonded, bond } => push_event(
            out,
            BridgeEvent::HostSecurityChanged { host_id, encrypted, bonded, bond },
        ),
        BleHostAdapterEvent::GattWrite { attribute, data } => bridge_events_from_gatt_write(
            host_id,
            attribute,
            data,
            out,
        ),
    }
}

fn bridge_events_from_gatt_write<const N: usize>(
    host_id: HostId,
    attribute: BleHidAttribute,
    data: &[u8],
    out: &mut BoundedVec<BridgeEvent, N>,
) -> (r: Result<(), BleHostAdapterError>)
    requires
        old(out)@.len() == 0,
    ensures
        is_told(write_event(host_id, attribute, data@), N as nat, final(out)@, r),
{
    match attribute {
        BleHidAttribute::KeyboardInputCccd => push_cccd_event(
            host_id,
            ReportKind::Keyboard,
            data,
            out,
        ),
        BleHidAttribute::MouseInputCccd => push_cccd_event(host_id, ReportKind::Mouse, data, out),
        BleHidAttribute::ConsumerInputCccd => push_cccd_event(
            host_id,
            ReportKind::Consumer,
            data,
            out,
        ),
        BleHidAttribute::KeyboardOutputCccd => push_cccd_event(
            host_id,
            ReportKind::KeyboardOutput,
            data,
            out,
        ),
        BleHidAttribute::KeyboardOutputReport => {
            match keyboard_output_report_payload(data) {
                Err(error) => Err(error),
                Ok(payload) => push_led_event(host_id, payload, out),
            }
        },
        BleHidAttribute::BootKeyboardOutputReport => push_led_event(host_id, data, out),
        BleHidAttribute::Unknown => Ok(()),
    }
}

fn push_led_event<const N: usize>(
    host_id: HostId,
    payload: &[u8],
    out: &mut BoundedVec<BridgeEvent, N>,
) -> (r: Result<(), BleHostAdapterError>)
    requires
        old(out)@.len() == 0,
    ensures
        is_told(
            write_event(host_id, BleHidAttribute::BootKeyboardOutputReport, payload@),
            N as nat,
            final(out)@,
            r,
        ),
{
    match keyboard_led_event_from_ble_output(host_id, payload) {
        Err(error) => Err(BleHostAdapterError::Output(error)),
        Ok(event) => push_event(out, event),
    }
}

fn push_cccd_event<const N: usize>(
    host_id: HostId,
    report: ReportKind,
    data: &[u8],
    out: &mut BoundedVec<BridgeEvent, N>,
) -> (r: Result<(), BleHostAdapterError>)
    requires
        old(out)@.len() == 0,
    ensures
        is_told(subscription(host_id, report, data@), N as nat, final(out)@, r),
{
    match cccd_notify_enabled(data) {
        Err(error) => Err(error),
        Ok(enabled) => push_event(out, BridgeEvent::CccdChanged { host_id, report, enabled }),
    }
}

/// Whether a subscription is for notifications.
pub fn cccd_notify_enabled(data: &[u8]) -> (r: Result<bool, BleHostAdapterError>)
    ensures
        data@.len() == 2 ==> r == Ok::<bool, BleHostAdapterError>(u16_at(data@, 0) & 1 != 0),
        data@.len() != 2 ==> r == Err::<bool, BleHostAdapterError>(
            BleHostAdapterError::InvalidCccdLength,
        ),
{
    if data.len() != 2 {
        return Err(BleHostAdapterError::InvalidCccdLength);
    }
    Ok(from_le16(data[0], data[1]) & 0x0001 != 0)
}

fn keyboard_output_report_payload(data: &[u8]) -> (r: Result<&[u8], BleHostAdapterError>)
    ensures
        data@.len() == 1 ==> r is Ok && r->Ok_0@ == data@,
        data@.len() == 2 && data@[0] == KEYBOARD_REPORT_ID ==> r is Ok && r->Ok_0@
            == data@.subrange(1, 2),
        data@.len() != 1 && !(data@.len() == 2 && data@[0] == KEYBOARD_REPORT_ID) ==> r is Err
            && r->Err_0 == BleHostAdapterError::InvalidOutputReportLength,
{
    if data.len() == 1 {
        Ok(data)
    } else if data.len() == 2 && data[0] == KEYBOARD_REPORT_ID {
        Ok(part(data, 1, 2))
    } else {
        Err(BleHostAdapterError::InvalidOutputReportLength)
    }
}

fn push_event<const N: usize>(out: &mut BoundedVec<BridgeEvent, N>, event: BridgeEvent) -> (r:
    Result<(), BleHostAdapterError>)
    requires
        old(out)@.len() == 0,
    ensures
        is_told(Ok(Some(event)), N as nat, final(out)@, r),
{
    match out.push(event) {
        Ok(_) => {
            assert(out@ =~= seq![event]);
            Ok(())
        },
        Err(_) => Err(BleHostAdapterError::EventCapacity),
    }
}

proof fn lemma_low_bits(x: u16, b: u8)
    ensures
        x & 1 != 0 <==> x % 2 == 1,
        b & 7 == b % 8,
{
    assert((x & 1 != 0 <==> x % 2 == 1) && b & 7 == b % 8) by (bit_vector);
}

/// Two bytes that a host writes to the switch of a report switch notifications of
/// that report, and of no other, on where the first is odd and off where it is
/// even. Any other number of bytes is refused.
pub proof fn law_subscriptions(host_id: HostId, data: Seq<u8>)
    ensures
        data.len() == 2 ==> {
            let on = data[0] % 2 == 1;
            &&& write_event(host_id, BleHidAttribute::KeyboardInputCccd, data) == Ok::<
                Option<BridgeEvent>,
                BleHostAdapterError,
            >(
                Some(
                    BridgeEvent::CccdChanged {
                        host_id,
                        report: ReportKind::Keyboard,
                        enabled: on,
                    },
                ),
            )
            &&& write_event(host_id, BleHidAttribute::MouseInputCccd, data) == Ok::<
                Option<BridgeEvent>,
                BleHostAdapterError,
            >(
                Some(
                    BridgeEvent::CccdChanged { host_id, report: ReportKind::Mouse, enabled: on },
                ),
            )
            &&& write_event(host_id, BleHidAttribute::ConsumerInputCccd, data) == Ok::<
                Option<BridgeEvent>,
                BleHostAdapterError,
            >(
                Some(
                    BridgeEvent::CccdChanged {
                        host_id,
                        report: ReportKind::Consumer,
                        enabled: on,
                    },
                ),
            )
            &&& write_event(host_id, BleHidAttribute::KeyboardOutputCccd, data) == Ok::<
                Option<BridgeEvent>,
                BleHostAdapterError,
            >(
                Some(
                    BridgeEvent::CccdChanged {
                        host_id,
                        report: ReportKind::KeyboardOutput,
                        enabled: on,
                    },
                ),
            )
        },
        data.len() != 2 ==> {
            &&& write_event(host_id, BleHidAttribute::KeyboardInputCccd, data) is Err
            &&& write_event(host_id, BleHidAttribute::MouseInputCccd, data) is Err
            &&& write_event(host_id, BleHidAttribute::ConsumerInputCccd, data) is Err
            &&& write_event(host_id, BleHidAttribute::KeyboardOutputCccd, data) is Err
        },
{
    if data.len() == 2 {
        lemma_low_bits(u16_at(data, 0), 0);
    }
}

/// The lights that a host writes, one bit each for num, caps and scroll lock, are
/// the lights that the bridge is told of, with or without the report's number in
/// front.
pub proof fn law_written_lights(host_id: HostId, attribute: BleHidAttribute, data: Seq<u8>)
    requires
        attribute == BleHidAttribute::KeyboardOutputReport || attribute
            == BleHidAttribute::BootKeyboardOutputReport,
        write_event(host_id, attribute, data) is Ok,
    ensures
        data.len() == 1 || data.len() == 2,
        write_event(host_id, attribute, data)->Ok_0 matches Some(
            BridgeEvent::HostKeyboardLedChanged { host_id: from, leds },
        ) && from == host_id && leds.mask() == data.last() % 8,
{
    broadcast use KeyboardLedState::lemma_of_mask;

    lemma_low_bits(0, data.last());
}

} // verus!
