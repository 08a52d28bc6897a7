//! From attribute handles and connection changes to messages.

use vstd::prelude::*;

use crate::ble::BleHidAttribute;
use crate::ids::HostId;
use crate::runtime::{
    RuntimeBleGattWrite, RuntimeBleHostEvent, RuntimeInputMessage, RuntimeInputMessageError,
    RUNTIME_BLE_GATT_WRITE_MAX_LEN,
};
use crate::storage::StoredBond;

verus! {

/// The handles of the attributes that hosts write to.
#[derive(Clone, Copy, Debug, PartialEq, Eq, Structural)]
pub struct BleHidAttributeHandles {
    pub keyboard_input_cccd: Option<u16>,
    pub mouse_input_cccd: Option<u16>,
    pub consumer_input_cccd: Option<u16>,
    pub keyboard_output_cccd: Option<u16>,
    pub keyboard_output_report: u16,
    pub boot_keyboard_output_report: Option<u16>,
}

impl BleHidAttributeHandles {
    /// The attribute with a handle. Where several have it, output reports come
    /// before subscriptions, and then the keyboard before the mouse before the
    /// consumer controls.
    pub open spec fn attribute(self, handle: u16) -> BleHidAttribute {
        if self.keyboard_output_report == handle {
            BleHidAttribute::KeyboardOutputReport
        } else if self.boot_keyboard_output_report == Some(handle) {
            BleHidAttribute::BootKeyboardOutputReport
        } else if self.keyboard_input_cccd == Some(handle) {
            BleHidAttribute::KeyboardInputCccd
        } else if self.mouse_input_cccd == Some(handle) {
            BleHidAttribute::MouseInputCccd
        } else if self.consumer_input_cccd == Some(handle) {
            BleHidAttribute::ConsumerInputCccd
        } else if self.keyboard_output_cccd == Some(handle) {
            BleHidAttribute::KeyboardOutputCccd
        } else {
            BleHidAttribute::Unknown
        }
    }

    /// The attribute with a handle.
    pub fn resolve(self, handle: u16) -> (r: BleHidAttribute)
        ensures
            r == self.attribute(handle),
    {
        if self.keyboard_output_report == handle {
            return BleHidAttribute::KeyboardOutputReport;
        }
        if self.boot_keyboard_output_report == Some(handle) {
            return BleHidAttribute::BootKeyboardOutputReport;
        }
        if self.keyboard_input_cccd == Some(handle) {
            return BleHidAttribute::KeyboardInputCccd;
        }
        if self.mouse_input_cccd == Some(handle) {
            return BleHidAttribute::MouseInputCccd;
        }
        if self.consumer_input_cccd == Some(handle) {
            return BleHidAttribute::ConsumerInputCccd;
        }
        if self.keyboard_output_cccd == Some(handle) {
            return BleHidAttribute::KeyboardOutputCccd;
        }
        BleHidAttribute::Unknown
    }
}

/// The message that a host connected.
pub fn connected_message(host_id: HostId) -> (r: RuntimeInputMessage)
    ensures
        r == (RuntimeInputMessage::BleHostEvent { host_id, event: RuntimeBleHostEvent::Connected }),
{
    RuntimeInputMessage::BleHostEvent { host_id, event: RuntimeBleHostEvent::Connected }
}

/// The message that a host disconnected.
pub fn disconnected_message(host_id: HostId) -> (r: RuntimeInputMessage)
    ensures
        r == (RuntimeInputMessage::BleHostEvent {
            host_id,
            event: RuntimeBleHostEvent::Disconnected,
        }),
{
    RuntimeInputMessage::BleHostEvent { host_id, event: RuntimeBleHostEvent::Disconnected }
}

/// The message that the security of a host's link changed.
pub fn security_changed_message(
    host_id: HostId,
    encrypted: bool,
    bonded: bool,
    bond: Option<StoredBond>,
) -> (r: RuntimeInputMessage)
    ensures
        r == (RuntimeInputMessage::BleHostEvent {
            host_id,
            event: RuntimeBleHostEvent::SecurityChanged { encrypted, bonded, bond },
        }),
{
    RuntimeInputMessage::BleHostEvent {
        host_id,
        event: RuntimeBleHostEvent::SecurityChanged { encrypted, bonded, bond },
    }
}

/// The message that a host wrote to the attribute with a handle, unless it
/// wrote too much.
pub fn gatt_write_message(
    host_id: HostId,
    handles: BleHidAttributeHandles,
    handle: u16,
    data: &[u8],
) -> (r: Result<RuntimeInputMessage, RuntimeInputMessageError>)
    ensures
        data@.len() > RUNTIME_BLE_GATT_WRITE_MAX_LEN ==> r == Err::<
            RuntimeInputMessage,
            RuntimeInputMessageError,
        >(RuntimeInputMessageError::BleGattWriteTooLong),
        data@.len() <= RUNTIME_BLE_GATT_WRITE_MAX_LEN ==> match r {
            Ok(
                RuntimeInputMessage::BleHostEvent {
                    host_id: host,
                    event: RuntimeBleHostEvent::GattWrite { attribute, data: written },
                },
            ) => host == host_id && attribute == handles.attribute(handle) && written.wf()
                && written@ == data@,
            _ => false,
        },
{
    match RuntimeBleGattWrite::from_slice(data) {
        Err(error) => Err(error),
        Ok(data) => Ok(
            RuntimeInputMessage::BleHostEvent {
                host_id,
                event: RuntimeBleHostEvent::GattWrite { attribute: handles.resolve(handle), data },
            },
        ),
    }
}

/// Where no two attributes share a handle, each handle stands for its attribute,
/// and any other for none.
pub proof fn law_handles_stand_for_their_attributes(h: BleHidAttributeHandles, handle: u16)
    requires
        h.keyboard_input_cccd is Some,
        h.mouse_input_cccd is Some,
        h.consumer_input_cccd is Some,
        h.keyboard_output_cccd is Some,
        h.boot_keyboard_output_report is Some,
        seq![
            h.keyboard_input_cccd->0,
            h.mouse_input_cccd->0,
            h.consumer_input_cccd->0,
            h.keyboard_output_cccd->0,
            h.boot_keyboard_output_report->0,
            h.keyboard_output_report,
        ].no_duplicates(),
    ensures
        h.attribute(handle) == BleHidAttribute::KeyboardInputCccd <==> h.keyboard_input_cccd
            == Some(handle),
        h.attribute(handle) == BleHidAttribute::MouseInputCccd <==> h.mouse_input_cccd == Some(
            handle,
        ),
        h.attribute(handle) == BleHidAttribute::ConsumerInputCccd <==> h.consumer_input_cccd
            == Some(handle),
        h.attribute(handle) == BleHidAttribute::KeyboardOutputCccd <==> h.keyboard_output_cccd
            == Some(handle),
        h.attribute(handle) == BleHidAttribute::BootKeyboardOutputReport
            <==> h.boot_keyboard_output_report == Some(handle),
        h.attribute(handle) == BleHidAttribute::KeyboardOutputReport <==> h.keyboard_output_report
            == handle,
{
    let all = seq![
        h.keyboard_input_cccd->0,
        h.mouse_input_cccd->0,
        h.consumer_input_cccd->0,
        h.keyboard_output_cccd->0,
        h.boot_keyboard_output_report->0,
        h.keyboard_output_report,
    ];
    assert forall|i: int, j: int| 0 <= i < 6 && 0 <= j < 6 && i != j implies all[i] != all[j] by {}
    assert(all[0] != all[1] && all[0] != all[2] && all[0] != all[3] && all[0] != all[4] && all[0]
        != all[5]);
    assert(all[1] != all[2] && all[1] != all[3] && all[1] != all[4] && all[1] != all[5]);
    assert(all[2] != all[3] && all[2] != all[4] && all[2] != all[5]);
    assert(all[3] != all[4] && all[3] != all[5] && all[4] != all[5]);
}

} // verus!
