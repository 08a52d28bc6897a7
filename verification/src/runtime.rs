//! What the tasks of the bridge tell each other.

use vstd::prelude::*;

use crate::ble::BleHidAttribute;
use crate::bridge::{BridgeStatus, NotifyReason};
use crate::bytes::{padded, write_at};
use crate::ids::{DeviceId, HostId, InterfaceId};
use crate::input::KeyboardLedState;
use crate::management::{ManagementDestination, ManagementResponse};
use crate::reports::BleHidReport;
use crate::storage::StoredBond;

verus! {

/// The longest write to an attribute that is passed on.
pub const RUNTIME_BLE_GATT_WRITE_MAX_LEN: usize = 2;

/// What the radio task is told to do.
#[derive(Clone, Copy, Debug, PartialEq, Eq)]
pub enum BleTaskCommand {
    Notify { host_id: HostId, report: BleHidReport, reason: NotifyReason },
    AllowPairing { host_id: HostId },
    RejectPairing { host_id: HostId },
    ClearBond { host_id: HostId, bond: Option<StoredBond> },
    ManagementResponse { host_id: HostId, response: ManagementResponse },
}

/// What the USB task is told to do.
#[derive(Clone, Copy, Debug, PartialEq, Eq, Structural)]
pub struct UsbTaskCommand {
    pub interface_id: InterfaceId,
    pub device_id: DeviceId,
    pub leds: KeyboardLedState,
}

/// What the storage task is told to do.
#[derive(Clone, Copy, Debug, PartialEq, Eq, Structural)]
pub enum StorageTaskCommand {
    PersistProfiles,
}

/// A response, and where it goes.
#[derive(Clone, Copy, Debug, PartialEq, Eq)]
pub struct ManagementTaskResponse {
    pub destination: ManagementDestination,
    pub response: ManagementResponse,
}

/// What the status task is told: the bridge's status, or a response.
#[derive(Clone, Copy, Debug, PartialEq, Eq)]
pub struct StatusTaskCommand {
    pub status: BridgeStatus,
    pub management: Option<ManagementTaskResponse>,
}

/// A write to an attribute.
#[derive(Clone, Copy, Debug, PartialEq, Eq)]
pub struct RuntimeBleGattWrite {
    pub(crate) len: u8,
    pub(crate) bytes: [u8; RUNTIME_BLE_GATT_WRITE_MAX_LEN],
}

impl View for RuntimeBleGattWrite {
    type V = Seq<u8>;

    open(crate) spec fn view(&self) -> Seq<u8> {
        self.bytes@.take(self.len as int)
    }
}

impl RuntimeBleGattWrite {
    /// The write is no longer than it can be, and zeros stand behind it.
    pub open(crate) spec fn wf(&self) -> bool {
        &&& self.len <= RUNTIME_BLE_GATT_WRITE_MAX_LEN
        &&& self.bytes@ == padded(self@, RUNTIME_BLE_GATT_WRITE_MAX_LEN as nat)
    }

    /// The write of some bytes, where they are not too many.
    pub fn from_slice(data: &[u8]) -> (r: Result<Self, RuntimeInputMessageError>)
        ensures
            data@.len() <= RUNTIME_BLE_GATT_WRITE_MAX_LEN ==> r is Ok && r->Ok_0.wf() && r->Ok_0@
                == data@,
            data@.len() > RUNTIME_BLE_GATT_WRITE_MAX_LEN ==> r == Err::<
                Self,
                RuntimeInputMessageError,
            >(RuntimeInputMessageError::BleGattWriteTooLong),
    {
        if data.len() > RUNTIME_BLE_GATT_WRITE_MAX_LEN {
            return Err(RuntimeInputMessageError::BleGattWriteTooLong);
        }
        let mut bytes = [0u8;RUNTIME_BLE_GATT_WRITE_MAX_LEN];
        write_at(&mut bytes, 0, data);
        let r = Self { len: data.len() as u8, bytes };
        assert(r@ =~= data@);
        assert(r.bytes@ =~= padded(data@, RUNTIME_BLE_GATT_WRITE_MAX_LEN as nat));
        Ok(r)
    }

    /// The bytes.
    pub fn as_slice(&self) -> (r: &[u8])
        requires
            self.wf(),
        ensures
            r@ == self@,
    {
        crate::bytes::part(self.bytes.as_slice(), 0, self.len as usize)
    }
}

/// What happened at a host.
#[derive(Clone, Copy, Debug, PartialEq, Eq)]
pub enum RuntimeBleHostEvent {
    Connected,
    Disconnected,
    SecurityChanged { encrypted: bool, bonded: bool, bond: Option<StoredBond> },
    GattWrite { attribute: BleHidAttribute, data: RuntimeBleGattWrite },
}

/// What the bridge task is told.
#[derive(Clone, Copy, Debug, PartialEq, Eq)]
pub enum RuntimeInputMessage {
    BleHostEvent { host_id: HostId, event: RuntimeBleHostEvent },
}

/// Why something cannot be told.
#[derive(Clone, Copy, Debug, PartialEq, Eq, Structural)]
pub enum RuntimeInputMessageError {
    BleGattWriteTooLong,
}

} // verus!
