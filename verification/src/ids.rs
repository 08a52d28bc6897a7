//! Identifiers of hosts, devices and interfaces.

use vstd::prelude::*;

verus! {

/// A host, as it is numbered on the wire.
#[derive(Clone, Copy, Debug, PartialEq, Eq, PartialOrd, Ord, Hash, Structural)]
pub struct HostId(pub u8);

/// The lowest host slot.
pub const HOST_SLOT_MIN: u8 = 1;

/// The highest host slot.
pub const HOST_SLOT_MAX: u8 = 4;

/// The number that was refused as a host slot.
#[derive(Clone, Copy, Debug, PartialEq, Eq, Structural)]
pub struct InvalidHostSlot(pub u8);

/// A host number that is known to name a slot.
#[derive(Clone, Copy, Debug, PartialEq, Eq, PartialOrd, Ord, Hash, Structural)]
pub struct HostSlot(u8);

/// Whether `value` names a host slot.
pub open spec fn is_host_slot(value: u8) -> bool {
    HOST_SLOT_MIN <= value <= HOST_SLOT_MAX
}

impl HostSlot {
    /// The slot's number.
    pub closed spec fn number(self) -> u8 {
        self.0
    }

    /// The slot's number.
    pub fn get(self) -> (r: u8)
        ensures
            r == self.number(),
    {
        self.0
    }

    /// The slot with the number `value`, where there is one.
    pub closed spec fn of(value: u8) -> Result<HostSlot, InvalidHostSlot> {
        if is_host_slot(value) {
            Ok(HostSlot(value))
        } else {
            Err(InvalidHostSlot(value))
        }
    }

    /// What `of` gives: the slot of that number for a slot's number, and the
    /// number itself for any other.
    pub broadcast proof fn lemma_of(value: u8)
        ensures
            #![trigger HostSlot::of(value)]
            HostSlot::of(value) is Ok == is_host_slot(value),
            is_host_slot(value) ==> HostSlot::of(value)->Ok_0.number() == value,
            !is_host_slot(value) ==> HostSlot::of(value) == Err::<HostSlot, InvalidHostSlot>(
                InvalidHostSlot(value),
            ),
    {
    }
}

impl TryFrom<u8> for HostSlot {
    type Error = InvalidHostSlot;

    fn try_from(value: u8) -> (r: Result<Self, Self::Error>) {
        if HOST_SLOT_MIN <= value && value <= HOST_SLOT_MAX {
            Ok(Self(value))
        } else {
            Err(InvalidHostSlot(value))
        }
    }
}

impl vstd::std_specs::convert::TryFromSpecImpl<u8> for HostSlot {
    open spec fn obeys_try_from_spec() -> bool {
        true
    }

    open spec fn try_from_spec(value: u8) -> Result<Self, InvalidHostSlot> {
        HostSlot::of(value)
    }
}

impl From<HostSlot> for HostId {
    fn from(slot: HostSlot) -> (r: Self) {
        Self(slot.get())
    }
}

impl vstd::std_specs::convert::FromSpecImpl<HostSlot> for HostId {
    open spec fn obeys_from_spec() -> bool {
        true
    }

    open spec fn from_spec(slot: HostSlot) -> Self {
        HostId(slot.number())
    }
}

impl TryFrom<HostId> for HostSlot {
    type Error = InvalidHostSlot;

    fn try_from(host_id: HostId) -> (r: Result<Self, Self::Error>) {
        host_id.validated()
    }
}

impl vstd::std_specs::convert::TryFromSpecImpl<HostId> for HostSlot {
    open spec fn obeys_try_from_spec() -> bool {
        true
    }

    open spec fn try_from_spec(host_id: HostId) -> Result<Self, InvalidHostSlot> {
        HostSlot::of(host_id.0)
    }
}

impl HostId {
    /// The slot that this host has, where its number names one.
    pub fn validated(self) -> (r: Result<HostSlot, InvalidHostSlot>)
        ensures
            r == HostSlot::of(self.0),
            r is Ok == is_host_slot(self.0),
            r is Ok ==> r->Ok_0.number() == self.0,
            r is Err ==> r->Err_0 == InvalidHostSlot(self.0),
    {
        if HOST_SLOT_MIN <= self.0 && self.0 <= HOST_SLOT_MAX {
            Ok(HostSlot(self.0))
        } else {
            Err(InvalidHostSlot(self.0))
        }
    }
}

/// A USB device.
#[derive(Clone, Copy, Debug, PartialEq, Eq, PartialOrd, Ord, Hash, Structural)]
pub struct DeviceId(pub u8);

/// A storage slot.
#[derive(Clone, Copy, Debug, PartialEq, Eq, PartialOrd, Ord, Hash, Structural)]
pub struct SlotId(pub u8);

/// A HID interface.
#[derive(Clone, Copy, Debug, PartialEq, Eq, PartialOrd, Ord, Hash, Structural)]
pub struct InterfaceId(pub u8);

/// A HID report.
#[derive(Clone, Copy, Debug, PartialEq, Eq, PartialOrd, Ord, Hash, Structural)]
pub struct ReportId(pub u8);

/// A slot turned into a host and validated again is the same slot.
pub proof fn law_slot_of_its_host(slot: HostSlot)
    requires
        is_host_slot(slot.number()),
    ensures
        HostSlot::of(HostId(slot.number()).0) == Ok::<HostSlot, InvalidHostSlot>(slot),
{
}

} // verus!
