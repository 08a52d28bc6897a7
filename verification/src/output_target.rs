//! Where input goes.

use vstd::prelude::*;

use crate::ids::HostId;

verus! {

/// The wired device or a Bluetooth host.
#[derive(Clone, Copy, Debug, PartialEq, Eq, Structural)]
pub enum OutputTarget {
    Wired,
    Ble(HostId),
}

/// Whether a target can take input.
#[derive(Clone, Copy, Debug, PartialEq, Eq, Structural)]
pub enum OutputTargetAvailability {
    Ready,
    ConnectedNotReady,
    Unavailable,
}

/// A device that could be mirrored.
#[derive(Clone, Copy, Debug, PartialEq, Eq, Structural)]
pub struct MirrorCandidateId(pub u32);

/// How the device presents itself to its host.
#[derive(Clone, Copy, Debug, PartialEq, Eq, Structural)]
pub enum UsbPresentation {
    Fallback,
    Mirror(MirrorCandidateId),
}

} // verus!
