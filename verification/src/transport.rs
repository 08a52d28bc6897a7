//! The ways that input can take to a host.

use vstd::prelude::*;

verus! {

/// A way that input can take.
#[derive(Clone, Copy, Debug, PartialEq, Eq, Structural)]
pub enum InputTransport {
    Ble,
    EspNow,
}

impl InputTransport {
    /// The byte that stands for it.
    pub open spec fn byte(self) -> u8 {
        match self {
            InputTransport::Ble => 1,
            InputTransport::EspNow => 2,
        }
    }

    /// The byte that stands for it.
    pub fn to_byte(self) -> (r: u8)
        ensures
            r == self.byte(),
    {
        match self {
            Self::Ble => 1,
            Self::EspNow => 2,
        }
    }
}

} // verus!
