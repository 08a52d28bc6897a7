//! Keyboard lock lights.

use vstd::prelude::*;

verus! {

/// A set of lock lights.
#[derive(Clone, Copy, Debug, PartialEq, Eq, Structural)]
pub struct KeyboardLedState(pub(crate) u8);

impl KeyboardLedState {
    /// The set of num lock alone.
    pub fn num_lock() -> (r: Self)
        ensures
            r == KeyboardLedState::of_mask(1),
    {
        Self(1)
    }

    /// The set of caps lock alone.
    pub fn caps_lock() -> (r: Self)
        ensures
            r == KeyboardLedState::of_mask(2),
    {
        Self(2)
    }

    /// The set of scroll lock alone.
    pub fn scroll_lock() -> (r: Self)
        ensures
            r == KeyboardLedState::of_mask(4),
    {
        Self(4)
    }

    /// One bit for each light in the set.
    pub open(crate) spec fn mask(self) -> u8 {
        self.0
    }

    /// The set with these bits.
    pub open(crate) spec fn of_mask(bits: u8) -> KeyboardLedState {
        KeyboardLedState(bits)
    }

    /// The set of a mask has that mask.
    pub broadcast proof fn lemma_of_mask(bits: u8)
        ensures
            (#[trigger] KeyboardLedState::of_mask(bits)).mask() == bits,
    {
    }

    /// No light.
    pub fn empty() -> (r: Self)
        ensures
            r == KeyboardLedState::of_mask(0),
    {
        Self(0)
    }

    /// The mask.
    pub fn bits(self) -> (r: u8)
        ensures
            r == self.mask(),
    {
        self.0
    }

    /// The lights of a mask whose other bits are ignored.
    pub fn from_bits_truncate(bits: u8) -> (r: Self)
        ensures
            r == KeyboardLedState::of_mask(bits & 7),
    {
        Self(bits & 7)
    }

    /// Whether no light is on.
    pub fn is_empty(&self) -> (r: bool)
        ensures
            r == (self.mask() == 0),
    {
        self.0 == 0
    }

    /// Whether all lights of `other` are on.
    pub fn contains(&self, other: Self) -> (r: bool)
        ensures
            r == (self.mask() & other.mask() == other.mask()),
    {
        self.0 & other.0 == other.0
    }
}

impl Default for KeyboardLedState {
    fn default() -> (r: Self)
        ensures
            r == KeyboardLedState::of_mask(0),
    {
        Self::empty()
    }
}

impl core::ops::BitOr for KeyboardLedState {
    type Output = KeyboardLedState;

    fn bitor(self, rhs: Self) -> (r: Self) {
        Self(self.0 | rhs.0)
    }
}

impl vstd::std_specs::ops::BitOrSpecImpl for KeyboardLedState {
    open spec fn obeys_bitor_spec() -> bool {
        true
    }

    open spec fn bitor_req(self, rhs: Self) -> bool {
        true
    }

    open spec fn bitor_spec(self, rhs: Self) -> Self {
        KeyboardLedState::of_mask(self.mask() | rhs.mask())
    }
}

} // verus!
