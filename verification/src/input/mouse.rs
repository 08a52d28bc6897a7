//! Mouse buttons, movement and state.

use vstd::prelude::*;

verus! {

/// The buttons that are held.
#[derive(Clone, Copy, Debug, PartialEq, Eq, Structural)]
pub struct PhysicalMouseState {
    pub buttons: MouseButtons,
}

impl PhysicalMouseState {
    /// No button held.
    pub fn new() -> (r: Self)
        ensures
            r.buttons.mask() == 0,
    {
        Self { buttons: MouseButtons::empty() }
    }

    /// Takes over the buttons of a frame.
    pub fn apply_frame(&mut self, frame: MouseFrame)
        ensures
            *final(self) == (PhysicalMouseState { buttons: frame.buttons }),
    {
        self.buttons = frame.buttons;
    }
}

impl Default for PhysicalMouseState {
    fn default() -> (r: Self)
        ensures
            r.buttons.mask() == 0,
    {
        Self::new()
    }
}

/// Buttons and movement of one report.
#[derive(Clone, Copy, Debug, PartialEq, Eq, Structural)]
pub struct MouseFrame {
    pub buttons: MouseButtons,
    pub movement: MouseMovement,
}

/// Relative movement.
#[derive(Clone, Copy, Debug, PartialEq, Eq, Structural)]
pub struct MouseMovement {
    pub x: i16,
    pub y: i16,
    pub wheel: i8,
    pub pan: i8,
}

impl MouseMovement {
    /// No movement.
    pub open spec fn still() -> MouseMovement {
        MouseMovement { x: 0, y: 0, wheel: 0, pan: 0 }
    }

    /// No movement.
    pub fn neutral() -> (r: Self)
        ensures
            r == MouseMovement::still(),
    {
        Self { x: 0, y: 0, wheel: 0, pan: 0 }
    }
}

/// A mouse report with movement cut to one byte per axis.
#[derive(Clone, Copy, Debug, PartialEq, Eq, Structural)]
pub struct MouseInputReport {
    pub buttons: MouseButtons,
    pub x: i8,
    pub y: i8,
    pub wheel: i8,
    pub pan: i8,
}

impl MouseInputReport {
    /// No button and no movement.
    pub fn neutral() -> (r: Self)
        ensures
            r == (MouseInputReport {
                buttons: MouseButtons::of_mask(0),
                x: 0,
                y: 0,
                wheel: 0,
                pan: 0,
            }),
    {
        Self { buttons: MouseButtons::empty(), x: 0, y: 0, wheel: 0, pan: 0 }
    }
}

/// A set of mouse buttons.
#[derive(Clone, Copy, Debug, PartialEq, Eq, Structural)]
pub struct MouseButtons(pub(crate) u8);

impl MouseButtons {
    /// The set of left alone.
    pub fn left() -> (r: Self)
        ensures
            r == MouseButtons::of_mask(1),
    {
        Self(1)
    }

    /// The set of right alone.
    pub fn right() -> (r: Self)
        ensures
            r == MouseButtons::of_mask(2),
    {
        Self(2)
    }

    /// The set of middle alone.
    pub fn middle() -> (r: Self)
        ensures
            r == MouseButtons::of_mask(4),
    {
        Self(4)
    }

    /// The set of back alone.
    pub fn back() -> (r: Self)
        ensures
            r == MouseButtons::of_mask(8),
    {
        Self(8)
    }

    /// The set of forward alone.
    pub fn forward() -> (r: Self)
        ensures
            r == MouseButtons::of_mask(16),
    {
        Self(16)
    }

    /// One bit for each button in the set.
    pub open(crate) spec fn mask(self) -> u8 {
        self.0
    }

    /// The set with these bits.
    pub open(crate) spec fn of_mask(bits: u8) -> MouseButtons {
        MouseButtons(bits)
    }

    /// The set of a mask, and the mask of a set.
    pub broadcast proof fn lemma_of_mask(bits: u8)
        ensures
            (#[trigger] MouseButtons::of_mask(bits)).mask() == bits,
    {
    }

    /// A set is known by its mask.
    pub broadcast proof fn lemma_mask(buttons: MouseButtons)
        ensures
            MouseButtons::of_mask(#[trigger] buttons.mask()) == buttons,
    {
    }

    /// No button.
    pub fn empty() -> (r: Self)
        ensures
            r == MouseButtons::of_mask(0),
    {
        Self(0)
    }

    /// The buttons of a mask whose other bits are ignored.
    pub fn from_bits_truncate(bits: u8) -> (r: Self)
        ensures
            r == MouseButtons::of_mask(bits & 0x1f),
    {
        Self(bits & 0x1f)
    }

    /// The mask.
    pub fn bits(self) -> (r: u8)
        ensures
            r == self.mask(),
    {
        self.0
    }

    /// Whether the button is in the set.
    pub fn contains(self, button: MouseButton) -> (r: bool)
        ensures
            r == (self.mask() & button.bit() != 0),
    {
        self.0 & button.mask() != 0
    }

    /// The buttons that are not in `suppressed`.
    pub fn without(self, suppressed: Self) -> (r: Self)
        ensures
            r == MouseButtons::of_mask(self.mask() & !suppressed.mask()),
    {
        Self(self.0 & !suppressed.0)
    }

    /// The buttons in both sets.
    pub fn intersection(self, other: Self) -> (r: Self)
        ensures
            r == MouseButtons::of_mask(self.mask() & other.mask()),
    {
        Self(self.0 & other.0)
    }

    /// Puts a button in or takes it out.
    pub fn set(&mut self, button: MouseButton, pressed: bool)
        ensures
            *final(self) == MouseButtons::of_mask(
                if pressed {
                    old(self).mask() | button.bit()
                } else {
                    old(self).mask() & !button.bit()
                },
            ),
    {
        if pressed {
            self.0 = self.0 | button.mask();
        } else {
            self.0 = self.0 & !button.mask();
        }
    }
}

impl Default for MouseButtons {
    fn default() -> (r: Self)
        ensures
            r == MouseButtons::of_mask(0),
    {
        Self::empty()
    }
}

/// One mouse button.
#[derive(Clone, Copy, Debug, PartialEq, Eq, Structural)]
pub enum MouseButton {
    Left,
    Right,
    Middle,
    Back,
    Forward,
}

impl MouseButton {
    /// The button's bit in a mask.
    pub open spec fn bit(self) -> u8 {
        match self {
            MouseButton::Left => 1,
            MouseButton::Right => 2,
            MouseButton::Middle => 4,
            MouseButton::Back => 8,
            MouseButton::Forward => 16,
        }
    }

    /// The button's bit in a mask.
    pub fn mask(self) -> (r: u8)
        ensures
            r == self.bit(),
    {
        match self {
            Self::Left => 1,
            Self::Right => 2,
            Self::Middle => 4,
            Self::Back => 8,
            Self::Forward => 16,
        }
    }
}

/// A button that was put in a set is in it, and one that was taken out is not,
/// whatever the set held.
pub proof fn law_set_then_contains(mask: u8, button: MouseButton)
    ensures
        (mask | button.bit()) & button.bit() != 0,
        (mask & !button.bit()) & button.bit() == 0,
{
    let bit = button.bit();
    assert((mask & !bit) & bit == 0) by (bit_vector);
    assert(bit == 1 || bit == 2 || bit == 4 || bit == 8 || bit == 16 ==> (mask | bit) & bit != 0)
        by (bit_vector);
}

/// The buttons' bits, in the order in which a report has them: each is twice the
/// one before.
pub proof fn law_order_of_the_buttons()
    ensures
        MouseButton::Left.bit() == 1,
        MouseButton::Right.bit() == 2 * MouseButton::Left.bit(),
        MouseButton::Middle.bit() == 2 * MouseButton::Right.bit(),
        MouseButton::Back.bit() == 2 * MouseButton::Middle.bit(),
        MouseButton::Forward.bit() == 2 * MouseButton::Back.bit(),
{
}

} // verus!
