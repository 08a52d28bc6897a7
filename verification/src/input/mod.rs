//! Normalised keyboard, mouse and consumer input.

pub mod aggregator;
pub mod aggregator_laws;
pub mod consumer;
pub mod keyboard;
pub mod leds;
pub mod mouse;
pub mod movement_queue;
pub mod vendor;

pub use aggregator::InputAggregator;
pub use consumer::{ConsumerFrame, ConsumerState, ConsumerUsage};
pub use keyboard::{
    KeyUsage, KeyboardFrame, KeyboardSuppression, KeysView, Modifier, ModifierState,
    PhysicalKeyboardState, VisibleKeyboardState, PHYSICAL_KEYBOARD_KEY_CAPACITY,
};
pub use leds::KeyboardLedState;
pub use mouse::{
    MouseButton, MouseButtons, MouseFrame, MouseInputReport, MouseMovement, PhysicalMouseState,
};
pub use movement_queue::{
    UsbMovementCoalescer, UsbMovementCoalescerError, UsbMovementCoalescerStats,
};
pub use vendor::{HidDirection, VendorHidFrame, MAX_VENDOR_REPORT_SIZE};

use vstd::prelude::*;

use crate::ids::{DeviceId, InterfaceId};

verus! {

/// Everything that is held.
#[derive(Clone, Debug, PartialEq, Eq)]
pub struct PhysicalInputState {
    pub keyboard: PhysicalKeyboardState,
    pub mouse: PhysicalMouseState,
    pub consumer: ConsumerState,
}

/// What is held.
pub struct InputView {
    pub keyboard: KeysView,
    pub buttons: MouseButtons,
    pub consumer: Option<ConsumerUsage>,
}

impl View for PhysicalInputState {
    type V = InputView;

    open spec fn view(&self) -> InputView {
        InputView {
            keyboard: self.keyboard@,
            buttons: self.mouse.buttons,
            consumer: self.consumer.active,
        }
    }
}

impl InputView {
    /// Nothing held.
    pub open spec fn released() -> InputView {
        InputView {
            keyboard: KeysView { modifiers: ModifierState::of_mask(0), keys: seq![] },
            buttons: MouseButtons::of_mask(0),
            consumer: None,
        }
    }
}

impl PhysicalInputState {
    /// No key is held twice.
    pub open spec fn wf(&self) -> bool {
        self.keyboard.wf()
    }

    /// Nothing held.
    pub fn new() -> (r: Self)
        ensures
            r.wf(),
            r@ == InputView::released(),
    {
        Self {
            keyboard: PhysicalKeyboardState::new(),
            mouse: PhysicalMouseState::new(),
            consumer: ConsumerState::new(),
        }
    }

    /// Another state that holds the same.
    pub fn copied(&self) -> (r: Self)
        ensures
            r@ == self@,
            self.wf() ==> r.wf(),
    {
        Self { keyboard: self.keyboard.copied(), mouse: self.mouse, consumer: self.consumer }
    }
}

impl Default for PhysicalInputState {
    fn default() -> (r: Self)
        ensures
            r.wf(),
            r@ == InputView::released(),
    {
        Self::new()
    }
}

/// A report of either kind.
#[derive(Clone, Debug, PartialEq, Eq)]
pub enum InputFrame {
    Standard(StandardInputFrame),
    Vendor(VendorHidFrame),
}

/// A report of the standard kind: what it says of keyboard, mouse and consumer
/// controls, where it says something.
#[derive(Clone, Debug, PartialEq, Eq)]
pub struct StandardInputFrame {
    pub device_id: DeviceId,
    pub interface_id: InterfaceId,
    pub keyboard: Option<KeyboardFrame>,
    pub mouse: Option<MouseFrame>,
    pub consumer: Option<ConsumerFrame>,
}

/// What a standard report says.
pub struct FrameView {
    pub device_id: DeviceId,
    pub interface_id: InterfaceId,
    pub keyboard: Option<KeysView>,
    pub mouse: Option<MouseFrame>,
    pub consumer: Option<ConsumerFrame>,
}

impl View for StandardInputFrame {
    type V = FrameView;

    open spec fn view(&self) -> FrameView {
        FrameView {
            device_id: self.device_id,
            interface_id: self.interface_id,
            keyboard: match self.keyboard {
                Some(keyboard) => Some(keyboard@),
                None => None,
            },
            mouse: self.mouse,
            consumer: self.consumer,
        }
    }
}

/// Why input could not be taken.
#[derive(Clone, Copy, Debug, PartialEq, Eq, Structural)]
pub enum InputError {
    KeyCapacity,
    DeviceCapacity,
    VendorPayloadCapacity,
}

/// Something that a user did.
#[derive(Clone, Copy, Debug, PartialEq, Eq, Structural)]
pub enum InputEvent {
    Keyboard(KeyboardEvent),
    Mouse(MouseInputReport),
    Consumer(ConsumerUsage),
}

/// Something that a user did on a keyboard.
#[derive(Clone, Copy, Debug, PartialEq, Eq, Structural)]
pub enum KeyboardEvent {
    Press(KeyCode),
    Release(KeyCode),
    ModifierPress(Modifier),
    ModifierRelease(Modifier),
}

/// A key.
#[derive(Clone, Copy, Debug, PartialEq, Eq, Structural)]
pub enum KeyCode {
    HidUsage(u8),
}

} // verus!
