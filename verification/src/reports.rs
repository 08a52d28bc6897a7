//! The HID reports that hosts receive and send.

use vstd::prelude::*;

use crate::bytes::{bits8, le16, padded, part, to_bits8, to_le16, write_at, zeros};
use crate::fixed;
use crate::fixed::notifications_in_1;
use crate::input::keyboard::{visible, KeysView};
use crate::input::{
    ConsumerUsage, KeyboardLedState, KeyboardSuppression, MouseButtons, MouseMovement,
    PhysicalKeyboardState, VisibleKeyboardState,
};
use crate::link::message::clamped;

verus! {

/// The bytes of a keyboard report.
pub const KEYBOARD_REPORT_LEN: usize = 8;

/// The bytes of a mouse report.
pub const MOUSE_REPORT_LEN: usize = 5;

/// The bytes of a consumer report.
pub const CONSUMER_REPORT_LEN: usize = 2;

/// The keys that a keyboard report can carry.
pub const KEYBOARD_6KRO_KEY_CAPACITY: usize = 6;

/// The report id of keyboard reports.
pub const KEYBOARD_REPORT_ID: u8 = 1;

/// The longest notification.
pub const BLE_HID_NOTIFY_MAX_LEN: usize = 8;

/// The most notifications that one report takes.
pub const BLE_HID_NOTIFICATIONS_PER_REPORT_MAX: usize = 1;

/// The reports that a host can subscribe to.
#[derive(Clone, Copy, Debug, PartialEq, Eq, Structural)]
pub enum ReportKind {
    Keyboard,
    Mouse,
    Consumer,
    KeyboardOutput,
}

/// Modifiers, and up to six keys.
#[derive(Clone, Copy, Debug, PartialEq, Eq)]
pub struct Keyboard6KroReport {
    pub(crate) bytes: [u8; KEYBOARD_REPORT_LEN],
}

/// A keyboard report, and whether keys had to be left out of it.
#[derive(Clone, Copy, Debug, PartialEq, Eq)]
pub struct KeyboardReportBuild {
    pub report: Keyboard6KroReport,
    pub truncated: bool,
}

/// The bytes of a report of these keys: the modifiers, a zero, and the first
/// six keys.
pub open spec fn keyboard_bytes(keys: KeysView) -> Seq<u8> {
    let n = if keys.keys.len() < 6 {
        keys.keys.len()
    } else {
        6
    };
    padded(
        seq![keys.modifiers.mask(), 0u8] + Seq::new(n as nat, |i: int| keys.keys[i].0),
        KEYBOARD_REPORT_LEN as nat,
    )
}

impl View for Keyboard6KroReport {
    type V = Seq<u8>;

    open(crate) spec fn view(&self) -> Seq<u8> {
        self.bytes@
    }
}

impl Keyboard6KroReport {
    /// The report of these bytes.
    pub fn from_bytes(bytes: [u8; KEYBOARD_REPORT_LEN]) -> (r: Self)
        ensures
            r@ == bytes@,
    {
        Self { bytes }
    }

    /// The report's bytes.
    pub fn as_bytes(&self) -> (r: &[u8; KEYBOARD_REPORT_LEN])
        ensures
            r@ == self@,
    {
        &self.bytes
    }

    /// No key and no modifier.
    pub fn release() -> (r: Self)
        ensures
            r@ == zeros(KEYBOARD_REPORT_LEN as nat),
    {
        let r = Self { bytes: [0; KEYBOARD_REPORT_LEN] };
        assert(r@ =~= zeros(KEYBOARD_REPORT_LEN as nat));
        r
    }

    /// The report of what a host sees.
    pub fn from_visible_state(visible: &VisibleKeyboardState) -> (r: KeyboardReportBuild)
        ensures
            r.report@ == keyboard_bytes(visible@),
            r.truncated == (visible.cut_short() || visible@.keys.len() > 6),
    {
        let keys = visible.keys();
        let n: usize = keys.len();
        let mut bytes = [0u8; KEYBOARD_REPORT_LEN];
        bytes[0] = visible.modifiers.bits();
        let mut i: usize = 0;
        while i < n && i < KEYBOARD_6KRO_KEY_CAPACITY
            invariant
                n == keys@.len(),
                i <= n,
                i <= 6,
                bytes@.len() == 8,
                bytes@[0] == visible@.modifiers.mask(),
                bytes@[1] == 0,
                forall|j: int| 0 <= j < i ==> bytes@[2 + j] == #[trigger] keys@[j].0,
                forall|j: int| 2 + i <= j < 8 ==> bytes@[j] == 0,
            decreases n - i,
        {
            bytes[2 + i] = keys[i].0;
            i += 1;
        }
        assert(bytes@ =~= keyboard_bytes(visible@)) by {
            assert forall|j: int| 0 <= j < 8 implies bytes@[j] == keyboard_bytes(visible@)[j] by {
                if 2 <= j < 2 + i {
                    assert(bytes@[2 + (j - 2)] == keys@[j - 2].0);
                }
            }
        }
        KeyboardReportBuild {
            report: Self { bytes },
            truncated: visible.truncated() || n > KEYBOARD_6KRO_KEY_CAPACITY,
        }
    }

    /// The report of what is held and not suppressed.
    pub fn from_physical_state(
        state: &PhysicalKeyboardState,
        suppression: &KeyboardSuppression,
    ) -> (r: KeyboardReportBuild)
        ensures
            r.report@ == keyboard_bytes(visible(state@, suppression@)),
            r.truncated == (visible(state@, suppression@).keys.len() > 6),
    {
        Self::from_visible_state(&state.visible_against(suppression))
    }
}

/// Buttons, and movement of one byte for each axis.
#[derive(Clone, Copy, Debug, PartialEq, Eq)]
pub struct MouseReport {
    pub(crate) bytes: [u8; MOUSE_REPORT_LEN],
}

/// The bytes of a report of these buttons and this movement, cut to one byte
/// for each axis.
pub open spec fn mouse_bytes(buttons: MouseButtons, movement: MouseMovement) -> Seq<u8> {
    seq![
        buttons.mask(),
        bits8(clamped(movement.x as int, -128, 127) as i8),
        bits8(clamped(movement.y as int, -128, 127) as i8),
        bits8(movement.wheel),
        bits8(movement.pan),
    ]
}

fn axis(x: i16) -> (r: i8)
    ensures
        r == clamped(x as int, -128, 127),
{
    if x < -128 {
        -128
    } else if x > 127 {
        127
    } else {
        x as i8
    }
}

impl View for MouseReport {
    type V = Seq<u8>;

    open(crate) spec fn view(&self) -> Seq<u8> {
        self.bytes@
    }
}

impl MouseReport {
    /// The report of these bytes.
    pub fn from_bytes(bytes: [u8; MOUSE_REPORT_LEN]) -> (r: Self)
        ensures
            r@ == bytes@,
    {
        Self { bytes }
    }

    /// The report's bytes.
    pub fn as_bytes(&self) -> (r: &[u8; MOUSE_REPORT_LEN])
        ensures
            r@ == self@,
    {
        &self.bytes
    }

    /// The report of a frame.
    pub fn from_frame(buttons: MouseButtons, movement: MouseMovement) -> (r: Self)
        ensures
            r@ == mouse_bytes(buttons, movement),
    {
        let bytes = [
            buttons.bits(),
            to_bits8(axis(movement.x)),
            to_bits8(axis(movement.y)),
            to_bits8(movement.wheel),
            to_bits8(movement.pan),
        ];
        assert(bytes@ =~= mouse_bytes(buttons, movement));
        Self { bytes }
    }

    /// No button and no movement.
    pub fn release_buttons() -> (r: Self)
        ensures
            r@ == zeros(MOUSE_REPORT_LEN as nat),
    {
        let r = Self { bytes: [0; MOUSE_REPORT_LEN] };
        assert(r@ =~= zeros(MOUSE_REPORT_LEN as nat));
        r
    }
}

/// One consumer usage, or none.
#[derive(Clone, Copy, Debug, PartialEq, Eq)]
pub struct ConsumerReport {
    pub(crate) bytes: [u8; CONSUMER_REPORT_LEN],
}

impl View for ConsumerReport {
    type V = Seq<u8>;

    open(crate) spec fn view(&self) -> Seq<u8> {
        self.bytes@
    }
}

impl ConsumerReport {
    /// The report of a usage.
    pub fn from_usage(usage: ConsumerUsage) -> (r: Self)
        ensures
            r@ == le16(usage.0),
    {
        Self::from_usage_id(usage.0)
    }

    /// The report of a usage's number.
    pub fn from_usage_id(usage: u16) -> (r: Self)
        ensures
            r@ == le16(usage),
    {
        Self { bytes: to_le16(usage) }
    }

    /// No usage.
    pub fn release() -> (r: Self)
        ensures
            r@ == le16(0),
    {
        Self::from_usage_id(0)
    }

    /// The report's bytes.
    pub fn as_bytes(&self) -> (r: &[u8; CONSUMER_REPORT_LEN])
        ensures
            r@ == self@,
    {
        &self.bytes
    }
}

/// A report to a host.
#[derive(Clone, Copy, Debug, PartialEq, Eq)]
pub enum StandardHidReport {
    Keyboard(Keyboard6KroReport),
    Mouse(MouseReport),
    Consumer(ConsumerReport),
}

pub type BleKeyboard6KroReport = Keyboard6KroReport;

pub type BleMouseReport = MouseReport;

pub type BleConsumerReport = ConsumerReport;

pub type BleHidReport = StandardHidReport;

/// What a report says: its kind and its bytes.
pub enum ReportBytes {
    Keyboard(Seq<u8>),
    Mouse(Seq<u8>),
    Consumer(Seq<u8>),
}

impl View for StandardHidReport {
    type V = ReportBytes;

    open spec fn view(&self) -> ReportBytes {
        match *self {
            StandardHidReport::Keyboard(report) => ReportBytes::Keyboard(report@),
            StandardHidReport::Mouse(report) => ReportBytes::Mouse(report@),
            StandardHidReport::Consumer(report) => ReportBytes::Consumer(report@),
        }
    }
}

impl ReportBytes {
    /// The report's bytes.
    pub open spec fn bytes(self) -> Seq<u8> {
        match self {
            ReportBytes::Keyboard(bytes) => bytes,
            ReportBytes::Mouse(bytes) => bytes,
            ReportBytes::Consumer(bytes) => bytes,
        }
    }

    /// Whether there are as many bytes as the kind has.
    pub open spec fn wf(self) -> bool {
        match self {
            ReportBytes::Keyboard(bytes) => bytes.len() == KEYBOARD_REPORT_LEN,
            ReportBytes::Mouse(bytes) => bytes.len() == MOUSE_REPORT_LEN,
            ReportBytes::Consumer(bytes) => bytes.len() == CONSUMER_REPORT_LEN,
        }
    }
}

/// The lock lights that a host set.
#[derive(Clone, Copy, Debug, PartialEq, Eq, Structural)]
pub struct BleKeyboardLedOutputReport {
    pub(crate) leds: KeyboardLedState,
}

/// Why an output report was refused.
#[derive(Clone, Copy, Debug, PartialEq, Eq, Structural)]
pub enum BleKeyboardOutputError {
    InvalidLength,
}

impl BleKeyboardLedOutputReport {
    /// The lights that are on.
    pub open(crate) spec fn lights(self) -> KeyboardLedState {
        self.leds
    }

    /// The report of these bytes, of which there must be one. Bits that stand
    /// for no light are ignored.
    pub fn from_bytes(bytes: &[u8]) -> (r: Result<Self, BleKeyboardOutputError>)
        ensures
            bytes@.len() == 1 ==> r is Ok && r->Ok_0.lights() == KeyboardLedState::of_mask(
                bytes@[0] & 7,
            ),
            bytes@.len() != 1 ==> r == Err::<Self, BleKeyboardOutputError>(
                BleKeyboardOutputError::InvalidLength,
            ),
    {
        if bytes.len() != 1 {
            return Err(BleKeyboardOutputError::InvalidLength);
        }
        Ok(Self { leds: KeyboardLedState::from_bits_truncate(bytes[0]) })
    }

    /// The lights that are on.
    pub fn leds(self) -> (r: KeyboardLedState)
        ensures
            r == self.lights(),
    {
        self.leds
    }
}

/// The characteristic that a notification is for.
#[derive(Clone, Copy, Debug, PartialEq, Eq, Structural)]
pub enum BleHidCharacteristic {
    KeyboardInputReport,
    MouseInputReport,
    ConsumerInputReport,
}

/// One notification.
#[derive(Clone, Copy, Debug, PartialEq, Eq)]
pub struct BleHidNotification {
    pub characteristic: BleHidCharacteristic,
    pub len: u8,
    pub bytes: [u8; BLE_HID_NOTIFY_MAX_LEN],
}

/// Why a report could not be turned into notifications.
#[derive(Clone, Copy, Debug, PartialEq, Eq, Structural)]
pub enum BleHidNotificationError {
    NotificationCapacity,
}

/// What a notification says: its characteristic and its value.
pub struct NotificationView {
    pub characteristic: BleHidCharacteristic,
    pub value: Seq<u8>,
}

impl View for BleHidNotification {
    type V = NotificationView;

    open spec fn view(&self) -> NotificationView {
        NotificationView {
            characteristic: self.characteristic,
            value: self.bytes@.take(self.len as int),
        }
    }
}

impl BleHidNotification {
    /// The length is within the buffer.
    pub open spec fn wf(&self) -> bool {
        self.len <= BLE_HID_NOTIFY_MAX_LEN
    }

    /// Nothing but zeros stands behind the value.
    pub open spec fn is_padded(&self) -> bool {
        self.bytes@ == padded(self@.value, BLE_HID_NOTIFY_MAX_LEN as nat)
    }

    /// The value.
    pub fn as_slice(&self) -> (r: &[u8])
        requires
            self.wf(),
        ensures
            r@ == self@.value,
    {
        let r = part(&self.bytes, 0, self.len as usize);
        assert(r@ =~= self@.value);
        r
    }
}

/// The notification of a report.
pub open spec fn notification_of(report: ReportBytes) -> NotificationView {
    NotificationView {
        characteristic: match report {
            ReportBytes::Keyboard(_) => BleHidCharacteristic::KeyboardInputReport,
            ReportBytes::Mouse(_) => BleHidCharacteristic::MouseInputReport,
            ReportBytes::Consumer(_) => BleHidCharacteristic::ConsumerInputReport,
        },
        value: report.bytes(),
    }
}

fn notification(characteristic: BleHidCharacteristic, value: &[u8]) -> (r: BleHidNotification)
    requires
        value@.len() <= BLE_HID_NOTIFY_MAX_LEN,
    ensures
        r.wf(),
        r.is_padded(),
        r@ == (NotificationView { characteristic, value: value@ }),
{
    let mut bytes = [0u8; BLE_HID_NOTIFY_MAX_LEN];
    write_at(&mut bytes, 0, value);
    let r = BleHidNotification { characteristic, len: value.len() as u8, bytes };
    assert(r@.value =~= value@);
    assert(r.bytes@ =~= padded(value@, BLE_HID_NOTIFY_MAX_LEN as nat));
    r
}

/// Puts the notifications of a report into `out`, which must be empty.
pub fn notifications_for_input_report(
    report: BleHidReport,
    out: &mut heapless::Vec<BleHidNotification, BLE_HID_NOTIFICATIONS_PER_REPORT_MAX>,
) -> (r: Result<(), BleHidNotificationError>)
    ensures
        notifications_in_1(*old(out)).len() == 0 ==> r is Ok && notifications_in_1(
            *final(out),
        ).len() == 1 && notifications_in_1(*final(out))[0].wf() && notifications_in_1(
            *final(out),
        )[0].is_padded() && notifications_in_1(*final(out))[0]@ == notification_of(report@),
        notifications_in_1(*old(out)).len() > 0 ==> r == Err::<(), BleHidNotificationError>(
            BleHidNotificationError::NotificationCapacity,
        ) && *final(out) == *old(out),
{
    let next = match &report {
        StandardHidReport::Keyboard(report) => notification(
            BleHidCharacteristic::KeyboardInputReport,
            report.as_bytes(),
        ),
        StandardHidReport::Mouse(report) => notification(
            BleHidCharacteristic::MouseInputReport,
            report.as_bytes(),
        ),
        StandardHidReport::Consumer(report) => notification(
            BleHidCharacteristic::ConsumerInputReport,
            report.as_bytes(),
        ),
    };
    match fixed::push(out, next) {
        Ok(_) => Ok(()),
        Err(_) => Err(BleHidNotificationError::NotificationCapacity),
    }
}

/// A byte as a reader of a HID report takes it that is told to expect numbers
/// from -128 to 127.
pub open spec fn as_signed(byte: u8) -> int {
    if byte < 128 {
        byte as int
    } else {
        byte - 256
    }
}

/// Whether `seen` is the number closest to `wanted` that one signed byte can say.
pub open spec fn closest_in_a_byte(seen: int, wanted: int) -> bool {
    &&& -128 <= seen <= 127
    &&& -128 <= wanted <= 127 ==> seen == wanted
    &&& wanted > 127 ==> seen == 127
    &&& wanted < -128 ==> seen == -128
}

/// A reader that goes by the descriptor of mouse reports, buttons first and then
/// the axes x, y, wheel and pan, gets back the buttons and the movement, and of
/// movement that one byte cannot say as much as one byte can.
pub proof fn law_mouse_report_is_read_back(buttons: MouseButtons, movement: MouseMovement)
    ensures
        mouse_bytes(buttons, movement).len() == 5,
        mouse_bytes(buttons, movement)[0] == buttons.mask(),
        closest_in_a_byte(as_signed(mouse_bytes(buttons, movement)[1]), movement.x as int),
        closest_in_a_byte(as_signed(mouse_bytes(buttons, movement)[2]), movement.y as int),
        as_signed(mouse_bytes(buttons, movement)[3]) == movement.wheel,
        as_signed(mouse_bytes(buttons, movement)[4]) == movement.pan,
{
}

/// A reader of a keyboard report finds the modifiers in the first byte, nothing
/// in the second, and then the keys, one for each byte and as many as there is
/// room for, with zeros behind them.
pub proof fn law_keyboard_report_is_read_back(keys: KeysView)
    ensures
        keyboard_bytes(keys).len() == 8,
        keyboard_bytes(keys)[0] == keys.modifiers.mask(),
        keyboard_bytes(keys)[1] == 0,
        forall|i: int|
            0 <= i < 6 && i < keys.keys.len() ==> #[trigger] keyboard_bytes(keys)[2 + i]
                == keys.keys[i].0,
        forall|i: int|
            keys.keys.len() <= i < 6 ==> #[trigger] keyboard_bytes(keys)[2 + i] == 0,
{
}

/// A reader of a consumer report gets the usage back, low byte first.
pub proof fn law_consumer_report_is_read_back(usage: u16)
    ensures
        le16(usage).len() == 2,
        le16(usage)[0] + 256 * le16(usage)[1] == usage,
{
}

/// A notification carries the bytes of its report, all of them and no others, on
/// the characteristic of its kind.
pub proof fn law_notification_carries_the_report(bytes: Seq<u8>)
    ensures
        notification_of(ReportBytes::Keyboard(bytes)) == (NotificationView {
            characteristic: BleHidCharacteristic::KeyboardInputReport,
            value: bytes,
        }),
        notification_of(ReportBytes::Mouse(bytes)) == (NotificationView {
            characteristic: BleHidCharacteristic::MouseInputReport,
            value: bytes,
        }),
        notification_of(ReportBytes::Consumer(bytes)) == (NotificationView {
            characteristic: BleHidCharacteristic::ConsumerInputReport,
            value: bytes,
        }),
{
}

} // verus!
