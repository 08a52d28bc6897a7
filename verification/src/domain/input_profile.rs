//! Input devices that are remembered, and what is done to their reports.

use vstd::prelude::*;

use crate::bytes::{le16, to_le16};
use crate::fixed;
use crate::fixed::profiles_in_8;
use crate::input::aggregator::with_key;
use crate::input::{
    ConsumerFrame, ConsumerUsage, FrameView, KeyUsage, KeyboardFrame, KeysView, MouseFrame,
    MouseMovement, StandardInputFrame,
};
use crate::link::message::clamped;
use crate::lists::{
    first_where, free_from, lemma_first_at, lemma_first_none, lemma_first_where, lemma_free_from,
    lemma_some_free,
};
use crate::settings::InputSettings;

verus! {

/// How many profiles are remembered.
pub const INPUT_PROFILE_CAPACITY: usize = 8;

/// The number of a profile, from 1 to 8.
#[derive(Clone, Copy, Debug, PartialEq, Eq, PartialOrd, Ord, Hash, Structural)]
pub struct InputProfileId(pub(crate) u8);

impl InputProfileId {
    /// The number.
    pub open(crate) spec fn number(self) -> int {
        self.0 as int
    }

    /// The profile with a number, if there is one.
    pub fn new(value: u8) -> (r: Option<Self>)
        ensures
            r is Some <==> 1 <= value <= 8,
            r is Some ==> r->0.number() == value,
    {
        if value >= 1 && value <= 8 {
            Some(Self(value))
        } else {
            None
        }
    }

    /// The number.
    pub fn get(self) -> (r: u8)
        ensures
            r == self.number(),
    {
        self.0
    }
}

/// Which input device it is.
#[derive(Clone, Copy, Debug, PartialEq, Eq, Hash, Structural)]
pub struct InputIdentity {
    pub vendor_id: u16,
    pub product_id: u16,
    /// Hash of the serial string, or of the physical port path when no serial
    /// exists.
    pub instance_hash: u64,
}

/// The hash after one more byte.
#[verifier::opaque]
pub open spec fn hash_byte(hash: u64, byte: u8) -> u64 {
    (hash ^ (byte as u64)).wrapping_mul(0x0000_0100_0000_01b3)
}

/// The hash after more bytes.
pub open spec fn hash_from(hash: u64, bytes: Seq<u8>) -> u64
    decreases bytes.len(),
{
    if bytes.len() == 0 {
        hash
    } else {
        hash_byte(hash_from(hash, bytes.drop_last()), bytes.last())
    }
}

/// The hash of a kind and some bytes (64-bit FNV-1a).
pub open spec fn hash_of(kind: u8, bytes: Seq<u8>) -> u64 {
    hash_from(hash_byte(0xcbf2_9ce4_8422_2325, kind), bytes)
}

/// 16-bit units as bytes, the low byte of each first.
pub open spec fn unit_bytes(units: Seq<u16>) -> Seq<u8>
    decreases units.len(),
{
    if units.len() == 0 {
        seq![]
    } else {
        unit_bytes(units.drop_last()) + le16(units.last())
    }
}

impl InputIdentity {
    /// The device with a serial number, where that is not empty.
    pub fn from_serial(vendor_id: u16, product_id: u16, serial: &[u8]) -> (r: Option<Self>)
        ensures
            serial@.len() == 0 ==> r is None,
            serial@.len() > 0 ==> r == Some(
                InputIdentity { vendor_id, product_id, instance_hash: hash_of(0x53, serial@) },
            ),
    {
        if serial.len() == 0 {
            return None;
        }
        Some(Self { vendor_id, product_id, instance_hash: identity_hash(0x53, serial) })
    }

    /// The device with a serial number of 16-bit units, where that is not
    /// empty.
    pub fn from_serial_utf16(vendor_id: u16, product_id: u16, serial: &[u16]) -> (r: Option<Self>)
        ensures
            serial@.len() == 0 ==> r is None,
            serial@.len() > 0 ==> r == Some(
                InputIdentity {
                    vendor_id,
                    product_id,
                    instance_hash: hash_of(0x53, unit_bytes(serial@)),
                },
            ),
    {
        if serial.len() == 0 {
            return None;
        }
        let mut hash: u64 = identity_hash_start(0x53);
        let ghost start = hash;
        let mut i: usize = 0;
        while i < serial.len()
            invariant
                i <= serial@.len(),
                start == hash_byte(0xcbf2_9ce4_8422_2325, 0x53),
                hash == hash_from(start, unit_bytes(serial@.take(i as int))),
            decreases serial@.len() - i,
        {
            let pair = to_le16(serial[i]);
            proof {
                let before = unit_bytes(serial@.take(i as int));
                let after = unit_bytes(serial@.take(i + 1));
                assert(serial@.take(i + 1).drop_last() =~= serial@.take(i as int));
                assert(after =~= before.push(pair@[0]).push(pair@[1]));
                lemma_hash_push(start, before, pair@[0]);
                lemma_hash_push(start, before.push(pair@[0]), pair@[1]);
            }
            hash = identity_hash_byte(hash, pair[0]);
            hash = identity_hash_byte(hash, pair[1]);
            i += 1;
        }
        assert(serial@.take(i as int) =~= serial@);
        Some(Self { vendor_id, product_id, instance_hash: hash })
    }

    /// The device at a port.
    pub fn from_port_path(vendor_id: u16, product_id: u16, port_path: &[u8]) -> (r: Self)
        ensures
            r == (InputIdentity {
                vendor_id,
                product_id,
                instance_hash: hash_of(0x50, port_path@),
            }),
    {
        Self { vendor_id, product_id, instance_hash: identity_hash(0x50, port_path) }
    }
}

proof fn lemma_hash_push(start: u64, bytes: Seq<u8>, byte: u8)
    ensures
        hash_from(start, bytes.push(byte)) == hash_byte(hash_from(start, bytes), byte),
{
    assert(bytes.push(byte).drop_last() =~= bytes);
}

fn identity_hash(kind: u8, bytes: &[u8]) -> (r: u64)
    ensures
        r == hash_of(kind, bytes@),
{
    let mut hash: u64 = identity_hash_start(kind);
    let mut i: usize = 0;
    while i < bytes.len()
        invariant
            i <= bytes@.len(),
            hash == hash_of(kind, bytes@.take(i as int)),
        decreases bytes@.len() - i,
    {
        assert(bytes@.take(i + 1).drop_last() =~= bytes@.take(i as int));
        hash = identity_hash_byte(hash, bytes[i]);
        i += 1;
    }
    assert(bytes@.take(i as int) =~= bytes@);
    hash
}

fn identity_hash_start(kind: u8) -> (r: u64)
    ensures
        r == hash_byte(0xcbf2_9ce4_8422_2325, kind),
{
    identity_hash_byte(0xcbf2_9ce4_8422_2325, kind)
}

fn identity_hash_byte(hash: u64, byte: u8) -> (r: u64)
    ensures
        r == hash_byte(hash, byte),
{
    reveal(hash_byte);
    (hash ^ (byte as u64)).wrapping_mul(0x0000_0100_0000_01b3)
}

/// Hundredths of a step that were not reported yet.
#[derive(Clone, Copy, Debug, PartialEq, Eq, Structural)]
pub struct MouseScaleRemainders {
    pub(crate) x: i32,
    pub(crate) y: i32,
    pub(crate) wheel: i32,
    pub(crate) pan: i32,
}

impl MouseScaleRemainders {
    /// Nothing left over.
    pub open(crate) spec fn zero() -> MouseScaleRemainders {
        MouseScaleRemainders { x: 0, y: 0, wheel: 0, pan: 0 }
    }

    /// Less than a step is left over on each axis.
    pub open(crate) spec fn wf(self) -> bool {
        &&& -100 < self.x < 100
        &&& -100 < self.y < 100
        &&& -100 < self.wheel < 100
        &&& -100 < self.pan < 100
    }

    /// What is left over on an axis.
    pub open(crate) spec fn axis_x(self) -> int {
        self.x as int
    }

    /// What is left over on an axis.
    pub open(crate) spec fn axis_y(self) -> int {
        self.y as int
    }

    /// What is left over on an axis.
    pub open(crate) spec fn axis_wheel(self) -> int {
        self.wheel as int
    }

    /// What is left over on an axis.
    pub open(crate) spec fn axis_pan(self) -> int {
        self.pan as int
    }

    /// Nothing is left over on any axis.
    pub proof fn lemma_zero()
        ensures
            MouseScaleRemainders::zero().wf(),
            MouseScaleRemainders::zero().axis_x() == 0,
            MouseScaleRemainders::zero().axis_y() == 0,
            MouseScaleRemainders::zero().axis_wheel() == 0,
            MouseScaleRemainders::zero().axis_pan() == 0,
    {
    }

    fn none_left() -> (r: Self)
        ensures
            r == MouseScaleRemainders::zero(),
    {
        Self { x: 0, y: 0, wheel: 0, pan: 0 }
    }
}

/// One input device that is remembered.
#[derive(Clone, Copy, Debug, PartialEq, Eq, Structural)]
pub struct InputProfile {
    pub id: InputProfileId,
    pub identity: InputIdentity,
    pub connected: bool,
    pub last_seen: u64,
    pub settings: InputSettings,
    pub(crate) mouse_remainders: MouseScaleRemainders,
}

/// One input device that is remembered.
pub struct ProfileView {
    pub id: InputProfileId,
    pub identity: InputIdentity,
    pub connected: bool,
    pub last_seen: u64,
    pub settings: InputSettings,
    pub remainders: MouseScaleRemainders,
}

impl View for InputProfile {
    type V = ProfileView;

    open(crate) spec fn view(&self) -> ProfileView {
        ProfileView {
            id: self.id,
            identity: self.identity,
            connected: self.connected,
            last_seen: self.last_seen,
            settings: self.settings,
            remainders: self.mouse_remainders,
        }
    }
}

/// What a key becomes: first by the layout, then by the remapping.
pub open spec fn mapped_key(settings: InputSettings, key: KeyUsage) -> KeyUsage {
    let by_layout = if settings.keyboard_layout == 1 && key.0 == 0x89 {
        0x35u8
    } else if settings.keyboard_layout == 2 && key.0 == 0x35 {
        0x89u8
    } else {
        key.0
    };
    if settings.remap_from_usage != 0 && by_layout == settings.remap_from_usage {
        KeyUsage(settings.remap_to_usage)
    } else {
        KeyUsage(by_layout)
    }
}

/// What keys become, each once.
pub open spec fn mapped_keys(settings: InputSettings, keys: Seq<KeyUsage>) -> Seq<KeyUsage>
    decreases keys.len(),
{
    if keys.len() == 0 {
        seq![]
    } else {
        with_key(
            mapped_keys(settings, keys.drop_last()),
            mapped_key(settings, keys.last()),
        )
    }
}

/// What a consumer usage becomes.
pub open spec fn mapped_consumer(settings: InputSettings, frame: ConsumerFrame) -> ConsumerFrame {
    if frame.active is Some && settings.consumer_from_usage != 0 && (frame.active->0).0
        == settings.consumer_from_usage {
        ConsumerFrame { active: Some(ConsumerUsage(settings.consumer_to_usage)) }
    } else {
        frame
    }
}

/// Hundredths of steps.
pub open spec fn scaled(value: int, percent: u16, left_over: int) -> int {
    value * percent + left_over
}

/// The whole steps in hundredths, towards zero.
pub open spec fn whole_steps(hundredths: int) -> int {
    if hundredths >= 0 {
        hundredths / 100
    } else {
        -((-hundredths) / 100)
    }
}

/// What is left over of hundredths beside whole steps.
pub open spec fn left_over(hundredths: int) -> int {
    hundredths - 100 * whole_steps(hundredths)
}

impl ProfileView {
    /// Less than a step is left over on each axis.
    pub open spec fn wf(self) -> bool {
        self.remainders.wf()
    }

    /// A profile of a device that is not connected.
    pub open spec fn of(
        id: InputProfileId,
        identity: InputIdentity,
        last_seen: u64,
        settings: InputSettings,
    ) -> ProfileView {
        ProfileView {
            id,
            identity,
            connected: false,
            last_seen,
            settings,
            remainders: MouseScaleRemainders::zero(),
        }
    }

    /// The movement that is reported for a movement.
    pub open spec fn moved(self, m: MouseMovement) -> MouseMovement {
        let sensitivity = self.settings.mouse_sensitivity_percent;
        let scroll = self.settings.scroll_multiplier_percent;
        MouseMovement {
            x: clamped(
                whole_steps(scaled(m.x as int, sensitivity, self.remainders.axis_x())),
                -32768,
                32767,
            ) as i16,
            y: clamped(
                whole_steps(scaled(m.y as int, sensitivity, self.remainders.axis_y())),
                -32768,
                32767,
            ) as i16,
            wheel: clamped(
                whole_steps(scaled(m.wheel as int, scroll, self.remainders.axis_wheel())),
                -128,
                127,
            ) as i8,
            pan: clamped(
                whole_steps(scaled(m.pan as int, scroll, self.remainders.axis_pan())),
                -128,
                127,
            ) as i8,
        }
    }

    /// The report that a report becomes.
    pub open spec fn transformed(self, frame: FrameView) -> FrameView {
        FrameView {
            keyboard: match frame.keyboard {
                Some(keyboard) => Some(
                    KeysView {
                        modifiers: keyboard.modifiers,
                        keys: mapped_keys(self.settings, keyboard.keys),
                    },
                ),
                None => None,
            },
            mouse: match frame.mouse {
                Some(mouse) => Some(
                    MouseFrame { buttons: mouse.buttons, movement: self.moved(mouse.movement) },
                ),
                None => None,
            },
            consumer: match frame.consumer {
                Some(consumer) => Some(mapped_consumer(self.settings, consumer)),
                None => None,
            },
            ..frame
        }
    }

    /// What is left over after a report is what its movement leaves.
    pub open spec fn leaves(self, frame: FrameView, rest: MouseScaleRemainders) -> bool {
        match frame.mouse {
            Some(mouse) => {
                let sensitivity = self.settings.mouse_sensitivity_percent;
                let scroll = self.settings.scroll_multiplier_percent;
                let m = mouse.movement;
                &&& rest.axis_x() == left_over(
                    scaled(m.x as int, sensitivity, self.remainders.axis_x()),
                )
                &&& rest.axis_y() == left_over(
                    scaled(m.y as int, sensitivity, self.remainders.axis_y()),
                )
                &&& rest.axis_wheel() == left_over(
                    scaled(m.wheel as int, scroll, self.remainders.axis_wheel()),
                )
                &&& rest.axis_pan() == left_over(
                    scaled(m.pan as int, scroll, self.remainders.axis_pan()),
                )
            },
            None => rest == self.remainders,
        }
    }
}

proof fn lemma_mapped_keys(settings: InputSettings, keys: Seq<KeyUsage>)
    ensures
        mapped_keys(settings, keys).len() <= keys.len(),
    decreases keys.len(),
{
    if keys.len() > 0 {
        lemma_mapped_keys(settings, keys.drop_last());
    }
}

/// The whole steps of a scaled movement, and what is left over.
fn scale(value: i32, percent: u16, remainder: i32) -> (r: (i32, i32))
    requires
        -32768 <= value <= 32767,
        -100 < remainder < 100,
    ensures
        r.0 == whole_steps(scaled(value as int, percent, remainder as int)),
        r.1 == left_over(scaled(value as int, percent, remainder as int)),
        -100 < r.1 < 100,
{
    proof {
        assert(-2147450880 <= value * percent <= 2147450880) by (nonlinear_arith)
            requires
                -32768 <= value <= 32767,
                0 <= percent <= 65535,
        ;
    }
    let hundredths: i32 = value * percent as i32 + remainder;
    if hundredths >= 0 {
        let size: u32 = hundredths as u32;
        ((size / 100) as i32, (size % 100) as i32)
    } else {
        let size: u32 = (-hundredths) as u32;
        (-((size / 100) as i32), -((size % 100) as i32))
    }
}

fn scale_i16_with_remainder(value: i16, percent: u16, remainder: &mut i32) -> (r: i16)
    requires
        -100 < *old(remainder) < 100,
    ensures
        r == clamped(
            whole_steps(scaled(value as int, percent, *old(remainder) as int)),
            -32768,
            32767,
        ) as i16,
        *final(remainder) == left_over(scaled(value as int, percent, *old(remainder) as int)),
        -100 < *final(remainder) < 100,
{
    let (output, rest) = scale(value as i32, percent, *remainder);
    *remainder = rest;
    if output < -32768 {
        -32768
    } else if output > 32767 {
        32767
    } else {
        output as i16
    }
}

fn scale_i8_with_remainder(value: i8, percent: u16, remainder: &mut i32) -> (r: i8)
    requires
        -100 < *old(remainder) < 100,
    ensures
        r == clamped(
            whole_steps(scaled(value as int, percent, *old(remainder) as int)),
            -128,
            127,
        ) as i8,
        *final(remainder) == left_over(scaled(value as int, percent, *old(remainder) as int)),
        -100 < *final(remainder) < 100,
{
    let (output, rest) = scale(value as i32, percent, *remainder);
    *remainder = rest;
    if output < -128 {
        -128
    } else if output > 127 {
        127
    } else {
        output as i8
    }
}

fn map_key(settings: &InputSettings, key: KeyUsage) -> (r: KeyUsage)
    ensures
        r == mapped_key(*settings, key),
{
    let layout_key: u8 = if settings.keyboard_layout == 1 && key.0 == 0x89 {
        0x35
    } else if settings.keyboard_layout == 2 && key.0 == 0x35 {
        0x89
    } else {
        key.0
    };
    if settings.remap_from_usage != 0 && layout_key == settings.remap_from_usage {
        KeyUsage(settings.remap_to_usage)
    } else {
        KeyUsage(layout_key)
    }
}

fn map_keyboard(settings: &InputSettings, keyboard: &KeyboardFrame) -> (r: KeyboardFrame)
    ensures
        r.wf(),
        r@ == (KeysView {
            modifiers: keyboard@.modifiers,
            keys: mapped_keys(*settings, keyboard@.keys),
        }),
{
    let mut mapped = KeyboardFrame::new(keyboard.modifiers);
    let keys = keyboard.keys_down();
    let mut i: usize = 0;
    assert(keys@.take(0) =~= Seq::<KeyUsage>::empty());
    while i < keys.len()
        invariant
            i <= keys@.len() <= 32,
            keys@ == keyboard@.keys,
            mapped.wf(),
            mapped@.modifiers == keyboard@.modifiers,
            mapped@.keys == mapped_keys(*settings, keys@.take(i as int)),
        decreases keys@.len() - i,
    {
        proof {
            assert(keys@.take(i + 1).drop_last() =~= keys@.take(i as int));
            lemma_mapped_keys(*settings, keys@.take(i as int));
        }
        let _ = mapped.push_key(map_key(settings, keys[i]));
        i += 1;
    }
    assert(keys@.take(i as int) =~= keys@);
    mapped
}

impl InputProfile {
    /// A profile of a device that is not connected.
    pub fn restored(
        id: InputProfileId,
        identity: InputIdentity,
        last_seen: u64,
        settings: InputSettings,
    ) -> (r: Self)
        ensures
            r@ == ProfileView::of(id, identity, last_seen, settings),
            r@.wf(),
    {
        proof {
            MouseScaleRemainders::lemma_zero();
        }
        Self {
            id,
            identity,
            connected: false,
            last_seen,
            settings,
            mouse_remainders: MouseScaleRemainders::none_left(),
        }
    }

    /// Changes a report as the settings say. Movement that is less than a step
    /// is kept for the next report.
    pub fn transform(&mut self, frame: &mut StandardInputFrame)
        requires
            old(self)@.wf(),
        ensures
            final(frame)@ == old(self)@.transformed(old(frame)@),
            final(self)@ == (ProfileView { remainders: final(self)@.remainders, ..old(self)@ }),
            old(self)@.leaves(old(frame)@, final(self)@.remainders),
            final(self)@.wf(),
    {
        let mapped = match &frame.keyboard {
            Some(keyboard) => Some(map_keyboard(&self.settings, keyboard)),
            None => None,
        };
        frame.keyboard = mapped;
        if let Some(mouse) = frame.mouse {
            let sensitivity: u16 = self.settings.mouse_sensitivity_percent;
            let scroll: u16 = self.settings.scroll_multiplier_percent;
            let x: i16 = scale_i16_with_remainder(
                mouse.movement.x,
                sensitivity,
                &mut self.mouse_remainders.x,
            );
            let y: i16 = scale_i16_with_remainder(
                mouse.movement.y,
                sensitivity,
                &mut self.mouse_remainders.y,
            );
            let wheel: i8 = scale_i8_with_remainder(
                mouse.movement.wheel,
                scroll,
                &mut self.mouse_remainders.wheel,
            );
            let pan: i8 = scale_i8_with_remainder(
                mouse.movement.pan,
                scroll,
                &mut self.mouse_remainders.pan,
            );
            frame.mouse =
            Some(MouseFrame { buttons: mouse.buttons, movement: MouseMovement { x, y, wheel, pan } });
        }
        if let Some(consumer) = frame.consumer {
            if let Some(active) = consumer.active {
                if self.settings.consumer_from_usage != 0 && active.0
                    == self.settings.consumer_from_usage {
                    frame.consumer =
                    Some(
                        ConsumerFrame {
                            active: Some(ConsumerUsage(self.settings.consumer_to_usage)),
                        },
                    );
                }
            }
        }
    }

    /// Drops movement that is less than a step.
    pub fn reset_transform_state(&mut self)
        ensures
            final(self)@ == (ProfileView {
                remainders: MouseScaleRemainders::zero(),
                ..old(self)@
            }),
    {
        self.mouse_remainders = MouseScaleRemainders::none_left();
    }
}

/// Why a change of the profiles was refused.
#[derive(Clone, Copy, Debug, PartialEq, Eq, Structural)]
pub enum InputProfileError {
    RegistryFullWithConnectedProfiles,
    UnknownProfile,
    DuplicateProfileId,
    DuplicateIdentity,
}

/// The input devices that are remembered.
#[derive(Clone, Debug, PartialEq, Eq)]
pub struct InputProfileRegistry {
    profiles: heapless::Vec<InputProfile, INPUT_PROFILE_CAPACITY>,
    next_sequence: u64,
}

/// The input devices that are remembered, and the number of the next event.
pub struct ProfilesView {
    pub profiles: Seq<InputProfile>,
    pub next_sequence: u64,
}

impl View for InputProfileRegistry {
    type V = ProfilesView;

    closed spec fn view(&self) -> ProfilesView {
        ProfilesView {
            profiles: profiles_in_8(self.profiles),
            next_sequence: self.next_sequence,
        }
    }
}

/// Whether a profile has a number.
pub open spec fn has_number(id: InputProfileId) -> spec_fn(InputProfile) -> bool {
    |p: InputProfile| p@.id == id
}

/// Whether a profile is that of a device.
pub open spec fn is_of(identity: InputIdentity) -> spec_fn(InputProfile) -> bool {
    |p: InputProfile| p@.identity == identity
}

/// The numbers of profiles.
pub open spec fn profile_numbers(profiles: Seq<InputProfile>) -> Seq<int> {
    Seq::new(profiles.len(), |i: int| profiles[i]@.id.number())
}

/// Where the profile stands, of those whose device is not connected, that was
/// seen longest ago; the first of several.
pub open spec fn oldest_disconnected(profiles: Seq<InputProfile>) -> Option<int>
    decreases profiles.len(),
{
    if profiles.len() == 0 {
        None
    } else {
        let before = oldest_disconnected(profiles.drop_last());
        if !profiles.last()@.connected && (before is None || profiles.last()@.last_seen
            < profiles[before->0]@.last_seen) {
            Some(profiles.len() - 1)
        } else {
            before
        }
    }
}

/// The profile that is replaced is not in use, and none that is not in use was
/// seen longer ago. None is replaced only where all are in use.
pub proof fn law_oldest_disconnected(profiles: Seq<InputProfile>)
    ensures
        match oldest_disconnected(profiles) {
            Some(i) => {
                &&& 0 <= i < profiles.len()
                &&& !profiles[i]@.connected
                &&& forall|j: int|
                    0 <= j < profiles.len() && !(#[trigger] profiles[j])@.connected
                        ==> profiles[i]@.last_seen <= profiles[j]@.last_seen
            },
            None => forall|j: int|
                0 <= j < profiles.len() ==> (#[trigger] profiles[j])@.connected,
        },
    decreases profiles.len(),
{
    if profiles.len() > 0 {
        let rest = profiles.drop_last();
        law_oldest_disconnected(rest);
        assert forall|j: int| 0 <= j < profiles.len() - 1 implies rest[j]
            == #[trigger] profiles[j] by {}
    }
}

impl ProfilesView {
    /// There are at most eight profiles, and less than a step is left over in
    /// each.
    pub open spec fn wf(self) -> bool {
        &&& self.profiles.len() <= 8
        &&& forall|i: int| 0 <= i < self.profiles.len() ==> (#[trigger] self.profiles[i])@.wf()
    }

    /// No two profiles share a number or a device.
    pub open spec fn distinct(self) -> bool {
        &&& forall|i: int, j: int|
            0 <= i < j < self.profiles.len() ==> (#[trigger] self.profiles[i])@.id != (
            #[trigger] self.profiles[j])@.id
        &&& forall|i: int, j: int|
            0 <= i < j < self.profiles.len() ==> (#[trigger] self.profiles[i])@.identity != (
            #[trigger] self.profiles[j])@.identity
    }

    /// Where the profile with a number stands.
    pub open spec fn index_of(self, id: InputProfileId) -> Option<int> {
        first_where(self.profiles, has_number(id))
    }

    /// With the next number used up.
    pub open spec fn stepped(self) -> ProfilesView {
        ProfilesView { next_sequence: self.next_sequence.wrapping_add(1), ..self }
    }

    /// A profile for a device that was just connected.
    pub open spec fn fresh(self, id: InputProfileId, identity: InputIdentity) -> ProfileView {
        ProfileView {
            connected: true,
            ..ProfileView::of(id, identity, self.next_sequence, InputSettings::plain())
        }
    }

    /// Why a profile is not restored, where it is not.
    pub open spec fn restore_error(self, profile: InputProfile) -> Option<InputProfileError> {
        if first_where(self.profiles, has_number(profile@.id)) is Some {
            Some(InputProfileError::DuplicateProfileId)
        } else if first_where(self.profiles, is_of(profile@.identity)) is Some {
            Some(InputProfileError::DuplicateIdentity)
        } else if self.profiles.len() >= 8 {
            Some(InputProfileError::RegistryFullWithConnectedProfiles)
        } else {
            None
        }
    }

    /// What `observe` does: the profile that it gives, and where it stands, if
    /// any. A known device has its own, a new one a free place, or else that
    /// of the device that was away longest.
    pub open spec fn place_for(self, identity: InputIdentity) -> Option<int> {
        match first_where(self.profiles, is_of(identity)) {
            Some(i) => Some(i),
            None => if self.profiles.len() < 8 {
                Some(self.profiles.len() as int)
            } else {
                oldest_disconnected(self.profiles)
            },
        }
    }
}

proof fn lemma_distinct_update(v: ProfilesView, w: ProfilesView, k: int)
    requires
        v.distinct(),
        0 <= k < v.profiles.len(),
        w.profiles == v.profiles.update(k, w.profiles[k]),
        w.profiles[k]@.id == v.profiles[k]@.id,
        w.profiles[k]@.identity == v.profiles[k]@.identity || first_where(
            v.profiles,
            is_of(w.profiles[k]@.identity),
        ) is None,
    ensures
        w.distinct(),
{
    lemma_first_where(v.profiles, is_of(w.profiles[k]@.identity));
    assert forall|j: int| 0 <= j < v.profiles.len() && j != k implies (
    #[trigger] v.profiles[j])@.identity != w.profiles[k]@.identity by {
        if w.profiles[k]@.identity == v.profiles[k]@.identity {
            if j < k {
                assert(v.profiles[j]@.identity != v.profiles[k]@.identity);
            } else {
                assert(v.profiles[k]@.identity != v.profiles[j]@.identity);
            }
        } else {
            assert(!is_of(w.profiles[k]@.identity)(v.profiles[j]));
        }
    }
    assert forall|i: int, j: int| 0 <= i < j < w.profiles.len() implies (
    #[trigger] w.profiles[i])@.id != (#[trigger] w.profiles[j])@.id by {
        assert(v.profiles[i]@.id != v.profiles[j]@.id);
    }
    assert forall|i: int, j: int| 0 <= i < j < w.profiles.len() implies (
    #[trigger] w.profiles[i])@.identity != (#[trigger] w.profiles[j])@.identity by {
        if i == k {
            assert(v.profiles[j]@.identity != w.profiles[k]@.identity);
        } else if j == k {
            assert(v.profiles[i]@.identity != w.profiles[k]@.identity);
        } else {
            assert(v.profiles[i]@.identity != v.profiles[j]@.identity);
        }
    }
}

proof fn lemma_distinct_push(v: ProfilesView, w: ProfilesView)
    requires
        v.distinct(),
        w.profiles == v.profiles.push(w.profiles.last()),
        forall|i: int|
            0 <= i < v.profiles.len() ==> (#[trigger] v.profiles[i])@.id != w.profiles.last()@.id,
        first_where(v.profiles, is_of(w.profiles.last()@.identity)) is None,
    ensures
        w.distinct(),
{
    let n = v.profiles.len() as int;
    lemma_first_where(v.profiles, is_of(w.profiles.last()@.identity));
    assert forall|i: int, j: int| 0 <= i < j < w.profiles.len() implies (
    #[trigger] w.profiles[i])@.id != (#[trigger] w.profiles[j])@.id by {
        assert(w.profiles[i] == v.profiles[i]);
        if j < n {
            assert(v.profiles[i]@.id != v.profiles[j]@.id);
        }
    }
    assert forall|i: int, j: int| 0 <= i < j < w.profiles.len() implies (
    #[trigger] w.profiles[i])@.identity != (#[trigger] w.profiles[j])@.identity by {
        assert(w.profiles[i] == v.profiles[i]);
        if j < n {
            assert(v.profiles[i]@.identity != v.profiles[j]@.identity);
        } else {
            assert(!is_of(w.profiles.last()@.identity)(v.profiles[i]));
        }
    }
}

impl Default for InputProfileRegistry {
    fn default() -> (r: Self)
        ensures
            r@ == (ProfilesView { profiles: seq![], next_sequence: 1 }),
    {
        Self::new()
    }
}

impl InputProfileRegistry {
    /// No device yet.
    pub fn new() -> (r: Self)
        ensures
            r@ == (ProfilesView { profiles: seq![], next_sequence: 1 }),
            r@.wf(),
            r@.distinct(),
    {
        let r = Self { profiles: fixed::new_profiles(), next_sequence: 1 };
        assert(r@.profiles =~= seq![]);
        r
    }

    /// All that are remembered.
    pub fn profiles(&self) -> (r: &[InputProfile])
        ensures
            r@ == self@.profiles,
            r@.len() <= 8,
    {
        fixed::items(&self.profiles)
    }

    fn index_of(&self, id: InputProfileId) -> (r: Option<usize>)
        ensures
            r is None ==> self@.index_of(id) is None,
            r is Some ==> self@.index_of(id) == Some(r->0 as int) && r->0 < self@.profiles.len(),
    {
        let items = fixed::items(&self.profiles);
        let ghost p = has_number(id);
        let mut i: usize = 0;
        while i < items.len()
            invariant
                i <= items@.len(),
                p == has_number(id),
                items@ == self@.profiles,
                forall|j: int| 0 <= j < i ==> !p(#[trigger] items@[j]),
            decreases items@.len() - i,
        {
            if items[i].id == id {
                proof {
                    lemma_first_at(items@, p, i as int);
                }
                return Some(i);
            }
            i += 1;
        }
        proof {
            lemma_first_none(items@, p);
        }
        None
    }

    fn index_of_identity(&self, identity: InputIdentity) -> (r: Option<usize>)
        ensures
            r is None ==> first_where(self@.profiles, is_of(identity)) is None,
            r is Some ==> first_where(self@.profiles, is_of(identity)) == Some(r->0 as int) && r->0
                < self@.profiles.len(),
    {
        let items = fixed::items(&self.profiles);
        let ghost p = is_of(identity);
        let mut i: usize = 0;
        while i < items.len()
            invariant
                i <= items@.len(),
                p == is_of(identity),
                items@ == self@.profiles,
                forall|j: int| 0 <= j < i ==> !p(#[trigger] items@[j]),
            decreases items@.len() - i,
        {
            if items[i].identity == identity {
                proof {
                    lemma_first_at(items@, p, i as int);
                }
                return Some(i);
            }
            i += 1;
        }
        proof {
            lemma_first_none(items@, p);
        }
        None
    }

    fn free_id(&self) -> (r: Option<InputProfileId>)
        ensures
            r is None ==> free_from(profile_numbers(self@.profiles), 1) is None,
            r is Some ==> free_from(profile_numbers(self@.profiles), 1) == Some(r->0.number()),
    {
        let ghost taken = profile_numbers(self@.profiles);
        let mut value: u8 = 1;
        while value <= 8
            invariant
                1 <= value <= 9,
                taken == profile_numbers(self@.profiles),
                free_from(taken, 1) == free_from(taken, value as int),
            decreases 9 - value,
        {
            let id = InputProfileId(value);
            match self.index_of(id) {
                Some(i) => {
                    proof {
                        lemma_first_where(self@.profiles, has_number(id));
                        assert(taken[i as int] == value);
                    }
                },
                None => {
                    proof {
                        lemma_first_where(self@.profiles, has_number(id));
                        assert(!taken.contains(value as int)) by {
                            if taken.contains(value as int) {
                                let i = choose|i: int|
                                    0 <= i < taken.len() && taken[i] == value as int;
                                assert(has_number(id)(self@.profiles[i]));
                            }
                        }
                    }
                    return Some(id);
                },
            }
            value += 1;
        }
        None
    }

    fn removable(&self) -> (r: Option<usize>)
        ensures
            r is None ==> oldest_disconnected(self@.profiles) is None,
            r is Some ==> oldest_disconnected(self@.profiles) == Some(r->0 as int) && r->0
                < self@.profiles.len(),
    {
        let items = fixed::items(&self.profiles);
        let mut best: Option<usize> = None;
        let mut i: usize = 0;
        while i < items.len()
            invariant
                i <= items@.len(),
                items@ == self@.profiles,
                best is None ==> oldest_disconnected(items@.take(i as int)) is None,
                best is Some ==> oldest_disconnected(items@.take(i as int)) == Some(
                    best->0 as int,
                ) && best->0 < i,
            decreases items@.len() - i,
        {
            assert(items@.take(i + 1).drop_last() =~= items@.take(i as int));
            let older = match best {
                None => true,
                Some(index) => items[i].last_seen < items[index].last_seen,
            };
            if !items[i].connected && older {
                best = Some(i);
            }
            i += 1;
        }
        assert(items@.take(i as int) =~= items@);
        best
    }

    /// Takes in a profile that was stored. Where it is refused for want of a
    /// place, the next event still gets a later number than the profile's.
    pub fn restore(&mut self, profile: InputProfile) -> (r: Result<(), InputProfileError>)
        ensures
            match old(self)@.restore_error(profile) {
                None => r is Ok,
                Some(error) => r == Err::<(), InputProfileError>(error),
            },
            r is Ok ==> final(self)@.profiles == old(self)@.profiles.push(profile),
            r is Err ==> final(self)@.profiles == old(self)@.profiles,
            r is Ok || r->Err_0 == InputProfileError::RegistryFullWithConnectedProfiles ==> ({
                let after = profile@.last_seen.wrapping_add(1);
                final(self)@.next_sequence == if old(self)@.next_sequence < after {
                    after
                } else {
                    old(self)@.next_sequence
                }
            }),
            r is Err && r->Err_0 != InputProfileError::RegistryFullWithConnectedProfiles ==> final(self)@
                == old(self)@,
            old(self)@.wf() && profile@.wf() ==> final(self)@.wf(),
            old(self)@.distinct() ==> final(self)@.distinct(),
    {
        let ghost before = self@;
        proof {
            lemma_first_where(before.profiles, has_number(profile.id));
            lemma_first_where(before.profiles, is_of(profile.identity));
        }
        if self.index_of(profile.id).is_some() {
            return Err(InputProfileError::DuplicateProfileId);
        }
        if self.index_of_identity(profile.identity).is_some() {
            return Err(InputProfileError::DuplicateIdentity);
        }
        let after: u64 = profile.last_seen.wrapping_add(1);
        if self.next_sequence < after {
            self.next_sequence = after;
        }
        match fixed::push(&mut self.profiles, profile) {
            Ok(_) => {
                proof {
                    if before.distinct() {
                        lemma_distinct_push(before, self@);
                    }
                    if before.wf() && profile@.wf() {
                        assert forall|i: int| 0 <= i < self@.profiles.len() implies (
                        #[trigger] self@.profiles[i])@.wf() by {
                            if i < before.profiles.len() {
                                assert(before.profiles[i]@.wf());
                            }
                        }
                    }
                }
                Ok(())
            },
            Err(_) => Err(InputProfileError::RegistryFullWithConnectedProfiles),
        }
    }

    /// A device was connected. It gets the profile that it had, or a new one
    /// that may replace that of the device that was away longest.
    pub fn observe(&mut self, identity: InputIdentity, _now: u64) -> (r: Result<
        InputProfileId,
        InputProfileError,
    >)
        ensures
            match old(self)@.place_for(identity) {
                None => r == Err::<InputProfileId, InputProfileError>(
                    InputProfileError::RegistryFullWithConnectedProfiles,
                ) && final(self)@ == old(self)@.stepped(),
                Some(i) => {
                    let before = old(self)@.profiles;
                    let after = final(self)@.profiles;
                    &&& r is Ok
                    &&& final(self)@.next_sequence == old(self)@.stepped().next_sequence
                    &&& first_where(before, is_of(identity)) is Some ==> {
                        &&& r->Ok_0 == before[i]@.id
                        &&& after == before.update(i, after[i])
                        &&& after[i]@ == (ProfileView {
                            connected: true,
                            last_seen: old(self)@.next_sequence,
                            ..before[i]@
                        })
                    }
                    &&& first_where(before, is_of(identity)) is None && before.len() < 8 ==> {
                        &&& free_from(profile_numbers(before), 1) == Some(r->Ok_0.number())
                        &&& after == before.push(after.last())
                        &&& after.last()@ == old(self)@.fresh(r->Ok_0, identity)
                    }
                    &&& first_where(before, is_of(identity)) is None && before.len() >= 8 ==> {
                        &&& r->Ok_0 == before[i]@.id
                        &&& after == before.update(i, after[i])
                        &&& after[i]@ == old(self)@.fresh(r->Ok_0, identity)
                    }
                },
            },
            old(self)@.wf() ==> final(self)@.wf(),
            old(self)@.distinct() ==> final(self)@.distinct(),
    {
        let ghost before = self@;
        proof {
            MouseScaleRemainders::lemma_zero();
            lemma_first_where(before.profiles, is_of(identity));
        }
        let sequence: u64 = self.take_sequence();
        if let Some(index) = self.index_of_identity(identity) {
            proof {
                lemma_first_where(before.profiles, is_of(identity));
            }
            let mut profile = fixed::items(&self.profiles)[index];
            assert(before.wf() ==> profile@.wf());
            profile.connected = true;
            profile.last_seen = sequence;
            fixed::set(&mut self.profiles, index, profile);
            proof {
                if before.distinct() {
                    lemma_distinct_update(before, self@, index as int);
                }
            }
            return Ok(profile.id);
        }
        if fixed::items(&self.profiles).len() == 8 {
            let index: usize = match self.removable() {
                Some(index) => index,
                None => {
                    return Err(InputProfileError::RegistryFullWithConnectedProfiles);
                },
            };
            let id = fixed::items(&self.profiles)[index].id;
            let mut profile = InputProfile::restored(
                id,
                identity,
                sequence,
                InputSettings::default(),
            );
            profile.connected = true;
            fixed::set(&mut self.profiles, index, profile);
            proof {
                if before.distinct() {
                    lemma_distinct_update(before, self@, index as int);
                }
            }
            return Ok(id);
        }
        let id = match self.free_id() {
            Some(id) => id,
            None => {
                proof {
                    lemma_some_free(profile_numbers(before.profiles));
                }
                return Err(InputProfileError::RegistryFullWithConnectedProfiles);
            },
        };
        let mut profile = InputProfile::restored(id, identity, sequence, InputSettings::default());
        profile.connected = true;
        match fixed::push(&mut self.profiles, profile) {
            Ok(_) => {
                proof {
                    if before.distinct() {
                        lemma_free_from(profile_numbers(before.profiles), 1);
                        assert forall|i: int| 0 <= i < before.profiles.len() implies (
                        #[trigger] before.profiles[i])@.id != id by {
                            assert(profile_numbers(before.profiles)[i]
                                == before.profiles[i]@.id.number());
                        }
                        lemma_distinct_push(before, self@);
                    }
                }
                Ok(id)
            },
            Err(_) => Err(InputProfileError::RegistryFullWithConnectedProfiles),
        }
    }

    /// A device was taken away. Its profile stays.
    pub fn disconnect(&mut self, id: InputProfileId, _now: u64) -> (r: Result<
        (),
        InputProfileError,
    >)
        ensures
            final(self)@.next_sequence == old(self)@.stepped().next_sequence,
            match old(self)@.index_of(id) {
                None => r == Err::<(), InputProfileError>(InputProfileError::UnknownProfile)
                    && final(self)@.profiles == old(self)@.profiles,
                Some(i) => {
                    &&& r is Ok
                    &&& final(self)@.profiles == old(self)@.profiles.update(
                        i,
                        final(self)@.profiles[i],
                    )
                    &&& final(self)@.profiles[i]@ == (ProfileView {
                        connected: false,
                        last_seen: old(self)@.next_sequence,
                        remainders: MouseScaleRemainders::zero(),
                        ..old(self)@.profiles[i]@
                    })
                },
            },
            old(self)@.wf() ==> final(self)@.wf(),
            old(self)@.distinct() ==> final(self)@.distinct(),
    {
        let ghost before = self@;
        proof {
            MouseScaleRemainders::lemma_zero();
        }
        let sequence: u64 = self.take_sequence();
        let index: usize = match self.index_of(id) {
            Some(index) => index,
            None => {
                return Err(InputProfileError::UnknownProfile);
            },
        };
        let mut profile = fixed::items(&self.profiles)[index];
        profile.connected = false;
        profile.last_seen = sequence;
        profile.reset_transform_state();
        fixed::set(&mut self.profiles, index, profile);
        proof {
            if before.distinct() {
                lemma_distinct_update(before, self@, index as int);
            }
        }
        Ok(())
    }

    /// The profile with a number.
    pub fn get(&self, id: InputProfileId) -> (r: Option<&InputProfile>)
        ensures
            r is Some <==> self@.index_of(id) is Some,
            r is Some ==> *r->0 == self@.profiles[self@.index_of(id)->0],
    {
        match self.index_of(id) {
            Some(index) => Some(&fixed::items(&self.profiles)[index]),
            None => None,
        }
    }

    /// The profile with a number, to be changed.
    pub fn get_mut(&mut self, id: InputProfileId) -> (r: Option<&mut InputProfile>)
        ensures
            old(self)@.wf() && (r is Some ==> (*final(r->0))@.wf()) ==> final(self)@.wf(),
            old(self)@.distinct() && (r is Some ==> (*final(r->0))@.id == (*r->0)@.id && (*final(
                r->0))@.identity == (*r->0)@.identity) ==> final(self)@.distinct(),
            match old(self)@.index_of(id) {
                None => r is None && final(self)@ == old(self)@,
                Some(i) => {
                    &&& r is Some
                    &&& *r->0 == old(self)@.profiles[i]
                    &&& final(self)@ == (ProfilesView {
                        profiles: old(self)@.profiles.update(i, *final(r->0)),
                        ..old(self)@
                    })
                },
            },
    {
        match self.index_of(id) {
            Some(index) => Some(fixed::item_mut(&mut self.profiles, index)),
            None => None,
        }
    }

    fn take_sequence(&mut self) -> (r: u64)
        ensures
            r == old(self)@.next_sequence,
            final(self)@ == old(self)@.stepped(),
    {
        let sequence: u64 = self.next_sequence;
        self.next_sequence = self.next_sequence.wrapping_add(1);
        sequence
    }
}

/// The steps reported for movements in turn, added up, and what is left over at
/// the end.
pub open spec fn run_of_steps(values: Seq<int>, percent: u16) -> (int, int)
    decreases values.len(),
{
    if values.len() == 0 {
        (0, 0)
    } else {
        let before = run_of_steps(values.drop_last(), percent);
        let hundredths = scaled(values.last(), percent, before.1);
        (before.0 + whole_steps(hundredths), left_over(hundredths))
    }
}

/// All movements added up.
pub open spec fn total(values: Seq<int>) -> int
    decreases values.len(),
{
    if values.len() == 0 {
        0
    } else {
        total(values.drop_last()) + values.last()
    }
}

/// Scaled movement is not lost in fractions: over any number of reports the
/// steps reported are all whole steps of the scaled total, and less than one
/// step is left over.
pub proof fn law_fractions_are_kept(values: Seq<int>, percent: u16)
    ensures
        ({
            let run = run_of_steps(values, percent);
            &&& 100 * run.0 + run.1 == total(values) * percent
            &&& -100 < run.1 < 100
        }),
    decreases values.len(),
{
    if values.len() > 0 {
        law_fractions_are_kept(values.drop_last(), percent);
        let t = total(values.drop_last());
        let v = values.last();
        assert((t + v) * percent == t * percent + v * percent) by (nonlinear_arith);
    } else {
        assert(0 * percent == 0);
    }
}

/// Settings that change nothing leave every report as it was.
pub proof fn law_plain_settings_change_nothing(profile: ProfileView, frame: FrameView)
    requires
        profile.settings == InputSettings::plain(),
        profile.remainders == MouseScaleRemainders::zero(),
        frame.keyboard is Some ==> frame.keyboard->0.keys.no_duplicates(),
    ensures
        profile.transformed(frame) == frame,
{
    MouseScaleRemainders::lemma_zero();
    if frame.keyboard is Some {
        lemma_plain_keys(frame.keyboard->0.keys);
    }
}

proof fn lemma_plain_keys(keys: Seq<KeyUsage>)
    requires
        keys.no_duplicates(),
    ensures
        mapped_keys(InputSettings::plain(), keys) == keys,
    decreases keys.len(),
{
    if keys.len() > 0 {
        let rest = keys.drop_last();
        lemma_plain_keys(rest);
        assert(!rest.contains(keys.last())) by {
            if rest.contains(keys.last()) {
                let i = choose|i: int| 0 <= i < rest.len() && rest[i] == keys.last();
                assert(keys[i] == keys[keys.len() - 1]);
            }
        }
        assert(rest.push(keys.last()) =~= keys);
    } else {
        assert(mapped_keys(InputSettings::plain(), keys) =~= keys);
    }
}

/// A device that was away has its profile again when it comes back: whatever
/// changed of the profile but its identity, it is the one that is found.
pub proof fn law_known_device_keeps_its_profile(
    before: ProfilesView,
    after: ProfilesView,
    identity: InputIdentity,
    i: int,
)
    requires
        first_where(before.profiles, is_of(identity)) == Some(i),
        after.profiles == before.profiles.update(i, after.profiles[i]),
        after.profiles[i]@.identity == identity,
    ensures
        after.place_for(identity) == Some(i),
{
    let p = is_of(identity);
    lemma_first_where(before.profiles, p);
    assert forall|j: int| 0 <= j < i implies !p(#[trigger] after.profiles[j]) by {
        assert(!p(before.profiles[j]));
    }
    lemma_first_at(after.profiles, p, i);
}

/// The movement of a report, which is none where it says none.
pub open spec fn movement_of(frame: FrameView) -> MouseMovement {
    match frame.mouse {
        Some(mouse) => mouse.movement,
        None => MouseMovement { x: 0, y: 0, wheel: 0, pan: 0 },
    }
}

/// Whether no axis of a movement is at the end of its range, where movement may
/// have been cut.
pub open spec fn is_uncut(m: MouseMovement) -> bool {
    &&& -32768 < m.x < 32767
    &&& -32768 < m.y < 32767
    &&& -128 < m.wheel < 127
    &&& -128 < m.pan < 127
}

/// Each step of movement that a report says becomes as many hundredths of a step
/// as the settings say, sensitivity for the pointer and the scroll multiplier for
/// wheel and pan. Of these all whole steps are reported and the rest, less than
/// one step, is left over for the next report.
pub proof fn law_movement_is_scaled(
    profile: ProfileView,
    frame: FrameView,
    rest: MouseScaleRemainders,
)
    requires
        profile.wf(),
        profile.leaves(frame, rest),
        is_uncut(movement_of(profile.transformed(frame))),
    ensures
        ({
            let given = movement_of(frame);
            let told = movement_of(profile.transformed(frame));
            let sensitivity = profile.settings.mouse_sensitivity_percent;
            let scroll = profile.settings.scroll_multiplier_percent;
            let before = profile.remainders;
            &&& 100 * told.x + rest.axis_x() == given.x * sensitivity + before.axis_x()
            &&& 100 * told.y + rest.axis_y() == given.y * sensitivity + before.axis_y()
            &&& 100 * told.wheel + rest.axis_wheel() == given.wheel * scroll + before.axis_wheel()
            &&& 100 * told.pan + rest.axis_pan() == given.pan * scroll + before.axis_pan()
            &&& -100 < rest.axis_x() < 100
            &&& -100 < rest.axis_y() < 100
            &&& -100 < rest.axis_wheel() < 100
            &&& -100 < rest.axis_pan() < 100
        }),
{
    let sensitivity = profile.settings.mouse_sensitivity_percent;
    let scroll = profile.settings.scroll_multiplier_percent;
    if frame.mouse is None {
        assert(0 * sensitivity == 0);
        assert(0 * scroll == 0);
    }
}

/// A profile after some reports, and what each of them became: `rests` is what
/// was left over before the first report and after each of them.
pub open spec fn is_run(
    profile: ProfileView,
    frames: Seq<FrameView>,
    told: Seq<FrameView>,
    rests: Seq<MouseScaleRemainders>,
) -> bool {
    &&& told.len() == frames.len()
    &&& rests.len() == frames.len() + 1
    &&& rests[0] == profile.remainders
    &&& forall|i: int|
        0 <= i < frames.len() ==> {
            let now = ProfileView { remainders: rests[i], ..profile };
            #[trigger] told[i] == now.transformed(frames[i]) && now.leaves(frames[i], rests[i + 1])
        }
}

/// How far reports move the pointer to the right.
pub open spec fn sum_x(frames: Seq<FrameView>) -> int
    decreases frames.len(),
{
    if frames.len() == 0 {
        0
    } else {
        sum_x(frames.drop_last()) + movement_of(frames.last()).x
    }
}

/// How far reports move the pointer down.
pub open spec fn sum_y(frames: Seq<FrameView>) -> int
    decreases frames.len(),
{
    if frames.len() == 0 {
        0
    } else {
        sum_y(frames.drop_last()) + movement_of(frames.last()).y
    }
}

/// How far reports turn the wheel.
pub open spec fn sum_wheel(frames: Seq<FrameView>) -> int
    decreases frames.len(),
{
    if frames.len() == 0 {
        0
    } else {
        sum_wheel(frames.drop_last()) + movement_of(frames.last()).wheel
    }
}

/// How far reports pan.
pub open spec fn sum_pan(frames: Seq<FrameView>) -> int
    decreases frames.len(),
{
    if frames.len() == 0 {
        0
    } else {
        sum_pan(frames.drop_last()) + movement_of(frames.last()).pan
    }
}

/// Over any run of reports no movement is lost or made up on any axis: a hundred
/// times all that was reported, with what is left over, is all that was given
/// times the percentage of the settings.
pub proof fn law_movement_over_a_run(
    profile: ProfileView,
    frames: Seq<FrameView>,
    told: Seq<FrameView>,
    rests: Seq<MouseScaleRemainders>,
)
    requires
        profile.wf(),
        is_run(profile, frames, told, rests),
        forall|i: int| 0 <= i < told.len() ==> is_uncut(movement_of(#[trigger] told[i])),
    ensures
        ({
            let sensitivity = profile.settings.mouse_sensitivity_percent;
            let scroll = profile.settings.scroll_multiplier_percent;
            let first = profile.remainders;
            let last = rests.last();
            &&& 100 * sum_x(told) + last.axis_x() == sum_x(frames) * sensitivity + first.axis_x()
            &&& 100 * sum_y(told) + last.axis_y() == sum_y(frames) * sensitivity + first.axis_y()
            &&& 100 * sum_wheel(told) + last.axis_wheel() == sum_wheel(frames) * scroll + first.axis_wheel()
            &&& 100 * sum_pan(told) + last.axis_pan() == sum_pan(frames) * scroll + first.axis_pan()
            &&& last.wf()
        }),
    decreases frames.len(),
{
    let sensitivity = profile.settings.mouse_sensitivity_percent;
    let scroll = profile.settings.scroll_multiplier_percent;
    if frames.len() == 0 {
        assert(0 * sensitivity == 0);
        assert(0 * scroll == 0);
    } else {
        let n = frames.len() - 1;
        let f = frames.drop_last();
        let t = told.drop_last();
        let r = rests.drop_last();
        assert forall|i: int| 0 <= i < f.len() implies {
            let now = ProfileView { remainders: r[i], ..profile };
            #[trigger] t[i] == now.transformed(f[i]) && now.leaves(f[i], r[i + 1])
        } by {
            assert(t[i] == told[i]);
        }
        assert forall|i: int| 0 <= i < t.len() implies is_uncut(movement_of(#[trigger] t[i])) by {
            assert(t[i] == told[i]);
        }
        law_movement_over_a_run(profile, f, t, r);
        let now = ProfileView { remainders: rests[n], ..profile };
        assert(told[n] == now.transformed(frames[n]));
        law_movement_is_scaled(now, frames[n], rests[n + 1]);
        lemma_distributes(sum_x(f), movement_of(frames[n]).x as int, sensitivity);
        lemma_distributes(sum_y(f), movement_of(frames[n]).y as int, sensitivity);
        lemma_distributes(sum_wheel(f), movement_of(frames[n]).wheel as int, scroll);
        lemma_distributes(sum_pan(f), movement_of(frames[n]).pan as int, scroll);
    }
}

proof fn lemma_distributes(a: int, b: int, percent: u16)
    ensures
        (a + b) * percent == a * percent + b * percent,
{
    assert((a + b) * percent == a * percent + b * percent) by (nonlinear_arith);
}

/// Movement that is cut keeps its direction and is as far as a report can say.
pub proof fn law_cut_movement_goes_as_far_as_it_can(profile: ProfileView, frame: FrameView)
    requires
        profile.wf(),
        frame.mouse is Some,
    ensures
        ({
            let m = movement_of(frame);
            let told = movement_of(profile.transformed(frame));
            let sensitivity = profile.settings.mouse_sensitivity_percent;
            let scroll = profile.settings.scroll_multiplier_percent;
            let rest = profile.remainders;
            &&& m.x * sensitivity + rest.axis_x() >= 3276700 ==> told.x == 32767
            &&& m.x * sensitivity + rest.axis_x() <= -3276800 ==> told.x == -32768
            &&& m.y * sensitivity + rest.axis_y() >= 3276700 ==> told.y == 32767
            &&& m.y * sensitivity + rest.axis_y() <= -3276800 ==> told.y == -32768
            &&& m.wheel * scroll + rest.axis_wheel() >= 12700 ==> told.wheel == 127
            &&& m.wheel * scroll + rest.axis_wheel() <= -12800 ==> told.wheel == -128
            &&& m.pan * scroll + rest.axis_pan() >= 12700 ==> told.pan == 127
            &&& m.pan * scroll + rest.axis_pan() <= -12800 ==> told.pan == -128
        }),
{
}

/// Nothing but keys, movement and consumer usages is changed: a report keeps its
/// device, its modifiers and its buttons, and says of keyboard, mouse and consumer
/// controls something exactly where it did before.
pub proof fn law_transform_leaves_the_rest(profile: ProfileView, frame: FrameView)
    ensures
        ({
            let told = profile.transformed(frame);
            &&& told.device_id == frame.device_id
            &&& told.interface_id == frame.interface_id
            &&& told.keyboard is Some <==> frame.keyboard is Some
            &&& told.mouse is Some <==> frame.mouse is Some
            &&& told.consumer is Some <==> frame.consumer is Some
            &&& frame.keyboard is Some ==> told.keyboard->0.modifiers == frame.keyboard->0.modifiers
            &&& frame.mouse is Some ==> told.mouse->0.buttons == frame.mouse->0.buttons
        }),
{
}

/// What the layout makes of a key: the two keys that it swaps, if any.
pub open spec fn is_laid_out(layout: u8, key: u8, becomes: u8) -> bool {
    &&& layout == 1 && key == 0x89 ==> becomes == 0x35
    &&& layout == 2 && key == 0x35 ==> becomes == 0x89
    &&& !(layout == 1 && key == 0x89) && !(layout == 2 && key == 0x35) ==> becomes == key
}

/// Whether a key becomes another, first by the layout and then by the key that
/// the settings put in place of one.
pub open spec fn key_becomes(settings: InputSettings, key: u8, becomes: u8) -> bool {
    exists|middle: u8|
        {
            &&& #[trigger] is_laid_out(settings.keyboard_layout, key, middle)
            &&& settings.remap_from_usage != 0 && middle == settings.remap_from_usage ==> becomes
                == settings.remap_to_usage
            &&& settings.remap_from_usage == 0 || middle != settings.remap_from_usage ==> becomes
                == middle
        }
}

/// The keys of a changed report are exactly what the keys of the report become,
/// none missing, none made up, and none twice.
pub proof fn law_keys_are_remapped(profile: ProfileView, frame: FrameView)
    requires
        frame.keyboard is Some,
    ensures
        ({
            let given = frame.keyboard->0.keys;
            let told = profile.transformed(frame).keyboard->0.keys;
            &&& told.no_duplicates()
            &&& forall|i: int|
                0 <= i < given.len() ==> exists|j: int|
                    0 <= j < told.len() && key_becomes(
                        profile.settings,
                        (#[trigger] given[i]).0,
                        (#[trigger] told[j]).0,
                    )
            &&& forall|j: int|
                0 <= j < told.len() ==> exists|i: int|
                    0 <= i < given.len() && key_becomes(
                        profile.settings,
                        (#[trigger] given[i]).0,
                        (#[trigger] told[j]).0,
                    )
        }),
{
    lemma_remapped(profile.settings, frame.keyboard->0.keys);
}

proof fn lemma_becomes(settings: InputSettings, key: KeyUsage)
    ensures
        key_becomes(settings, key.0, mapped_key(settings, key).0),
{
    let middle = if settings.keyboard_layout == 1 && key.0 == 0x89 {
        0x35u8
    } else if settings.keyboard_layout == 2 && key.0 == 0x35 {
        0x89u8
    } else {
        key.0
    };
    assert(is_laid_out(settings.keyboard_layout, key.0, middle));
}

proof fn lemma_remapped(settings: InputSettings, given: Seq<KeyUsage>)
    ensures
        mapped_keys(settings, given).no_duplicates(),
        forall|i: int|
            0 <= i < given.len() ==> exists|j: int|
                0 <= j < mapped_keys(settings, given).len() && key_becomes(
                    settings,
                    (#[trigger] given[i]).0,
                    (#[trigger] mapped_keys(settings, given)[j]).0,
                ),
        forall|j: int|
            0 <= j < mapped_keys(settings, given).len() ==> exists|i: int|
                0 <= i < given.len() && key_becomes(
                    settings,
                    (#[trigger] given[i]).0,
                    (#[trigger] mapped_keys(settings, given)[j]).0,
                ),
    decreases given.len(),
{
    let told = mapped_keys(settings, given);
    if given.len() > 0 {
        let rest = given.drop_last();
        let before = mapped_keys(settings, rest);
        let key = mapped_key(settings, given.last());
        lemma_remapped(settings, rest);
        lemma_becomes(settings, given.last());
        if !before.contains(key) {
            assert(told.no_duplicates()) by {
                assert forall|i: int, j: int|
                    0 <= i < told.len() && 0 <= j < told.len() && i != j implies told[i]
                    != told[j] by {
                    if i == before.len() {
                        assert(before.contains(before[j]));
                    } else if j == before.len() {
                        assert(before.contains(before[i]));
                    }
                }
            }
        }
        assert forall|i: int| 0 <= i < given.len() implies exists|j: int|
            0 <= j < told.len() && key_becomes(
                settings,
                (#[trigger] given[i]).0,
                (#[trigger] told[j]).0,
            ) by {
            if i < rest.len() {
                assert(rest[i] == given[i]);
                let j = choose|j: int|
                    0 <= j < before.len() && key_becomes(
                        settings,
                        rest[i].0,
                        (#[trigger] before[j]).0,
                    );
                assert(told[j] == before[j]);
            } else if before.contains(key) {
                let j = before.index_of(key);
                assert(told[j] == key);
            } else {
                assert(told[before.len() as int] == key);
            }
        }
        assert forall|j: int| 0 <= j < told.len() implies exists|i: int|
            0 <= i < given.len() && key_becomes(
                settings,
                (#[trigger] given[i]).0,
                (#[trigger] told[j]).0,
            ) by {
            if j < before.len() {
                assert(before[j] == told[j]);
                let i = choose|i: int|
                    0 <= i < rest.len() && key_becomes(
                        settings,
                        (#[trigger] rest[i]).0,
                        before[j].0,
                    );
                assert(given[i] == rest[i]);
            } else {
                assert(given[given.len() - 1] == given.last());
            }
        }
    }
}

/// A consumer usage that the settings name becomes the one that they put in its
/// place, and any other stays.
pub proof fn law_consumer_usage_is_remapped(profile: ProfileView, frame: FrameView)
    requires
        frame.consumer is Some,
    ensures
        ({
            let from = profile.settings.consumer_from_usage;
            let given = frame.consumer->0.active;
            let told = profile.transformed(frame).consumer->0.active;
            &&& given is None ==> told is None
            &&& given is Some && from != 0 && (given->0).0 == from ==> told == Some(
                ConsumerUsage(profile.settings.consumer_to_usage),
            )
            &&& given is Some && (from == 0 || (given->0).0 != from) ==> told == given
        }),
{
}

/// A device that is new has a profile with settings that change nothing and no
/// movement left over.
pub proof fn law_new_device_starts_plain(v: ProfilesView, id: InputProfileId, identity: InputIdentity)
    ensures
        ({
            let p = v.fresh(id, identity);
            &&& p.id == id
            &&& p.identity == identity
            &&& p.connected
            &&& p.last_seen == v.next_sequence
            &&& p.settings.keyboard_layout == 0
            &&& p.settings.remap_from_usage == 0
            &&& p.settings.remap_to_usage == 0
            &&& p.settings.consumer_from_usage == 0
            &&& p.settings.consumer_to_usage == 0
            &&& p.settings.mouse_sensitivity_percent == 100
            &&& p.settings.scroll_multiplier_percent == 100
            &&& p.remainders.axis_x() == 0
            &&& p.remainders.axis_y() == 0
            &&& p.remainders.axis_wheel() == 0
            &&& p.remainders.axis_pan() == 0
        }),
{
}

/// A device that is known has its own profile. A new one takes a free place while
/// there is one, and else that of a device that is not connected; there is none
/// only where all eight are connected.
pub proof fn law_place_for_a_device(v: ProfilesView, identity: InputIdentity)
    requires
        v.profiles.len() <= 8,
    ensures
        forall|i: int|
            v.distinct() && 0 <= i < v.profiles.len() && (
            #[trigger] v.profiles[i])@.identity == identity ==> v.place_for(identity) == Some(i),
        (forall|i: int|
            0 <= i < v.profiles.len() ==> (#[trigger] v.profiles[i])@.identity != identity) ==> {
            &&& v.profiles.len() < 8 ==> v.place_for(identity) == Some(v.profiles.len() as int)
            &&& v.profiles.len() == 8 && v.place_for(identity) is Some ==> 0 <= v.place_for(
                identity,
            )->0 < 8 && !v.profiles[v.place_for(identity)->0]@.connected
            &&& v.profiles.len() == 8 && v.place_for(identity) is None ==> forall|i: int|
                0 <= i < 8 ==> (#[trigger] v.profiles[i])@.connected
        },
{
    let p = is_of(identity);
    lemma_first_where(v.profiles, p);
    if v.distinct() {
        assert forall|i: int| 0 <= i < v.profiles.len() && (
        #[trigger] v.profiles[i])@.identity == identity implies v.place_for(identity) == Some(
            i,
        ) by {
            assert forall|j: int| 0 <= j < i implies !p(#[trigger] v.profiles[j]) by {
                assert(v.profiles[j]@.identity != v.profiles[i]@.identity);
            }
            lemma_first_at(v.profiles, p, i);
        }
    }
    if forall|i: int|
        0 <= i < v.profiles.len() ==> (#[trigger] v.profiles[i])@.identity != identity {
        lemma_first_none(v.profiles, p);
        lemma_oldest_place(v.profiles);
    }
}

proof fn lemma_oldest_place(profiles: Seq<InputProfile>)
    ensures
        oldest_disconnected(profiles) is Some ==> 0 <= oldest_disconnected(profiles)->0
            < profiles.len() && !profiles[oldest_disconnected(profiles)->0]@.connected,
        oldest_disconnected(profiles) is None ==> forall|i: int|
            0 <= i < profiles.len() ==> (#[trigger] profiles[i])@.connected,
    decreases profiles.len(),
{
    if profiles.len() > 0 {
        let rest = profiles.drop_last();
        lemma_oldest_place(rest);
        assert forall|i: int| 0 <= i < rest.len() implies rest[i] == #[trigger] profiles[i] by {}
        assert(profiles[profiles.len() - 1] == profiles.last());
    }
}

} // verus!
