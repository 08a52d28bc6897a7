//! One input state out of many devices.

use vstd::prelude::*;

use super::keyboard::{lemma_push_contains, lemma_push_no_duplicates};
use super::{
    ConsumerState, ConsumerUsage, FrameView, InputError, InputView, KeyUsage, KeysView,
    ModifierState, MouseButtons, PhysicalInputState, PhysicalKeyboardState, PhysicalMouseState,
    StandardInputFrame,
};
use crate::ids::{DeviceId, InterfaceId};
use crate::lists::{first_where, lemma_first_at, lemma_first_none, lemma_first_where};

verus! {

/// What one interface holds.
#[derive(Clone, Debug, PartialEq, Eq)]
pub struct DeviceInputState {
    pub(crate) device_id: DeviceId,
    pub(crate) interface_id: InterfaceId,
    pub(crate) keyboard: PhysicalKeyboardState,
    pub(crate) mouse_buttons: MouseButtons,
    pub(crate) consumer: ConsumerState,
    pub(crate) consumer_generation: u64,
}

/// What one interface holds.
pub struct DeviceView {
    pub device_id: DeviceId,
    pub interface_id: InterfaceId,
    pub keyboard: KeysView,
    pub buttons: MouseButtons,
    pub consumer: Option<ConsumerUsage>,
    pub generation: u64,
}

impl View for DeviceInputState {
    type V = DeviceView;

    open(crate) spec fn view(&self) -> DeviceView {
        DeviceView {
            device_id: self.device_id,
            interface_id: self.interface_id,
            keyboard: self.keyboard@,
            buttons: self.mouse_buttons,
            consumer: self.consumer.active,
            generation: self.consumer_generation,
        }
    }
}

/// What a place for an interface holds.
pub open spec fn place_view(place: Option<DeviceInputState>) -> Option<DeviceView> {
    match place {
        Some(device) => Some(device@),
        None => None,
    }
}

/// What all places hold.
pub open spec fn places(devices: Seq<Option<DeviceInputState>>) -> Seq<Option<DeviceView>> {
    Seq::new(devices.len(), |i: int| place_view(devices[i]))
}

/// `keys` and `key`, once.
pub open spec fn with_key(keys: Seq<KeyUsage>, key: KeyUsage) -> Seq<KeyUsage> {
    if keys.contains(key) {
        keys
    } else {
        keys.push(key)
    }
}

/// `keys` and then those of `more` that are not there yet.
pub open spec fn with_keys(keys: Seq<KeyUsage>, more: Seq<KeyUsage>) -> Seq<KeyUsage>
    decreases more.len(),
{
    if more.len() == 0 {
        keys
    } else {
        with_key(with_keys(keys, more.drop_last()), more.last())
    }
}

/// The keys that a place holds.
pub open spec fn keys_of(place: Option<DeviceView>) -> Seq<KeyUsage> {
    match place {
        Some(device) => device.keyboard.keys,
        None => seq![],
    }
}

/// The keys that any interface holds, each once, place after place.
pub open spec fn all_keys(devices: Seq<Option<DeviceView>>) -> Seq<KeyUsage>
    decreases devices.len(),
{
    if devices.len() == 0 {
        seq![]
    } else {
        with_keys(all_keys(devices.drop_last()), keys_of(devices.last()))
    }
}

/// The modifiers that any interface holds.
pub open spec fn all_modifiers(devices: Seq<Option<DeviceView>>) -> u8
    decreases devices.len(),
{
    if devices.len() == 0 {
        0
    } else {
        match devices.last() {
            Some(device) => all_modifiers(devices.drop_last()) | device.keyboard.modifiers.mask(),
            None => all_modifiers(devices.drop_last()),
        }
    }
}

/// The buttons that any interface holds.
pub open spec fn all_buttons(devices: Seq<Option<DeviceView>>) -> u8
    decreases devices.len(),
{
    if devices.len() == 0 {
        0
    } else {
        match devices.last() {
            Some(device) => (all_buttons(devices.drop_last()) | device.buttons.mask()) & 0x1f,
            None => all_buttons(devices.drop_last()),
        }
    }
}

/// Whether `left` is not older than `right`, where generations wrap.
pub open spec fn not_older(left: u64, right: u64) -> bool {
    left.wrapping_sub(right) < 0x8000_0000_0000_0000
}

/// The usage that was reported last of those that are held, with its
/// generation.
pub open spec fn newest_consumer(devices: Seq<Option<DeviceView>>) -> Option<(ConsumerUsage, u64)>
    decreases devices.len(),
{
    if devices.len() == 0 {
        None
    } else {
        let before = newest_consumer(devices.drop_last());
        match devices.last() {
            Some(device) => if device.consumer is Some && (before is None || not_older(
                device.generation,
                (before->0).1,
            )) {
                Some((device.consumer->0, device.generation))
            } else {
                before
            },
            None => before,
        }
    }
}

/// The usage of `newest_consumer`.
pub open spec fn active_consumer(devices: Seq<Option<DeviceView>>) -> Option<ConsumerUsage> {
    match newest_consumer(devices) {
        Some(newest) => Some(newest.0),
        None => None,
    }
}

/// What all interfaces hold together.
pub open spec fn together(devices: Seq<Option<DeviceView>>) -> InputView {
    InputView {
        keyboard: KeysView {
            modifiers: ModifierState::of_mask(all_modifiers(devices)),
            keys: all_keys(devices),
        },
        buttons: MouseButtons::of_mask(all_buttons(devices)),
        consumer: active_consumer(devices),
    }
}

/// Whether a place holds an interface.
pub open spec fn has_interface(interface_id: InterfaceId) -> spec_fn(Option<DeviceView>) -> bool {
    |place: Option<DeviceView>| place is Some && place->0.interface_id == interface_id
}

/// Whether a place is free.
pub open spec fn place_free() -> spec_fn(Option<DeviceView>) -> bool {
    |place: Option<DeviceView>| place is None
}

/// Whether no interface has two places.
pub open spec fn one_place_each(devices: Seq<Option<DeviceView>>) -> bool {
    forall|i: int, j: int|
        0 <= i < j < devices.len() && devices[i] is Some && devices[j] is Some ==> (
        #[trigger] devices[i])->0.interface_id != (#[trigger] devices[j])->0.interface_id
}

/// What all interfaces hold, and together.
pub struct AggregatorView {
    pub devices: Seq<Option<DeviceView>>,
    pub aggregate: InputView,
    pub next_generation: u64,
}

impl AggregatorView {
    /// The place for an interface: its own, or else a free one.
    pub open spec fn place_for(self, interface_id: InterfaceId) -> Option<int> {
        match first_where(self.devices, has_interface(interface_id)) {
            Some(i) => Some(i),
            None => first_where(self.devices, place_free()),
        }
    }

    /// The buttons that an interface holds.
    pub open spec fn buttons_of(self, interface_id: InterfaceId) -> MouseButtons {
        match first_where(self.devices, has_interface(interface_id)) {
            Some(i) => self.devices[i]->0.buttons,
            None => MouseButtons::of_mask(0),
        }
    }

    /// Whether a report changes nothing that is kept: it says nothing of keys
    /// and consumer controls, and no other buttons than before. Movement is
    /// not kept.
    pub open spec fn is_idle(self, frame: FrameView) -> bool {
        frame.keyboard is None && frame.consumer is None && (frame.mouse is None
            || frame.mouse->0.buttons == self.buttons_of(frame.interface_id))
    }

    /// What the interface of a report holds after it.
    pub open spec fn device_after(self, frame: FrameView) -> DeviceView {
        let before = match first_where(self.devices, has_interface(frame.interface_id)) {
            Some(i) => self.devices[i]->0,
            None => DeviceView {
                device_id: frame.device_id,
                interface_id: frame.interface_id,
                keyboard: KeysView { modifiers: ModifierState::of_mask(0), keys: seq![] },
                buttons: MouseButtons::of_mask(0),
                consumer: None,
                generation: 0,
            },
        };
        DeviceView {
            keyboard: match frame.keyboard {
                Some(keyboard) => keyboard,
                None => before.keyboard,
            },
            buttons: match frame.mouse {
                Some(mouse) => mouse.buttons,
                None => before.buttons,
            },
            consumer: match frame.consumer {
                Some(consumer) => consumer.active,
                None => before.consumer,
            },
            generation: match frame.consumer {
                Some(_) => self.next_generation,
                None => before.generation,
            },
            ..before
        }
    }

    /// What all interfaces hold after a report.
    pub open spec fn devices_after(self, frame: FrameView) -> Seq<Option<DeviceView>> {
        self.devices.update(
            self.place_for(frame.interface_id)->0,
            Some(self.device_after(frame)),
        )
    }

    /// Why a report is refused, where it is: there is no place for its
    /// interface, or all interfaces together would hold too many keys.
    pub open spec fn refusal(self, frame: FrameView) -> Option<InputError> {
        if self.is_idle(frame) {
            None
        } else if self.place_for(frame.interface_id) is None {
            Some(InputError::DeviceCapacity)
        } else if frame.keyboard is Some && all_keys(self.devices_after(frame)).len() > 32 {
            Some(InputError::KeyCapacity)
        } else {
            None
        }
    }

    /// After a report that is not refused.
    pub open spec fn applied(self, frame: FrameView) -> AggregatorView {
        if self.is_idle(frame) {
            self
        } else {
            let devices = self.devices_after(frame);
            AggregatorView {
                devices,
                aggregate: together(devices),
                next_generation: if frame.consumer is Some {
                    self.next_generation.wrapping_add(1)
                } else {
                    self.next_generation
                },
            }
        }
    }

    /// Whether some interface belongs to a device.
    pub open spec fn knows_device(self, device_id: DeviceId) -> bool {
        exists|i: int|
            0 <= i < self.devices.len() && (#[trigger] self.devices[i]) is Some
                && self.devices[i]->0.device_id == device_id
    }

    /// The places without those of a device.
    pub open spec fn devices_without(self, device_id: DeviceId) -> Seq<Option<DeviceView>> {
        Seq::new(
            self.devices.len(),
            |i: int|
                if self.devices[i] is Some && self.devices[i]->0.device_id == device_id {
                    None
                } else {
                    self.devices[i]
                },
        )
    }
}

proof fn lemma_with_keys(keys: Seq<KeyUsage>, more: Seq<KeyUsage>)
    requires
        keys.no_duplicates(),
    ensures
        with_keys(keys, more).no_duplicates(),
        with_keys(keys, more).len() >= keys.len(),
        forall|k: KeyUsage| #[trigger]
            with_keys(keys, more).contains(k) <==> (keys.contains(k) || more.contains(k)),
    decreases more.len(),
{
    if more.len() > 0 {
        let rest = more.drop_last();
        lemma_with_keys(keys, rest);
        let before = with_keys(keys, rest);
        assert(more =~= rest.push(more.last()));
        if !before.contains(more.last()) {
            lemma_push_no_duplicates(before, more.last());
        }
        assert forall|k: KeyUsage| #[trigger]
            with_keys(keys, more).contains(k) <==> (keys.contains(k) || more.contains(k)) by {
            lemma_push_contains(before, more.last(), k);
            lemma_push_contains(rest, more.last(), k);
        }
    }
}

proof fn lemma_all_keys(devices: Seq<Option<DeviceView>>)
    ensures
        all_keys(devices).no_duplicates(),
        forall|k: KeyUsage| #[trigger]
            all_keys(devices).contains(k) <==> (exists|i: int|
                0 <= i < devices.len() && (#[trigger] keys_of(devices[i])).contains(k)),
    decreases devices.len(),
{
    if devices.len() > 0 {
        let rest = devices.drop_last();
        lemma_all_keys(rest);
        lemma_with_keys(all_keys(rest), keys_of(devices.last()));
        let n = devices.len() - 1;
        assert forall|k: KeyUsage| #[trigger]
            all_keys(devices).contains(k) <==> (exists|i: int|
                0 <= i < devices.len() && (#[trigger] keys_of(devices[i])).contains(k)) by {
            if all_keys(devices).contains(k) {
                if all_keys(rest).contains(k) {
                    let i = choose|i: int|
                        0 <= i < rest.len() && (#[trigger] keys_of(rest[i])).contains(k);
                    assert(keys_of(devices[i]).contains(k));
                } else {
                    assert(keys_of(devices[n]).contains(k));
                }
            }
            if exists|i: int|
                0 <= i < devices.len() && (#[trigger] keys_of(devices[i])).contains(k) {
                let i = choose|i: int|
                    0 <= i < devices.len() && (#[trigger] keys_of(devices[i])).contains(k);
                if i < n {
                    assert(keys_of(rest[i]).contains(k));
                }
            }
        }
    }
}

/// A key is held by all interfaces together exactly where some interface holds
/// it, and only once.
pub proof fn law_union_of_keys(devices: Seq<Option<DeviceView>>, key: KeyUsage)
    ensures
        together(devices).keyboard.keys.no_duplicates(),
        together(devices).keyboard.keys.contains(key) <==> exists|i: int|
            0 <= i < devices.len() && (#[trigger] keys_of(devices[i])).contains(key),
{
    lemma_all_keys(devices);
}

proof fn lemma_fewer_keys(a: Seq<Option<DeviceView>>, b: Seq<Option<DeviceView>>)
    requires
        a.len() == b.len(),
        forall|i: int| 0 <= i < a.len() ==> (#[trigger] a[i]) is None || a[i] == b[i],
    ensures
        all_keys(a).len() <= all_keys(b).len(),
{
    lemma_all_keys(a);
    lemma_all_keys(b);
    let x = all_keys(a);
    let y = all_keys(b);
    assert forall|k: KeyUsage| x.contains(k) implies y.contains(k) by {
        let i = choose|i: int| 0 <= i < a.len() && (#[trigger] keys_of(a[i])).contains(k);
        assert(a[i] is Some);
        assert(keys_of(b[i]).contains(k));
    }
    x.unique_seq_to_set();
    y.unique_seq_to_set();
    assert(x.to_set().subset_of(y.to_set())) by {
        assert forall|k: KeyUsage| x.to_set().contains(k) implies y.to_set().contains(k) by {
            assert(x.contains(k));
        }
    }
    vstd::set_lib::lemma_len_subset(x.to_set(), y.to_set());
}

proof fn lemma_same_keys(a: Seq<Option<DeviceView>>, b: Seq<Option<DeviceView>>)
    requires
        a.len() == b.len(),
        forall|i: int| 0 <= i < a.len() ==> keys_of(#[trigger] a[i]) == keys_of(b[i]),
    ensures
        all_keys(a) == all_keys(b),
    decreases a.len(),
{
    if a.len() > 0 {
        assert forall|i: int| 0 <= i < a.len() - 1 implies keys_of(#[trigger] a.drop_last()[i])
            == keys_of(b.drop_last()[i]) by {
            assert(a.drop_last()[i] == a[i]);
            assert(b.drop_last()[i] == b[i]);
        }
        lemma_same_keys(a.drop_last(), b.drop_last());
        assert(keys_of(a[a.len() - 1]) == keys_of(b[b.len() - 1]));
    }
}

/// The modifiers that a place holds.
pub open spec fn modifiers_of(place: Option<DeviceView>) -> u8 {
    match place {
        Some(device) => device.keyboard.modifiers.mask(),
        None => 0,
    }
}

/// The buttons that a place holds.
pub open spec fn place_buttons(place: Option<DeviceView>) -> u8 {
    match place {
        Some(device) => device.buttons.mask(),
        None => 0,
    }
}

proof fn lemma_same_modifiers(a: Seq<Option<DeviceView>>, b: Seq<Option<DeviceView>>)
    requires
        a.len() == b.len(),
        forall|i: int| 0 <= i < a.len() ==> modifiers_of(#[trigger] a[i]) == modifiers_of(b[i]),
    ensures
        all_modifiers(a) == all_modifiers(b),
    decreases a.len(),
{
    if a.len() > 0 {
        assert forall|i: int| 0 <= i < a.len() - 1 implies modifiers_of(
            #[trigger] a.drop_last()[i],
        ) == modifiers_of(b.drop_last()[i]) by {
            assert(a.drop_last()[i] == a[i]);
            assert(b.drop_last()[i] == b[i]);
        }
        lemma_same_modifiers(a.drop_last(), b.drop_last());
        assert(modifiers_of(a[a.len() - 1]) == modifiers_of(b[b.len() - 1]));
        let m = all_modifiers(a.drop_last());
        assert(m | 0 == m) by (bit_vector);
    }
}

proof fn lemma_buttons_small(devices: Seq<Option<DeviceView>>)
    ensures
        all_buttons(devices) & 0x1f == all_buttons(devices),
    decreases devices.len(),
{
    if devices.len() > 0 {
        lemma_buttons_small(devices.drop_last());
        let x = all_buttons(devices.drop_last()) | place_buttons(devices.last());
        assert((x & 0x1f) & 0x1f == x & 0x1f) by (bit_vector);
    } else {
        assert(0u8 & 0x1f == 0) by (bit_vector);
    }
}

proof fn lemma_same_buttons(a: Seq<Option<DeviceView>>, b: Seq<Option<DeviceView>>)
    requires
        a.len() == b.len(),
        forall|i: int| 0 <= i < a.len() ==> place_buttons(#[trigger] a[i]) == place_buttons(b[i]),
    ensures
        all_buttons(a) == all_buttons(b),
    decreases a.len(),
{
    if a.len() > 0 {
        assert forall|i: int| 0 <= i < a.len() - 1 implies place_buttons(
            #[trigger] a.drop_last()[i],
        ) == place_buttons(b.drop_last()[i]) by {
            assert(a.drop_last()[i] == a[i]);
            assert(b.drop_last()[i] == b[i]);
        }
        lemma_same_buttons(a.drop_last(), b.drop_last());
        lemma_buttons_small(a.drop_last());
        assert(place_buttons(a[a.len() - 1]) == place_buttons(b[b.len() - 1]));
        let m = all_buttons(a.drop_last());
        assert((m | 0) & 0x1f == m & 0x1f) by (bit_vector);
    }
}

proof fn lemma_same_consumer(a: Seq<Option<DeviceView>>, b: Seq<Option<DeviceView>>)
    requires
        a.len() == b.len(),
        forall|i: int|
            0 <= i < a.len() ==> ({
                let x = #[trigger] a[i];
                let y = b[i];
                ||| x is Some && y is Some && x->0.consumer == y->0.consumer && x->0.generation
                    == y->0.generation
                ||| (x is None || x->0.consumer is None) && (y is None || y->0.consumer is None)
            }),
    ensures
        newest_consumer(a) == newest_consumer(b),
    decreases a.len(),
{
    if a.len() > 0 {
        assert forall|i: int| 0 <= i < a.len() - 1 implies ({
            let x = #[trigger] a.drop_last()[i];
            let y = b.drop_last()[i];
            ||| x is Some && y is Some && x->0.consumer == y->0.consumer && x->0.generation
                == y->0.generation
            ||| (x is None || x->0.consumer is None) && (y is None || y->0.consumer is None)
        }) by {
            assert(a.drop_last()[i] == a[i]);
            assert(b.drop_last()[i] == b[i]);
        }
        lemma_same_consumer(a.drop_last(), b.drop_last());
        let x = a[a.len() - 1];
        let y = b[b.len() - 1];
    }
}

fn generation_is_newer_or_equal(left: u64, right: u64) -> (r: bool)
    ensures
        r == not_older(left, right),
{
    left.wrapping_sub(right) < 0x8000_0000_0000_0000
}

/// The keys and modifiers that all interfaces hold together.
fn rebuild_keyboard(devices: &Vec<Option<DeviceInputState>>) -> (r: Result<
    PhysicalKeyboardState,
    InputError,
>)
    ensures
        all_keys(places(devices@)).len() <= 32 ==> r is Ok && r->Ok_0.wf() && r->Ok_0@
            == together(places(devices@)).keyboard,
        all_keys(places(devices@)).len() > 32 ==> r is Err && r->Err_0 == InputError::KeyCapacity,
{
    let ghost all = places(devices@);
    let mut keyboard = PhysicalKeyboardState::new();
    let mut i: usize = 0;
    assert(all.take(0) =~= Seq::<Option<DeviceView>>::empty());
    assert(all_keys(all.take(0)) =~= seq![]);
    while i < devices.len()
        invariant
            i <= devices@.len(),
            all == places(devices@),
            keyboard.wf(),
            keyboard@ == together(all.take(i as int)).keyboard,
            keyboard@.keys.len() <= 32,
        decreases devices@.len() - i,
    {
        let ghost before = all.take(i as int);
        proof {
            assert(all.take(i + 1).drop_last() =~= before);
            assert(all.take(i + 1).last() == place_view(devices@[i as int]));
        }
        match &devices[i] {
            None => {},
            Some(device) => {
                keyboard.add_modifiers(device.keyboard.modifiers);
                let keys = device.keyboard.keys();
                let mut j: usize = 0;
                assert(keys@.take(0) =~= Seq::<KeyUsage>::empty());
                while j < keys.len()
                    invariant
                        i < devices@.len(),
                        all == places(devices@),
                        before == all.take(i as int),
                        j <= keys@.len(),
                        keys@ == keys_of(all[i as int]),
                        all.take(i + 1).drop_last() == before,
                        all.take(i + 1).last() == all[i as int],
                        keyboard.wf(),
                        keyboard@.keys.len() <= 32,
                        keyboard@.keys == with_keys(all_keys(before), keys@.take(j as int)),
                        keyboard@.modifiers == together(all.take(i + 1)).keyboard.modifiers,
                    decreases keys@.len() - j,
                {
                    proof {
                        assert(keys@.take(j + 1).drop_last() =~= keys@.take(j as int));
                        assert(keys@.take(j + 1).last() == keys@[j as int]);
                    }
                    match keyboard.press_key(keys[j]) {
                        Ok(_) => {},
                        Err(error) => {
                            proof {
                                lemma_more_keys(all_keys(before), keys@, j + 1);
                                lemma_more_devices(all, i + 1);
                            }
                            return Err(error);
                        },
                    }
                    j += 1;
                }
                assert(keys@.take(j as int) =~= keys@);
            },
        }
        i += 1;
    }
    assert(all.take(i as int) =~= all);
    Ok(keyboard)
}

proof fn lemma_more_keys(keys: Seq<KeyUsage>, more: Seq<KeyUsage>, n: int)
    requires
        0 <= n <= more.len(),
    ensures
        with_keys(keys, more.take(n)).len() <= with_keys(keys, more).len(),
    decreases more.len() - n,
{
    if n < more.len() {
        lemma_more_keys(keys, more, n + 1);
        assert(more.take(n + 1).drop_last() =~= more.take(n));
    } else {
        assert(more.take(n) =~= more);
    }
}

proof fn lemma_more_devices(devices: Seq<Option<DeviceView>>, n: int)
    requires
        0 <= n <= devices.len(),
    ensures
        all_keys(devices.take(n)).len() <= all_keys(devices).len(),
    decreases devices.len() - n,
{
    if n < devices.len() {
        lemma_more_devices(devices, n + 1);
        assert(devices.take(n + 1).drop_last() =~= devices.take(n));
        lemma_all_keys(devices.take(n));
        lemma_with_keys(all_keys(devices.take(n)), keys_of(devices.take(n + 1).last()));
    } else {
        assert(devices.take(n) =~= devices);
    }
}

/// The buttons that all interfaces hold together.
fn rebuild_mouse_buttons(devices: &Vec<Option<DeviceInputState>>) -> (r: MouseButtons)
    ensures
        r == together(places(devices@)).buttons,
{
    let ghost all = places(devices@);
    let mut buttons = MouseButtons::empty();
    let mut i: usize = 0;
    assert(all.take(0) =~= Seq::<Option<DeviceView>>::empty());
    while i < devices.len()
        invariant
            i <= devices@.len(),
            all == places(devices@),
            buttons == together(all.take(i as int)).buttons,
        decreases devices@.len() - i,
    {
        proof {
            assert(all.take(i + 1).drop_last() =~= all.take(i as int));
            assert(all.take(i + 1).last() == place_view(devices@[i as int]));
        }
        match &devices[i] {
            None => {},
            Some(device) => {
                buttons =
                MouseButtons::from_bits_truncate(buttons.bits() | device.mouse_buttons.bits());
            },
        }
        i += 1;
    }
    assert(all.take(i as int) =~= all);
    buttons
}

/// The usage that was reported last of those that are held.
fn rebuild_consumer(devices: &Vec<Option<DeviceInputState>>) -> (r: ConsumerState)
    ensures
        r.active == together(places(devices@)).consumer,
{
    let ghost all = places(devices@);
    let mut consumer = ConsumerState::new();
    let mut newest: Option<u64> = None;
    let mut i: usize = 0;
    assert(all.take(0) =~= Seq::<Option<DeviceView>>::empty());
    while i < devices.len()
        invariant
            i <= devices@.len(),
            all == places(devices@),
            newest is None <==> newest_consumer(all.take(i as int)) is None,
            newest is None ==> consumer.active is None,
            newest is Some ==> consumer.active is Some && newest_consumer(all.take(i as int))
                == Some((consumer.active->0, newest->0)),
        decreases devices@.len() - i,
    {
        proof {
            assert(all.take(i + 1).drop_last() =~= all.take(i as int));
            assert(all.take(i + 1).last() == place_view(devices@[i as int]));
        }
        match &devices[i] {
            None => {},
            Some(device) => {
                let newer = match newest {
                    None => true,
                    Some(generation) => generation_is_newer_or_equal(
                        device.consumer_generation,
                        generation,
                    ),
                };
                if device.consumer.active.is_some() && newer {
                    consumer = device.consumer;
                    newest = Some(device.consumer_generation);
                }
            },
        }
        i += 1;
    }
    assert(all.take(i as int) =~= all);
    consumer
}

fn interface_index(devices: &Vec<Option<DeviceInputState>>, interface_id: InterfaceId) -> (r:
    Option<usize>)
    ensures
        r is Some ==> first_where(places(devices@), has_interface(interface_id)) == Some(
            r->0 as int,
        ) && r->0 < devices@.len() && devices@[r->0 as int] is Some,
        r is None ==> first_where(places(devices@), has_interface(interface_id)) is None,
{
    let ghost all = places(devices@);
    let ghost p = has_interface(interface_id);
    let mut i: usize = 0;
    while i < devices.len()
        invariant
            i <= devices@.len(),
            all == places(devices@),
            p == has_interface(interface_id),
            forall|j: int| 0 <= j < i ==> !p(#[trigger] all[j]),
        decreases devices@.len() - i,
    {
        assert(all[i as int] == place_view(devices@[i as int]));
        let found = match &devices[i] {
            Some(device) => device.interface_id == interface_id,
            None => false,
        };
        if found {
            proof {
                lemma_first_at(all, p, i as int);
            }
            return Some(i);
        }
        i += 1;
    }
    proof {
        lemma_first_none(all, p);
    }
    None
}

fn free_index(devices: &Vec<Option<DeviceInputState>>) -> (r: Option<usize>)
    ensures
        r is Some ==> first_where(places(devices@), place_free()) == Some(r->0 as int) && r->0
            < devices@.len() && devices@[r->0 as int] is None,
        r is None ==> first_where(places(devices@), place_free()) is None,
{
    let ghost all = places(devices@);
    let ghost p = place_free();
    let mut i: usize = 0;
    while i < devices.len()
        invariant
            i <= devices@.len(),
            all == places(devices@),
            p == place_free(),
            forall|j: int| 0 <= j < i ==> !p(#[trigger] all[j]),
        decreases devices@.len() - i,
    {
        assert(all[i as int] == place_view(devices@[i as int]));
        if devices[i].is_none() {
            proof {
                lemma_first_at(all, p, i as int);
            }
            return Some(i);
        }
        i += 1;
    }
    proof {
        lemma_first_none(all, p);
    }
    None
}

/// What many interfaces hold, and together.
#[derive(Clone, Debug, PartialEq, Eq)]
pub struct InputAggregator<const DEVICES: usize> {
    devices: Vec<Option<DeviceInputState>>,
    aggregate: PhysicalInputState,
    next_consumer_generation: u64,
}

impl<const DEVICES: usize> View for InputAggregator<DEVICES> {
    type V = AggregatorView;

    closed spec fn view(&self) -> AggregatorView {
        AggregatorView {
            devices: places(self.devices@),
            aggregate: self.aggregate@,
            next_generation: self.next_consumer_generation,
        }
    }
}

impl<const DEVICES: usize> InputAggregator<DEVICES> {
    /// No interface has two places, and what all hold together is what each of
    /// them holds, which is not too much.
    pub closed spec fn wf(&self) -> bool {
        &&& self.devices@.len() == DEVICES
        &&& one_place_each(places(self.devices@))
        &&& self.aggregate.wf()
        &&& self.aggregate@ == together(places(self.devices@))
        &&& all_keys(places(self.devices@)).len() <= 32
    }

    /// What `wf` says of the view.
    pub proof fn lemma_wf(&self)
        requires
            self.wf(),
        ensures
            self@.devices.len() == DEVICES,
            one_place_each(self@.devices),
            self@.aggregate == together(self@.devices),
            self@.aggregate.keyboard.keys.no_duplicates(),
            self@.aggregate.keyboard.keys.len() <= 32,
    {
    }

    /// Nothing held.
    pub fn new() -> (r: Self)
        ensures
            r.wf(),
            r@ == (AggregatorView {
                devices: Seq::new(DEVICES as nat, |i: int| None),
                aggregate: InputView::released(),
                next_generation: 1,
            }),
    {
        Self::with_generation(1)
    }

    /// Nothing held, with a number for the next consumer report.
    pub fn with_generation(next_consumer_generation: u64) -> (r: Self)
        ensures
            r.wf(),
            r@ == (AggregatorView {
                devices: Seq::new(DEVICES as nat, |i: int| None),
                aggregate: InputView::released(),
                next_generation: next_consumer_generation,
            }),
    {
        let mut devices: Vec<Option<DeviceInputState>> = Vec::new();
        let mut i: usize = 0;
        while i < DEVICES
            invariant
                i <= DEVICES,
                devices@.len() == i,
                forall|j: int| 0 <= j < i ==> #[trigger] devices@[j] is None,
            decreases DEVICES - i,
        {
            devices.push(None);
            i += 1;
        }
        proof {
            lemma_nothing_held(places(devices@));
            assert(places(devices@) =~= Seq::new(DEVICES as nat, |i: int| None));
        }
        Self { devices, aggregate: PhysicalInputState::new(), next_consumer_generation }
    }

    /// What all interfaces hold together.
    pub fn aggregate(&self) -> (r: &PhysicalInputState)
        requires
            self.wf(),
        ensures
            r@ == self@.aggregate,
            r.wf(),
    {
        &self.aggregate
    }

    /// Another aggregator that holds the same.
    pub fn copied(&self) -> (r: Self)
        requires
            self.wf(),
        ensures
            r.wf(),
            r@ == self@,
    {
        let mut devices: Vec<Option<DeviceInputState>> = Vec::new();
        let mut i: usize = 0;
        while i < self.devices.len()
            invariant
                i <= self.devices@.len(),
                devices@.len() == i,
                forall|j: int|
                    0 <= j < i ==> place_view(#[trigger] devices@[j]) == place_view(
                        self.devices@[j],
                    ),
            decreases self.devices@.len() - i,
        {
            let place = match &self.devices[i] {
                None => None,
                Some(device) => Some(
                    DeviceInputState {
                        device_id: device.device_id,
                        interface_id: device.interface_id,
                        keyboard: device.keyboard.copied(),
                        mouse_buttons: device.mouse_buttons,
                        consumer: device.consumer,
                        consumer_generation: device.consumer_generation,
                    },
                ),
            };
            devices.push(place);
            i += 1;
        }
        assert(places(devices@) =~= places(self.devices@));
        Self {
            devices,
            aggregate: self.aggregate.copied(),
            next_consumer_generation: self.next_consumer_generation,
        }
    }

    /// Takes in a report, or leaves everything as it was.
    pub fn apply_frame(&mut self, frame: &StandardInputFrame) -> (r: Result<(), InputError>)
        requires
            old(self).wf(),
        ensures
            final(self).wf(),
            old(self)@.refusal(frame@) is Some ==> r == Err::<(), InputError>(
                old(self)@.refusal(frame@)->0,
            ) && final(self)@ == old(self)@,
            old(self)@.refusal(frame@) is None ==> r is Ok && final(self)@ == old(self)@.applied(
                frame@,
            ),
    {
        let ghost before = self@;
        let existing = interface_index(&self.devices, frame.interface_id);
        let existing_buttons = match existing {
            Some(index) => match &self.devices[index] {
                Some(device) => device.mouse_buttons,
                None => MouseButtons::empty(),
            },
            None => MouseButtons::empty(),
        };
        let buttons_changed = match frame.mouse {
            Some(mouse) => mouse.buttons != existing_buttons,
            None => false,
        };
        if frame.keyboard.is_none() && frame.consumer.is_none() && !buttons_changed {
            return Ok(());
        }
        let index: usize = match existing {
            Some(index) => index,
            None => match free_index(&self.devices) {
                Some(index) => index,
                None => {
                    return Err(InputError::DeviceCapacity);
                },
            },
        };
        let entry = self.changed_device(frame, index, existing.is_some());
        self.devices.push(Some(entry));
        let previous = self.devices.swap_remove(index);
        assert(places(self.devices@) =~= before.devices_after(frame@));
        proof {
            lemma_one_place_after(before, frame@);
        }
        if frame.keyboard.is_some() {
            match rebuild_keyboard(&self.devices) {
                Ok(keyboard) => {
                    self.aggregate.keyboard = keyboard;
                },
                Err(error) => {
                    self.devices.push(previous);
                    let _ = self.devices.swap_remove(index);
                    assert(places(self.devices@) =~= before.devices);
                    return Err(error);
                },
            }
        } else {
            proof {
                let a = before.devices;
                let b = before.devices_after(frame@);
                assert forall|i: int| 0 <= i < a.len() implies keys_of(#[trigger] a[i]) == keys_of(
                    b[i],
                ) by {
                    assert(keys_of(a[index as int]) =~= keys_of(b[index as int]));
                }
                assert forall|i: int| 0 <= i < a.len() implies modifiers_of(#[trigger] a[i])
                    == modifiers_of(b[i]) by {}
                lemma_same_keys(a, b);
                lemma_same_modifiers(a, b);
            }
        }
        if buttons_changed {
            self.aggregate.mouse.buttons = rebuild_mouse_buttons(&self.devices);
        } else {
            proof {
                let a = before.devices;
                let b = before.devices_after(frame@);
                assert forall|i: int| 0 <= i < a.len() implies place_buttons(#[trigger] a[i])
                    == place_buttons(b[i]) by {}
                lemma_same_buttons(a, b);
            }
        }
        if frame.consumer.is_some() {
            self.aggregate.consumer = rebuild_consumer(&self.devices);
            self.next_consumer_generation = self.next_consumer_generation.wrapping_add(1);
        } else {
            proof {
                let a = before.devices;
                let b = before.devices_after(frame@);
                lemma_same_consumer(a, b);
            }
        }
        Ok(())
    }

    fn changed_device(&self, frame: &StandardInputFrame, index: usize, existing: bool) -> (r:
        DeviceInputState)
        requires
            index < self.devices@.len(),
            existing ==> first_where(self@.devices, has_interface(frame@.interface_id)) == Some(
                index as int,
            ) && self.devices@[index as int] is Some,
            !existing ==> first_where(self@.devices, has_interface(frame@.interface_id)) is None,
        ensures
            r@ == self@.device_after(frame@),
    {
        let mut entry = DeviceInputState {
            device_id: frame.device_id,
            interface_id: frame.interface_id,
            keyboard: PhysicalKeyboardState::new(),
            mouse_buttons: MouseButtons::empty(),
            consumer: ConsumerState::new(),
            consumer_generation: 0,
        };
        if existing {
            assert(self@.devices[index as int] == place_view(self.devices@[index as int]));
            if let Some(device) = &self.devices[index] {
                entry =
                DeviceInputState {
                    device_id: device.device_id,
                    interface_id: device.interface_id,
                    keyboard: device.keyboard.copied(),
                    mouse_buttons: device.mouse_buttons,
                    consumer: device.consumer,
                    consumer_generation: device.consumer_generation,
                };
            }
        }
        if let Some(keyboard) = &frame.keyboard {
            let _ = entry.keyboard.replace_with_frame(keyboard);
        }
        if let Some(mouse) = frame.mouse {
            entry.mouse_buttons = mouse.buttons;
        }
        if let Some(consumer) = frame.consumer {
            entry.consumer.active = consumer.active;
            entry.consumer_generation = self.next_consumer_generation;
        }
        entry
    }

    fn rebuild_aggregate(&mut self)
        requires
            old(self).devices@.len() == DEVICES,
            one_place_each(places(old(self).devices@)),
            all_keys(places(old(self).devices@)).len() <= 32,
        ensures
            final(self).wf(),
            final(self)@ == (AggregatorView {
                aggregate: together(old(self)@.devices),
                ..old(self)@
            }),
    {
        if let Ok(keyboard) = rebuild_keyboard(&self.devices) {
            self.aggregate.keyboard = keyboard;
        }
        self.aggregate.mouse = PhysicalMouseState { buttons: rebuild_mouse_buttons(&self.devices) };
        self.aggregate.consumer = rebuild_consumer(&self.devices);
    }

    /// All interfaces of a device let go of everything. Says whether there was
    /// such an interface.
    pub fn remove_device(&mut self, device_id: DeviceId) -> (r: bool)
        requires
            old(self).wf(),
        ensures
            final(self).wf(),
            r == old(self)@.knows_device(device_id),
            !r ==> final(self)@ == old(self)@,
            r ==> final(self)@ == (AggregatorView {
                devices: old(self)@.devices_without(device_id),
                aggregate: together(old(self)@.devices_without(device_id)),
                ..old(self)@
            }),
    {
        let ghost before = self@;
        let n: usize = self.devices.len();
        let mut known = false;
        let mut i: usize = 0;
        while i < n
            invariant
                i <= n == self.devices@.len(),
                n == before.devices.len(),
                n == DEVICES,
                before == old(self)@,
                self.aggregate == old(self).aggregate,
                self.next_consumer_generation == before.next_generation,
                known ==> before.knows_device(device_id),
                !known ==> forall|j: int|
                    0 <= j < i ==> !((#[trigger] before.devices[j]) is Some
                        && before.devices[j]->0.device_id == device_id),
                forall|j: int|
                    0 <= j < i ==> place_view(#[trigger] self.devices@[j])
                        == before.devices_without(device_id)[j],
                forall|j: int|
                    i <= j < n ==> place_view(#[trigger] self.devices@[j]) == before.devices[j],
            decreases n - i,
        {
            assert(place_view(self.devices@[i as int]) == before.devices[i as int]);
            let matches_device = match &self.devices[i] {
                Some(device) => device.device_id == device_id,
                None => false,
            };
            if matches_device {
                known = true;
                self.devices[i] = None;
            }
            i += 1;
        }
        if !known {
            assert(places(self.devices@) =~= before.devices) by {
                assert forall|j: int| 0 <= j < n implies place_view(#[trigger] self.devices@[j])
                    == before.devices[j] by {
                    assert(!(before.devices[j] is Some && before.devices[j]->0.device_id
                        == device_id));
                }
            }
            return false;
        }
        proof {
            assert(places(self.devices@) =~= before.devices_without(device_id));
            lemma_fewer_keys(before.devices_without(device_id), before.devices);
            lemma_fewer_places(before.devices_without(device_id), before.devices);
        }
        self.rebuild_aggregate();
        true
    }

    /// An interface lets go of everything. Says whether it was known.
    pub fn remove_interface(&mut self, interface_id: InterfaceId) -> (r: bool)
        requires
            old(self).wf(),
        ensures
            final(self).wf(),
            ({
                let found = first_where(old(self)@.devices, has_interface(interface_id));
                &&& r == (found is Some)
                &&& found is None ==> final(self)@ == old(self)@
                &&& found is Some ==> final(self)@ == (AggregatorView {
                    devices: old(self)@.devices.update(found->0, None),
                    aggregate: together(old(self)@.devices.update(found->0, None)),
                    ..old(self)@
                })
            }),
    {
        let ghost before = self@;
        match interface_index(&self.devices, interface_id) {
            None => false,
            Some(index) => {
                self.devices[index] = None;
                proof {
                    let after = before.devices.update(index as int, None);
                    assert(places(self.devices@) =~= after);
                    lemma_fewer_keys(after, before.devices);
                    lemma_fewer_places(after, before.devices);
                }
                self.rebuild_aggregate();
                true
            },
        }
    }
}

proof fn lemma_fewer_places(a: Seq<Option<DeviceView>>, b: Seq<Option<DeviceView>>)
    requires
        one_place_each(b),
        a.len() == b.len(),
        forall|i: int| 0 <= i < a.len() ==> (#[trigger] a[i]) is None || a[i] == b[i],
    ensures
        one_place_each(a),
{
    assert forall|i: int, j: int|
        0 <= i < j < a.len() && a[i] is Some && a[j] is Some implies (
    #[trigger] a[i])->0.interface_id != (#[trigger] a[j])->0.interface_id by {
        assert(b[i]->0.interface_id != b[j]->0.interface_id);
    }
}

proof fn lemma_one_place_after(v: AggregatorView, frame: FrameView)
    requires
        one_place_each(v.devices),
        v.place_for(frame.interface_id) is Some,
    ensures
        one_place_each(v.devices_after(frame)),
{
    let p = has_interface(frame.interface_id);
    lemma_first_where(v.devices, p);
    lemma_first_where(v.devices, place_free());
    let k = v.place_for(frame.interface_id)->0;
    let after = v.devices_after(frame);
    if first_where(v.devices, p) is Some {
        assert(p(v.devices[k]));
    }
    assert(after[k]->0.interface_id == frame.interface_id);
    assert forall|j: int| 0 <= j < v.devices.len() && j != k && v.devices[j] is Some implies (
    #[trigger] v.devices[j])->0.interface_id != frame.interface_id by {
        if first_where(v.devices, p) is Some {
            if j < k {
                assert(v.devices[j]->0.interface_id != v.devices[k]->0.interface_id);
            } else {
                assert(v.devices[k]->0.interface_id != v.devices[j]->0.interface_id);
            }
        } else {
            assert(!p(v.devices[j]));
        }
    }
    assert forall|i: int, j: int|
        0 <= i < j < after.len() && after[i] is Some && after[j] is Some implies (
    #[trigger] after[i])->0.interface_id != (#[trigger] after[j])->0.interface_id by {
        if i == k {
            assert(v.devices[j]->0.interface_id != frame.interface_id);
        } else if j == k {
            assert(v.devices[i]->0.interface_id != frame.interface_id);
        } else {
            assert(v.devices[i]->0.interface_id != v.devices[j]->0.interface_id);
        }
    }
}

/// An interface that was removed has no place left, so that nothing of what it
/// held is left.
pub proof fn law_removed_interface_holds_nothing(
    devices: Seq<Option<DeviceView>>,
    interface_id: InterfaceId,
)
    requires
        one_place_each(devices),
        first_where(devices, has_interface(interface_id)) is Some,
    ensures
        ({
            let i = first_where(devices, has_interface(interface_id))->0;
            first_where(devices.update(i, None), has_interface(interface_id)) is None
        }),
{
    let p = has_interface(interface_id);
    lemma_first_where(devices, p);
    let i = first_where(devices, p)->0;
    let after = devices.update(i, None);
    assert(p(devices[i]));
    assert forall|j: int| 0 <= j < after.len() implies !p(#[trigger] after[j]) by {
        if j < i && devices[j] is Some {
            assert(devices[j]->0.interface_id != devices[i]->0.interface_id);
        } else if j > i && devices[j] is Some {
            assert(devices[i]->0.interface_id != devices[j]->0.interface_id);
        }
    }
    lemma_first_none(after, p);
}

proof fn lemma_nothing_held(devices: Seq<Option<DeviceView>>)
    requires
        forall|i: int| 0 <= i < devices.len() ==> #[trigger] devices[i] is None,
    ensures
        together(devices) == InputView::released(),
        all_keys(devices).len() == 0,
    decreases devices.len(),
{
    if devices.len() > 0 {
        let rest = devices.drop_last();
        assert forall|i: int| 0 <= i < rest.len() implies #[trigger] rest[i] is None by {
            assert(rest[i] == devices[i]);
        }
        lemma_nothing_held(rest);
        assert(devices[devices.len() - 1] is None);
    }
    assert(all_keys(devices) =~= seq![]);
}

impl<const DEVICES: usize> Default for InputAggregator<DEVICES> {
    fn default() -> (r: Self)
        ensures
            r.wf(),
            r@ == (AggregatorView {
                devices: Seq::new(DEVICES as nat, |i: int| None),
                aggregate: InputView::released(),
                next_generation: 1,
            }),
    {
        Self::new()
    }
}

/// A report of keys or buttons alone does not change which consumer usage is
/// the newest.
pub proof fn law_other_reports_keep_the_consumer(v: AggregatorView, frame: FrameView)
    requires
        frame.consumer is None,
        v.refusal(frame) is None,
        v.aggregate == together(v.devices),
    ensures
        v.applied(frame).aggregate.consumer == v.aggregate.consumer,
        v.applied(frame).next_generation == v.next_generation,
{
    if !v.is_idle(frame) {
        lemma_first_where(v.devices, has_interface(frame.interface_id));
        lemma_first_where(v.devices, place_free());
        lemma_same_consumer(v.devices, v.devices_after(frame));
    }
}

} // verus!
