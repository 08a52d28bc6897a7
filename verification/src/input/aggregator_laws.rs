//! What all interfaces hold together, in terms of what each of them holds.

use vstd::prelude::*;

use super::aggregator::{
    all_buttons, all_modifiers, has_interface, newest_consumer, one_place_each, place_free,
    together, AggregatorView, DeviceView,
};
use super::{FrameView, InputError, MouseButtons};
use crate::ids::{DeviceId, InterfaceId};
use crate::lists::lemma_first_where;

verus! {

/// Whether an interface holds a modifier that `bit` stands for.
pub open spec fn holds_modifier(place: Option<DeviceView>, bit: u8) -> bool {
    place is Some && place->0.keyboard.modifiers.mask() & bit != 0
}

/// Whether an interface holds a button that `bit` stands for.
pub open spec fn holds_button(place: Option<DeviceView>, bit: u8) -> bool {
    place is Some && place->0.buttons.mask() & bit != 0
}

proof fn lemma_or(a: u8, b: u8, bit: u8)
    ensures
        (a | b) & bit != 0 <==> a & bit != 0 || b & bit != 0,
        bit < 32 ==> (((a | b) & 0x1f) & bit != 0 <==> a & bit != 0 || b & bit != 0),
        0u8 & bit == 0,
{
    assert(((a | b) & bit != 0 <==> a & bit != 0 || b & bit != 0) && (bit < 32 ==> (((a | b)
        & 0x1f) & bit != 0 <==> a & bit != 0 || b & bit != 0)) && 0u8 & bit == 0) by (bit_vector);
}

proof fn lemma_bits(devices: Seq<Option<DeviceView>>, bit: u8)
    ensures
        all_modifiers(devices) & bit != 0 <==> exists|i: int|
            0 <= i < devices.len() && holds_modifier(#[trigger] devices[i], bit),
        bit < 32 ==> (all_buttons(devices) & bit != 0 <==> exists|i: int|
            0 <= i < devices.len() && holds_button(#[trigger] devices[i], bit)),
    decreases devices.len(),
{
    if devices.len() == 0 {
        lemma_or(0, 0, bit);
    } else {
        let rest = devices.drop_last();
        let n = devices.len() - 1;
        lemma_bits(rest, bit);
        assert forall|i: int| 0 <= i < n implies rest[i] == #[trigger] devices[i] by {}
        if devices[n] is Some {
            lemma_or(all_modifiers(rest), devices[n]->0.keyboard.modifiers.mask(), bit);
            lemma_or(all_buttons(rest), devices[n]->0.buttons.mask(), bit);
        }
        if exists|i: int| 0 <= i < rest.len() && holds_modifier(#[trigger] rest[i], bit) {
            let i = choose|i: int| 0 <= i < rest.len() && holds_modifier(#[trigger] rest[i], bit);
            assert(holds_modifier(devices[i], bit));
        }
        if exists|i: int| 0 <= i < rest.len() && holds_button(#[trigger] rest[i], bit) {
            let i = choose|i: int| 0 <= i < rest.len() && holds_button(#[trigger] rest[i], bit);
            assert(holds_button(devices[i], bit));
        }
        if holds_modifier(devices[n], bit) || holds_button(devices[n], bit) {
            assert(devices[n] is Some);
        }
        assert forall|i: int| 0 <= i < devices.len() && holds_modifier(
            #[trigger] devices[i],
            bit,
        ) implies all_modifiers(devices) & bit != 0 by {
            if i < n {
                assert(holds_modifier(rest[i], bit));
            }
        }
        assert forall|i: int| bit < 32 && 0 <= i < devices.len() && holds_button(
            #[trigger] devices[i],
            bit,
        ) implies all_buttons(devices) & bit != 0 by {
            if i < n {
                assert(holds_button(rest[i], bit));
            }
        }
    }
}

/// There are five buttons.
pub(crate) proof fn lemma_five_buttons(devices: Seq<Option<DeviceView>>)
    ensures
        all_buttons(devices) < 32,
        all_buttons(devices) & 31 == all_buttons(devices),
    decreases devices.len(),
{
    if devices.len() > 0 {
        lemma_five_buttons(devices.drop_last());
        if devices.last() is Some {
            let both = all_buttons(devices.drop_last()) | devices.last()->0.buttons.mask();
            assert(both & 0x1f < 32) by (bit_vector);
        }
    }
    let all = all_buttons(devices);
    assert(all < 32 ==> all & 31 == all) by (bit_vector);
}

/// A modifier is held by all interfaces together exactly where some interface
/// holds it.
pub proof fn law_union_of_modifiers(devices: Seq<Option<DeviceView>>, bit: u8)
    ensures
        together(devices).keyboard.modifiers.mask() & bit != 0 <==> exists|i: int|
            0 <= i < devices.len() && holds_modifier(#[trigger] devices[i], bit),
{
    lemma_bits(devices, bit);
}

/// A button is held by all interfaces together exactly where some interface holds
/// it.
pub proof fn law_union_of_buttons(devices: Seq<Option<DeviceView>>, bit: u8)
    requires
        bit < 32,
    ensures
        together(devices).buttons.mask() & bit != 0 <==> exists|i: int|
            0 <= i < devices.len() && holds_button(#[trigger] devices[i], bit),
{
    lemma_bits(devices, bit);
}

/// Whether an interface holds a consumer usage.
pub open spec fn holds_usage(place: Option<DeviceView>) -> bool {
    place is Some && place->0.consumer is Some
}

proof fn lemma_newest(devices: Seq<Option<DeviceView>>) -> (i: int)
    requires
        forall|j: int|
            0 <= j < devices.len() && holds_usage(#[trigger] devices[j])
                ==> devices[j]->0.generation < 0x8000_0000_0000_0000,
    ensures
        newest_consumer(devices) is None ==> forall|j: int|
            0 <= j < devices.len() ==> !holds_usage(#[trigger] devices[j]),
        newest_consumer(devices) is Some ==> {
            &&& 0 <= i < devices.len()
            &&& holds_usage(devices[i])
            &&& newest_consumer(devices) == Some(
                (devices[i]->0.consumer->0, devices[i]->0.generation),
            )
            &&& forall|j: int|
                0 <= j < devices.len() && holds_usage(#[trigger] devices[j])
                    ==> devices[j]->0.generation <= devices[i]->0.generation
        },
    decreases devices.len(),
{
    if devices.len() == 0 {
        0
    } else {
        let rest = devices.drop_last();
        let n = devices.len() - 1;
        assert forall|j: int| 0 <= j < n implies rest[j] == #[trigger] devices[j] by {}
        assert forall|j: int| 0 <= j < rest.len() && holds_usage(
            #[trigger] rest[j],
        ) implies rest[j]->0.generation < 0x8000_0000_0000_0000 by {
            assert(holds_usage(devices[j]));
        }
        let i = lemma_newest(rest);
        if holds_usage(devices[n]) && (newest_consumer(rest) is None || devices[n]->0.generation
            >= devices[i]->0.generation) {
            n
        } else {
            i
        }
    }
}

/// The consumer usage that all interfaces hold together is one that an interface
/// holds and that was reported last of all that are held, and there is none only
/// where no interface holds one.
pub proof fn law_newest_usage_counts(devices: Seq<Option<DeviceView>>)
    requires
        forall|j: int|
            0 <= j < devices.len() && holds_usage(#[trigger] devices[j])
                ==> devices[j]->0.generation < 0x8000_0000_0000_0000,
    ensures
        together(devices).consumer is None <==> forall|j: int|
            0 <= j < devices.len() ==> !holds_usage(#[trigger] devices[j]),
        together(devices).consumer is Some ==> exists|i: int|
            {
                &&& 0 <= i < devices.len()
                &&& holds_usage(#[trigger] devices[i])
                &&& devices[i]->0.consumer == together(devices).consumer
                &&& forall|j: int|
                    0 <= j < devices.len() && holds_usage(#[trigger] devices[j])
                        ==> devices[j]->0.generation <= devices[i]->0.generation
            },
{
    let i = lemma_newest(devices);
    if together(devices).consumer is Some {
        assert(holds_usage(devices[i]));
    }
}

/// What an interface holds, where it has a place.
pub open spec fn is_entry(
    devices: Seq<Option<DeviceView>>,
    interface_id: InterfaceId,
    entry: DeviceView,
) -> bool {
    exists|i: int|
        0 <= i < devices.len() && #[trigger] devices[i] == Some(entry) && entry.interface_id
            == interface_id
}

/// Whether an interface has a place.
pub open spec fn has_entry(devices: Seq<Option<DeviceView>>, interface_id: InterfaceId) -> bool {
    exists|i: int|
        0 <= i < devices.len() && (#[trigger] devices[i]) is Some && devices[i]->0.interface_id
            == interface_id
}

/// After a report its interface holds what the report says of keys, buttons and
/// consumer usages, and what it held before of that which the report does not
/// speak of. Nothing changes for the other interfaces, and all together hold what
/// each of them holds.
pub proof fn law_report_replaces_what_it_speaks_of(v: AggregatorView, frame: FrameView)
    requires
        one_place_each(v.devices),
        v.aggregate == together(v.devices),
        v.refusal(frame) is None,
    ensures
        ({
            let after = v.applied(frame);
            &&& after.aggregate == together(after.devices)
            &&& frame.keyboard is Some || frame.consumer is Some ==> has_entry(
                after.devices,
                frame.interface_id,
            )
            &&& frame.mouse is Some && frame.mouse->0.buttons.mask() != 0 ==> has_entry(
                after.devices,
                frame.interface_id,
            )
            &&& forall|i: int|
                0 <= i < after.devices.len() && (#[trigger] after.devices[i]) is Some
                    && after.devices[i]->0.interface_id == frame.interface_id ==> {
                    let now = after.devices[i]->0;
                    &&& frame.keyboard is Some ==> now.keyboard == frame.keyboard->0
                    &&& frame.mouse is Some ==> now.buttons == frame.mouse->0.buttons
                    &&& frame.consumer is Some ==> now.consumer == frame.consumer->0.active
                    &&& forall|before: DeviceView|
                        #[trigger] is_entry(v.devices, frame.interface_id, before) ==> {
                            &&& frame.keyboard is None ==> now.keyboard == before.keyboard
                            &&& frame.mouse is None ==> now.buttons == before.buttons
                            &&& frame.consumer is None ==> now.consumer == before.consumer
                            &&& now.device_id == before.device_id
                        }
                    &&& !has_entry(v.devices, frame.interface_id) ==> {
                        &&& now.device_id == frame.device_id
                        &&& frame.keyboard is None ==> now.keyboard.keys.len() == 0
                            && now.keyboard.modifiers.mask() == 0
                        &&& frame.mouse is None ==> now.buttons.mask() == 0
                        &&& frame.consumer is None ==> now.consumer is None
                    }
                }
            &&& forall|i: int|
                0 <= i < v.devices.len() && (#[trigger] v.devices[i]) is Some
                    && v.devices[i]->0.interface_id != frame.interface_id ==> after.devices[i]
                    == v.devices[i]
            &&& forall|i: int|
                0 <= i < after.devices.len() && (#[trigger] after.devices[i]) is Some
                    && after.devices[i]->0.interface_id != frame.interface_id ==> v.devices[i]
                    == after.devices[i]
        }),
{
    broadcast use MouseButtons::lemma_of_mask;

    let id = frame.interface_id;
    let p = has_interface(id);
    lemma_first_where(v.devices, p);
    lemma_first_where(v.devices, place_free());
    let found = crate::lists::first_where(v.devices, p);
    let after = v.applied(frame);
    if found is Some {
        let k = found->0;
        assert(p(v.devices[k]));
        assert forall|before: DeviceView| #[trigger] is_entry(v.devices, id, before) implies before
            == v.devices[k]->0 by {
            let i = choose|i: int|
                0 <= i < v.devices.len() && #[trigger] v.devices[i] == Some(before)
                    && before.interface_id == id;
            lemma_same_place(v.devices, i, k);
        }
        assert forall|i: int| 0 <= i < after.devices.len() && i != k && (
        #[trigger] after.devices[i]) is Some implies after.devices[i]->0.interface_id != id by {
            if v.devices[i]->0.interface_id == id {
                lemma_same_place(v.devices, i, k);
            }
        }
        assert(after.devices[k] is Some);
        assert(has_entry(v.devices, id));
    } else {
        assert(!has_entry(v.devices, id)) by {
            if has_entry(v.devices, id) {
                let i = choose|i: int|
                    0 <= i < v.devices.len() && (#[trigger] v.devices[i]) is Some
                        && v.devices[i]->0.interface_id == id;
                assert(!p(v.devices[i]));
            }
        }
        assert forall|before: DeviceView| !#[trigger] is_entry(v.devices, id, before) by {
            if is_entry(v.devices, id, before) {
                let i = choose|i: int|
                    0 <= i < v.devices.len() && #[trigger] v.devices[i] == Some(before)
                        && before.interface_id == id;
                assert(!p(v.devices[i]));
            }
        }
        assert forall|i: int| 0 <= i < v.devices.len() && (
        #[trigger] v.devices[i]) is Some implies v.devices[i]->0.interface_id != id by {
            assert(!p(v.devices[i]));
        }
        if !v.is_idle(frame) {
            let k = v.place_for(id)->0;
            assert(place_free()(v.devices[k]));
            assert(after.devices[k] is Some);
        }
    }
}

proof fn lemma_same_place(devices: Seq<Option<DeviceView>>, i: int, k: int)
    requires
        one_place_each(devices),
        0 <= i < devices.len(),
        0 <= k < devices.len(),
        devices[i] is Some,
        devices[k] is Some,
        devices[i]->0.interface_id == devices[k]->0.interface_id,
    ensures
        i == k,
{
    if i < k {
        assert(devices[i]->0.interface_id != devices[k]->0.interface_id);
    } else if k < i {
        assert(devices[k]->0.interface_id != devices[i]->0.interface_id);
    }
}

/// A report that would change what is held is refused exactly where its interface
/// has no place and none is free, or where it is about keys and all interfaces
/// together would then hold more than 32. Any other report is taken.
pub proof fn law_when_a_report_is_refused(v: AggregatorView, frame: FrameView)
    ensures
        v.refusal(frame) == Some(InputError::DeviceCapacity) ==> !has_entry(
            v.devices,
            frame.interface_id,
        ) && forall|i: int| 0 <= i < v.devices.len() ==> (#[trigger] v.devices[i]) is Some,
        v.refusal(frame) == Some(InputError::KeyCapacity) ==> frame.keyboard is Some && together(
            v.devices_after(frame),
        ).keyboard.keys.len() > 32,
        v.refusal(frame) is None && frame.keyboard is Some ==> v.applied(
            frame,
        ).aggregate.keyboard.keys.len() <= 32,
        v.refusal(frame) != Some(InputError::VendorPayloadCapacity),
{
    let p = has_interface(frame.interface_id);
    lemma_first_where(v.devices, p);
    lemma_first_where(v.devices, place_free());
    if v.place_for(frame.interface_id) is None {
        assert forall|i: int| 0 <= i < v.devices.len() implies (#[trigger] v.devices[i]) is Some by {
            assert(!place_free()(v.devices[i]));
        }
        if has_entry(v.devices, frame.interface_id) {
            let i = choose|i: int|
                0 <= i < v.devices.len() && (#[trigger] v.devices[i]) is Some
                    && v.devices[i]->0.interface_id == frame.interface_id;
            assert(!p(v.devices[i]));
        }
    }
}

/// Without a device no interface of it has a place, and every other interface has
/// the one that it had.
pub proof fn law_removed_device_holds_nothing(v: AggregatorView, device_id: DeviceId)
    ensures
        v.devices_without(device_id).len() == v.devices.len(),
        forall|i: int|
            0 <= i < v.devices.len() ==> (#[trigger] v.devices_without(device_id)[i]) is None
                || v.devices_without(device_id)[i]->0.device_id != device_id,
        forall|i: int|
            0 <= i < v.devices.len() && (#[trigger] v.devices[i]) is Some
                && v.devices[i]->0.device_id != device_id ==> v.devices_without(device_id)[i]
                == v.devices[i],
{
}

} // verus!
