//! What hosts and devices see of each event.

use vstd::prelude::*;

use super::host_laws::law_forgetting;
use super::laws::{lemma_emitted, lemma_no_error_before};
use super::steps::{led_actions, usage_number, ActionView, BridgeView, Run};
use super::{BridgeEvent, BridgeStatus, NotifyReason, UsbHidInterfaceRegistration};
use crate::ids::{HostId, InterfaceId};
use crate::input::aggregator::{
    has_interface, law_union_of_keys, one_place_each, together, DeviceView,
};
use crate::input::aggregator_laws::{
    holds_usage, law_newest_usage_counts, law_union_of_buttons, law_union_of_modifiers,
};
use crate::input::keyboard::{
    lemma_kept, lemma_missing, lemma_missing_same, missing, suppressed_after, visible, KeysView,
};
use crate::input::{
    ConsumerUsage, InputView, KeyUsage, KeyboardLedState, ModifierState, MouseButtons,
    MouseMovement,
};
use crate::lists::{first_where, lemma_first_where};
use crate::reports::{
    as_signed, closest_in_a_byte, keyboard_bytes, law_consumer_report_is_read_back,
    law_keyboard_report_is_read_back, law_mouse_report_is_read_back, mouse_bytes, ReportBytes,
    ReportKind,
};

verus! {

/// What an event led to.
pub open spec fn told(before: Run, after: Run) -> Seq<ActionView> {
    after.out.skip(before.out.len() as int)
}

/// Whether an event took back nothing that was asked for before it.
pub open spec fn adds_to(before: Run, after: Run) -> bool {
    before.out.len() <= after.out.len() && after.out.take(before.out.len() as int) == before.out
}

/// Whether a keyboard report says what is held and not hidden: the modifiers, and
/// the keys, all of them where there are no more than six.
pub open spec fn says_keys(bytes: Seq<u8>, held: KeysView, hidden: KeysView) -> bool {
    &&& bytes.len() == 8
    &&& bytes[0] == held.modifiers.mask() & !hidden.modifiers.mask()
    &&& bytes[1] == 0
    &&& forall|i: int|
        2 <= i < 8 && #[trigger] bytes[i] != 0 ==> held.keys.contains(KeyUsage(bytes[i]))
            && !hidden.keys.contains(KeyUsage(bytes[i]))
    &&& missing(held.keys, hidden.keys).len() <= 6 ==> forall|key: KeyUsage| #[trigger]
        held.keys.contains(key) && !hidden.keys.contains(key) ==> exists|i: int|
            2 <= i < 8 && #[trigger] bytes[i] == key.0
}

/// Whether a mouse report says these buttons and this movement.
pub open spec fn says_mouse(bytes: Seq<u8>, buttons: u8, movement: MouseMovement) -> bool {
    &&& bytes.len() == 5
    &&& bytes[0] == buttons
    &&& closest_in_a_byte(as_signed(bytes[1]), movement.x as int)
    &&& closest_in_a_byte(as_signed(bytes[2]), movement.y as int)
    &&& as_signed(bytes[3]) == movement.wheel
    &&& as_signed(bytes[4]) == movement.pan
}

/// Whether a consumer report says this usage, or none.
pub open spec fn says_usage(bytes: Seq<u8>, usage: Option<ConsumerUsage>) -> bool {
    &&& bytes.len() == 2
    &&& bytes[0] + 256 * bytes[1] == (match usage {
        Some(usage) => usage.0,
        None => 0,
    })
}

/// Whether all bytes are zero.
pub open spec fn all_zero(bytes: Seq<u8>) -> bool {
    forall|i: int| 0 <= i < bytes.len() ==> #[trigger] bytes[i] == 0
}

pub(crate) proof fn lemma_unhidden(held: u8, hidden: u8)
    ensures
        held & !(hidden & held) == held & !hidden,
        0u8 & !hidden == 0,
{
    assert(held & !(hidden & held) == held & !hidden && 0u8 & !hidden == 0) by (bit_vector);
}

#[verifier::spinoff_prover]
pub(crate) proof fn lemma_says_keys(shown: KeysView, held: KeysView, hidden: KeysView)
    requires
        shown.modifiers.mask() == held.modifiers.mask() & !hidden.modifiers.mask(),
        forall|key: KeyUsage| #[trigger]
            shown.keys.contains(key) ==> held.keys.contains(key) && !hidden.keys.contains(key),
        missing(held.keys, hidden.keys).len() <= 6 ==> shown.keys == missing(
            held.keys,
            hidden.keys,
        ),
    ensures
        says_keys(keyboard_bytes(shown), held, hidden),
{
    law_keyboard_report_is_read_back(shown);
    let bytes = keyboard_bytes(shown);
    assert forall|i: int| 2 <= i < 8 && #[trigger] bytes[i] != 0 implies held.keys.contains(
        KeyUsage(bytes[i]),
    ) && !hidden.keys.contains(KeyUsage(bytes[i])) by {
        assert(bytes[2 + (i - 2)] == bytes[i]);
        assert(i - 2 < shown.keys.len());
        assert(shown.keys[i - 2] == KeyUsage(bytes[i]));
        assert(shown.keys.contains(shown.keys[i - 2]));
    }
    if missing(held.keys, hidden.keys).len() <= 6 {
        lemma_missing(held.keys, hidden.keys);
        assert forall|key: KeyUsage| #[trigger]
            held.keys.contains(key) && !hidden.keys.contains(key) implies exists|i: int|
            2 <= i < 8 && #[trigger] bytes[i] == key.0 by {
            assert(shown.keys.contains(key));
            let i = shown.keys.index_of(key);
            assert(bytes[2 + i] == key.0);
        }
    }
}

/// What is left to see once what is not held any longer is hidden no longer.
#[verifier::spinoff_prover]
proof fn lemma_seen_after(held: KeysView, hidden: KeysView)
    ensures
        says_keys(keyboard_bytes(visible(held, suppressed_after(hidden, held))), held, hidden),
{
    broadcast use ModifierState::lemma_of_mask;

    lemma_unhidden(held.modifiers.mask(), hidden.modifiers.mask());
    let still = suppressed_after(hidden, held);
    let shown = visible(held, still);
    lemma_kept(hidden.keys, held.keys);
    lemma_missing(held.keys, still.keys);
    assert forall|i: int| 0 <= i < held.keys.len() implies (still.keys.contains(
        #[trigger] held.keys[i],
    ) <==> hidden.keys.contains(held.keys[i])) by {
        assert(held.keys.contains(held.keys[i]));
    }
    lemma_missing_same(held.keys, still.keys, hidden.keys);
    lemma_says_keys(shown, held, hidden);
}

pub(crate) proof fn lemma_says_usage(usage: Option<ConsumerUsage>)
    ensures
        says_usage(crate::bytes::le16(usage_number(usage)), usage),
{
    law_consumer_report_is_read_back(usage_number(usage));
}

/// The reports that a host gets of what is left of the input after some of it is
/// gone.
pub open spec fn is_detach_report(
    action: ActionView,
    host_id: HostId,
    before: BridgeView,
    left: InputView,
    why: NotifyReason,
) -> bool {
    match action {
        ActionView::Notify { host_id: to, report, reason } => {
            &&& to == host_id
            &&& reason == why
            &&& match report {
                ReportBytes::Keyboard(bytes) => before.hosts.sends(host_id, ReportKind::Keyboard)
                    && says_keys(bytes, left.keyboard, before.hidden.keyboard),
                ReportBytes::Mouse(bytes) => before.hosts.sends(host_id, ReportKind::Mouse)
                    && says_mouse(
                    bytes,
                    left.buttons.mask() & !before.hidden.buttons.mask(),
                    MouseMovement { x: 0, y: 0, wheel: 0, pan: 0 },
                ),
                ReportBytes::Consumer(bytes) => before.hosts.sends(host_id, ReportKind::Consumer)
                    && says_usage(bytes, left.consumer),
            }
        },
        _ => false,
    }
}

/// Whether one of some actions is a keyboard report.
pub open spec fn has_keyboard_report(actions: Seq<ActionView>) -> bool {
    exists|i: int|
        0 <= i < actions.len() && (#[trigger] actions[i]) is Notify
            && actions[i]->Notify_report is Keyboard
}

/// Whether one of some actions is a mouse report.
pub open spec fn has_mouse_report(actions: Seq<ActionView>) -> bool {
    exists|i: int|
        0 <= i < actions.len() && (#[trigger] actions[i]) is Notify
            && actions[i]->Notify_report is Mouse
}

/// Whether one of some actions is a consumer report.
pub open spec fn has_consumer_report(actions: Seq<ActionView>) -> bool {
    exists|i: int|
        0 <= i < actions.len() && (#[trigger] actions[i]) is Notify
            && actions[i]->Notify_report is Consumer
}

/// What a run told on the way, and which bridge it left.
pub open spec fn went_on(before: Run, after: Run, actions: Seq<ActionView>, bridge: BridgeView) -> bool {
    &&& before.error is None
    &&& after == (Run { bridge, out: before.out + actions, error: None })
}

pub(crate) proof fn lemma_went_on(before: Run, after: Run, actions: Seq<ActionView>, bridge: BridgeView)
    requires
        went_on(before, after, actions, bridge),
    ensures
        adds_to(before, after),
        told(before, after) == actions,
{
    assert(after.out.take(before.out.len() as int) =~= before.out);
    assert(told(before, after) =~= actions);
}

pub(crate) proof fn lemma_emit_on(
    start: Run,
    run: Run,
    actions: Seq<ActionView>,
    bridge: BridgeView,
    action: ActionView,
    n: nat,
)
    requires
        went_on(start, run, actions, bridge) || run.error is Some,
        run.emit(action, n).error is None,
    ensures
        went_on(start, run.emit(action, n), actions.push(action), bridge),
{
    assert((start.out + actions).push(action) =~= start.out + actions.push(action));
}

pub(crate) proof fn lemma_emit_all_on(
    start: Run,
    run: Run,
    actions: Seq<ActionView>,
    bridge: BridgeView,
    more: Seq<ActionView>,
    n: nat,
)
    requires
        went_on(start, run, actions, bridge) || run.error is Some,
        run.emit_all(more, n).error is None,
    ensures
        went_on(start, run.emit_all(more, n), actions + more, bridge),
{
    lemma_no_error_before(run, more, n);
    lemma_emitted(run, more, n);
    assert(start.out + actions + more =~= start.out + (actions + more));
}

pub(crate) proof fn lemma_emit_if_on(
    start: Run,
    run: Run,
    actions: Seq<ActionView>,
    bridge: BridgeView,
    condition: bool,
    action: ActionView,
    n: nat,
)
    requires
        went_on(start, run, actions, bridge) || run.error is Some,
        run.emit_if(condition, action, n).error is None,
    ensures
        went_on(
            start,
            run.emit_if(condition, action, n),
            actions + super::steps::if_so(condition, action),
            bridge,
        ),
{
    if condition {
        lemma_emit_on(start, run, actions, bridge, action, n);
        assert(actions.push(action) =~= actions + seq![action]);
    } else {
        assert(actions + seq![] =~= actions);
    }
}

/// To ask for things changes nothing.
pub(crate) proof fn lemma_run_keeps_bridge(run: Run, actions: Seq<ActionView>, n: nat)
    ensures
        run.emit_all(actions, n).bridge == run.bridge,
    decreases actions.len(),
{
    if actions.len() > 0 {
        lemma_run_keeps_bridge(run, actions.drop_last(), n);
    }
}

/// The keyboard report of what is left.
spec fn keys_left(b: BridgeView, host_id: HostId, reason: NotifyReason) -> ActionView {
    let shown = visible(b.input.keyboard, suppressed_after(b.hidden.keyboard, b.input.keyboard));
    super::steps::notify(host_id, ReportBytes::Keyboard(keyboard_bytes(shown)), reason)
}

/// The mouse report of what is left.
spec fn buttons_left(b: BridgeView, host_id: HostId, reason: NotifyReason) -> ActionView {
    let left = b.input.buttons.mask() & !(b.hidden.buttons.mask() & b.input.buttons.mask());
    super::steps::notify(
        host_id,
        ReportBytes::Mouse(mouse_bytes(MouseButtons::of_mask(left), MouseMovement::still())),
        reason,
    )
}

/// The consumer report of what is left.
spec fn usage_left(b: BridgeView, host_id: HostId, reason: NotifyReason) -> ActionView {
    super::steps::notify(
        host_id,
        ReportBytes::Consumer(crate::bytes::le16(usage_number(b.input.consumer))),
        reason,
    )
}

#[verifier::spinoff_prover]
proof fn lemma_reports_of_what_is_left(b: BridgeView, host_id: HostId, reason: NotifyReason)
    ensures
        b.hosts.sends(host_id, ReportKind::Keyboard) ==> is_detach_report(
            keys_left(b, host_id, reason),
            host_id,
            b,
            b.input,
            reason,
        ),
        b.hosts.sends(host_id, ReportKind::Mouse) ==> is_detach_report(
            buttons_left(b, host_id, reason),
            host_id,
            b,
            b.input,
            reason,
        ),
        b.hosts.sends(host_id, ReportKind::Consumer) ==> is_detach_report(
            usage_left(b, host_id, reason),
            host_id,
            b,
            b.input,
            reason,
        ),
{
    broadcast use MouseButtons::lemma_of_mask;

    let left = b.input.buttons.mask() & !(b.hidden.buttons.mask() & b.input.buttons.mask());
    lemma_seen_after(b.input.keyboard, b.hidden.keyboard);
    lemma_unhidden(b.input.buttons.mask(), b.hidden.buttons.mask());
    law_mouse_report_is_read_back(MouseButtons::of_mask(left), MouseMovement::still());
    lemma_says_usage(b.input.consumer);
}

#[verifier::spinoff_prover]
proof fn lemma_detach_run(
    run: Run,
    host_id: HostId,
    previous: InputView,
    reason: NotifyReason,
    n: nat,
)
    requires
        run.detach(host_id, previous, reason, n).error is None,
    ensures
        ({
            let b = run.bridge;
            let c1 = b.hosts.sends(host_id, ReportKind::Keyboard) && previous.keyboard
                != b.input.keyboard;
            let c2 = b.hosts.sends(host_id, ReportKind::Mouse) && previous.buttons
                != b.input.buttons;
            let c3 = b.hosts.sends(host_id, ReportKind::Consumer) && previous.consumer
                != b.input.consumer;
            went_on(
                run,
                run.detach(host_id, previous, reason, n),
                super::steps::if_so(c1, keys_left(b, host_id, reason)) + super::steps::if_so(
                    c2,
                    buttons_left(b, host_id, reason),
                ) + super::steps::if_so(c3, usage_left(b, host_id, reason)),
                b.keys_unhidden().buttons_unhidden().usage_unhidden(),
            )
        }),
{
    broadcast use MouseButtons::lemma_of_mask;

    let b0 = run.bridge;
    let c1 = b0.hosts.sends(host_id, ReportKind::Keyboard) && previous.keyboard
        != b0.input.keyboard;
    let c2 = b0.hosts.sends(host_id, ReportKind::Mouse) && previous.buttons != b0.input.buttons;
    let c3 = b0.hosts.sends(host_id, ReportKind::Consumer) && previous.consumer
        != b0.input.consumer;
    let a1 = keys_left(b0, host_id, reason);
    let a2 = buttons_left(b0, host_id, reason);
    let a3 = usage_left(b0, host_id, reason);
    let a = run.to(b0.keys_unhidden());
    let b = a.emit_if(c1, a1, n);
    let c = b.to(b.bridge.buttons_unhidden());
    let d = c.emit_if(c2, a2, n);
    let e = d.to(d.bridge.usage_unhidden());
    let f = e.emit_if(c3, a3, n);
    let b1 = b0.keys_unhidden();
    let b2 = b1.buttons_unhidden();
    let b3 = b2.usage_unhidden();
    assert(f == run.detach(host_id, previous, reason, n));
    assert(e.error is None);
    assert(d.error is None);
    assert(c.error is None);
    assert(b.error is None);
    assert(a.error is None);
    assert(run.error is None);
    assert(run.out + Seq::<ActionView>::empty() =~= run.out);
    let l1 = super::steps::if_so(c1, a1);
    let l2 = super::steps::if_so(c2, a2);
    lemma_emit_if_on(run, a, seq![], b1, c1, a1, n);
    assert(Seq::<ActionView>::empty() + l1 =~= l1);
    lemma_emit_if_on(run, c, l1, b2, c2, a2, n);
    lemma_emit_if_on(run, e, l1 + l2, b3, c3, a3, n);
}

/// What follows where nothing ended a run early.
#[verifier::spinoff_prover]
proof fn lemma_detach(
    run: Run,
    host_id: HostId,
    previous: InputView,
    reason: NotifyReason,
    n: nat,
)
    requires
        run.detach(host_id, previous, reason, n).error is None,
    ensures
        ({
            let after = run.detach(host_id, previous, reason, n);
            let actions = told(run, after);
            &&& run.error is None
            &&& adds_to(run, after)
            &&& after.bridge.input == run.bridge.input
            &&& after.bridge.hosts == run.bridge.hosts
            &&& after.bridge.devices == run.bridge.devices
            &&& after.bridge.interfaces == run.bridge.interfaces
            &&& after.bridge.pairable == run.bridge.pairable
            &&& forall|i: int|
                0 <= i < actions.len() ==> is_detach_report(
                    #[trigger] actions[i],
                    host_id,
                    run.bridge,
                    run.bridge.input,
                    reason,
                )
            &&& has_keyboard_report(actions) <==> run.bridge.hosts.sends(
                host_id,
                ReportKind::Keyboard,
            ) && previous.keyboard != run.bridge.input.keyboard
            &&& has_mouse_report(actions) <==> run.bridge.hosts.sends(host_id, ReportKind::Mouse)
                && previous.buttons != run.bridge.input.buttons
            &&& has_consumer_report(actions) <==> run.bridge.hosts.sends(
                host_id,
                ReportKind::Consumer,
            ) && previous.consumer != run.bridge.input.consumer
        }),
{
    let b = run.bridge;
    let after = run.detach(host_id, previous, reason, n);
    let c1 = b.hosts.sends(host_id, ReportKind::Keyboard) && previous.keyboard != b.input.keyboard;
    let c2 = b.hosts.sends(host_id, ReportKind::Mouse) && previous.buttons != b.input.buttons;
    let c3 = b.hosts.sends(host_id, ReportKind::Consumer) && previous.consumer != b.input.consumer;
    let a1 = keys_left(b, host_id, reason);
    let a2 = buttons_left(b, host_id, reason);
    let a3 = usage_left(b, host_id, reason);
    let l1 = super::steps::if_so(c1, a1);
    let l2 = super::steps::if_so(c2, a2);
    let l3 = super::steps::if_so(c3, a3);
    lemma_detach_run(run, host_id, previous, reason, n);
    lemma_went_on(run, after, l1 + l2 + l3, after.bridge);
    lemma_reports_of_what_is_left(b, host_id, reason);
    lemma_three(c1, a1, c2, a2, c3, a3);
}

#[verifier::spinoff_prover]
pub(crate) proof fn lemma_three(c1: bool, a1: ActionView, c2: bool, a2: ActionView, c3: bool, a3: ActionView)
    requires
        a1 is Notify && a1->Notify_report is Keyboard,
        a2 is Notify && a2->Notify_report is Mouse,
        a3 is Notify && a3->Notify_report is Consumer,
    ensures
        ({
            let all = super::steps::if_so(c1, a1) + super::steps::if_so(c2, a2)
                + super::steps::if_so(c3, a3);
            &&& forall|i: int|
                0 <= i < all.len() ==> (c1 && #[trigger] all[i] == a1) || (c2 && all[i] == a2) || (c3
                    && all[i] == a3)
            &&& has_keyboard_report(all) <==> c1
            &&& has_mouse_report(all) <==> c2
            &&& has_consumer_report(all) <==> c3
        }),
{
    let l1 = super::steps::if_so(c1, a1);
    let l2 = super::steps::if_so(c2, a2);
    let l3 = super::steps::if_so(c3, a3);
    let all = l1 + l2 + l3;
    if c1 {
        assert(all[0] == a1);
    }
    if c2 {
        assert(all[l1.len() as int] == a2);
    }
    if c3 {
        assert(all[(l1 + l2).len() as int] == a3);
    }
}

/// Whether an interface holds nothing.
pub open spec fn holds_nothing(place: Option<DeviceView>) -> bool {
    place is None || {
        &&& place->0.keyboard.keys.len() == 0
        &&& place->0.keyboard.modifiers.mask() == 0
        &&& place->0.buttons.mask() == 0
        &&& place->0.consumer is None
    }
}

#[verifier::spinoff_prover]
proof fn lemma_nothing_together(devices: Seq<Option<DeviceView>>)
    requires
        forall|i: int| 0 <= i < devices.len() ==> holds_nothing(#[trigger] devices[i]),
    ensures
        together(devices).keyboard.keys.len() == 0,
        together(devices).keyboard.modifiers.mask() == 0,
        together(devices).buttons.mask() == 0,
        together(devices).consumer is None,
{
    crate::input::aggregator_laws::lemma_five_buttons(devices);
    lemma_unhidden(0, 0);
    let keys = together(devices).keyboard.keys;
    if keys.len() > 0 {
        law_union_of_keys(devices, keys[0]);
        assert(keys.contains(keys[0]));
        let i = choose|i: int|
            0 <= i < devices.len() && (#[trigger] crate::input::aggregator::keys_of(
                devices[i],
            )).contains(keys[0]);
        assert(holds_nothing(devices[i]));
    }
    let m = together(devices).keyboard.modifiers.mask();
    assert(m & 255 == m && 0u8 & 255 == 0 && 0u8 & 31 == 0) by (bit_vector);
    law_union_of_modifiers(devices, 255);
    if m & 255 != 0 {
        let i = choose|i: int|
            0 <= i < devices.len() && crate::input::aggregator_laws::holds_modifier(
                #[trigger] devices[i],
                255,
            );
        assert(holds_nothing(devices[i]));
    }
    law_union_of_buttons(devices, 31);
    if together(devices).buttons.mask() & 31 != 0 {
        let i = choose|i: int|
            0 <= i < devices.len() && crate::input::aggregator_laws::holds_button(
                #[trigger] devices[i],
                31,
            );
        assert(holds_nothing(devices[i]));
    }
    assert forall|j: int| 0 <= j < devices.len() implies !holds_usage(#[trigger] devices[j]) by {
        assert(holds_nothing(devices[j]));
    }
    law_newest_usage_counts(devices);
}

/// Whether an interface is gone, with all that it held, and the others hold what
/// they held.
pub open spec fn is_without(
    before: Seq<Option<DeviceView>>,
    after: Seq<Option<DeviceView>>,
    interface_id: InterfaceId,
) -> bool {
    &&& after.len() == before.len()
    &&& forall|i: int|
        0 <= i < before.len() ==> #[trigger] after[i] == if before[i] is Some
            && before[i]->0.interface_id == interface_id {
            None
        } else {
            before[i]
        }
}

proof fn lemma_without(bridge: BridgeView, interface_id: InterfaceId)
    requires
        one_place_each(bridge.devices.devices),
        bridge.devices.aggregate == together(bridge.devices.devices),
    ensures
        ({
            let gone = bridge.without_interface(interface_id);
            &&& is_without(bridge.devices.devices, gone.devices.devices, interface_id)
            &&& gone.input == together(gone.devices.devices)
            &&& gone.hosts == bridge.hosts
            &&& gone.pairable == bridge.pairable
            &&& gone.hidden == bridge.hidden
        }),
{
    let before = bridge.devices.devices;
    let devices = bridge.without_interface(interface_id).devices.devices;
    let p = has_interface(interface_id);
    lemma_first_where(before, p);
    assert forall|i: int| 0 <= i < before.len() implies #[trigger] devices[i] == if before[i] is Some
        && before[i]->0.interface_id == interface_id {
        None
    } else {
        before[i]
    } by {
        match first_where(before, p) {
            Some(k) => {
                assert(p(before[k]));
                if i != k && before[i] is Some && before[i]->0.interface_id == interface_id {
                    if i < k {
                        assert(before[i]->0.interface_id != before[k]->0.interface_id);
                    } else {
                        assert(before[k]->0.interface_id != before[i]->0.interface_id);
                    }
                }
            },
            None => {
                assert(!p(before[i]));
            },
        }
    }
}

/// Whether some actions, but for the last, are what the host that has the input is
/// told of what is left: of keyboard, mouse and consumer controls those that
/// changed and that can be sent to it.
pub open spec fn tells_what_is_left(
    actions: Seq<ActionView>,
    before: BridgeView,
    left: InputView,
    why: NotifyReason,
) -> bool {
    let host = before.hosts.active;
    &&& forall|i: int|
        0 <= i < actions.len() - 1 ==> host is Some && is_detach_report(
            #[trigger] actions[i],
            host->0,
            before,
            left,
            why,
        )
    &&& host is Some ==> {
        &&& has_keyboard_report(actions) <==> before.hosts.sends(host->0, ReportKind::Keyboard)
            && before.input.keyboard != left.keyboard
        &&& has_mouse_report(actions) <==> before.hosts.sends(host->0, ReportKind::Mouse)
            && before.input.buttons != left.buttons
        &&& has_consumer_report(actions) <==> before.hosts.sends(host->0, ReportKind::Consumer)
            && before.input.consumer != left.consumer
    }
}

#[verifier::spinoff_prover]
proof fn lemma_removed_and_told(run: Run, gone: Run, detached: Run, after: Run, n: nat)
    requires
        run.error is None,
        gone.out == run.out,
        gone.error is None,
        gone.bridge.hosts == run.bridge.hosts,
        gone.bridge.hidden == run.bridge.hidden,
        detached == (match gone.bridge.hosts.active {
            Some(host_id) => gone.detach(
                host_id,
                run.bridge.input,
                NotifyReason::UsbDeviceRemovedRelease,
                n,
            ),
            None => gone,
        }),
        after == detached.tell_status(n),
        after.error is None,
    ensures
        adds_to(run, after),
        ends_with_status(run, after),
        tells_what_is_left(
            told(run, after),
            run.bridge,
            gone.bridge.input,
            NotifyReason::UsbDeviceRemovedRelease,
        ),
        after.bridge.input == gone.bridge.input,
        after.bridge.devices == gone.bridge.devices,
        after.bridge.hosts == gone.bridge.hosts,
        after.bridge.pairable == gone.bridge.pairable,
        after.bridge.interfaces == gone.bridge.interfaces,
{
    let reason = NotifyReason::UsbDeviceRemovedRelease;
    assert(detached.error is None);
    if gone.bridge.hosts.active is Some {
        lemma_detach(gone, gone.bridge.hosts.active->0, run.bridge.input, reason, n);
    }
    let inner = told(gone, detached);
    let actions = told(run, after);
    let status = ActionView::StatusChanged(after.bridge.status());
    assert(after.out == detached.out.push(status));
    assert(actions =~= inner.push(status));
    assert(after.out.take(run.out.len() as int) =~= detached.out.take(run.out.len() as int));
    if gone.bridge.hosts.active is None {
        assert(gone.out.take(run.out.len() as int) =~= run.out);
        assert(inner =~= seq![]);
    }
    assert(adds_to(run, after));
    lemma_same_reports(inner, status);
    assert forall|i: int| 0 <= i < actions.len() - 1 implies run.bridge.hosts.active is Some
        && is_detach_report(
        #[trigger] actions[i],
        run.bridge.hosts.active->0,
        run.bridge,
        gone.bridge.input,
        reason,
    ) by {
        assert(actions[i] == inner[i]);
    }
}

/// An interface that is removed is gone, with all that it held, and the others
/// hold what they held. The active host, and no other, is told what is left: of
/// keyboard, mouse and consumer controls exactly those that changed and that it
/// has subscribed to. A keyboard report has as modifiers and keys those that the
/// remaining interfaces hold, less the hidden ones, and likewise the buttons of a
/// mouse report, which says no movement; a consumer report has the usage that is
/// left.
#[verifier::spinoff_prover]
pub proof fn law_removed_interface_is_released(run: Run, interface_id: InterfaceId, n: nat)
    requires
        run.error is None,
        one_place_each(run.bridge.devices.devices),
        run.bridge.devices.aggregate == together(run.bridge.devices.devices),
        run.handle(BridgeEvent::UsbDeviceRemoved { interface_id }, n).error is None,
    ensures
        ({
            let after = run.handle(BridgeEvent::UsbDeviceRemoved { interface_id }, n);
            let devices = after.bridge.devices.devices;
            &&& adds_to(run, after)
            &&& is_without(run.bridge.devices.devices, devices, interface_id)
            &&& after.bridge.input == together(devices)
            &&& after.bridge.hosts == run.bridge.hosts
            &&& after.bridge.pairable == run.bridge.pairable
            &&& ends_with_status(run, after)
            &&& tells_what_is_left(
                told(run, after),
                run.bridge,
                together(devices),
                NotifyReason::UsbDeviceRemovedRelease,
            )
        }),
{
    let after = run.handle(BridgeEvent::UsbDeviceRemoved { interface_id }, n);
    let gone = run.to(run.bridge.without_interface(interface_id));
    lemma_without(run.bridge, interface_id);
    let detached = match gone.bridge.hosts.active {
        Some(host_id) => gone.detach(
            host_id,
            run.bridge.input,
            NotifyReason::UsbDeviceRemovedRelease,
            n,
        ),
        None => gone,
    };
    lemma_removed_and_told(run, gone, detached, after, n);
}

/// Where the interfaces that remain hold nothing, what the host that has the input
/// is told of them is all zeros.
#[verifier::spinoff_prover]
pub proof fn law_nothing_left_is_all_zeros(
    actions: Seq<ActionView>,
    before: BridgeView,
    devices: Seq<Option<DeviceView>>,
    why: NotifyReason,
    i: int,
)
    requires
        tells_what_is_left(actions, before, together(devices), why),
        forall|k: int| 0 <= k < devices.len() ==> holds_nothing(#[trigger] devices[k]),
        0 <= i < actions.len() - 1,
    ensures
        actions[i] is Notify,
        all_zero(actions[i]->Notify_report.bytes()),
{
    let left = together(devices);
    lemma_nothing_together(devices);
    lemma_unhidden(0, before.hidden.keyboard.modifiers.mask());
    lemma_unhidden(0, before.hidden.buttons.mask());
    assert(is_detach_report(actions[i], before.hosts.active->0, before, left, why));
    let bytes = actions[i]->Notify_report.bytes();
    if actions[i]->Notify_report is Keyboard {
        assert forall|k: int| 0 <= k < bytes.len() implies #[trigger] bytes[k] == 0 by {
            if 2 <= k && bytes[k] != 0 {
                assert(left.keyboard.keys.contains(KeyUsage(bytes[k])));
            }
        }
    }
}

#[verifier::spinoff_prover]
proof fn lemma_same_reports(actions: Seq<ActionView>, more: ActionView)
    requires
        !(more is Notify),
    ensures
        has_keyboard_report(actions.push(more)) <==> has_keyboard_report(actions),
        has_mouse_report(actions.push(more)) <==> has_mouse_report(actions),
        has_consumer_report(actions.push(more)) <==> has_consumer_report(actions),
{
    let all = actions.push(more);
    assert forall|i: int| 0 <= i < actions.len() implies all[i] == #[trigger] actions[i] by {}
    if has_keyboard_report(actions) {
        let i = choose|i: int|
            0 <= i < actions.len() && (#[trigger] actions[i]) is Notify
                && actions[i]->Notify_report is Keyboard;
        assert(all[i] is Notify);
    }
    if has_mouse_report(actions) {
        let i = choose|i: int|
            0 <= i < actions.len() && (#[trigger] actions[i]) is Notify
                && actions[i]->Notify_report is Mouse;
        assert(all[i] is Notify);
    }
    if has_consumer_report(actions) {
        let i = choose|i: int|
            0 <= i < actions.len() && (#[trigger] actions[i]) is Notify
                && actions[i]->Notify_report is Consumer;
        assert(all[i] is Notify);
    }
}

/// Whether an action sets the lights of an interface.
pub open spec fn sets_lights(
    action: ActionView,
    r: UsbHidInterfaceRegistration,
    leds: KeyboardLedState,
) -> bool {
    action == (ActionView::SetLeds { interface_id: r.interface_id, device_id: r.device_id, leds })
}

/// Whether one of some actions sets the lights of an interface.
pub open spec fn lights_up(
    actions: Seq<ActionView>,
    r: UsbHidInterfaceRegistration,
    leds: KeyboardLedState,
) -> bool {
    exists|k: int| 0 <= k < actions.len() && sets_lights(#[trigger] actions[k], r, leds)
}

/// Whether an action sets the lights of one of some interfaces that has lights.
pub open spec fn lights_one_of(
    action: ActionView,
    interfaces: Seq<UsbHidInterfaceRegistration>,
    leds: KeyboardLedState,
) -> bool {
    exists|i: int|
        0 <= i < interfaces.len() && (#[trigger] interfaces[i]).keyboard_led_sink && sets_lights(
            action,
            interfaces[i],
            leds,
        )
}

/// The lights are set on every interface that has some, and on no other, all to
/// the same.
#[verifier::spinoff_prover]
pub proof fn law_lights_are_set_everywhere(
    interfaces: Seq<UsbHidInterfaceRegistration>,
    leds: KeyboardLedState,
)
    ensures
        led_actions(interfaces, leds).len() <= interfaces.len(),
        forall|i: int|
            0 <= i < interfaces.len() && (#[trigger] interfaces[i]).keyboard_led_sink ==> lights_up(
                led_actions(interfaces, leds),
                interfaces[i],
                leds,
            ),
        forall|k: int|
            0 <= k < led_actions(interfaces, leds).len() ==> lights_one_of(
                #[trigger] led_actions(interfaces, leds)[k],
                interfaces,
                leds,
            ),
    decreases interfaces.len(),
{
    let actions = led_actions(interfaces, leds);
    if interfaces.len() > 0 {
        let rest = interfaces.drop_last();
        let before = led_actions(rest, leds);
        let n = interfaces.len() - 1;
        law_lights_are_set_everywhere(rest, leds);
        assert forall|i: int|
            0 <= i < interfaces.len() && (
            #[trigger] interfaces[i]).keyboard_led_sink implies lights_up(
            actions,
            interfaces[i],
            leds,
        ) by {
            if i < n {
                assert(rest[i] == interfaces[i]);
                assert(lights_up(before, rest[i], leds));
                let k = choose|k: int|
                    0 <= k < before.len() && sets_lights(#[trigger] before[k], rest[i], leds);
                assert(actions[k] == before[k]);
            } else {
                assert(sets_lights(actions[before.len() as int], interfaces[i], leds));
            }
        }
        assert forall|k: int| 0 <= k < actions.len() implies lights_one_of(
            #[trigger] actions[k],
            interfaces,
            leds,
        ) by {
            if k < before.len() {
                assert(actions[k] == before[k]);
                assert(lights_one_of(before[k], rest, leds));
                let i = choose|i: int|
                    0 <= i < rest.len() && (#[trigger] rest[i]).keyboard_led_sink && sets_lights(
                        before[k],
                        rest[i],
                        leds,
                    );
                assert(interfaces[i] == rest[i]);
            } else {
                assert(interfaces[n].keyboard_led_sink);
                assert(sets_lights(actions[k], interfaces[n], leds));
            }
        }
    }
}

/// Whether some actions are all that a host needs to see everything released, and
/// nothing else: one report of zeros for each of keyboard, mouse and consumer
/// controls that it has subscribed to.
pub open spec fn releases_everything(
    actions: Seq<ActionView>,
    bridge: BridgeView,
    host_id: HostId,
    why: NotifyReason,
) -> bool {
    &&& forall|i: int|
        0 <= i < actions.len() ==> match #[trigger] actions[i] {
            ActionView::Notify { host_id: to, report, reason } => {
                &&& to == host_id
                &&& reason == why
                &&& all_zero(report.bytes())
                &&& report.bytes().len() == (match report {
                    ReportBytes::Keyboard(_) => 8int,
                    ReportBytes::Mouse(_) => 5,
                    ReportBytes::Consumer(_) => 2,
                })
            },
            _ => false,
        }
    &&& has_keyboard_report(actions) <==> bridge.hosts.sends(host_id, ReportKind::Keyboard)
    &&& has_mouse_report(actions) <==> bridge.hosts.sends(host_id, ReportKind::Mouse)
    &&& has_consumer_report(actions) <==> bridge.hosts.sends(host_id, ReportKind::Consumer)
    &&& actions.len() <= 3
}

/// The reports by which a host sees everything released are reports of zeros, one
/// for each kind that can be sent to it.
#[verifier::spinoff_prover]
pub proof fn law_release_is_complete(bridge: BridgeView, host_id: HostId, reason: NotifyReason)
    ensures
        releases_everything(bridge.releases(host_id, reason), bridge, host_id, reason),
{
    let actions = bridge.releases(host_id, reason);
    let k = bridge.hosts.sends(host_id, ReportKind::Keyboard);
    let m = bridge.hosts.sends(host_id, ReportKind::Mouse);
    let c = bridge.hosts.sends(host_id, ReportKind::Consumer);
    if k {
        assert(actions[0] is Notify && actions[0]->Notify_report is Keyboard);
    }
    if m {
        let i = if k {
            1int
        } else {
            0
        };
        assert(actions[i] is Notify && actions[i]->Notify_report is Mouse);
    }
    if c {
        let i = actions.len() - 1;
        assert(actions[i] is Notify && actions[i]->Notify_report is Consumer);
    }
}

/// The lights of a host are those that it set last, and none where it set none.
pub proof fn law_lights_of_a_host(bridge: BridgeView, host_id: HostId)
    ensures
        bridge.hosts.host(host_id) is Some && bridge.hosts.host(host_id)->0.keyboard_leds is Some
            ==> bridge.leds_of(host_id) == bridge.hosts.host(host_id)->0.keyboard_leds->0,
        bridge.hosts.host(host_id) is None || bridge.hosts.host(host_id)->0.keyboard_leds is None
            ==> bridge.leds_of(host_id).mask() == 0,
        bridge.hosts.active is None ==> bridge.active_leds().len() == 0,
        bridge.hosts.active == Some(host_id) ==> bridge.active_leds() == led_actions(
            bridge.interfaces,
            bridge.leds_of(host_id),
        ),
{
    broadcast use KeyboardLedState::lemma_of_mask;

}

/// The last thing that an event tells is who has the input and who may pair.
pub open spec fn ends_with_status(before: Run, after: Run) -> bool {
    let actions = told(before, after);
    &&& actions.len() > 0
    &&& actions.last() == ActionView::StatusChanged(
        BridgeStatus {
            active_target: after.bridge.hosts.active,
            pairable_host: after.bridge.pairable,
        },
    )
}

/// What clearing a known host leads to.
pub open spec fn clearing_actions(bridge: BridgeView, host_id: HostId, status: BridgeStatus) -> Seq<
    ActionView,
> {
    let first = if bridge.hosts.active == Some(host_id) {
        bridge.releases(host_id, NotifyReason::SafetyRelease)
    } else {
        seq![]
    };
    let second = if bridge.pairable == Some(host_id) {
        seq![ActionView::RejectPairing { host_id }]
    } else {
        seq![]
    };
    let third = seq![
        ActionView::ClearBond { host_id, bond: bridge.hosts.host(host_id)->0.bond },
        ActionView::PersistProfiles,
    ];
    let fourth = if bridge.hosts.active == Some(host_id) {
        led_actions(bridge.interfaces, KeyboardLedState::of_mask(0))
    } else {
        seq![]
    };
    first + second + third + fourth + seq![ActionView::StatusChanged(status)]
}

#[verifier::spinoff_prover]
proof fn lemma_clear(run: Run, host_id: HostId, n: nat)
    requires
        run.error is None,
        run.bridge.hosts.host(host_id) is Some,
        run.clear(host_id, n).error is None,
    ensures
        ({
            let bridge = BridgeView {
                hosts: run.bridge.hosts.cleared(host_id),
                pairable: if run.bridge.pairable == Some(host_id) {
                    None
                } else {
                    run.bridge.pairable
                },
                ..run.bridge
            };
            went_on(
                run,
                run.clear(host_id, n),
                clearing_actions(run.bridge, host_id, bridge.status()),
                bridge,
            )
        }),
{
    let bridge = run.bridge;
    let was_active = bridge.hosts.active == Some(host_id);
    let bond = bridge.hosts.host(host_id)->0.bond;
    let first = bridge.releases(host_id, NotifyReason::SafetyRelease);
    let released = if was_active {
        run.emit_all(first, n)
    } else {
        run
    };
    lemma_run_keeps_bridge(run, first, n);
    let reject = ActionView::RejectPairing { host_id };
    let may = released.to(BridgeView { pairable: None, ..released.bridge });
    let closed = if bridge.pairable == Some(host_id) {
        may.emit(reject, n)
    } else {
        released
    };
    let gone = closed.to_hosts(closed.bridge.hosts.cleared(host_id));
    let clear = ActionView::ClearBond { host_id, bond };
    let x = gone.emit(clear, n);
    let y = x.emit(ActionView::PersistProfiles, n);
    let lights = led_actions(y.bridge.interfaces, KeyboardLedState::of_mask(0));
    let dark = if was_active {
        y.emit_all(lights, n)
    } else {
        y
    };
    let z = dark.tell_status(n);
    assert(run.clear(host_id, n) == z);
    assert(dark.error is None);
    if was_active {
        lemma_no_error_before(y, lights, n);
    }
    assert(y.error is None);
    assert(x.error is None);
    assert(gone.error is None);
    assert(closed.error is None);
    assert(released.error is None);
    let l1 = if was_active {
        first
    } else {
        seq![]
    };
    if was_active {
        lemma_emitted(run, first, n);
    }
    assert(run.out + seq![] =~= run.out);
    assert(went_on(run, released, l1, bridge));
    let b2 = BridgeView {
        pairable: if bridge.pairable == Some(host_id) {
            None
        } else {
            bridge.pairable
        },
        ..bridge
    };
    let l2 = if bridge.pairable == Some(host_id) {
        seq![reject]
    } else {
        seq![]
    };
    if bridge.pairable == Some(host_id) {
        lemma_emit_on(run, may, l1, b2, reject, n);
        assert(l1.push(reject) =~= l1 + l2);
    } else {
        assert(l1 =~= l1 + l2);
    }
    assert(went_on(run, closed, l1 + l2, b2));
    let b3 = BridgeView { hosts: bridge.hosts.cleared(host_id), ..b2 };
    lemma_emit_on(run, gone, l1 + l2, b3, clear, n);
    lemma_emit_on(run, x, (l1 + l2).push(clear), b3, ActionView::PersistProfiles, n);
    let l3 = seq![clear, ActionView::PersistProfiles];
    assert((l1 + l2).push(clear).push(ActionView::PersistProfiles) =~= l1 + l2 + l3);
    let l4 = if was_active {
        lights
    } else {
        seq![]
    };
    if was_active {
        lemma_emit_all_on(run, y, l1 + l2 + l3, b3, lights, n);
    } else {
        assert(l1 + l2 + l3 + l4 =~= l1 + l2 + l3);
    }
    let status = ActionView::StatusChanged(b3.status());
    lemma_emit_on(run, dark, l1 + l2 + l3 + l4, b3, status, n);
    assert((l1 + l2 + l3 + l4).push(status) =~= l1 + l2 + l3 + l4 + seq![status]);
}

/// A known host that is cleared is forgotten: it is not among the hosts any
/// longer and has neither the input nor leave to pair. Nothing else changes.
#[verifier::spinoff_prover]
pub proof fn law_cleared_host_is_forgotten(run: Run, host_id: HostId, n: nat)
    requires
        run.error is None,
        run.bridge.hosts.wf(),
        run.bridge.hosts.host(host_id) is Some,
        run.handle(BridgeEvent::ClearHost { host_id }, n).error is None,
    ensures
        ({
            let after = run.handle(BridgeEvent::ClearHost { host_id }, n).bridge;
            let before = run.bridge;
            &&& after.hosts.host(host_id) is None
            &&& after.hosts.active == if before.hosts.active == Some(host_id) {
                None
            } else {
                before.hosts.active
            }
            &&& forall|other: HostId|
                other != host_id ==> #[trigger] after.hosts.host(other) == before.hosts.host(other)
            &&& after.pairable == if before.pairable == Some(host_id) {
                None
            } else {
                before.pairable
            }
            &&& after.input == before.input
            &&& after.hidden == before.hidden
            &&& after.devices == before.devices
            &&& after.interfaces == before.interfaces
        }),
{
    lemma_clear(run, host_id, n);
    law_forgetting(run.bridge.hosts, host_id);
}

/// Where a known host is cleared, the radio is told to clear exactly the bond that
/// was kept of it, that is kept, and the host is told that it may not pair where
/// it could. At last the status is told.
#[verifier::spinoff_prover]
pub proof fn law_cleared_host_loses_its_bond(run: Run, host_id: HostId, n: nat)
    requires
        run.error is None,
        run.bridge.hosts.host(host_id) is Some,
        run.handle(BridgeEvent::ClearHost { host_id }, n).error is None,
    ensures
        ({
            let after = run.handle(BridgeEvent::ClearHost { host_id }, n);
            let actions = told(run, after);
            &&& adds_to(run, after)
            &&& actions.contains(
                ActionView::ClearBond { host_id, bond: run.bridge.hosts.host(host_id)->0.bond },
            )
            &&& actions.contains(ActionView::PersistProfiles)
            &&& run.bridge.pairable == Some(host_id) ==> actions.contains(
                ActionView::RejectPairing { host_id },
            )
            &&& ends_with_status(run, after)
        }),
{
    let after = run.clear(host_id, n);
    lemma_clear(run, host_id, n);
    let actions = clearing_actions(run.bridge, host_id, after.bridge.status());
    lemma_went_on(run, after, actions, after.bridge);
    let first = if run.bridge.hosts.active == Some(host_id) {
        run.bridge.releases(host_id, NotifyReason::SafetyRelease).len()
    } else {
        0
    };
    let second = if run.bridge.pairable == Some(host_id) {
        1nat
    } else {
        0
    };
    let k = (first + second) as int;
    assert(actions[k] == ActionView::ClearBond {
        host_id,
        bond: run.bridge.hosts.host(host_id)->0.bond,
    });
    assert(actions[k + 1] == ActionView::PersistProfiles);
    if run.bridge.pairable == Some(host_id) {
        assert(actions[first as int] == ActionView::RejectPairing { host_id });
    }
}

/// Where the host that has the input is cleared it sees everything released before
/// anything else, and all lights go out.
#[verifier::spinoff_prover]
pub proof fn law_cleared_host_is_released(run: Run, host_id: HostId, n: nat, i: int)
    requires
        run.error is None,
        run.bridge.hosts.host(host_id) is Some,
        run.bridge.hosts.active == Some(host_id),
        run.handle(BridgeEvent::ClearHost { host_id }, n).error is None,
        0 <= i < run.bridge.interfaces.len(),
        run.bridge.interfaces[i].keyboard_led_sink,
    ensures
        ({
            let after = run.handle(BridgeEvent::ClearHost { host_id }, n);
            let actions = told(run, after);
            &&& exists|k: int|
                0 <= k <= actions.len() && releases_everything(
                    #[trigger] actions.take(k),
                    run.bridge,
                    host_id,
                    NotifyReason::SafetyRelease,
                )
            &&& lights_up(actions, run.bridge.interfaces[i], KeyboardLedState::of_mask(0))
        }),
{
    let after = run.clear(host_id, n);
    lemma_clear(run, host_id, n);
    let actions = clearing_actions(run.bridge, host_id, after.bridge.status());
    lemma_went_on(run, after, actions, after.bridge);
    let first = run.bridge.releases(host_id, NotifyReason::SafetyRelease);
    let lights = led_actions(run.bridge.interfaces, KeyboardLedState::of_mask(0));
    law_release_is_complete(run.bridge, host_id, NotifyReason::SafetyRelease);
    assert(actions.take(first.len() as int) =~= first);
    law_lights_are_set_everywhere(run.bridge.interfaces, KeyboardLedState::of_mask(0));
    let r = run.bridge.interfaces[i];
    assert(lights_up(lights, r, KeyboardLedState::of_mask(0)));
    let k = choose|k: int|
        0 <= k < lights.len() && sets_lights(
            #[trigger] lights[k],
            r,
            KeyboardLedState::of_mask(0),
        );
    let at = first.len() + 2 + (if run.bridge.pairable == Some(host_id) {
        1int
    } else {
        0
    });
    assert(actions[at + k] == lights[k]);
}

} // verus!
