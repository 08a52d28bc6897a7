//! What holds of the bridge as a whole.

use vstd::prelude::*;

use super::steps::{ActionView, BridgeView, Run};
use super::NotifyReason;
use crate::ids::HostId;
use crate::input::keyboard::{
    law_captured_is_hidden, law_held_is_what_was_reported, law_no_more_than_the_limit_is_seen,
    lemma_kept, lemma_missing, visible,
};
use crate::input::{FrameView, KeyUsage};
use crate::reports::{ReportBytes, ReportKind};
use crate::storage::StoredBond;

verus! {

/// The report that a host must have subscribed to.
pub open spec fn kind_of(report: ReportBytes) -> ReportKind {
    match report {
        ReportBytes::Keyboard(_) => ReportKind::Keyboard,
        ReportBytes::Mouse(_) => ReportKind::Mouse,
        ReportBytes::Consumer(_) => ReportKind::Consumer,
    }
}

/// Input goes to the host that has it and to no other, and only where that host
/// is connected over an encrypted link and has subscribed.
pub proof fn law_input_goes_to_the_ready_host(bridge: BridgeView, frame: FrameView, i: int)
    requires
        0 <= i < bridge.input_actions(frame).len(),
    ensures
        match bridge.input_actions(frame)[i] {
            ActionView::Notify { host_id, report, reason } => {
                &&& bridge.hosts.active == Some(host_id)
                &&& bridge.hosts.sends(host_id, kind_of(report))
            },
            _ => false,
        },
{
}

/// A report that cannot be taken in full, for want of room, changes nothing.
pub proof fn law_input_is_all_or_nothing(run: Run, frame: FrameView, n: nat)
    requires
        run.error is None,
    ensures
        run.input(frame, n).error is Some ==> run.input(frame, n).bridge == run.bridge && run.input(
            frame,
            n,
        ).out == run.out,
        run.input(frame, n).error is None ==> run.input(frame, n).out == run.out
            + run.bridge.input_actions(frame),
{
}

/// When the input goes to another host, that host has it, and sees nothing of
/// what is held at that time.
pub proof fn law_switch_hides_what_is_held(run: Run, target: HostId, reason: NotifyReason, n: nat)
    requires
        run.bridge.hosts.active != Some(target),
        run.activate(target, reason, n).error is None,
    ensures
        ({
            let after = run.activate(target, reason, n).bridge;
            &&& after.hosts.active == Some(target)
            &&& after.input == run.bridge.input
            &&& after.hidden == after.input
            &&& visible(after.input.keyboard, after.hidden.keyboard).keys.len() == 0
            &&& visible(after.input.keyboard, after.hidden.keyboard).modifiers.mask() == 0
        }),
{
    law_captured_is_hidden(run.bridge.input.keyboard);
    lemma_activated(run, target, reason, n);
}

/// When the input goes to another host, the one that had it sees everything
/// released first; then the new host is named, lights are set to its, and the
/// change is kept.
pub proof fn law_switch_releases_the_old_host(
    run: Run,
    old_host: HostId,
    target: HostId,
    reason: NotifyReason,
    n: nat,
)
    requires
        run.bridge.hosts.active == Some(old_host),
        old_host != target,
        run.activate(target, reason, n).error is None,
    ensures
        ({
            let after = run.activate(target, reason, n);
            after.out == run.out + run.bridge.releases(old_host, reason) + seq![
                ActionView::ActivateInput { host_id: target },
            ] + after.bridge.active_leds() + seq![ActionView::PersistProfiles]
        }),
{
    lemma_activated(run, target, reason, n);
    let after = run.activate(target, reason, n);
    let a = run.out + run.bridge.releases(old_host, reason);
    let b = a.push(ActionView::ActivateInput { host_id: target });
    assert(b =~= a + seq![ActionView::ActivateInput { host_id: target }]);
    let c = b + after.bridge.active_leds();
    assert(c.push(ActionView::PersistProfiles) =~= c + seq![ActionView::PersistProfiles]);
}

/// What a run that did not stop has asked for.
pub(crate) proof fn lemma_emitted(run: Run, actions: Seq<ActionView>, n: nat)
    requires
        run.emit_all(actions, n).error is None,
    ensures
        run.emit_all(actions, n) == (Run { out: run.out + actions, ..run }),
    decreases actions.len(),
{
    if actions.len() > 0 {
        let before = run.emit_all(actions.drop_last(), n);
        lemma_emitted(run, actions.drop_last(), n);
        assert((run.out + actions.drop_last()).push(actions.last()) =~= run.out + actions);
    } else {
        assert(run.out + actions =~= run.out);
    }
}

pub(crate) proof fn lemma_no_error_before(run: Run, actions: Seq<ActionView>, n: nat)
    requires
        run.emit_all(actions, n).error is None,
    ensures
        run.error is None,
    decreases actions.len(),
{
    if actions.len() > 0 {
        lemma_no_error_before(run, actions.drop_last(), n);
    }
}

pub(crate) proof fn lemma_activated(run: Run, target: HostId, reason: NotifyReason, n: nat)
    requires
        run.bridge.hosts.active != Some(target),
        run.activate(target, reason, n).error is None,
    ensures
        ({
            let after = run.activate(target, reason, n);
            let first = match run.bridge.hosts.active {
                Some(old_host) => run.out + run.bridge.releases(old_host, reason),
                None => run.out,
            };
            &&& after.bridge == (BridgeView {
                hosts: run.bridge.hosts.activated(target),
                ..run.bridge.all_hidden()
            })
            &&& after.out == (first.push(ActionView::ActivateInput { host_id: target })
                + after.bridge.active_leds()).push(ActionView::PersistProfiles)
        }),
{
    let released = match run.bridge.hosts.active {
        Some(old_host) => run.emit_all(run.bridge.releases(old_host, reason), n),
        None => run,
    };
    let hidden = released.to(released.bridge.all_hidden());
    let moved = match hidden.bridge.hosts.refusal(target) {
        Some(error) => hidden.fail(super::BridgeError::HostState(error)),
        None => hidden.to_hosts(hidden.bridge.hosts.activated(target)),
    };
    let told = moved.emit(ActionView::ActivateInput { host_id: target }, n);
    let lit = told.emit_all(told.bridge.active_leds(), n);
    assert(lit.error is None);
    lemma_no_error_before(told, told.bridge.active_leds(), n);
    lemma_emitted(told, told.bridge.active_leds(), n);
    assert(moved.error is None);
    assert(hidden.error is None);
    assert(released.error is None);
    if run.bridge.hosts.active is Some {
        lemma_emitted(run, run.bridge.releases(run.bridge.hosts.active->0, reason), n);
    }
}

/// A key that is hidden stays hidden as long as reports say that it is held.
pub proof fn law_hidden_until_released(bridge: BridgeView, frame: FrameView, key: KeyUsage)
    requires
        frame.keyboard is Some,
        bridge.hidden.keyboard.keys.contains(key),
        bridge.reported(frame).keyboard.keys.contains(key),
    ensures
        bridge.after_input(frame).hidden.keyboard.keys.contains(key),
        !visible(
            bridge.after_input(frame).input.keyboard,
            bridge.after_input(frame).hidden.keyboard,
        ).keys.contains(key),
{
    let still = bridge.still_hidden(frame).keys;
    lemma_kept(bridge.hidden.keyboard.keys, bridge.reported(frame).keyboard.keys);
    assert(still.contains(key));
    let i = still.index_of(key);
    let hidden = bridge.hidden_after(frame).keys;
    assert(hidden[i] == key);
    lemma_missing(bridge.keys_after(frame).keys, hidden);
}

/// A key that reports no longer say is held is hidden no longer, so that the
/// next press of it is seen.
pub proof fn law_released_is_not_hidden(bridge: BridgeView, frame: FrameView, key: KeyUsage)
    requires
        frame.keyboard is Some,
        !bridge.reported(frame).keyboard.keys.contains(key),
    ensures
        !bridge.after_input(frame).hidden.keyboard.keys.contains(key),
        !bridge.after_input(frame).input.keyboard.keys.contains(key),
{
    let now = bridge.reported(frame).keyboard;
    lemma_kept(bridge.hidden.keyboard.keys, now.keys);
    law_held_is_what_was_reported(bridge.input.keyboard, now, key);
    let held = bridge.keys_after(frame).keys;
    let still = bridge.still_hidden(frame).keys;
    lemma_missing(held, still);
    let hidden = bridge.hidden_after(frame).keys;
    if hidden.contains(key) {
        let i = hidden.index_of(key);
        if i < still.len() {
            assert(still.contains(key));
        } else {
            let seen = missing_keys(bridge, frame);
            assert(bridge.surplus(frame)[i - still.len()] == key);
            assert(seen[6 + i - still.len()] == key);
            assert(seen.contains(key));
        }
    }
}

/// What a host would see of all that is held.
pub open spec fn missing_keys(bridge: BridgeView, frame: FrameView) -> Seq<KeyUsage> {
    crate::input::keyboard::missing(
        bridge.keys_after(frame).keys,
        bridge.still_hidden(frame).keys,
    )
}

/// A host never sees more keys than a keyboard report can say, so no report
/// leaves a key out.
pub proof fn law_reports_leave_nothing_out(bridge: BridgeView, frame: FrameView)
    requires
        frame.keyboard is Some,
        bridge.input.keyboard.keys.no_duplicates(),
        bridge.reported(frame).keyboard.keys.no_duplicates(),
    ensures
        visible(
            bridge.after_input(frame).input.keyboard,
            bridge.after_input(frame).hidden.keyboard,
        ).keys.len() <= 6,
{
    let held = bridge.keys_after(frame).keys;
    let still = bridge.still_hidden(frame).keys;
    let now = bridge.reported(frame).keyboard.keys;
    let before = bridge.input.keyboard.keys;
    lemma_kept(before, now);
    lemma_missing(now, before);
    let a = crate::input::keyboard::kept(before, now);
    let b = crate::input::keyboard::missing(now, before);
    assert(held.no_duplicates()) by {
        assert forall|i: int, j: int| 0 <= i < held.len() && 0 <= j < held.len() && i != j implies held[i]
            != held[j] by {
            if i < a.len() && j >= a.len() {
                assert(a.contains(a[i]));
                assert(b.contains(b[j - a.len()]));
            }
            if j < a.len() && i >= a.len() {
                assert(a.contains(a[j]));
                assert(b.contains(b[i - a.len()]));
            }
        }
    }
    let seen = crate::input::keyboard::missing(held, still);
    if seen.len() > 6 {
        law_no_more_than_the_limit_is_seen(held, still, 6);
    } else {
        assert(still + bridge.surplus(frame) =~= still);
    }
}

/// Once a host has bonded, the window in which it may pair is closed.
pub proof fn law_bonding_closes_the_window(
    run: Run,
    host_id: HostId,
    encrypted: bool,
    bond: Option<StoredBond>,
    n: nat,
)
    requires
        run.error is None,
        run.bridge.pairable == Some(host_id),
        run.secure(host_id, encrypted, true, bond, n).error is None,
    ensures
        run.secure(host_id, encrypted, true, bond, n).bridge.pairable is None,
        run.secure(host_id, encrypted, true, bond, n).out.contains(
            ActionView::RejectPairing { host_id },
        ),
{
    let after = run.secure(host_id, encrypted, true, bond, n);
    let k = after.out.len() - 2;
    assert(after.out[k] == ActionView::RejectPairing { host_id });
}

/// At most one host may pair: whoever may pair next, the host that could before
/// is told that it may not.
pub proof fn law_one_window(run: Run, previous: HostId, host_id: HostId, n: nat)
    requires
        run.error is None,
        run.bridge.pairable == Some(previous),
        previous != host_id,
        run.enter_pairing(host_id, n).error is None,
    ensures
        run.enter_pairing(host_id, n).bridge.pairable == Some(host_id),
        run.enter_pairing(host_id, n).bridge.hosts.active == Some(host_id),
        run.enter_pairing(host_id, n).out.contains(
            ActionView::RejectPairing { host_id: previous },
        ),
{
    let active = run.activate(host_id, NotifyReason::TargetSwitchRelease, n);
    assert(active.error is None);
    if run.bridge.hosts.active != Some(host_id) {
        lemma_activated(run, host_id, NotifyReason::TargetSwitchRelease, n);
    }
    assert(active.bridge.pairable == Some(previous));
    let after = run.enter_pairing(host_id, n);
    let k = after.out.len() - 3;
    assert(after.out[k] == ActionView::RejectPairing { host_id: previous });
}

} // verus!
