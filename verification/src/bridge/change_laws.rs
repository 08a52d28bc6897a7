//! What hosts, interfaces and names are after an event, and who is told.

use vstd::prelude::*;

use super::event_laws::{
    adds_to, ends_with_status, law_lights_are_set_everywhere, lemma_emit_all_on, lemma_emit_if_on,
    lemma_emit_on, lemma_went_on, lights_up, told, went_on,
};
use super::host_laws::{law_activating, law_one_host_changes};
use super::host_state::HostRuntimeState;
use super::laws::{lemma_activated, lemma_no_error_before};
use super::steps::{if_so, is_interface, led_actions, ActionView, BridgeView, Run};
use super::{BridgeError, BridgeEvent, NotifyReason, UsbHidInterfaceRegistration};
use crate::ids::HostId;
use crate::input::{InputFrame, KeyboardLedState, VendorHidFrame};
use crate::lists::{first_where, lemma_first_where};
use crate::reports::ReportKind;
use crate::storage::{FixedName, StoredBond};

verus! {

/// Whether nothing but the hosts differs between two states.
pub open spec fn only_hosts_differ(before: BridgeView, after: BridgeView) -> bool {
    &&& after.input == before.input
    &&& after.devices == before.devices
    &&& after.hidden == before.hidden
    &&& after.interfaces == before.interfaces
    &&& after.pairable == before.pairable
    &&& after.stats == before.stats
}

/// Whether of all hosts at most one is known otherwise than before, and the input
/// is with the same host.
pub open spec fn only_host_differs(before: BridgeView, after: BridgeView, host_id: HostId) -> bool {
    &&& after.hosts.active == before.hosts.active
    &&& forall|other: HostId|
        other != host_id ==> #[trigger] after.hosts.host(other) == before.hosts.host(other)
}

proof fn lemma_status(start: Run, run: Run, actions: Seq<ActionView>, bridge: BridgeView, n: nat)
    requires
        went_on(start, run, actions, bridge) || run.error is Some,
        run.tell_status(n).error is None,
    ensures
        ({
            let after = run.tell_status(n);
            &&& after.bridge == bridge
            &&& adds_to(start, after)
            &&& told(start, after) == actions.push(ActionView::StatusChanged(bridge.status()))
            &&& ends_with_status(start, after)
        }),
{
    let status = ActionView::StatusChanged(run.bridge.status());
    lemma_emit_on(start, run, actions, bridge, status, n);
    lemma_went_on(start, run.tell_status(n), actions.push(status), bridge);
}

proof fn lemma_start(run: Run, bridge: BridgeView)
    requires
        run.error is None,
    ensures
        went_on(run, run.to(bridge), seq![], bridge),
{
    assert(run.out + Seq::<ActionView>::empty() =~= run.out);
}

/// A host that is refused changes nothing, and the event is answered with why it
/// was refused.
pub proof fn law_refused_host_changes_nothing(run: Run, event: BridgeEvent, host_id: HostId, n: nat)
    requires
        run.error is None,
        run.bridge.hosts.refusal(host_id) is Some,
        match event {
            BridgeEvent::HostConnected { host_id: h } => h == host_id,
            BridgeEvent::HostSecurityChanged { host_id: h, encrypted, bonded, bond } => h
                == host_id,
            BridgeEvent::CccdChanged { host_id: h, report, enabled } => h == host_id,
            BridgeEvent::HostKeyboardLedChanged { host_id: h, leds } => h == host_id,
            BridgeEvent::SetHostName { host_id: h, name } => h == host_id,
            _ => false,
        },
    ensures
        run.handle(event, n).error == Some(
            BridgeError::HostState(run.bridge.hosts.refusal(host_id)->0),
        ),
        run.handle(event, n).bridge == run.bridge,
        run.handle(event, n).out == run.out,
{
}

/// A host that connects is known to be connected, and that is all that changes.
/// The status is told and nothing else.
#[verifier::spinoff_prover]
pub proof fn law_host_connects(run: Run, host_id: HostId, n: nat)
    requires
        run.error is None,
        run.handle(BridgeEvent::HostConnected { host_id }, n).error is None,
    ensures
        ({
            let after = run.handle(BridgeEvent::HostConnected { host_id }, n);
            &&& only_hosts_differ(run.bridge, after.bridge)
            &&& only_host_differs(run.bridge, after.bridge, host_id)
            &&& after.bridge.hosts.host(host_id) is Some
            &&& after.bridge.hosts.host(host_id)->0.connected
            &&& !after.bridge.hosts.host(host_id)->0.encrypted
            &&& after.bridge.hosts.host(host_id)->0.bond == run.bridge.hosts.known(host_id).bond
            &&& after.bridge.hosts.host(host_id)->0.name == run.bridge.hosts.known(host_id).name
            &&& forall|kind: ReportKind| !after.bridge.hosts.sends(host_id, kind)
            &&& ends_with_status(run, after)
            &&& told(run, after).len() == 1
            &&& adds_to(run, after)
        }),
{
    super::host_laws::law_connecting(run.bridge.hosts, host_id);
    let bridge = BridgeView { hosts: run.bridge.hosts.connected(host_id), ..run.bridge };
    lemma_start(run, bridge);
    lemma_status(run, run.to(bridge), seq![], bridge, n);
}

/// A host that disconnects can be sent nothing any longer, and that is all that
/// changes. The status is told and nothing else.
#[verifier::spinoff_prover]
pub proof fn law_host_disconnects(run: Run, host_id: HostId, n: nat)
    requires
        run.error is None,
        run.bridge.hosts.wf(),
        run.handle(BridgeEvent::HostDisconnected { host_id }, n).error is None,
    ensures
        ({
            let after = run.handle(BridgeEvent::HostDisconnected { host_id }, n);
            &&& only_hosts_differ(run.bridge, after.bridge)
            &&& only_host_differs(run.bridge, after.bridge, host_id)
            &&& after.bridge.hosts.host(host_id) is Some <==> run.bridge.hosts.host(
                host_id,
            ) is Some
            &&& after.bridge.hosts.host(host_id) is Some ==> {
                &&& !after.bridge.hosts.host(host_id)->0.connected
                &&& after.bridge.hosts.host(host_id)->0.bond == run.bridge.hosts.host(
                    host_id,
                )->0.bond
            }
            &&& forall|kind: ReportKind| !after.bridge.hosts.sends(host_id, kind)
            &&& ends_with_status(run, after)
            &&& told(run, after).len() == 1
            &&& adds_to(run, after)
        }),
{
    super::host_laws::law_disconnecting(run.bridge.hosts, host_id);
    let bridge = BridgeView { hosts: run.bridge.hosts.disconnected(host_id), ..run.bridge };
    lemma_start(run, bridge);
    lemma_status(run, run.to(bridge), seq![], bridge, n);
}

proof fn lemma_pushed(a: Seq<ActionView>, b: ActionView, c: ActionView)
    ensures
        a.push(b).contains(c) <==> a.contains(c) || b == c,
{
    if a.contains(c) {
        let i = a.index_of(c);
        assert(a.push(b)[i] == c);
    }
    if b == c {
        assert(a.push(b)[a.len() as int] == c);
    }
}

/// After the security of a host's link changed, what is known of the host is what
/// was said. It is kept exactly where that differs from what was kept, and a host
/// that has bonded may pair no longer, and is told so.
#[verifier::spinoff_prover]
pub proof fn law_security_changes(
    run: Run,
    host_id: HostId,
    encrypted: bool,
    bonded: bool,
    bond: Option<StoredBond>,
    n: nat,
)
    requires
        run.error is None,
        run.handle(
            BridgeEvent::HostSecurityChanged { host_id, encrypted, bonded, bond },
            n,
        ).error is None,
    ensures
        ({
            let after = run.handle(
                BridgeEvent::HostSecurityChanged { host_id, encrypted, bonded, bond },
                n,
            );
            let actions = told(run, after);
            let closes = bonded && run.bridge.pairable == Some(host_id);
            &&& only_host_differs(run.bridge, after.bridge, host_id)
            &&& after.bridge.hosts.host(host_id) == Some(
                run.bridge.hosts.secured_host(host_id, encrypted, bonded, bond),
            )
            &&& after.bridge.pairable == if closes {
                None
            } else {
                run.bridge.pairable
            }
            &&& actions.contains(ActionView::PersistProfiles)
                <==> run.bridge.hosts.security_persists(host_id, bonded, bond)
            &&& actions.contains(ActionView::RejectPairing { host_id }) <==> closes
            &&& ends_with_status(run, after)
            &&& adds_to(run, after)
            &&& after.bridge.input == run.bridge.input
            &&& after.bridge.hidden == run.bridge.hidden
        }),
{
    let hosts = run.bridge.hosts;
    let host = hosts.secured_host(host_id, encrypted, bonded, bond);
    super::host_laws::law_securing(hosts, host_id, encrypted, bonded, bond);
    law_one_host_changes(hosts, host_id, host);
    let b1 = BridgeView { hosts: hosts.with(host_id, host), ..run.bridge };
    let keep = hosts.security_persists(host_id, bonded, bond);
    let start = run.to(b1);
    let kept = start.emit_if(keep, ActionView::PersistProfiles, n);
    let reject = ActionView::RejectPairing { host_id };
    let b2 = BridgeView { pairable: None, ..b1 };
    lemma_start(run, b1);
    let closes = bonded && run.bridge.pairable == Some(host_id);
    let closed = if closes {
        kept.to(b2).emit(reject, n)
    } else {
        kept
    };
    assert(kept.bridge == b1);
    assert(run.secure(host_id, encrypted, bonded, bond, n) == closed.tell_status(n));
    assert(closed.error is None);
    assert(kept.error is None);
    let none = Seq::<ActionView>::empty();
    let l1 = none + if_so(keep, ActionView::PersistProfiles);
    lemma_emit_if_on(run, start, none, b1, keep, ActionView::PersistProfiles, n);
    let status = |b: BridgeView| ActionView::StatusChanged(b.status());
    if keep {
        assert(l1[0] == ActionView::PersistProfiles);
    }
    assert(!l1.contains(reject));
    if closes {
        lemma_emit_on(run, kept.to(b2), l1, b2, reject, n);
        lemma_status(run, closed, l1.push(reject), b2, n);
        lemma_pushed(l1, reject, reject);
        lemma_pushed(l1, reject, ActionView::PersistProfiles);
        lemma_pushed(l1.push(reject), status(b2), reject);
        lemma_pushed(l1.push(reject), status(b2), ActionView::PersistProfiles);
    } else {
        lemma_status(run, closed, l1, b1, n);
        lemma_pushed(l1, status(b1), reject);
        lemma_pushed(l1, status(b1), ActionView::PersistProfiles);
    }
}

/// A host that subscribed or unsubscribed is known to, which is kept exactly where
/// it was not kept before.
#[verifier::spinoff_prover]
pub proof fn law_subscription_changes(
    run: Run,
    host_id: HostId,
    report: ReportKind,
    enabled: bool,
    n: nat,
)
    requires
        run.error is None,
        run.handle(BridgeEvent::CccdChanged { host_id, report, enabled }, n).error is None,
    ensures
        ({
            let after = run.handle(BridgeEvent::CccdChanged { host_id, report, enabled }, n);
            let actions = told(run, after);
            let stored = run.bridge.hosts.known(host_id).stored_report_ready;
            &&& only_hosts_differ(run.bridge, after.bridge)
            &&& only_host_differs(run.bridge, after.bridge, host_id)
            &&& after.bridge.hosts.host(host_id) == Some(
                run.bridge.hosts.subscribed_host(host_id, report, enabled),
            )
            &&& actions.contains(ActionView::PersistProfiles) <==> enabled != (match report {
                ReportKind::Keyboard => stored.keyboard,
                ReportKind::Mouse => stored.mouse,
                ReportKind::Consumer => stored.consumer,
                ReportKind::KeyboardOutput => stored.keyboard_output,
            })
            &&& ends_with_status(run, after)
            &&& adds_to(run, after)
        }),
{
    let hosts = run.bridge.hosts;
    let host = hosts.subscribed_host(host_id, report, enabled);
    super::host_laws::law_subscribing(hosts, host_id, report, enabled);
    law_one_host_changes(hosts, host_id, host);
    let b1 = BridgeView { hosts: hosts.with(host_id, host), ..run.bridge };
    let keep = hosts.known(host_id).stored_report_ready.has(report) != enabled;
    lemma_kept_and_told(run, b1, keep, n);
}

/// What is told where something changes that may have to be kept.
#[verifier::spinoff_prover]
proof fn lemma_kept_and_told(run: Run, bridge: BridgeView, keep: bool, n: nat)
    requires
        run.error is None,
        run.to(bridge).emit_if(keep, ActionView::PersistProfiles, n).tell_status(n).error is None,
    ensures
        ({
            let after = run.to(bridge).emit_if(keep, ActionView::PersistProfiles, n).tell_status(n);
            &&& after.bridge == bridge
            &&& told(run, after).contains(ActionView::PersistProfiles) <==> keep
            &&& ends_with_status(run, after)
            &&& adds_to(run, after)
        }),
{
    let none = Seq::<ActionView>::empty();
    let start = run.to(bridge);
    let kept = start.emit_if(keep, ActionView::PersistProfiles, n);
    let l1 = none + if_so(keep, ActionView::PersistProfiles);
    lemma_start(run, bridge);
    assert(kept.error is None);
    lemma_emit_if_on(run, start, none, bridge, keep, ActionView::PersistProfiles, n);
    lemma_status(run, kept, l1, bridge, n);
    if keep {
        assert(l1[0] == ActionView::PersistProfiles);
    }
    lemma_pushed(l1, ActionView::StatusChanged(bridge.status()), ActionView::PersistProfiles);
}

/// A host that is named has that name, which is kept exactly where it had another.
/// Nothing else that is known of it changes.
#[verifier::spinoff_prover]
pub proof fn law_name_changes(run: Run, host_id: HostId, name: FixedName, n: nat)
    requires
        run.error is None,
        run.handle(BridgeEvent::SetHostName { host_id, name }, n).error is None,
    ensures
        ({
            let after = run.handle(BridgeEvent::SetHostName { host_id, name }, n);
            let before = run.bridge.hosts.known(host_id);
            let host = after.bridge.hosts.host(host_id)->0;
            &&& only_hosts_differ(run.bridge, after.bridge)
            &&& only_host_differs(run.bridge, after.bridge, host_id)
            &&& after.bridge.hosts.host(host_id) is Some
            &&& host.name == name
            &&& host.host_id == host_id
            &&& host.connected == before.connected
            &&& host.encrypted == before.encrypted
            &&& host.bonded == before.bonded
            &&& host.bond == before.bond
            &&& host.discovered_name == before.discovered_name
            &&& host.keyboard_leds == before.keyboard_leds
            &&& host.stored_report_ready == before.stored_report_ready
            &&& host.session_report_ready == before.session_report_ready
            &&& told(run, after).contains(ActionView::PersistProfiles) <==> before.name != name
            &&& ends_with_status(run, after)
            &&& adds_to(run, after)
        }),
{
    let hosts = run.bridge.hosts;
    let host = HostRuntimeState { name, ..hosts.known(host_id) };
    super::host_laws::lemma_known_id(hosts, host_id);
    law_one_host_changes(hosts, host_id, host);
    let b1 = BridgeView { hosts: hosts.with(host_id, host), ..run.bridge };
    lemma_kept_and_told(run, b1, hosts.known(host_id).name != name, n);
}

/// Whether some actions set the lights of every interface that has some, and do
/// nothing else.
pub open spec fn lights_all(
    actions: Seq<ActionView>,
    interfaces: Seq<UsbHidInterfaceRegistration>,
    leds: KeyboardLedState,
) -> bool {
    &&& forall|i: int|
        0 <= i < interfaces.len() && (#[trigger] interfaces[i]).keyboard_led_sink ==> lights_up(
            actions,
            interfaces[i],
            leds,
        )
    &&& forall|k: int|
        0 <= k < actions.len() ==> super::event_laws::lights_one_of(
            #[trigger] actions[k],
            interfaces,
            leds,
        )
}

/// The lights that a host set are kept for it. Where it has the input, they are set
/// on every interface that has lights; where it has not, nothing is told.
#[verifier::spinoff_prover]
pub proof fn law_lights_change(run: Run, host_id: HostId, leds: KeyboardLedState, n: nat)
    requires
        run.error is None,
        run.handle(BridgeEvent::HostKeyboardLedChanged { host_id, leds }, n).error is None,
    ensures
        ({
            let after = run.handle(BridgeEvent::HostKeyboardLedChanged { host_id, leds }, n);
            let before = run.bridge.hosts.known(host_id);
            let host = after.bridge.hosts.host(host_id)->0;
            &&& only_hosts_differ(run.bridge, after.bridge)
            &&& only_host_differs(run.bridge, after.bridge, host_id)
            &&& after.bridge.hosts.host(host_id) is Some
            &&& host.keyboard_leds == Some(leds)
            &&& host.connected == before.connected
            &&& host.encrypted == before.encrypted
            &&& host.bonded == before.bonded
            &&& host.bond == before.bond
            &&& host.name == before.name
            &&& host.stored_report_ready == before.stored_report_ready
            &&& host.session_report_ready == before.session_report_ready
            &&& run.bridge.hosts.active == Some(host_id) ==> lights_all(
                told(run, after),
                run.bridge.interfaces,
                leds,
            )
            &&& run.bridge.hosts.active != Some(host_id) ==> after.out == run.out
            &&& adds_to(run, after)
        }),
{
    let hosts = run.bridge.hosts;
    let host = HostRuntimeState { keyboard_leds: Some(leds), ..hosts.known(host_id) };
    super::host_laws::lemma_known_id(hosts, host_id);
    law_one_host_changes(hosts, host_id, host);
    let b1 = BridgeView { hosts: hosts.with(host_id, host), ..run.bridge };
    lemma_start(run, b1);
    let after = run.light(host_id, leds, n);
    let none = Seq::<ActionView>::empty();
    if hosts.active == Some(host_id) {
        let actions = led_actions(run.bridge.interfaces, leds);
        lemma_emit_all_on(run, run.to(b1), none, b1, actions, n);
        lemma_went_on(run, after, none + actions, b1);
        assert(none + actions =~= actions);
        law_lights_are_set_everywhere(run.bridge.interfaces, leds);
    } else {
        lemma_went_on(run, after, none, b1);
    }
}

/// An interface that was connected is registered, in place of what was registered
/// under its number, and all others stay. Where a host has the input, its lights
/// are set on every interface that has lights, the new one too.
#[verifier::spinoff_prover]
pub proof fn law_interface_connects(run: Run, r: UsbHidInterfaceRegistration, n: nat)
    requires
        run.error is None,
        run.handle(
            BridgeEvent::UsbHidInterfaceConnected {
                interface_id: r.interface_id,
                device_id: r.device_id,
                keyboard_led_sink: r.keyboard_led_sink,
            },
            n,
        ).error is None,
    ensures
        ({
            let after = run.handle(
                BridgeEvent::UsbHidInterfaceConnected {
                    interface_id: r.interface_id,
                    device_id: r.device_id,
                    keyboard_led_sink: r.keyboard_led_sink,
                },
                n,
            );
            let b = after.bridge;
            &&& b.interfaces.contains(r)
            &&& forall|i: int|
                0 <= i < run.bridge.interfaces.len() && (
                #[trigger] run.bridge.interfaces[i]).interface_id != r.interface_id
                    ==> b.interfaces[i] == run.bridge.interfaces[i]
            &&& run.bridge.interfaces.len() <= b.interfaces.len() <= run.bridge.interfaces.len() + 1
            &&& b.hosts == run.bridge.hosts
            &&& b.input == run.bridge.input
            &&& b.hidden == run.bridge.hidden
            &&& b.devices == run.bridge.devices
            &&& b.pairable == run.bridge.pairable
            &&& b.hosts.active is Some ==> lights_all(
                told(run, after),
                b.interfaces,
                b.leds_of(b.hosts.active->0),
            )
            &&& b.hosts.active is None ==> after.out == run.out
            &&& adds_to(run, after)
        }),
{
    let there = run.bridge.with_interface(r);
    let p = is_interface(r.interface_id);
    lemma_first_where(run.bridge.interfaces, p);
    match first_where(run.bridge.interfaces, p) {
        Some(i) => {
            assert(there.interfaces[i] == r);
            assert(p(run.bridge.interfaces[i]));
        },
        None => {
            assert(there.interfaces[run.bridge.interfaces.len() as int] == r);
        },
    }
    lemma_start(run, there);
    let after = run.connect_interface(r, n);
    let none = Seq::<ActionView>::empty();
    let actions = there.active_leds();
    lemma_emit_all_on(run, run.to(there), none, there, actions, n);
    lemma_went_on(run, after, none + actions, there);
    assert(none + actions =~= actions);
    if there.hosts.active is Some {
        law_lights_are_set_everywhere(
            there.interfaces,
            there.leds_of(there.hosts.active->0),
        );
    }
}

/// Nothing but the count of them follows from reports that the bridge does not
/// know.
pub proof fn law_vendor_reports_are_ignored(run: Run, frame: VendorHidFrame, n: nat)
    requires
        run.error is None,
        run.bridge.stats.vendor_frames_ignored < u32::MAX,
    ensures
        ({
            let after = run.handle(BridgeEvent::InputFrame(InputFrame::Vendor(frame)), n);
            &&& after.error is None
            &&& after.out == run.out
            &&& after.bridge.input == run.bridge.input
            &&& after.bridge.hosts == run.bridge.hosts
            &&& after.bridge.devices == run.bridge.devices
            &&& after.bridge.hidden == run.bridge.hidden
            &&& after.bridge.interfaces == run.bridge.interfaces
            &&& after.bridge.pairable == run.bridge.pairable
            &&& after.bridge.stats.vendor_frames_ignored
                == run.bridge.stats.vendor_frames_ignored + 1
        }),
{
}

/// To switch to the host that has the input already changes nothing and releases
/// nothing.
#[verifier::spinoff_prover]
pub proof fn law_switch_to_the_same_host(run: Run, target: HostId, n: nat)
    requires
        run.error is None,
        run.bridge.hosts.active == Some(target),
        run.handle(BridgeEvent::SwitchTarget { target }, n).error is None,
    ensures
        ({
            let after = run.handle(BridgeEvent::SwitchTarget { target }, n);
            &&& after.bridge == run.bridge
            &&& told(run, after).len() == 1
            &&& ends_with_status(run, after)
            &&& adds_to(run, after)
        }),
{
    lemma_start(run, run.bridge);
    lemma_status(run, run, seq![], run.bridge, n);
}

/// When the input is switched to another host that host has it, and what is held
/// then is hidden from it until it is released. The host that had it before sees
/// everything released before anything else; then the new host is named, the
/// lights are set to its, the change is kept and the status told, in that order.
#[verifier::spinoff_prover]
pub proof fn law_switch_to_another_host(run: Run, target: HostId, n: nat)
    requires
        run.error is None,
        run.bridge.hosts.active != Some(target),
        run.handle(BridgeEvent::SwitchTarget { target }, n).error is None,
    ensures
        ({
            let after = run.handle(BridgeEvent::SwitchTarget { target }, n);
            let b = after.bridge;
            let lights = led_actions(b.interfaces, b.leds_of(target));
            let released = match run.bridge.hosts.active {
                Some(host_id) => run.bridge.releases(host_id, NotifyReason::TargetSwitchRelease),
                None => seq![],
            };
            &&& b.hosts.active == Some(target)
            &&& b.hosts.host(target) == Some(run.bridge.hosts.known(target))
            &&& forall|other: HostId|
                other != target ==> #[trigger] b.hosts.host(other) == run.bridge.hosts.host(other)
            &&& b.input == run.bridge.input
            &&& b.hidden == run.bridge.input
            &&& b.devices == run.bridge.devices
            &&& b.interfaces == run.bridge.interfaces
            &&& b.pairable == run.bridge.pairable
            &&& told(run, after) == released + seq![ActionView::ActivateInput { host_id: target }]
                + lights + seq![
                ActionView::PersistProfiles,
                ActionView::StatusChanged(b.status()),
            ]
            &&& ends_with_status(run, after)
            &&& adds_to(run, after)
        }),
{
    let reason = NotifyReason::TargetSwitchRelease;
    let active = run.activate(target, reason, n);
    assert(active.error is None);
    lemma_switch(run, active, target, reason, n);
    let b = active.bridge;
    let all = switch_actions(run.bridge, b, target, reason);
    lemma_status(run, active, all, b, n);
    let status = ActionView::StatusChanged(b.status());
    let first = all.drop_last();
    let keep = ActionView::PersistProfiles;
    assert(all =~= first.push(keep));
    assert(all.push(status) =~= first + seq![keep, status]);
    lemma_first_part(run.bridge, b, target, reason);
}

/// What a switch to another host leads to, but for the status.
spec fn switch_actions(
    before: BridgeView,
    after: BridgeView,
    target: HostId,
    reason: NotifyReason,
) -> Seq<ActionView> {
    let released = match before.hosts.active {
        Some(host_id) => before.releases(host_id, reason),
        None => seq![],
    };
    released + seq![ActionView::ActivateInput { host_id: target }] + led_actions(
        after.interfaces,
        after.leds_of(target),
    ) + seq![ActionView::PersistProfiles]
}

#[verifier::spinoff_prover]
proof fn lemma_first_part(
    before: BridgeView,
    after: BridgeView,
    target: HostId,
    reason: NotifyReason,
)
    ensures
        ({
            let released = match before.hosts.active {
                Some(host_id) => before.releases(host_id, reason),
                None => seq![],
            };
            switch_actions(before, after, target, reason).drop_last() == released + seq![
                ActionView::ActivateInput { host_id: target },
            ] + led_actions(after.interfaces, after.leds_of(target))
        }),
        switch_actions(before, after, target, reason).last() == ActionView::PersistProfiles,
        switch_actions(before, after, target, reason).len() > 0,
{
    let released = match before.hosts.active {
        Some(host_id) => before.releases(host_id, reason),
        None => seq![],
    };
    let first = released + seq![ActionView::ActivateInput { host_id: target }] + led_actions(
        after.interfaces,
        after.leds_of(target),
    );
    assert(switch_actions(before, after, target, reason) =~= first.push(
        ActionView::PersistProfiles,
    ));
    assert(first.push(ActionView::PersistProfiles).drop_last() =~= first);
}

#[verifier::spinoff_prover]
proof fn lemma_switch(run: Run, active: Run, target: HostId, reason: NotifyReason, n: nat)
    requires
        run.error is None,
        run.bridge.hosts.active != Some(target),
        active == run.activate(target, reason, n),
        active.error is None,
    ensures
        ({
            let b = active.bridge;
            &&& went_on(run, active, switch_actions(run.bridge, b, target, reason), b)
            &&& b.hosts.active == Some(target)
            &&& b.hosts.host(target) == Some(run.bridge.hosts.known(target))
            &&& forall|other: HostId|
                other != target ==> #[trigger] b.hosts.host(other) == run.bridge.hosts.host(other)
            &&& b.input == run.bridge.input
            &&& b.hidden == run.bridge.input
            &&& b.devices == run.bridge.devices
            &&& b.interfaces == run.bridge.interfaces
            &&& b.pairable == run.bridge.pairable
        }),
{
    lemma_activated(run, target, reason, n);
    lemma_not_refused(run, target, reason, n);
    law_activating(run.bridge.hosts, target);
    let b = active.bridge;
    let released = match run.bridge.hosts.active {
        Some(host_id) => run.bridge.releases(host_id, reason),
        None => seq![],
    };
    let name = ActionView::ActivateInput { host_id: target };
    lemma_chain(run.out, active.out, released, name, b.active_leds(), ActionView::PersistProfiles);
}

proof fn lemma_chain(
    start: Seq<ActionView>,
    end: Seq<ActionView>,
    a: Seq<ActionView>,
    b: ActionView,
    c: Seq<ActionView>,
    d: ActionView,
)
    requires
        end == ((start + a).push(b) + c).push(d) || (a.len() == 0 && end == (start.push(b)
            + c).push(d)),
    ensures
        end == start + (a + seq![b] + c + seq![d]),
{
    assert(end =~= start + (a + seq![b] + c + seq![d]));
}

#[verifier::spinoff_prover]
proof fn lemma_not_refused(run: Run, target: HostId, reason: NotifyReason, n: nat)
    requires
        run.bridge.hosts.active != Some(target),
        run.activate(target, reason, n).error is None,
    ensures
        run.bridge.hosts.refusal(target) is None,
        run.error is None,
{
    let released = match run.bridge.hosts.active {
        Some(old_host) => run.emit_all(run.bridge.releases(old_host, reason), n),
        None => run,
    };
    if run.bridge.hosts.active is Some {
        let actions = run.bridge.releases(run.bridge.hosts.active->0, reason);
        super::event_laws::lemma_run_keeps_bridge(run, actions, n);
    }
    let hidden = released.to(released.bridge.all_hidden());
    let moved = match hidden.bridge.hosts.refusal(target) {
        Some(error) => hidden.fail(BridgeError::HostState(error)),
        None => hidden.to_hosts(hidden.bridge.hosts.activated(target)),
    };
    let told = moved.emit(ActionView::ActivateInput { host_id: target }, n);
    let lit = told.emit_all(told.bridge.active_leds(), n);
    assert(lit.error is None);
    lemma_no_error_before(told, told.bridge.active_leds(), n);
    assert(moved.error is None);
    assert(hidden.error is None);
    assert(released.error is None);
    if run.bridge.hosts.active is Some {
        lemma_no_error_before(run, run.bridge.releases(run.bridge.hosts.active->0, reason), n);
    }
}

/// A host that is to pair may pair, has the input, and is told so; the host that
/// could pair before, if it is another, is told that it may not.
#[verifier::spinoff_prover]
pub proof fn law_pairing_begins(run: Run, host_id: HostId, n: nat)
    requires
        run.error is None,
        run.handle(BridgeEvent::EnterPairingMode { host_id }, n).error is None,
    ensures
        ({
            let after = run.handle(BridgeEvent::EnterPairingMode { host_id }, n);
            let actions = told(run, after);
            let previous = run.bridge.pairable;
            &&& after.bridge.pairable == Some(host_id)
            &&& after.bridge.hosts.active == Some(host_id)
            &&& after.bridge.input == run.bridge.input
            &&& actions.contains(ActionView::AllowPairing { host_id })
            &&& previous is Some && previous->0 != host_id ==> actions.contains(
                ActionView::RejectPairing { host_id: previous->0 },
            )
            &&& ends_with_status(run, after)
            &&& adds_to(run, after)
        }),
{
    let reason = NotifyReason::TargetSwitchRelease;
    let active = run.activate(host_id, reason, n);
    let previous = active.bridge.pairable;
    let b = BridgeView { pairable: Some(host_id), ..active.bridge };
    let open = active.to(b);
    let other = previous is Some && previous->0 != host_id;
    let reject = ActionView::RejectPairing { host_id: previous->0 };
    let allow = ActionView::AllowPairing { host_id };
    let x = open.emit_if(other, reject, n);
    let y = x.emit(allow, n);
    assert(run.enter_pairing(host_id, n) == y.tell_status(n));
    assert(y.error is None);
    assert(x.error is None);
    assert(open.error is None);
    assert(active.error is None);
    if run.bridge.hosts.active != Some(host_id) {
        lemma_activated(run, host_id, reason, n);
        lemma_activate_adds(run, host_id, reason, n);
    } else {
        assert(active.out.take(run.out.len() as int) =~= run.out);
    }
    let first = told(run, active);
    assert(run.out + first =~= active.out);
    assert(went_on(run, open, first, b));
    lemma_emit_if_on(run, open, first, b, other, reject, n);
    let l1 = first + if_so(other, reject);
    lemma_emit_on(run, x, l1, b, allow, n);
    lemma_status(run, y, l1.push(allow), b, n);
    let status = ActionView::StatusChanged(b.status());
    lemma_pushed(l1, allow, allow);
    lemma_pushed(l1.push(allow), status, allow);
    if other {
        assert(l1[first.len() as int] == reject);
        lemma_pushed(l1, allow, reject);
        lemma_pushed(l1.push(allow), status, reject);
    }
}

#[verifier::spinoff_prover]
proof fn lemma_activate_adds(run: Run, target: HostId, reason: NotifyReason, n: nat)
    requires
        run.bridge.hosts.active != Some(target),
        run.activate(target, reason, n).error is None,
    ensures
        adds_to(run, run.activate(target, reason, n)),
{
    lemma_activated(run, target, reason, n);
    let after = run.activate(target, reason, n);
    assert(after.out.take(run.out.len() as int) =~= run.out);
}

/// When the time to pair is over for the host that may pair, it may not any longer,
/// and is told so. For any other host nothing happens.
#[verifier::spinoff_prover]
pub proof fn law_pairing_ends(run: Run, host_id: HostId, n: nat)
    requires
        run.error is None,
        run.handle(BridgeEvent::PairingModeExpired { host_id }, n).error is None,
    ensures
        ({
            let after = run.handle(BridgeEvent::PairingModeExpired { host_id }, n);
            &&& after.bridge.pairable != Some(host_id)
            &&& after.bridge.hosts == run.bridge.hosts
            &&& after.bridge.input == run.bridge.input
            &&& after.bridge.hidden == run.bridge.hidden
            &&& run.bridge.pairable != Some(host_id) ==> after == run
            &&& run.bridge.pairable == Some(host_id) ==> told(run, after).len() == 2 && told(
                run,
                after,
            )[0] == (ActionView::RejectPairing { host_id }) && ends_with_status(run, after)
            &&& after.bridge.pairable is Some ==> run.bridge.pairable == after.bridge.pairable
        }),
{
    if run.bridge.pairable == Some(host_id) {
        let b = BridgeView { pairable: None, ..run.bridge };
        let reject = ActionView::RejectPairing { host_id };
        let none = Seq::<ActionView>::empty();
        lemma_start(run, b);
        lemma_emit_on(run, run.to(b), none, b, reject, n);
        lemma_status(run, run.to(b).emit(reject, n), none.push(reject), b, n);
    }
}

} // verus!
