//! What the host that has the input sees of a report.

use vstd::prelude::*;

use super::event_laws::{
    adds_to, has_consumer_report, has_keyboard_report, has_mouse_report, lemma_says_keys,
    lemma_says_usage, lemma_three, lemma_unhidden, says_keys, says_mouse, says_usage, told,
};
use super::steps::{if_so, notify, usage_number, ActionView, BridgeView, Run};
use super::{BridgeEvent, NotifyReason};
use crate::input::keyboard::{
    law_held_is_what_was_reported, lemma_kept, lemma_missing, lemma_missing_same, missing, visible,
    KeysView,
};
use crate::input::{
    ConsumerUsage, FrameView, InputFrame, InputView, KeyUsage, ModifierState, MouseButtons,
    StandardInputFrame,
};
use crate::reports::{
    keyboard_bytes, law_mouse_report_is_read_back, mouse_bytes, ReportBytes, ReportKind,
};

verus! {

/// What is held after a report by all interfaces together.
pub open spec fn held_by_all(bridge: BridgeView, frame: FrameView) -> InputView {
    bridge.devices.applied(frame).aggregate
}

/// The host that has the input, where a report of a kind can be sent to it.
pub open spec fn can_see(bridge: BridgeView, kind: ReportKind) -> bool {
    bridge.hosts.active is Some && bridge.hosts.sends(bridge.hosts.active->0, kind)
}

/// Whether a key or modifier that was held is not held any longer.
pub open spec fn something_released(before: KeysView, now: KeysView) -> bool {
    ||| exists|key: KeyUsage| #[trigger] before.keys.contains(key) && !now.keys.contains(key)
    ||| before.modifiers.mask() & !now.modifiers.mask() != 0
}

/// The usage that is seen where one is hidden.
pub open spec fn usage_seen(
    held: Option<ConsumerUsage>,
    hidden: Option<ConsumerUsage>,
) -> Option<ConsumerUsage> {
    if held == hidden {
        None
    } else {
        held
    }
}

/// Whether an action is what the host that has the input is to see of a report:
/// the keys that are held then and not hidden, the buttons likewise with the
/// movement of the report, or the consumer usage.
pub open spec fn is_input_report(
    action: ActionView,
    before: BridgeView,
    frame: FrameView,
    held: KeysView,
) -> bool {
    let now = held_by_all(before, frame);
    match action {
        ActionView::Notify { host_id, report, reason } => {
            &&& before.hosts.active == Some(host_id)
            &&& match report {
                ReportBytes::Keyboard(bytes) => {
                    &&& frame.keyboard is Some
                    &&& before.hosts.sends(host_id, ReportKind::Keyboard)
                    &&& says_keys(bytes, held, before.hidden.keyboard)
                    &&& reason == if something_released(before.input.keyboard, now.keyboard) {
                        NotifyReason::InputRelease
                    } else {
                        NotifyReason::Input
                    }
                },
                ReportBytes::Mouse(bytes) => {
                    &&& frame.mouse is Some
                    &&& before.hosts.sends(host_id, ReportKind::Mouse)
                    &&& says_mouse(
                        bytes,
                        now.buttons.mask() & !before.hidden.buttons.mask(),
                        frame.mouse->0.movement,
                    )
                    &&& reason == if before.input.buttons != now.buttons {
                        NotifyReason::InputEdge
                    } else {
                        NotifyReason::Input
                    }
                },
                ReportBytes::Consumer(bytes) => {
                    &&& frame.consumer is Some
                    &&& before.hosts.sends(host_id, ReportKind::Consumer)
                    &&& says_usage(bytes, usage_seen(now.consumer, before.hidden.consumer))
                    &&& reason == if before.input.consumer is Some && now.consumer is None {
                        NotifyReason::InputRelease
                    } else {
                        NotifyReason::Input
                    }
                },
            }
        },
        _ => false,
    }
}

/// What is held after a report of keys is what all interfaces hold together, in
/// another order at most.
proof fn lemma_keys_after(bridge: BridgeView, frame: FrameView)
    ensures
        bridge.keys_after(frame).modifiers == held_by_all(bridge, frame).keyboard.modifiers,
        forall|key: KeyUsage| #[trigger]
            bridge.keys_after(frame).keys.contains(key) <==> held_by_all(
                bridge,
                frame,
            ).keyboard.keys.contains(key),
{
    assert forall|key: KeyUsage| #[trigger]
        bridge.keys_after(frame).keys.contains(key) <==> held_by_all(
            bridge,
            frame,
        ).keyboard.keys.contains(key) by {
        law_held_is_what_was_reported(
            bridge.input.keyboard,
            held_by_all(bridge, frame).keyboard,
            key,
        );
    }
}

#[verifier::spinoff_prover]
proof fn lemma_shown(bridge: BridgeView, frame: FrameView)
    ensures
        says_keys(
            keyboard_bytes(visible(bridge.keys_after(frame), bridge.hidden_after(frame))),
            bridge.keys_after(frame),
            bridge.hidden.keyboard,
        ),
{
    broadcast use ModifierState::lemma_of_mask;

    let held = bridge.keys_after(frame);
    let hidden = bridge.hidden.keyboard;
    let still = bridge.still_hidden(frame);
    let after = bridge.hidden_after(frame);
    let shown = visible(held, after);
    lemma_keys_after(bridge, frame);
    lemma_unhidden(held.modifiers.mask(), hidden.modifiers.mask());
    lemma_kept(hidden.keys, bridge.reported(frame).keyboard.keys);
    lemma_missing(held.keys, after.keys);
    assert forall|i: int| 0 <= i < held.keys.len() implies (still.keys.contains(
        #[trigger] held.keys[i],
    ) <==> hidden.keys.contains(held.keys[i])) by {
        assert(held.keys.contains(held.keys[i]));
    }
    lemma_missing_same(held.keys, still.keys, hidden.keys);
    assert forall|key: KeyUsage| #[trigger] shown.keys.contains(key) implies held.keys.contains(
        key,
    ) && !hidden.keys.contains(key) by {
        if hidden.keys.contains(key) {
            assert(still.keys.contains(key));
            let i = still.keys.index_of(key);
            assert(after.keys[i] == key);
        }
    }
    if missing(held.keys, hidden.keys).len() <= 6 {
        assert(after.keys =~= still.keys);
    }
    lemma_says_keys(shown, held, hidden);
}

#[verifier::spinoff_prover]
proof fn lemma_lets_go(bridge: BridgeView, frame: FrameView)
    ensures
        super::steps::lets_go(bridge.input.keyboard, bridge.keys_after(frame))
            <==> something_released(bridge.input.keyboard, held_by_all(bridge, frame).keyboard),
{
    lemma_keys_after(bridge, frame);
    let before = bridge.input.keyboard;
    let now = held_by_all(bridge, frame).keyboard;
    let held = bridge.keys_after(frame);
    if exists|key: KeyUsage| #[trigger] before.keys.contains(key) && !now.keys.contains(key) {
        let key = choose|key: KeyUsage| #[trigger]
            before.keys.contains(key) && !now.keys.contains(key);
        assert(before.keys.contains(key) && !held.keys.contains(key));
    }
    if exists|key: KeyUsage| #[trigger] before.keys.contains(key) && !held.keys.contains(key) {
        let key = choose|key: KeyUsage| #[trigger]
            before.keys.contains(key) && !held.keys.contains(key);
        assert(before.keys.contains(key) && !now.keys.contains(key));
    }
}

spec fn keys_report(b: BridgeView, frame: FrameView) -> ActionView {
    notify(
        b.hosts.active->0,
        ReportBytes::Keyboard(
            keyboard_bytes(visible(b.keys_after(frame), b.hidden_after(frame))),
        ),
        if super::steps::lets_go(b.input.keyboard, b.keys_after(frame)) {
            NotifyReason::InputRelease
        } else {
            NotifyReason::Input
        },
    )
}

spec fn mouse_report(b: BridgeView, frame: FrameView) -> ActionView {
    let now = held_by_all(b, frame).buttons;
    notify(
        b.hosts.active->0,
        ReportBytes::Mouse(
            mouse_bytes(
                MouseButtons::of_mask(now.mask() & !(b.hidden.buttons.mask() & now.mask())),
                frame.mouse->0.movement,
            ),
        ),
        if b.input.buttons != now {
            NotifyReason::InputEdge
        } else {
            NotifyReason::Input
        },
    )
}

spec fn usage_report(b: BridgeView, frame: FrameView) -> ActionView {
    let now = held_by_all(b, frame).consumer;
    notify(
        b.hosts.active->0,
        ReportBytes::Consumer(
            crate::bytes::le16(usage_number(usage_seen(now, b.hidden.consumer))),
        ),
        if b.input.consumer is Some && now is None {
            NotifyReason::InputRelease
        } else {
            NotifyReason::Input
        },
    )
}

#[verifier::spinoff_prover]
proof fn lemma_input_actions(b: BridgeView, frame: FrameView)
    ensures
        b.input_actions(frame) == if_so(
            frame.keyboard is Some && can_see(b, ReportKind::Keyboard),
            keys_report(b, frame),
        ) + if_so(
            frame.mouse is Some && can_see(b, ReportKind::Mouse),
            mouse_report(b, frame),
        ) + if_so(
            frame.consumer is Some && can_see(b, ReportKind::Consumer),
            usage_report(b, frame),
        ),
{
    broadcast use MouseButtons::lemma_of_mask;

    assert(b.key_actions(frame) =~= if_so(
        frame.keyboard is Some && can_see(b, ReportKind::Keyboard),
        keys_report(b, frame),
    ));
    assert(b.mouse_actions(frame) =~= if_so(
        frame.mouse is Some && can_see(b, ReportKind::Mouse),
        mouse_report(b, frame),
    ));
    assert(b.usage_actions(frame) =~= if_so(
        frame.consumer is Some && can_see(b, ReportKind::Consumer),
        usage_report(b, frame),
    ));
}

#[verifier::spinoff_prover]
proof fn lemma_reports(b: BridgeView, frame: FrameView)
    ensures
        frame.keyboard is Some && can_see(b, ReportKind::Keyboard) ==> is_input_report(
            keys_report(b, frame),
            b,
            frame,
            b.keys_after(frame),
        ),
        frame.mouse is Some && can_see(b, ReportKind::Mouse) ==> is_input_report(
            mouse_report(b, frame),
            b,
            frame,
            b.keys_after(frame),
        ),
        frame.consumer is Some && can_see(b, ReportKind::Consumer) ==> is_input_report(
            usage_report(b, frame),
            b,
            frame,
            b.keys_after(frame),
        ),
{
    broadcast use MouseButtons::lemma_of_mask;

    lemma_shown(b, frame);
    lemma_lets_go(b, frame);
    let now = held_by_all(b, frame).buttons;
    let left = now.mask() & !(b.hidden.buttons.mask() & now.mask());
    lemma_unhidden(now.mask(), b.hidden.buttons.mask());
    if frame.mouse is Some {
        law_mouse_report_is_read_back(MouseButtons::of_mask(left), frame.mouse->0.movement);
    }
    lemma_says_usage(usage_seen(held_by_all(b, frame).consumer, b.hidden.consumer));
}

/// A report that is taken leads to one report for each of keyboard, mouse and
/// consumer controls that it speaks of and that can be sent to the host that has
/// the input, and to nothing else. Each says what that host is to see: the
/// modifiers and keys that all interfaces hold together and that are not hidden,
/// the buttons likewise, with the movement of the report axis for axis, or the
/// consumer usage.
#[verifier::spinoff_prover]
pub proof fn law_what_the_host_sees_of_a_report(run: Run, frame: StandardInputFrame, n: nat)
    requires
        run.error is None,
        run.handle(BridgeEvent::InputFrame(InputFrame::Standard(frame)), n).error is None,
    ensures
        ({
            let after = run.handle(BridgeEvent::InputFrame(InputFrame::Standard(frame)), n);
            let actions = told(run, after);
            let b = run.bridge;
            let held = if frame@.keyboard is Some {
                after.bridge.input.keyboard
            } else {
                b.keys_after(frame@)
            };
            &&& adds_to(run, after)
            &&& forall|i: int|
                0 <= i < actions.len() ==> is_input_report(#[trigger] actions[i], b, frame@, held)
            &&& has_keyboard_report(actions) <==> frame@.keyboard is Some && can_see(
                b,
                ReportKind::Keyboard,
            )
            &&& has_mouse_report(actions) <==> frame@.mouse is Some && can_see(
                b,
                ReportKind::Mouse,
            )
            &&& has_consumer_report(actions) <==> frame@.consumer is Some && can_see(
                b,
                ReportKind::Consumer,
            )
            &&& actions.len() <= 3
        }),
{
    let b = run.bridge;
    let f = frame@;
    let after = run.input(f, n);
    let actions = b.input_actions(f);
    assert(after.out == run.out + actions);
    assert(told(run, after) =~= actions);
    assert(after.out.take(run.out.len() as int) =~= run.out);
    lemma_input_actions(b, f);
    lemma_reports(b, f);
    lemma_three(
        f.keyboard is Some && can_see(b, ReportKind::Keyboard),
        keys_report(b, f),
        f.mouse is Some && can_see(b, ReportKind::Mouse),
        mouse_report(b, f),
        f.consumer is Some && can_see(b, ReportKind::Consumer),
        usage_report(b, f),
    );
}

/// After a report the bridge holds, of what the report speaks of, what all
/// interfaces hold together, and what it held before of the rest. A button stays
/// hidden as long as it is held, a usage as long as it is the one that is held, and
/// nothing becomes hidden of them. The hosts and who may pair stay.
#[verifier::spinoff_prover]
pub proof fn law_what_is_held_after_a_report(run: Run, frame: StandardInputFrame, n: nat)
    requires
        run.error is None,
        run.handle(BridgeEvent::InputFrame(InputFrame::Standard(frame)), n).error is None,
    ensures
        ({
            let after = run.handle(BridgeEvent::InputFrame(InputFrame::Standard(frame)), n).bridge;
            let before = run.bridge;
            let now = held_by_all(before, frame@);
            &&& after.devices == before.devices.applied(frame@)
            &&& after.hosts == before.hosts
            &&& after.pairable == before.pairable
            &&& after.interfaces == before.interfaces
            &&& frame@.keyboard is Some ==> {
                &&& after.input.keyboard.modifiers == now.keyboard.modifiers
                &&& forall|key: KeyUsage| #[trigger]
                    after.input.keyboard.keys.contains(key) <==> now.keyboard.keys.contains(key)
                &&& after.hidden.keyboard.modifiers.mask()
                    == before.hidden.keyboard.modifiers.mask() & now.keyboard.modifiers.mask()
            }
            &&& frame@.keyboard is None ==> after.input.keyboard == before.input.keyboard
                && after.hidden.keyboard == before.hidden.keyboard
            &&& frame@.mouse is Some ==> after.input.buttons == now.buttons
                && after.hidden.buttons.mask() == before.hidden.buttons.mask() & now.buttons.mask()
            &&& frame@.mouse is None ==> after.input.buttons == before.input.buttons
                && after.hidden.buttons == before.hidden.buttons
            &&& frame@.consumer is Some ==> after.input.consumer == now.consumer && (
            now.consumer == before.hidden.consumer ==> after.hidden.consumer
                == before.hidden.consumer) && (now.consumer != before.hidden.consumer
                ==> after.hidden.consumer is None)
            &&& frame@.consumer is None ==> after.input.consumer == before.input.consumer
                && after.hidden.consumer == before.hidden.consumer
        }),
{
    broadcast use MouseButtons::lemma_of_mask, ModifierState::lemma_of_mask;

    lemma_keys_after(run.bridge, frame@);
}

/// Each report that cannot be sent is counted: keyboard reports and movement where
/// no host can be sent them, and keyboard reports that hide keys for want of room.
#[verifier::spinoff_prover]
pub proof fn law_what_is_counted(run: Run, frame: StandardInputFrame, n: nat)
    requires
        run.error is None,
        run.handle(BridgeEvent::InputFrame(InputFrame::Standard(frame)), n).error is None,
        run.bridge.stats.input_reports_dropped_no_ready_target < u32::MAX,
        run.bridge.stats.mouse_movements_dropped < u32::MAX,
        run.bridge.stats.keyboard_reports_truncated < u32::MAX,
    ensures
        ({
            let after = run.handle(BridgeEvent::InputFrame(InputFrame::Standard(frame)), n).bridge;
            let before = run.bridge;
            let one = |condition: bool|
                if condition {
                    1int
                } else {
                    0
                };
            let m = frame@.mouse->0.movement;
            &&& after.stats.input_reports_dropped_no_ready_target
                == before.stats.input_reports_dropped_no_ready_target + one(
                frame@.keyboard is Some && !can_see(before, ReportKind::Keyboard),
            )
            &&& after.stats.mouse_movements_dropped == before.stats.mouse_movements_dropped + one(
                frame@.mouse is Some && !can_see(before, ReportKind::Mouse) && (m.x != 0 || m.y != 0
                    || m.wheel != 0 || m.pan != 0),
            )
            &&& after.stats.keyboard_reports_truncated == before.stats.keyboard_reports_truncated
                + one(
                frame@.keyboard is Some && missing(
                    after.input.keyboard.keys,
                    before.hidden.keyboard.keys,
                ).len() > 6,
            )
            &&& after.stats.vendor_frames_ignored == before.stats.vendor_frames_ignored
        }),
{
    let b = run.bridge;
    let held = b.keys_after(frame@);
    let still = b.still_hidden(frame@);
    lemma_keys_after(b, frame@);
    lemma_kept(b.hidden.keyboard.keys, b.reported(frame@).keyboard.keys);
    assert forall|i: int| 0 <= i < held.keys.len() implies (still.keys.contains(
        #[trigger] held.keys[i],
    ) <==> b.hidden.keyboard.keys.contains(held.keys[i])) by {
        assert(held.keys.contains(held.keys[i]));
    }
    lemma_missing_same(held.keys, still.keys, b.hidden.keyboard.keys);
}

} // verus!
