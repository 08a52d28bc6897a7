//! What the bridge does on each event.

use vstd::prelude::*;

use super::host_state::{HostRuntimeState, HostsView};
use super::{
    BridgeAction, BridgeError, BridgeEvent, BridgeStats, BridgeStatus, NotifyReason,
    UsbHidInterfaceRegistration,
};
use crate::bytes::{le16, zeros};
use crate::ids::{DeviceId, HostId, InterfaceId};
use crate::input::aggregator::{has_interface, together, AggregatorView};
use crate::input::keyboard::{held_after, missing, suppressed_after, visible, KeysView};
use crate::input::{
    ConsumerUsage, FrameView, InputFrame, InputView, KeyboardLedState, MouseButtons, MouseMovement,
};
use crate::lists::first_where;
use crate::reports::{keyboard_bytes, mouse_bytes, ReportBytes, ReportKind};
use crate::storage::StoredBond;

verus! {

/// The bridge.
pub struct BridgeView {
    /// What is held, as far as it was taken note of.
    pub input: InputView,
    /// What each interface holds.
    pub devices: AggregatorView,
    /// What hosts must not see until it is released.
    pub hidden: InputView,
    pub interfaces: Seq<UsbHidInterfaceRegistration>,
    pub hosts: HostsView,
    pub pairable: Option<HostId>,
    pub stats: BridgeStats,
}

/// What is to be done.
pub enum ActionView {
    Notify { host_id: HostId, report: ReportBytes, reason: NotifyReason },
    SetLeds { interface_id: InterfaceId, device_id: DeviceId, leds: KeyboardLedState },
    AllowPairing { host_id: HostId },
    RejectPairing { host_id: HostId },
    ClearBond { host_id: HostId, bond: Option<StoredBond> },
    ActivateInput { host_id: HostId },
    PersistProfiles,
    StatusChanged(BridgeStatus),
}

impl View for BridgeAction {
    type V = ActionView;

    open spec fn view(&self) -> ActionView {
        match *self {
            BridgeAction::BleNotify { host_id, report, reason } => ActionView::Notify {
                host_id,
                report: report@,
                reason,
            },
            BridgeAction::UsbSetKeyboardLeds { interface_id, device_id, leds } =>
            ActionView::SetLeds { interface_id, device_id, leds },
            BridgeAction::AllowPairing { host_id } => ActionView::AllowPairing { host_id },
            BridgeAction::RejectPairing { host_id } => ActionView::RejectPairing { host_id },
            BridgeAction::ClearBond { host_id, bond } => ActionView::ClearBond { host_id, bond },
            BridgeAction::ActivateInput { host_id } => ActionView::ActivateInput { host_id },
            BridgeAction::PersistProfiles => ActionView::PersistProfiles,
            BridgeAction::StatusChanged(status) => ActionView::StatusChanged(status),
        }
    }
}

/// What actions say.
pub open spec fn actions_of(actions: Seq<BridgeAction>) -> Seq<ActionView> {
    Seq::new(actions.len(), |i: int| actions[i]@)
}

/// One more action says one thing more.
pub proof fn lemma_actions_push(actions: Seq<BridgeAction>, action: BridgeAction)
    ensures
        actions_of(actions.push(action)) == actions_of(actions).push(action@),
{
    assert(actions_of(actions.push(action)) =~= actions_of(actions).push(action@));
}

/// A report that is to go to a host.
pub open spec fn notify(host_id: HostId, report: ReportBytes, reason: NotifyReason) -> ActionView {
    ActionView::Notify { host_id, report, reason }
}

/// A list of one, or of none.
pub open spec fn if_so(condition: bool, action: ActionView) -> Seq<ActionView> {
    if condition {
        seq![action]
    } else {
        seq![]
    }
}

/// Whether something that was held is held no longer.
pub open spec fn lets_go(before: KeysView, now: KeysView) -> bool {
    ||| exists|key: crate::input::KeyUsage| #[trigger]
        before.keys.contains(key) && !now.keys.contains(key)
    ||| before.modifiers.mask() & !now.modifiers.mask() != 0
}

/// The number of a usage, or 0 for none.
pub open spec fn usage_number(usage: Option<ConsumerUsage>) -> u16 {
    match usage {
        Some(usage) => usage.0,
        None => 0,
    }
}

/// How the lock lights of all interfaces that have some are set.
pub open spec fn led_actions(
    interfaces: Seq<UsbHidInterfaceRegistration>,
    leds: KeyboardLedState,
) -> Seq<ActionView>
    decreases interfaces.len(),
{
    if interfaces.len() == 0 {
        seq![]
    } else {
        let before = led_actions(interfaces.drop_last(), leds);
        let last = interfaces.last();
        if last.keyboard_led_sink {
            before.push(
                ActionView::SetLeds {
                    interface_id: last.interface_id,
                    device_id: last.device_id,
                    leds,
                },
            )
        } else {
            before
        }
    }
}

/// Whether it is the registration of an interface.
pub open spec fn is_interface(
    interface_id: InterfaceId,
) -> spec_fn(UsbHidInterfaceRegistration) -> bool {
    |r: UsbHidInterfaceRegistration| r.interface_id == interface_id
}

impl BridgeView {
    /// Nothing held, no host and no interface.
    pub open spec fn initial(hosts: nat) -> BridgeView {
        BridgeView {
            input: InputView::released(),
            devices: AggregatorView {
                devices: Seq::new(8, |i: int| None),
                aggregate: InputView::released(),
                next_generation: 1,
            },
            hidden: InputView::released(),
            interfaces: seq![],
            hosts: HostsView::vacant(hosts),
            pairable: None,
            stats: BridgeStats {
                input_reports_dropped_no_ready_target: 0,
                mouse_movements_dropped: 0,
                keyboard_reports_truncated: 0,
                vendor_frames_ignored: 0,
            },
        }
    }

    /// The host that has the input, where a report can be sent to it.
    pub open spec fn ready(self, kind: ReportKind) -> Option<HostId> {
        if self.hosts.active is Some && self.hosts.sends(self.hosts.active->0, kind) {
            self.hosts.active
        } else {
            None
        }
    }

    /// What is held becomes hidden, and nothing else is.
    pub open spec fn all_hidden(self) -> BridgeView {
        BridgeView { hidden: self.input, ..self }
    }

    /// The bridge's status.
    pub open spec fn status(self) -> BridgeStatus {
        BridgeStatus { active_target: self.hosts.active, pairable_host: self.pairable }
    }

    /// The reports by which a host sees everything released.
    pub open spec fn releases(self, host_id: HostId, reason: NotifyReason) -> Seq<ActionView> {
        if_so(
            self.hosts.sends(host_id, ReportKind::Keyboard),
            notify(host_id, ReportBytes::Keyboard(zeros(8)), reason),
        ) + if_so(
            self.hosts.sends(host_id, ReportKind::Mouse),
            notify(host_id, ReportBytes::Mouse(zeros(5)), reason),
        ) + if_so(
            self.hosts.sends(host_id, ReportKind::Consumer),
            notify(host_id, ReportBytes::Consumer(le16(0)), reason),
        )
    }

    /// The lock lights of a host.
    pub open spec fn leds_of(self, host_id: HostId) -> KeyboardLedState {
        match self.hosts.host(host_id) {
            Some(host) => match host.keyboard_leds {
                Some(leds) => leds,
                None => KeyboardLedState::of_mask(0),
            },
            None => KeyboardLedState::of_mask(0),
        }
    }

    /// How the lights are set to those of the host that has the input.
    pub open spec fn active_leds(self) -> Seq<ActionView> {
        match self.hosts.active {
            Some(host_id) => led_actions(self.interfaces, self.leds_of(host_id)),
            None => seq![],
        }
    }

    /// What all interfaces hold together after a report.
    pub open spec fn reported(self, frame: FrameView) -> InputView {
        self.devices.applied(frame).aggregate
    }

    /// The keys that are held after a report.
    pub open spec fn keys_after(self, frame: FrameView) -> KeysView {
        held_after(self.input.keyboard, self.reported(frame).keyboard)
    }

    /// The keys that stay hidden after a report.
    pub open spec fn still_hidden(self, frame: FrameView) -> KeysView {
        suppressed_after(self.hidden.keyboard, self.reported(frame).keyboard)
    }

    /// The keys that become hidden by a report, because they are more than a
    /// keyboard report can say.
    pub open spec fn surplus(self, frame: FrameView) -> Seq<crate::input::KeyUsage> {
        let seen = missing(self.keys_after(frame).keys, self.still_hidden(frame).keys);
        if seen.len() > 6 {
            seen.skip(6)
        } else {
            seq![]
        }
    }

    /// The keys that are hidden after a report.
    pub open spec fn hidden_after(self, frame: FrameView) -> KeysView {
        let still = self.still_hidden(frame);
        KeysView { modifiers: still.modifiers, keys: still.keys + self.surplus(frame) }
    }

    /// The report of keys that follows from a report.
    pub open spec fn key_actions(self, frame: FrameView) -> Seq<ActionView> {
        let ready = self.ready(ReportKind::Keyboard);
        if_so(
            frame.keyboard is Some && ready is Some,
            notify(
                ready->0,
                ReportBytes::Keyboard(
                    keyboard_bytes(visible(self.keys_after(frame), self.hidden_after(frame))),
                ),
                if lets_go(self.input.keyboard, self.keys_after(frame)) {
                    NotifyReason::InputRelease
                } else {
                    NotifyReason::Input
                },
            ),
        )
    }

    /// The buttons that stay hidden after a report.
    pub open spec fn buttons_hidden_after(self, frame: FrameView) -> MouseButtons {
        MouseButtons::of_mask(self.hidden.buttons.mask() & self.reported(frame).buttons.mask())
    }

    /// The report of buttons and movement that follows from a report.
    pub open spec fn mouse_actions(self, frame: FrameView) -> Seq<ActionView> {
        let ready = self.ready(ReportKind::Mouse);
        let buttons = self.reported(frame).buttons;
        if_so(
            frame.mouse is Some && ready is Some,
            notify(
                ready->0,
                ReportBytes::Mouse(
                    mouse_bytes(
                        MouseButtons::of_mask(
                            buttons.mask() & !self.buttons_hidden_after(frame).mask(),
                        ),
                        frame.mouse->0.movement,
                    ),
                ),
                if self.input.buttons != buttons {
                    NotifyReason::InputEdge
                } else {
                    NotifyReason::Input
                },
            ),
        )
    }

    /// The usage that stays hidden after a report.
    pub open spec fn usage_hidden_after(self, frame: FrameView) -> Option<ConsumerUsage> {
        if self.reported(frame).consumer == self.hidden.consumer {
            self.hidden.consumer
        } else {
            None
        }
    }

    /// The report of a usage that follows from a report.
    pub open spec fn usage_actions(self, frame: FrameView) -> Seq<ActionView> {
        let ready = self.ready(ReportKind::Consumer);
        let usage = self.reported(frame).consumer;
        if_so(
            frame.consumer is Some && ready is Some,
            notify(
                ready->0,
                ReportBytes::Consumer(
                    le16(
                        if usage == self.usage_hidden_after(frame) {
                            0
                        } else {
                            usage_number(usage)
                        },
                    ),
                ),
                if self.input.consumer is Some && usage is None {
                    NotifyReason::InputRelease
                } else {
                    NotifyReason::Input
                },
            ),
        )
    }

    /// The reports that follow from a report.
    pub open spec fn input_actions(self, frame: FrameView) -> Seq<ActionView> {
        self.key_actions(frame) + self.mouse_actions(frame) + self.usage_actions(frame)
    }

    /// The counters after a report.
    pub open spec fn stats_after(self, frame: FrameView) -> BridgeStats {
        BridgeStats {
            keyboard_reports_truncated: if frame.keyboard is Some && self.surplus(frame).len()
                > 0 {
                self.stats.keyboard_reports_truncated.saturating_add(1)
            } else {
                self.stats.keyboard_reports_truncated
            },
            input_reports_dropped_no_ready_target: if frame.keyboard is Some && self.ready(
                ReportKind::Keyboard,
            ) is None {
                self.stats.input_reports_dropped_no_ready_target.saturating_add(1)
            } else {
                self.stats.input_reports_dropped_no_ready_target
            },
            mouse_movements_dropped: if frame.mouse is Some && self.ready(ReportKind::Mouse) is None
                && frame.mouse->0.movement != MouseMovement::still() {
                self.stats.mouse_movements_dropped.saturating_add(1)
            } else {
                self.stats.mouse_movements_dropped
            },
            ..self.stats
        }
    }

    /// The bridge after a report.
    pub open spec fn after_input(self, frame: FrameView) -> BridgeView {
        let now = self.reported(frame);
        BridgeView {
            devices: self.devices.applied(frame),
            input: InputView {
                keyboard: if frame.keyboard is Some {
                    self.keys_after(frame)
                } else {
                    self.input.keyboard
                },
                buttons: if frame.mouse is Some {
                    now.buttons
                } else {
                    self.input.buttons
                },
                consumer: if frame.consumer is Some {
                    now.consumer
                } else {
                    self.input.consumer
                },
            },
            hidden: InputView {
                keyboard: if frame.keyboard is Some {
                    self.hidden_after(frame)
                } else {
                    self.hidden.keyboard
                },
                buttons: if frame.mouse is Some {
                    self.buttons_hidden_after(frame)
                } else {
                    self.hidden.buttons
                },
                consumer: if frame.consumer is Some {
                    self.usage_hidden_after(frame)
                } else {
                    self.hidden.consumer
                },
            },
            stats: self.stats_after(frame),
            ..self
        }
    }

    /// Without an interface and all that it held.
    pub open spec fn without_interface(self, interface_id: InterfaceId) -> BridgeView {
        let interfaces = match first_where(self.interfaces, is_interface(interface_id)) {
            Some(i) => self.interfaces.update(i, self.interfaces.last()).drop_last(),
            None => self.interfaces,
        };
        let devices = match first_where(self.devices.devices, has_interface(interface_id)) {
            Some(i) => AggregatorView {
                devices: self.devices.devices.update(i, None),
                aggregate: together(self.devices.devices.update(i, None)),
                ..self.devices
            },
            None => self.devices,
        };
        BridgeView { interfaces, devices, input: devices.aggregate, ..self }
    }

    /// With an interface.
    pub open spec fn with_interface(self, r: UsbHidInterfaceRegistration) -> BridgeView {
        BridgeView {
            interfaces: match first_where(self.interfaces, is_interface(r.interface_id)) {
                Some(i) => self.interfaces.update(i, r),
                None => self.interfaces.push(r),
            },
            ..self
        }
    }

    /// What is hidden and not held any longer is hidden no longer.
    pub open spec fn keys_unhidden(self) -> BridgeView {
        BridgeView {
            hidden: InputView {
                keyboard: suppressed_after(self.hidden.keyboard, self.input.keyboard),
                ..self.hidden
            },
            ..self
        }
    }

    /// What is hidden and not held any longer is hidden no longer.
    pub open spec fn buttons_unhidden(self) -> BridgeView {
        BridgeView {
            hidden: InputView {
                buttons: MouseButtons::of_mask(
                    self.hidden.buttons.mask() & self.input.buttons.mask(),
                ),
                ..self.hidden
            },
            ..self
        }
    }

    /// What is hidden and not held any longer is hidden no longer.
    pub open spec fn usage_unhidden(self) -> BridgeView {
        BridgeView {
            hidden: InputView {
                consumer: if self.input.consumer == self.hidden.consumer {
                    self.hidden.consumer
                } else {
                    None
                },
                ..self.hidden
            },
            ..self
        }
    }
}

/// The bridge in the middle of an event: its state, what is to be done so far,
/// and the error that ended it, if one did. Nothing happens after an error.
pub struct Run {
    pub bridge: BridgeView,
    pub out: Seq<ActionView>,
    pub error: Option<BridgeError>,
}

impl Run {
    /// Before anything happened.
    pub open spec fn start(bridge: BridgeView, out: Seq<ActionView>) -> Run {
        Run { bridge, out, error: None }
    }

    /// Ends with an error.
    pub open spec fn fail(self, error: BridgeError) -> Run {
        if self.error is Some {
            self
        } else {
            Run { error: Some(error), ..self }
        }
    }

    /// Goes on with another state.
    pub open spec fn to(self, bridge: BridgeView) -> Run {
        if self.error is Some {
            self
        } else {
            Run { bridge, ..self }
        }
    }

    /// Goes on with other hosts.
    pub open spec fn to_hosts(self, hosts: HostsView) -> Run {
        self.to(BridgeView { hosts, ..self.bridge })
    }

    /// Asks for one thing more, where `n` things have not been asked for yet.
    pub open spec fn emit(self, action: ActionView, n: nat) -> Run {
        if self.error is Some {
            self
        } else if self.out.len() >= n {
            self.fail(BridgeError::ActionCapacity)
        } else {
            Run { out: self.out.push(action), ..self }
        }
    }

    /// Asks for one thing more on a condition.
    pub open spec fn emit_if(self, condition: bool, action: ActionView, n: nat) -> Run {
        if condition {
            self.emit(action, n)
        } else {
            self
        }
    }

    /// Asks for several things more.
    pub open spec fn emit_all(self, actions: Seq<ActionView>, n: nat) -> Run
        decreases actions.len(),
    {
        if actions.len() == 0 {
            self
        } else {
            self.emit_all(actions.drop_last(), n).emit(actions.last(), n)
        }
    }

    /// Tells the status.
    pub open spec fn tell_status(self, n: nat) -> Run {
        self.emit(ActionView::StatusChanged(self.bridge.status()), n)
    }

    /// A report came: all that follows from it happens, or nothing.
    pub open spec fn input(self, frame: FrameView, n: nat) -> Run {
        let actions = self.bridge.input_actions(frame);
        let room = if n > self.out.len() {
            n - self.out.len()
        } else {
            0
        };
        if self.bridge.devices.refusal(frame) is Some {
            self.fail(BridgeError::Input(self.bridge.devices.refusal(frame)->0))
        } else if actions.len() > room {
            self.fail(BridgeError::ActionCapacity)
        } else {
            Run {
                bridge: self.bridge.after_input(frame),
                out: self.out + actions,
                error: self.error,
            }
        }
    }

    /// A host may pair no longer.
    pub open spec fn close_pairing(self, host_id: HostId, n: nat) -> Run {
        self.to(BridgeView { pairable: None, ..self.bridge }).emit(
            ActionView::RejectPairing { host_id },
            n,
        )
    }

    /// The input goes to another host: the old one sees everything released,
    /// and the new one sees nothing of what is held.
    pub open spec fn activate(self, target: HostId, reason: NotifyReason, n: nat) -> Run {
        if self.bridge.hosts.active == Some(target) {
            self
        } else {
            let released = match self.bridge.hosts.active {
                Some(old_host) => self.emit_all(self.bridge.releases(old_host, reason), n),
                None => self,
            };
            let hidden = released.to(released.bridge.all_hidden());
            let moved = match hidden.bridge.hosts.refusal(target) {
                Some(error) => hidden.fail(BridgeError::HostState(error)),
                None => hidden.to_hosts(hidden.bridge.hosts.activated(target)),
            };
            let told = moved.emit(ActionView::ActivateInput { host_id: target }, n);
            told.emit_all(told.bridge.active_leds(), n).emit(ActionView::PersistProfiles, n)
        }
    }

    /// A host may pair, and has the input.
    pub open spec fn enter_pairing(self, host_id: HostId, n: nat) -> Run {
        let active = self.activate(host_id, NotifyReason::TargetSwitchRelease, n);
        let previous = active.bridge.pairable;
        active.to(BridgeView { pairable: Some(host_id), ..active.bridge }).emit_if(
            previous is Some && previous->0 != host_id,
            ActionView::RejectPairing { host_id: previous->0 },
            n,
        ).emit(ActionView::AllowPairing { host_id }, n).tell_status(n)
    }

    /// The time to pair is over.
    pub open spec fn expire_pairing(self, host_id: HostId, n: nat) -> Run {
        if self.bridge.pairable == Some(host_id) {
            self.close_pairing(host_id, n).tell_status(n)
        } else {
            self
        }
    }

    /// A host is forgotten.
    pub open spec fn clear(self, host_id: HostId, n: nat) -> Run {
        let was_active = self.bridge.hosts.active == Some(host_id);
        let bond = match self.bridge.hosts.host(host_id) {
            Some(host) => host.bond,
            None => None,
        };
        let released = if was_active {
            self.emit_all(self.bridge.releases(host_id, NotifyReason::SafetyRelease), n)
        } else {
            self
        };
        let closed = if released.bridge.pairable == Some(host_id) {
            released.close_pairing(host_id, n)
        } else {
            released
        };
        if closed.bridge.hosts.index_of(host_id) is Some {
            let gone = closed.to_hosts(closed.bridge.hosts.cleared(host_id)).emit(
                ActionView::ClearBond { host_id, bond },
                n,
            ).emit(ActionView::PersistProfiles, n);
            let dark = if was_active {
                gone.emit_all(
                    led_actions(gone.bridge.interfaces, KeyboardLedState::of_mask(0)),
                    n,
                )
            } else {
                gone
            };
            dark.tell_status(n)
        } else {
            closed
        }
    }

    /// A host sees what is held, where that is not what was held before.
    pub open spec fn detach(
        self,
        host_id: HostId,
        previous: InputView,
        reason: NotifyReason,
        n: nat,
    ) -> Run {
        let a = self.to(self.bridge.keys_unhidden());
        let b = a.emit_if(
            a.bridge.hosts.sends(host_id, ReportKind::Keyboard) && previous.keyboard
                != a.bridge.input.keyboard,
            notify(
                host_id,
                ReportBytes::Keyboard(
                    keyboard_bytes(visible(a.bridge.input.keyboard, a.bridge.hidden.keyboard)),
                ),
                reason,
            ),
            n,
        );
        let c = b.to(b.bridge.buttons_unhidden());
        let d = c.emit_if(
            c.bridge.hosts.sends(host_id, ReportKind::Mouse) && previous.buttons
                != c.bridge.input.buttons,
            notify(
                host_id,
                ReportBytes::Mouse(
                    mouse_bytes(
                        MouseButtons::of_mask(
                            c.bridge.input.buttons.mask() & !c.bridge.hidden.buttons.mask(),
                        ),
                        MouseMovement::still(),
                    ),
                ),
                reason,
            ),
            n,
        );
        let e = d.to(d.bridge.usage_unhidden());
        e.emit_if(
            e.bridge.hosts.sends(host_id, ReportKind::Consumer) && previous.consumer
                != e.bridge.input.consumer,
            notify(
                host_id,
                ReportBytes::Consumer(le16(usage_number(e.bridge.input.consumer))),
                reason,
            ),
            n,
        )
    }

    /// An interface is gone, with all that it held.
    pub open spec fn remove_interface(self, interface_id: InterfaceId, n: nat) -> Run {
        let previous = self.bridge.input;
        let gone = self.to(self.bridge.without_interface(interface_id));
        let told = match gone.bridge.hosts.active {
            Some(host_id) => gone.detach(
                host_id,
                previous,
                NotifyReason::UsbDeviceRemovedRelease,
                n,
            ),
            None => gone,
        };
        told.tell_status(n)
    }

    /// The security of a host's link changed.
    pub open spec fn secure(
        self,
        host_id: HostId,
        encrypted: bool,
        bonded: bool,
        bond: Option<StoredBond>,
        n: nat,
    ) -> Run {
        let hosts = self.bridge.hosts;
        match hosts.refusal(host_id) {
            Some(error) => self.fail(BridgeError::HostState(error)),
            None => {
                let kept = self.to_hosts(
                    hosts.with(host_id, hosts.secured_host(host_id, encrypted, bonded, bond)),
                ).emit_if(
                    hosts.security_persists(host_id, bonded, bond),
                    ActionView::PersistProfiles,
                    n,
                );
                let closed = if bonded && kept.bridge.pairable == Some(host_id) {
                    kept.close_pairing(host_id, n)
                } else {
                    kept
                };
                closed.tell_status(n)
            },
        }
    }

    /// A host subscribed or unsubscribed.
    pub open spec fn subscribe(
        self,
        host_id: HostId,
        report: ReportKind,
        enabled: bool,
        n: nat,
    ) -> Run {
        let hosts = self.bridge.hosts;
        match hosts.refusal(host_id) {
            Some(error) => self.fail(BridgeError::HostState(error)),
            None => self.to_hosts(
                hosts.with(host_id, hosts.subscribed_host(host_id, report, enabled)),
            ).emit_if(
                hosts.known(host_id).stored_report_ready.has(report) != enabled,
                ActionView::PersistProfiles,
                n,
            ).tell_status(n),
        }
    }

    /// An interface was connected.
    pub open spec fn connect_interface(self, r: UsbHidInterfaceRegistration, n: nat) -> Run {
        if first_where(self.bridge.interfaces, is_interface(r.interface_id)) is None
            && self.bridge.interfaces.len() >= 8 {
            self.fail(BridgeError::UsbHidInterfaceCapacity)
        } else {
            let there = self.to(self.bridge.with_interface(r));
            there.emit_all(there.bridge.active_leds(), n)
        }
    }

    /// A host set its lock lights.
    pub open spec fn light(self, host_id: HostId, leds: KeyboardLedState, n: nat) -> Run {
        let hosts = self.bridge.hosts;
        match hosts.refusal(host_id) {
            Some(error) => self.fail(BridgeError::HostState(error)),
            None => {
                let set = self.to_hosts(
                    hosts.with(
                        host_id,
                        HostRuntimeState { keyboard_leds: Some(leds), ..hosts.known(host_id) },
                    ),
                );
                if hosts.active == Some(host_id) {
                    set.emit_all(led_actions(set.bridge.interfaces, leds), n)
                } else {
                    set
                }
            },
        }
    }

    /// A host was named.
    pub open spec fn name(self, host_id: HostId, name: crate::storage::FixedName, n: nat) -> Run {
        let hosts = self.bridge.hosts;
        match hosts.refusal(host_id) {
            Some(error) => self.fail(BridgeError::HostState(error)),
            None => self.to_hosts(
                hosts.with(host_id, HostRuntimeState { name, ..hosts.known(host_id) }),
            ).emit_if(
                hosts.known(host_id).name != name,
                ActionView::PersistProfiles,
                n,
            ).tell_status(n),
        }
    }

    /// An event came.
    pub open spec fn handle(self, event: BridgeEvent, n: nat) -> Run {
        let hosts = self.bridge.hosts;
        match event {
            BridgeEvent::InputFrame(InputFrame::Standard(frame)) => self.input(frame@, n),
            BridgeEvent::InputFrame(InputFrame::Vendor(_)) => self.to(
                BridgeView {
                    stats: BridgeStats {
                        vendor_frames_ignored: self.bridge.stats.vendor_frames_ignored.saturating_add(
                            1,
                        ),
                        ..self.bridge.stats
                    },
                    ..self.bridge
                },
            ),
            BridgeEvent::HostConnected { host_id } => match hosts.refusal(host_id) {
                Some(error) => self.fail(BridgeError::HostState(error)),
                None => self.to_hosts(hosts.connected(host_id)).tell_status(n),
            },
            BridgeEvent::HostDisconnected { host_id } => self.to_hosts(
                hosts.disconnected(host_id),
            ).tell_status(n),
            BridgeEvent::HostSecurityChanged { host_id, encrypted, bonded, bond } => self.secure(
                host_id,
                encrypted,
                bonded,
                bond,
                n,
            ),
            BridgeEvent::CccdChanged { host_id, report, enabled } => self.subscribe(
                host_id,
                report,
                enabled,
                n,
            ),
            BridgeEvent::UsbHidInterfaceConnected {
                interface_id,
                device_id,
                keyboard_led_sink,
            } => self.connect_interface(
                UsbHidInterfaceRegistration { interface_id, device_id, keyboard_led_sink },
                n,
            ),
            BridgeEvent::HostKeyboardLedChanged { host_id, leds } => self.light(host_id, leds, n),
            BridgeEvent::SetHostName { host_id, name } => self.name(host_id, name, n),
            BridgeEvent::EnterPairingMode { host_id } => self.enter_pairing(host_id, n),
            BridgeEvent::PairingModeExpired { host_id } => self.expire_pairing(host_id, n),
            BridgeEvent::ClearHost { host_id } => self.clear(host_id, n),
            BridgeEvent::SwitchTarget { target } => self.activate(
                target,
                NotifyReason::TargetSwitchRelease,
                n,
            ).tell_status(n),
            BridgeEvent::UsbDeviceRemoved { interface_id } => self.remove_interface(
                interface_id,
                n,
            ),
        }
    }

    /// Whether a result is that of the run.
    pub open spec fn gives(self, r: Result<(), BridgeError>) -> bool {
        match self.error {
            Some(error) => r == Err::<(), BridgeError>(error),
            None => r is Ok,
        }
    }
}

} // verus!
