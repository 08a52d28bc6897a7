//! From events to what is to be done: which host has the input, what it sees,
//! and what becomes of it all when hosts and devices come and go.

pub mod change_laws;
pub mod event_laws;
pub mod host_laws;
pub mod host_state;
pub mod input_laws;
pub mod laws;
pub mod pairing;
pub mod steps;

pub use host_state::{BleHostStateMachine, HostRuntimeState, HostStateError, ReportReady};
pub use pairing::{PairingMode, PairingSession};

use vstd::prelude::*;

use crate::bounded::BoundedVec;
use crate::fixed;
use crate::fixed::registrations_in_8;
use crate::ids::{DeviceId, HostId, InterfaceId};
use crate::input::keyboard::{
    lemma_held_again, lemma_kept, lemma_room_to_suppress, law_held_is_what_was_reported,
};
use crate::input::{
    ConsumerState, FrameView, InputAggregator, InputError, InputFrame, InputView, KeyUsage,
    KeyboardLedState, KeyboardSuppression, MouseButtons, MouseMovement, PhysicalInputState,
    PhysicalKeyboardState, StandardInputFrame,
};
use crate::lists::{first_where, lemma_first_at, lemma_first_none};
use crate::reports::{
    BleConsumerReport, BleHidReport, BleKeyboard6KroReport, BleKeyboardLedOutputReport,
    BleKeyboardOutputError, BleMouseReport, ReportKind, KEYBOARD_6KRO_KEY_CAPACITY,
};
use crate::storage::{FixedName, StorageError, StorageState, StorageView, StoredBond};
use steps::{
    actions_of, if_so, is_interface, led_actions, lemma_actions_push, lets_go, ActionView,
    BridgeView, Run,
};

verus! {

/// How many interfaces can be connected.
pub const BRIDGE_USB_HID_INTERFACES_MAX: usize = 8;

/// How many interfaces can hold input.
pub const BRIDGE_INPUT_INTERFACES_MAX: usize = 8;

/// An interface that is connected.
#[derive(Clone, Copy, Debug, PartialEq, Eq, Structural)]
pub struct UsbHidInterfaceRegistration {
    pub interface_id: InterfaceId,
    pub device_id: DeviceId,
    pub keyboard_led_sink: bool,
}

/// The bridge between input devices and hosts.
#[derive(Clone, Debug, PartialEq, Eq)]
pub struct Bridge<const HOSTS: usize> {
    state: BridgeState<HOSTS>,
}

/// The state of the bridge.
#[derive(Clone, Debug, PartialEq, Eq)]
pub struct BridgeState<const HOSTS: usize> {
    pub input: PhysicalInputState,
    pub input_devices: InputAggregator<BRIDGE_INPUT_INTERFACES_MAX>,
    pub suppression: SuppressionState,
    pub usb_hid_interfaces: heapless::Vec<
        UsbHidInterfaceRegistration,
        BRIDGE_USB_HID_INTERFACES_MAX,
    >,
    pub hosts: BleHostStateMachine<HOSTS>,
    pub pairable_host: Option<HostId>,
    pub stats: BridgeStats,
}

/// What hosts must not see until it is released.
#[derive(Clone, Debug, PartialEq, Eq)]
pub struct SuppressionState {
    pub keyboard: KeyboardSuppression,
    pub mouse_buttons: MouseButtons,
    pub consumer: ConsumerState,
}

/// How often something was dropped.
#[derive(Clone, Copy, Debug, PartialEq, Eq, Structural)]
pub struct BridgeStats {
    pub input_reports_dropped_no_ready_target: u32,
    pub mouse_movements_dropped: u32,
    pub keyboard_reports_truncated: u32,
    pub vendor_frames_ignored: u32,
}

/// Something that happened.
#[derive(Clone, Debug, PartialEq, Eq)]
pub enum BridgeEvent {
    InputFrame(InputFrame),
    UsbDeviceRemoved { interface_id: InterfaceId },
    UsbHidInterfaceConnected {
        interface_id: InterfaceId,
        device_id: DeviceId,
        keyboard_led_sink: bool,
    },
    HostConnected { host_id: HostId },
    HostDisconnected { host_id: HostId },
    HostSecurityChanged {
        host_id: HostId,
        encrypted: bool,
        bonded: bool,
        bond: Option<StoredBond>,
    },
    CccdChanged { host_id: HostId, report: ReportKind, enabled: bool },
    HostKeyboardLedChanged { host_id: HostId, leds: KeyboardLedState },
    SetHostName { host_id: HostId, name: FixedName },
    EnterPairingMode { host_id: HostId },
    PairingModeExpired { host_id: HostId },
    ClearHost { host_id: HostId },
    SwitchTarget { target: HostId },
}

/// Something that is to be done.
#[derive(Clone, Copy, Debug, PartialEq, Eq)]
pub enum BridgeAction {
    BleNotify { host_id: HostId, report: BleHidReport, reason: NotifyReason },
    UsbSetKeyboardLeds { interface_id: InterfaceId, device_id: DeviceId, leds: KeyboardLedState },
    AllowPairing { host_id: HostId },
    RejectPairing { host_id: HostId },
    ClearBond { host_id: HostId, bond: Option<StoredBond> },
    ActivateInput { host_id: HostId },
    PersistProfiles,
    StatusChanged(BridgeStatus),
}

/// Why a report goes to a host.
#[derive(Clone, Copy, Debug, PartialEq, Eq, Structural)]
pub enum NotifyReason {
    Input,
    /// An ordered mouse button transition. Both press and release edges use
    /// the critical lane so movement and click ordering cannot be lost.
    InputEdge,
    InputRelease,
    TargetSwitchRelease,
    UsbDeviceRemovedRelease,
    SafetyRelease,
}

/// Which host has the input, and which may pair.
#[derive(Clone, Copy, Debug, PartialEq, Eq, Structural)]
pub struct BridgeStatus {
    pub active_target: Option<HostId>,
    pub pairable_host: Option<HostId>,
}

/// Why an event was refused.
#[derive(Clone, Copy, Debug, PartialEq, Eq, Structural)]
pub enum BridgeError {
    ActionCapacity,
    UsbHidInterfaceCapacity,
    HostState(HostStateError),
    Input(InputError),
    Storage(StorageError),
}

impl From<InputError> for BridgeError {
    fn from(error: InputError) -> (r: Self) {
        Self::Input(error)
    }
}

impl vstd::std_specs::convert::FromSpecImpl<InputError> for BridgeError {
    open spec fn obeys_from_spec() -> bool {
        true
    }

    open spec fn from_spec(error: InputError) -> Self {
        BridgeError::Input(error)
    }
}

impl From<StorageError> for BridgeError {
    fn from(error: StorageError) -> (r: Self) {
        Self::Storage(error)
    }
}

impl vstd::std_specs::convert::FromSpecImpl<StorageError> for BridgeError {
    open spec fn obeys_from_spec() -> bool {
        true
    }

    open spec fn from_spec(error: StorageError) -> Self {
        BridgeError::Storage(error)
    }
}

impl From<HostStateError> for BridgeError {
    fn from(error: HostStateError) -> (r: Self) {
        Self::HostState(error)
    }
}

impl vstd::std_specs::convert::FromSpecImpl<HostStateError> for BridgeError {
    open spec fn obeys_from_spec() -> bool {
        true
    }

    open spec fn from_spec(error: HostStateError) -> Self {
        BridgeError::HostState(error)
    }
}

impl SuppressionState {
    /// Nothing hidden.
    pub fn new() -> (r: Self)
        ensures
            r@ == InputView::released(),
            r.wf(),
    {
        Self {
            keyboard: KeyboardSuppression::new(),
            mouse_buttons: MouseButtons::empty(),
            consumer: ConsumerState::new(),
        }
    }

    /// No key is hidden twice.
    pub open spec fn wf(&self) -> bool {
        self.keyboard.wf()
    }

    fn copied(&self) -> (r: Self)
        ensures
            r@ == self@,
            self.wf() ==> r.wf(),
    {
        Self {
            keyboard: self.keyboard.copied(),
            mouse_buttons: self.mouse_buttons,
            consumer: self.consumer,
        }
    }

    /// Hides what is held, and nothing else.
    fn capture(&mut self, input: &PhysicalInputState) -> (r: Result<(), InputError>)
        requires
            input.wf(),
        ensures
            r is Ok,
            final(self)@ == input@,
            final(self).wf(),
    {
        match self.keyboard.capture_from(&input.keyboard) {
            Err(error) => Err(error),
            Ok(_) => {
                self.mouse_buttons = input.mouse.buttons;
                self.consumer = input.consumer;
                Ok(())
            },
        }
    }
}

impl View for SuppressionState {
    type V = InputView;

    open spec fn view(&self) -> InputView {
        InputView {
            keyboard: self.keyboard@,
            buttons: self.mouse_buttons,
            consumer: self.consumer.active,
        }
    }
}

impl Default for SuppressionState {
    fn default() -> (r: Self)
        ensures
            r@ == InputView::released(),
            r.wf(),
    {
        Self::new()
    }
}

impl BridgeStats {
    /// Nothing was dropped.
    pub fn new() -> (r: Self)
        ensures
            r == (BridgeStats {
                input_reports_dropped_no_ready_target: 0,
                mouse_movements_dropped: 0,
                keyboard_reports_truncated: 0,
                vendor_frames_ignored: 0,
            }),
    {
        Self {
            input_reports_dropped_no_ready_target: 0,
            mouse_movements_dropped: 0,
            keyboard_reports_truncated: 0,
            vendor_frames_ignored: 0,
        }
    }
}

impl Default for BridgeStats {
    fn default() -> (r: Self)
        ensures
            r == (BridgeStats {
                input_reports_dropped_no_ready_target: 0,
                mouse_movements_dropped: 0,
                keyboard_reports_truncated: 0,
                vendor_frames_ignored: 0,
            }),
    {
        Self::new()
    }
}

impl<const HOSTS: usize> View for BridgeState<HOSTS> {
    type V = BridgeView;

    open spec fn view(&self) -> BridgeView {
        BridgeView {
            input: self.input@,
            devices: self.input_devices@,
            hidden: self.suppression@,
            interfaces: registrations_in_8(self.usb_hid_interfaces),
            hosts: self.hosts@,
            pairable: self.pairable_host,
            stats: self.stats,
        }
    }
}

impl<const HOSTS: usize> BridgeState<HOSTS> {
    /// No key is held or hidden twice, what all interfaces hold together is what
    /// each of them holds, and no two hosts share a number.
    pub open spec fn wf(&self) -> bool {
        self.input.wf() && self.input_devices.wf() && self.suppression.wf() && self.hosts@.wf()
    }

    /// Nothing held, no host and no interface.
    pub fn new() -> (r: Self)
        ensures
            r@ == BridgeView::initial(HOSTS as nat),
            r.wf(),
    {
        let r = Self {
            input: PhysicalInputState::new(),
            input_devices: InputAggregator::new(),
            suppression: SuppressionState::new(),
            usb_hid_interfaces: fixed::new_registrations(),
            hosts: BleHostStateMachine::new(),
            pairable_host: None,
            stats: BridgeStats::new(),
        };
        assert(r@.devices.devices =~= BridgeView::initial(HOSTS as nat).devices.devices);
        r
    }

    fn copied(&self) -> (r: Self)
        requires
            self.wf(),
        ensures
            r@ == self@,
            r.wf(),
    {
        Self {
            input: self.input.copied(),
            input_devices: self.input_devices.copied(),
            suppression: self.suppression.copied(),
            usb_hid_interfaces: fixed::copy(&self.usb_hid_interfaces),
            hosts: self.hosts.copied(),
            pairable_host: self.pairable_host,
            stats: self.stats,
        }
    }

    fn interface_index(&self, interface_id: InterfaceId) -> (r: Option<usize>)
        ensures
            r is None ==> first_where(self@.interfaces, is_interface(interface_id)) is None,
            r is Some ==> first_where(self@.interfaces, is_interface(interface_id)) == Some(
                r->0 as int,
            ) && r->0 < self@.interfaces.len(),
    {
        let items = fixed::items(&self.usb_hid_interfaces);
        let ghost p = is_interface(interface_id);
        let mut i: usize = 0;
        while i < items.len()
            invariant
                i <= items@.len(),
                items@ == self@.interfaces,
                p == is_interface(interface_id),
                forall|j: int| 0 <= j < i ==> !p(#[trigger] items@[j]),
            decreases items@.len() - i,
        {
            if items[i].interface_id == interface_id {
                proof {
                    lemma_first_at(items@, p, i as int);
                }
                return Some(i);
            }
            i += 1;
        }
        proof {
            lemma_first_none(items@, p);
        }
        None
    }

    fn upsert_usb_hid_interface(
        &mut self,
        interface_id: InterfaceId,
        device_id: DeviceId,
        keyboard_led_sink: bool,
    ) -> (r: Result<(), BridgeError>)
        requires
            old(self).wf(),
        ensures
            final(self).wf(),
            ({
                let item = UsbHidInterfaceRegistration {
                    interface_id,
                    device_id,
                    keyboard_led_sink,
                };
                let full = first_where(old(self)@.interfaces, is_interface(interface_id)) is None
                    && old(self)@.interfaces.len() >= 8;
                &&& full ==> r == Err::<(), BridgeError>(BridgeError::UsbHidInterfaceCapacity)
                    && final(self)@ == old(self)@
                &&& !full ==> r is Ok && final(self)@ == old(self)@.with_interface(item)
            }),
    {
        let item = UsbHidInterfaceRegistration { interface_id, device_id, keyboard_led_sink };
        if let Some(index) = self.interface_index(interface_id) {
            fixed::set(&mut self.usb_hid_interfaces, index, item);
            return Ok(());
        }
        match fixed::push(&mut self.usb_hid_interfaces, item) {
            Ok(_) => Ok(()),
            Err(_) => Err(BridgeError::UsbHidInterfaceCapacity),
        }
    }

    fn remove_usb_hid_interface(&mut self, interface_id: InterfaceId)
        requires
            old(self).wf(),
        ensures
            final(self).wf(),
            final(self)@ == (BridgeView {
                interfaces: match first_where(
                    old(self)@.interfaces,
                    is_interface(interface_id),
                ) {
                    Some(i) => old(self)@.interfaces.update(
                        i,
                        old(self)@.interfaces.last(),
                    ).drop_last(),
                    None => old(self)@.interfaces,
                },
                ..old(self)@
            }),
    {
        if let Some(index) = self.interface_index(interface_id) {
            let _ = fixed::swap_remove(&mut self.usb_hid_interfaces, index);
        }
    }
}

impl<const HOSTS: usize> Default for BridgeState<HOSTS> {
    fn default() -> (r: Self)
        ensures
            r@ == BridgeView::initial(HOSTS as nat),
            r.wf(),
    {
        Self::new()
    }
}

impl<const HOSTS: usize> View for Bridge<HOSTS> {
    type V = BridgeView;

    closed spec fn view(&self) -> BridgeView {
        self.state@
    }
}

fn push_action<const ACTIONS: usize>(
    out: &mut BoundedVec<BridgeAction, ACTIONS>,
    action: BridgeAction,
) -> (r: Result<(), BridgeError>)
    ensures
        old(out)@.len() < ACTIONS ==> r is Ok && actions_of(final(out)@) == actions_of(
            old(out)@,
        ).push(action@),
        old(out)@.len() >= ACTIONS ==> r == Err::<(), BridgeError>(BridgeError::ActionCapacity)
            && final(out)@ == old(out)@,
        actions_of(final(out)@).len() == final(out)@.len(),
{
    proof {
        lemma_actions_push(out@, action);
    }
    match out.push(action) {
        Ok(_) => Ok(()),
        Err(_) => Err(BridgeError::ActionCapacity),
    }
}

fn keyboard_contains_release(
    previous: &PhysicalKeyboardState,
    current: &PhysicalKeyboardState,
) -> (r: bool)
    ensures
        r == lets_go(previous@, current@),
{
    let keys = previous.keys();
    let mut i: usize = 0;
    while i < keys.len()
        invariant
            i <= keys@.len(),
            keys@ == previous@.keys,
            forall|j: int| 0 <= j < i ==> current@.keys.contains(#[trigger] keys@[j]),
        decreases keys@.len() - i,
    {
        if !current.contains_key(keys[i]) {
            assert(previous@.keys.contains(keys@[i as int]));
            return true;
        }
        i += 1;
    }
    assert(!exists|key: KeyUsage| #[trigger]
        previous@.keys.contains(key) && !current@.keys.contains(key));
    !previous.modifiers.difference(current.modifiers).is_empty()
}

impl<const HOSTS: usize> Bridge<HOSTS> {
    /// No key is held or hidden twice, what all interfaces hold together is what
    /// each of them holds, and no two hosts share a number.
    pub closed spec fn wf(&self) -> bool {
        self.state.wf()
    }

    /// What `wf` says of the view.
    pub proof fn lemma_wf(&self)
        requires
            self.wf(),
        ensures
            self@.hosts.wf(),
            self@.hosts.hosts.len() == HOSTS,
            self@.devices.devices.len() == 8,
            self@.devices.aggregate == crate::input::aggregator::together(self@.devices.devices),
            crate::input::aggregator::one_place_each(self@.devices.devices),
            self@.input.keyboard.keys.no_duplicates(),
            self@.hidden.keyboard.keys.no_duplicates(),
    {
        self.state.hosts.lemma_places();
        self.state.input_devices.lemma_wf();
    }

    /// Nothing held, no host and no interface.
    pub fn new() -> (r: Self)
        ensures
            r.wf(),
            r@ == BridgeView::initial(HOSTS as nat),
    {
        Self { state: BridgeState::new() }
    }

    /// The bridge's state.
    pub fn state(&self) -> (r: &BridgeState<HOSTS>)
        ensures
            r@ == self@,
            r.wf() == self.wf(),
    {
        &self.state
    }

    /// Quiesce is the one path that intentionally changes only the session
    /// state of a host. Other changes go through `handle_event`, so that what
    /// follows from them cannot be lost.
    pub fn mark_host_disconnected_for_quiesce(&mut self, host_id: HostId)
        requires
            old(self).wf(),
        ensures
            final(self).wf(),
            final(self)@ == (BridgeView {
                hosts: old(self)@.hosts.disconnected(host_id),
                ..old(self)@
            }),
    {
        self.state.hosts.on_disconnected(host_id);
    }

    /// Hides all that is held.
    pub fn prepare_for_quiesce(&mut self) -> (r: Result<(), BridgeError>)
        requires
            old(self).wf(),
        ensures
            final(self).wf(),
            r is Ok,
            final(self)@ == old(self)@.all_hidden(),
    {
        match self.state.suppression.capture(&self.state.input) {
            Ok(_) => Ok(()),
            Err(error) => Err(BridgeError::Input(error)),
        }
    }

    /// Notes the name that a host gives itself. Says whether that is another
    /// name.
    pub fn set_discovered_host_name(&mut self, host_id: HostId, name: FixedName) -> (r: Result<
        bool,
        HostStateError,
    >)
        requires
            old(self).wf(),
        ensures
            final(self).wf(),
            ({
                let hosts = old(self)@.hosts;
                match hosts.refusal(host_id) {
                    Some(error) => r == Err::<bool, HostStateError>(error) && final(self)@
                        == old(self)@,
                    None => r == Ok::<bool, HostStateError>(
                        hosts.known(host_id).discovered_name != name,
                    ) && final(self)@ == (BridgeView {
                        hosts: hosts.with(
                            host_id,
                            HostRuntimeState { discovered_name: name, ..hosts.known(host_id) },
                        ),
                        ..old(self)@
                    }),
                }
            }),
    {
        self.state.hosts.set_discovered_name(host_id, name)
    }

    /// Handles an event. Where that fails, nothing has changed; otherwise `out`
    /// says what is to be done.
    pub fn handle_event<const ACTIONS: usize>(
        &mut self,
        event: BridgeEvent,
        out: &mut BoundedVec<BridgeAction, ACTIONS>,
    ) -> (r: Result<(), BridgeError>)
        requires
            old(self).wf(),
        ensures
            final(self).wf(),
            ({
                let run = Run::start(old(self)@, seq![]).handle(event, ACTIONS as nat);
                &&& run.gives(r)
                &&& r is Ok ==> final(self)@ == run.bridge && actions_of(final(out)@) == run.out
                &&& r is Err ==> final(self)@ == old(self)@ && final(out)@ == old(out)@
            }),
    {
        let mut next = Self { state: self.state.copied() };
        let mut next_actions = BoundedVec::new();
        assert(actions_of(next_actions@) =~= seq![]);
        match next.handle_event_in_place(event, &mut next_actions) {
            Err(error) => Err(error),
            Ok(_) => {
                *self = next;
                *out = next_actions;
                Ok(())
            },
        }
    }

    /// Handles an event, and puts what is to be done behind what `out` holds.
    /// Where that fails on a report, nothing has changed; on another event, what
    /// came before the failure has happened.
    pub fn handle_event_in_place<const ACTIONS: usize>(
        &mut self,
        event: BridgeEvent,
        out: &mut BoundedVec<BridgeAction, ACTIONS>,
    ) -> (r: Result<(), BridgeError>)
        requires
            old(self).wf(),
        ensures
            final(self).wf(),
            ({
                let run = Run::start(old(self)@, actions_of(old(out)@)).handle(
                    event,
                    ACTIONS as nat,
                );
                &&& run.gives(r)
                &&& final(self)@ == run.bridge
                &&& actions_of(final(out)@) == run.out
            }),
    {
        match event {
            BridgeEvent::InputFrame(frame) => self.handle_input_frame(frame, out),
            BridgeEvent::HostConnected { host_id } => {
                match self.state.hosts.on_connected(host_id) {
                    Err(error) => Err(BridgeError::HostState(error)),
                    Ok(_) => self.push_status(out),
                }
            },
            BridgeEvent::HostDisconnected { host_id } => {
                self.state.hosts.on_disconnected(host_id);
                self.push_status(out)
            },
            BridgeEvent::HostSecurityChanged { host_id, encrypted, bonded, bond } => {
                self.change_security(host_id, encrypted, bonded, bond, out)
            },
            BridgeEvent::CccdChanged { host_id, report, enabled } => {
                match self.state.hosts.on_cccd_changed(host_id, report, enabled) {
                    Err(error) => Err(BridgeError::HostState(error)),
                    Ok(persist) => self.persist_and_tell(persist, out),
                }
            },
            BridgeEvent::UsbHidInterfaceConnected {
                interface_id,
                device_id,
                keyboard_led_sink,
            } => {
                match self.state.upsert_usb_hid_interface(
                    interface_id,
                    device_id,
                    keyboard_led_sink,
                ) {
                    Err(error) => Err(error),
                    Ok(_) => self.apply_active_host_leds(out),
                }
            },
            BridgeEvent::HostKeyboardLedChanged { host_id, leds } => {
                match self.state.hosts.on_keyboard_led_changed(host_id, leds) {
                    Err(error) => Err(BridgeError::HostState(error)),
                    Ok(_) => if self.state.hosts.active_target() == Some(host_id) {
                        self.push_usb_keyboard_leds(leds, out)
                    } else {
                        Ok(())
                    },
                }
            },
            BridgeEvent::SetHostName { host_id, name } => {
                match self.state.hosts.set_name(host_id, name) {
                    Err(error) => Err(BridgeError::HostState(error)),
                    Ok(persist) => self.persist_and_tell(persist, out),
                }
            },
            BridgeEvent::EnterPairingMode { host_id } => self.enter_pairing_mode(host_id, out),
            BridgeEvent::PairingModeExpired { host_id } => self.expire_pairing_mode(host_id, out),
            BridgeEvent::ClearHost { host_id } => self.clear_host(host_id, out),
            BridgeEvent::SwitchTarget { target } => self.switch_target(target, out),
            BridgeEvent::UsbDeviceRemoved { interface_id } => self.usb_device_removed(
                interface_id,
                out,
            ),
        }
    }

    fn persist_and_tell<const ACTIONS: usize>(
        &self,
        persist: bool,
        out: &mut BoundedVec<BridgeAction, ACTIONS>,
    ) -> (r: Result<(), BridgeError>)
        ensures
            ({
                let run = Run::start(self@, actions_of(old(out)@)).emit_if(
                    persist,
                    ActionView::PersistProfiles,
                    ACTIONS as nat,
                ).tell_status(ACTIONS as nat);
                &&& run.gives(r)
                &&& run.bridge == self@
                &&& actions_of(final(out)@) == run.out
            }),
    {
        if persist {
            match push_action(out, BridgeAction::PersistProfiles) {
                Err(error) => {
                    return Err(error);
                },
                Ok(_) => {},
            }
        }
        self.push_status(out)
    }

    fn change_security<const ACTIONS: usize>(
        &mut self,
        host_id: HostId,
        encrypted: bool,
        bonded: bool,
        bond: Option<StoredBond>,
        out: &mut BoundedVec<BridgeAction, ACTIONS>,
    ) -> (r: Result<(), BridgeError>)
        requires
            old(self).wf(),
        ensures
            final(self).wf(),
            ({
                let run = Run::start(old(self)@, actions_of(old(out)@)).secure(
                    host_id,
                    encrypted,
                    bonded,
                    bond,
                    ACTIONS as nat,
                );
                &&& run.gives(r)
                &&& final(self)@ == run.bridge
                &&& actions_of(final(out)@) == run.out
            }),
    {
        let persist = match self.state.hosts.on_security_changed(
            host_id,
            encrypted,
            bonded,
            bond,
        ) {
            Err(error) => {
                return Err(BridgeError::HostState(error));
            },
            Ok(persist) => persist,
        };
        if persist {
            match push_action(out, BridgeAction::PersistProfiles) {
                Err(error) => {
                    return Err(error);
                },
                Ok(_) => {},
            }
        }
        if bonded && self.state.pairable_host == Some(host_id) {
            self.state.pairable_host = None;
            match push_action(out, BridgeAction::RejectPairing { host_id }) {
                Err(error) => {
                    return Err(error);
                },
                Ok(_) => {},
            }
        }
        self.push_status(out)
    }

    fn handle_input_frame<const ACTIONS: usize>(
        &mut self,
        frame: InputFrame,
        out: &mut BoundedVec<BridgeAction, ACTIONS>,
    ) -> (r: Result<(), BridgeError>)
        requires
            old(self).wf(),
        ensures
            final(self).wf(),
            ({
                let run = Run::start(old(self)@, actions_of(old(out)@)).handle(
                    BridgeEvent::InputFrame(frame),
                    ACTIONS as nat,
                );
                &&& run.gives(r)
                &&& final(self)@ == run.bridge
                &&& actions_of(final(out)@) == run.out
            }),
    {
        match frame {
            InputFrame::Vendor(_) => {
                self.state.stats.vendor_frames_ignored =
                self.state.stats.vendor_frames_ignored.saturating_add(1);
                Ok(())
            },
            InputFrame::Standard(frame) => self.handle_standard_input_frame(frame, out),
        }
    }

    fn keyboard_part(
        &self,
        aggregate: &PhysicalInputState,
        frame: Ghost<FrameView>,
        stats: &mut BridgeStats,
        actions: &mut Vec<BridgeAction>,
    ) -> (r: Result<(PhysicalKeyboardState, KeyboardSuppression), BridgeError>)
        requires
            self.wf(),
            aggregate.wf(),
            frame@.keyboard is Some,
            aggregate@ == self@.reported(frame@),
            *old(stats) == self@.stats,
        ensures
            r is Ok,
            (r->Ok_0).0.wf(),
            (r->Ok_0).1.wf(),
            (r->Ok_0).0@ == self@.keys_after(frame@),
            (r->Ok_0).1@ == self@.hidden_after(frame@),
            *final(stats) == (BridgeStats {
                mouse_movements_dropped: self@.stats.mouse_movements_dropped,
                ..self@.stats_after(frame@)
            }),
            actions_of(final(actions)@) == actions_of(old(actions)@) + self@.key_actions(frame@),
    {
        let mut keyboard_state = self.state.input.keyboard.copied();
        let mut keyboard_suppression = self.state.suppression.keyboard.copied();
        match keyboard_state.apply_state(&aggregate.keyboard, &mut keyboard_suppression) {
            Err(error) => {
                return Err(BridgeError::Input(error));
            },
            Ok(_) => {},
        }
        let held_count: usize = keyboard_state.keys().len();
        proof {
            let held = keyboard_state@.keys;
            let hidden = keyboard_suppression@.keys;
            let now = aggregate@.keyboard.keys;
            lemma_kept(self@.hidden.keyboard.keys, now);
            assert forall|k: KeyUsage| #[trigger] hidden.contains(k) implies held.contains(k) by {
                law_held_is_what_was_reported(self@.input.keyboard, aggregate@.keyboard, k);
            }
            lemma_room_to_suppress(held, hidden);
        }
        match keyboard_suppression.suppress_visible_after(
            &keyboard_state,
            KEYBOARD_6KRO_KEY_CAPACITY,
        ) {
            Err(error) => {
                return Err(BridgeError::Input(error));
            },
            Ok(suppressed) => {
                if suppressed != 0 {
                    stats.keyboard_reports_truncated =
                    stats.keyboard_reports_truncated.saturating_add(1);
                }
            },
        }
        assert(keyboard_suppression@ == self@.hidden_after(frame@));
        match self.ready_active_host(ReportKind::Keyboard) {
            Some(host_id) => {
                let build = BleKeyboard6KroReport::from_physical_state(
                    &keyboard_state,
                    &keyboard_suppression,
                );
                let reason = if keyboard_contains_release(
                    &self.state.input.keyboard,
                    &keyboard_state,
                ) {
                    NotifyReason::InputRelease
                } else {
                    NotifyReason::Input
                };
                let action = BridgeAction::BleNotify {
                    host_id,
                    report: BleHidReport::Keyboard(build.report),
                    reason,
                };
                actions.push(action);
                assert(actions_of(actions@) =~= actions_of(old(actions)@) + self@.key_actions(
                    frame@,
                ));
            },
            None => {
                stats.input_reports_dropped_no_ready_target =
                stats.input_reports_dropped_no_ready_target.saturating_add(1);
                assert(actions_of(actions@) =~= actions_of(old(actions)@) + self@.key_actions(
                    frame@,
                ));
            },
        }
        Ok((keyboard_state, keyboard_suppression))
    }

    fn mouse_part(
        &self,
        aggregate: &PhysicalInputState,
        frame: &StandardInputFrame,
        stats: &mut BridgeStats,
        actions: &mut Vec<BridgeAction>,
    ) -> (r: MouseButtons)
        requires
            self.wf(),
            frame@.mouse is Some,
            aggregate@ == self@.reported(frame@),
            old(stats).mouse_movements_dropped == self@.stats.mouse_movements_dropped,
        ensures
            r == self@.buttons_hidden_after(frame@),
            *final(stats) == (BridgeStats {
                mouse_movements_dropped: self@.stats_after(frame@).mouse_movements_dropped,
                ..*old(stats)
            }),
            actions_of(final(actions)@) == actions_of(old(actions)@) + self@.mouse_actions(frame@),
    {
        let buttons = aggregate.mouse.buttons;
        let suppressed = self.state.suppression.mouse_buttons.intersection(buttons);
        if let Some(mouse) = frame.mouse {
            let visible_buttons = buttons.without(suppressed);
            match self.ready_active_host(ReportKind::Mouse) {
                Some(host_id) => {
                    let reason = if self.state.input.mouse.buttons != buttons {
                        NotifyReason::InputEdge
                    } else {
                        NotifyReason::Input
                    };
                    let report = BleMouseReport::from_frame(visible_buttons, mouse.movement);
                    let action = BridgeAction::BleNotify {
                        host_id,
                        report: BleHidReport::Mouse(report),
                        reason,
                    };
                    actions.push(action);
                },
                None => {
                    if mouse.movement != MouseMovement::neutral() {
                        stats.mouse_movements_dropped =
                        stats.mouse_movements_dropped.saturating_add(1);
                    }
                },
            }
        }
        assert(actions_of(actions@) =~= actions_of(old(actions)@) + self@.mouse_actions(frame@));
        suppressed
    }

    fn consumer_part(
        &self,
        aggregate: &PhysicalInputState,
        frame: Ghost<FrameView>,
        actions: &mut Vec<BridgeAction>,
    ) -> (r: ConsumerState)
        requires
            self.wf(),
            frame@.consumer is Some,
            aggregate@ == self@.reported(frame@),
        ensures
            r.active == self@.usage_hidden_after(frame@),
            actions_of(final(actions)@) == actions_of(old(actions)@) + self@.usage_actions(frame@),
    {
        let consumer_state = aggregate.consumer;
        let mut consumer_suppression = self.state.suppression.consumer;
        if consumer_state.active != consumer_suppression.active {
            consumer_suppression.active = None;
        }
        if let Some(host_id) = self.ready_active_host(ReportKind::Consumer) {
            let visible_consumer = if consumer_state.active == consumer_suppression.active {
                None
            } else {
                consumer_state.active
            };
            let report = match visible_consumer {
                Some(usage) => BleConsumerReport::from_usage(usage),
                None => BleConsumerReport::release(),
            };
            let reason = if self.state.input.consumer.active.is_some()
                && consumer_state.active.is_none() {
                NotifyReason::InputRelease
            } else {
                NotifyReason::Input
            };
            let action = BridgeAction::BleNotify {
                host_id,
                report: BleHidReport::Consumer(report),
                reason,
            };
            actions.push(action);
        }
        assert(actions_of(actions@) =~= actions_of(old(actions)@) + self@.usage_actions(frame@));
        consumer_suppression
    }

    fn handle_standard_input_frame<const ACTIONS: usize>(
        &mut self,
        frame: StandardInputFrame,
        out: &mut BoundedVec<BridgeAction, ACTIONS>,
    ) -> (r: Result<(), BridgeError>)
        requires
            old(self).wf(),
        ensures
            final(self).wf(),
            ({
                let run = Run::start(old(self)@, actions_of(old(out)@)).input(
                    frame@,
                    ACTIONS as nat,
                );
                &&& run.gives(r)
                &&& final(self)@ == run.bridge
                &&& actions_of(final(out)@) == run.out
            }),
    {
        let ghost before = self@;
        let mut devices = self.state.input_devices.copied();
        match devices.apply_frame(&frame) {
            Err(error) => {
                return Err(BridgeError::Input(error));
            },
            Ok(_) => {},
        }
        let aggregate = devices.aggregate().copied();
        let mut stats = self.state.stats;
        let mut actions: Vec<BridgeAction> = Vec::new();
        assert(actions_of(actions@) =~= seq![]);
        let mut next_keyboard: Option<(PhysicalKeyboardState, KeyboardSuppression)> = None;
        let mut next_mouse: Option<MouseButtons> = None;
        let mut next_consumer: Option<ConsumerState> = None;
        if frame.keyboard.is_some() {
            match self.keyboard_part(&aggregate, Ghost(frame@), &mut stats, &mut actions) {
                Err(error) => {
                    return Err(error);
                },
                Ok(next) => {
                    next_keyboard = Some(next);
                },
            }
        }
        assert(actions_of(actions@) =~= before.key_actions(frame@));
        if frame.mouse.is_some() {
            next_mouse = Some(self.mouse_part(&aggregate, &frame, &mut stats, &mut actions));
        }
        assert(actions_of(actions@) =~= before.key_actions(frame@) + before.mouse_actions(frame@));
        if frame.consumer.is_some() {
            next_consumer = Some(self.consumer_part(&aggregate, Ghost(frame@), &mut actions));
        }
        assert(actions_of(actions@) =~= before.input_actions(frame@));
        assert(stats == before.stats_after(frame@));
        if actions.len() > out.room() {
            return Err(BridgeError::ActionCapacity);
        }
        self.state.input_devices = devices;
        if let Some((keyboard, suppression)) = next_keyboard {
            self.state.input.keyboard = keyboard;
            self.state.suppression.keyboard = suppression;
        }
        if let Some(suppression) = next_mouse {
            self.state.input.mouse = aggregate.mouse;
            self.state.suppression.mouse_buttons = suppression;
        }
        if let Some(suppression) = next_consumer {
            self.state.input.consumer = aggregate.consumer;
            self.state.suppression.consumer = suppression;
        }
        self.state.stats = stats;
        assert(self@ == before.after_input(frame@));
        push_all(out, &actions);
        Ok(())
    }

    fn switch_target<const ACTIONS: usize>(
        &mut self,
        target: HostId,
        out: &mut BoundedVec<BridgeAction, ACTIONS>,
    ) -> (r: Result<(), BridgeError>)
        requires
            old(self).wf(),
        ensures
            final(self).wf(),
            ({
                let run = Run::start(old(self)@, actions_of(old(out)@)).activate(
                    target,
                    NotifyReason::TargetSwitchRelease,
                    ACTIONS as nat,
                ).tell_status(ACTIONS as nat);
                &&& run.gives(r)
                &&& final(self)@ == run.bridge
                &&& actions_of(final(out)@) == run.out
            }),
    {
        match self.activate_target(target, NotifyReason::TargetSwitchRelease, out) {
            Err(error) => Err(error),
            Ok(_) => self.push_status(out),
        }
    }

    fn enter_pairing_mode<const ACTIONS: usize>(
        &mut self,
        host_id: HostId,
        out: &mut BoundedVec<BridgeAction, ACTIONS>,
    ) -> (r: Result<(), BridgeError>)
        requires
            old(self).wf(),
        ensures
            final(self).wf(),
            ({
                let run = Run::start(old(self)@, actions_of(old(out)@)).enter_pairing(
                    host_id,
                    ACTIONS as nat,
                );
                &&& run.gives(r)
                &&& final(self)@ == run.bridge
                &&& actions_of(final(out)@) == run.out
            }),
    {
        match self.activate_target(host_id, NotifyReason::TargetSwitchRelease, out) {
            Err(error) => {
                return Err(error);
            },
            Ok(_) => {},
        }
        let previous = self.state.pairable_host;
        self.state.pairable_host = Some(host_id);
        if let Some(previous) = previous {
            if previous != host_id {
                match push_action(out, BridgeAction::RejectPairing { host_id: previous }) {
                    Err(error) => {
                        return Err(error);
                    },
                    Ok(_) => {},
                }
            }
        }
        match push_action(out, BridgeAction::AllowPairing { host_id }) {
            Err(error) => Err(error),
            Ok(_) => self.push_status(out),
        }
    }

    fn activate_target<const ACTIONS: usize>(
        &mut self,
        target: HostId,
        release_reason: NotifyReason,
        out: &mut BoundedVec<BridgeAction, ACTIONS>,
    ) -> (r: Result<(), BridgeError>)
        requires
            old(self).wf(),
        ensures
            final(self).wf(),
            ({
                let run = Run::start(old(self)@, actions_of(old(out)@)).activate(
                    target,
                    release_reason,
                    ACTIONS as nat,
                );
                &&& run.gives(r)
                &&& final(self)@ == run.bridge
                &&& actions_of(final(out)@) == run.out
            }),
    {
        let ghost n = ACTIONS as nat;
        let ghost run = Run::start(self@, actions_of(out@));
        if self.state.hosts.active_target() == Some(target) {
            return Ok(());
        }
        let ghost released = match self@.hosts.active {
            Some(old_host) => run.emit_all(self@.releases(old_host, release_reason), n),
            None => run,
        };
        if let Some(old_host) = self.state.hosts.active_target() {
            match self.push_release_reports(old_host, release_reason, out) {
                Err(error) => {
                    proof {
                        lemma_stopped(released, released.bridge.active_leds(), n);
                    }
                    return Err(error);
                },
                Ok(_) => {},
            }
        }
        assert(released.bridge == self@ && released.out == actions_of(out@)
            && released.error is None);
        match self.state.suppression.capture(&self.state.input) {
            Err(error) => {
                return Err(BridgeError::Input(error));
            },
            Ok(_) => {},
        }
        let ghost hidden = released.to(released.bridge.all_hidden());
        assert(self@ == hidden.bridge);
        match self.state.hosts.set_active_target(target) {
            Err(error) => {
                proof {
                    let moved = hidden.fail(BridgeError::HostState(error));
                    lemma_stopped(
                        moved.emit(ActionView::ActivateInput { host_id: target }, n),
                        moved.bridge.active_leds(),
                        n,
                    );
                }
                return Err(BridgeError::HostState(error));
            },
            Ok(_) => {},
        }
        let ghost moved = hidden.to_hosts(hidden.bridge.hosts.activated(target));
        assert(self@ == moved.bridge);
        let ghost told = moved.emit(ActionView::ActivateInput { host_id: target }, n);
        match push_action(out, BridgeAction::ActivateInput { host_id: target }) {
            Err(error) => {
                proof {
                    lemma_stopped(told, told.bridge.active_leds(), n);
                }
                return Err(error);
            },
            Ok(_) => {},
        }
        assert(told.bridge == self@ && told.out == actions_of(out@) && told.error is None);
        match self.apply_active_host_leds(out) {
            Err(error) => {
                return Err(error);
            },
            Ok(_) => {},
        }
        push_action(out, BridgeAction::PersistProfiles)
    }

    fn expire_pairing_mode<const ACTIONS: usize>(
        &mut self,
        host_id: HostId,
        out: &mut BoundedVec<BridgeAction, ACTIONS>,
    ) -> (r: Result<(), BridgeError>)
        requires
            old(self).wf(),
        ensures
            final(self).wf(),
            ({
                let run = Run::start(old(self)@, actions_of(old(out)@)).expire_pairing(
                    host_id,
                    ACTIONS as nat,
                );
                &&& run.gives(r)
                &&& final(self)@ == run.bridge
                &&& actions_of(final(out)@) == run.out
            }),
    {
        if self.state.pairable_host == Some(host_id) {
            self.state.pairable_host = None;
            match push_action(out, BridgeAction::RejectPairing { host_id }) {
                Err(error) => Err(error),
                Ok(_) => self.push_status(out),
            }
        } else {
            Ok(())
        }
    }

    fn clear_host<const ACTIONS: usize>(
        &mut self,
        host_id: HostId,
        out: &mut BoundedVec<BridgeAction, ACTIONS>,
    ) -> (r: Result<(), BridgeError>)
        requires
            old(self).wf(),
        ensures
            final(self).wf(),
            ({
                let run = Run::start(old(self)@, actions_of(old(out)@)).clear(
                    host_id,
                    ACTIONS as nat,
                );
                &&& run.gives(r)
                &&& final(self)@ == run.bridge
                &&& actions_of(final(out)@) == run.out
            }),
    {
        let ghost n = ACTIONS as nat;
        let ghost run = Run::start(self@, actions_of(out@));
        let was_active = self.state.hosts.active_target() == Some(host_id);
        let bond = match self.state.hosts.host(host_id) {
            Some(host) => host.bond,
            None => None,
        };
        let ghost dark = led_actions(self@.interfaces, KeyboardLedState::of_mask(0));
        if was_active {
            match self.push_release_reports(host_id, NotifyReason::SafetyRelease, out) {
                Err(error) => {
                    proof {
                        let released = run.emit_all(
                            self@.releases(host_id, NotifyReason::SafetyRelease),
                            n,
                        );
                        lemma_stopped(released, dark, n);
                    }
                    return Err(error);
                },
                Ok(_) => {},
            }
        }
        if self.state.pairable_host == Some(host_id) {
            self.state.pairable_host = None;
            match push_action(out, BridgeAction::RejectPairing { host_id }) {
                Err(error) => {
                    proof {
                        lemma_stopped(
                            Run { bridge: self@, out: actions_of(out@), error: Some(error) },
                            dark,
                            n,
                        );
                    }
                    return Err(error);
                },
                Ok(_) => {},
            }
        }
        if !self.state.hosts.clear_host(host_id) {
            return Ok(());
        }
        match push_action(out, BridgeAction::ClearBond { host_id, bond }) {
            Err(error) => {
                proof {
                    lemma_stopped(
                        Run { bridge: self@, out: actions_of(out@), error: Some(error) },
                        dark,
                        n,
                    );
                }
                return Err(error);
            },
            Ok(_) => {},
        }
        match push_action(out, BridgeAction::PersistProfiles) {
            Err(error) => {
                proof {
                    lemma_stopped(
                        Run { bridge: self@, out: actions_of(out@), error: Some(error) },
                        dark,
                        n,
                    );
                }
                return Err(error);
            },
            Ok(_) => {},
        }
        if was_active {
            match self.push_usb_keyboard_leds(KeyboardLedState::empty(), out) {
                Err(error) => {
                    return Err(error);
                },
                Ok(_) => {},
            }
        }
        self.push_status(out)
    }

    fn usb_device_removed<const ACTIONS: usize>(
        &mut self,
        interface_id: InterfaceId,
        out: &mut BoundedVec<BridgeAction, ACTIONS>,
    ) -> (r: Result<(), BridgeError>)
        requires
            old(self).wf(),
        ensures
            final(self).wf(),
            ({
                let run = Run::start(old(self)@, actions_of(old(out)@)).remove_interface(
                    interface_id,
                    ACTIONS as nat,
                );
                &&& run.gives(r)
                &&& final(self)@ == run.bridge
                &&& actions_of(final(out)@) == run.out
            }),
    {
        let ghost before = self@;
        let previous_input = self.state.input.copied();
        self.state.remove_usb_hid_interface(interface_id);
        self.state.input_devices.remove_interface(interface_id);
        self.state.input = self.state.input_devices.aggregate().copied();
        assert(self@ == before.without_interface(interface_id));
        if let Some(host_id) = self.state.hosts.active_target() {
            match self.emit_detach_updates(
                host_id,
                &previous_input,
                NotifyReason::UsbDeviceRemovedRelease,
                out,
            ) {
                Err(error) => {
                    return Err(error);
                },
                Ok(_) => {},
            }
        }
        self.push_status(out)
    }

    fn apply_active_host_leds<const ACTIONS: usize>(
        &self,
        out: &mut BoundedVec<BridgeAction, ACTIONS>,
    ) -> (r: Result<(), BridgeError>)
        ensures
            ({
                let run = Run::start(self@, actions_of(old(out)@)).emit_all(
                    self@.active_leds(),
                    ACTIONS as nat,
                );
                &&& run.gives(r)
                &&& run.bridge == self@
                &&& actions_of(final(out)@) == run.out
            }),
    {
        match self.state.hosts.active_target() {
            None => Ok(()),
            Some(active_target) => {
                let leds = match self.state.hosts.host(active_target) {
                    Some(host) => match host.keyboard_leds {
                        Some(leds) => leds,
                        None => KeyboardLedState::empty(),
                    },
                    None => KeyboardLedState::empty(),
                };
                self.push_usb_keyboard_leds(leds, out)
            },
        }
    }

    fn push_usb_keyboard_leds<const ACTIONS: usize>(
        &self,
        leds: KeyboardLedState,
        out: &mut BoundedVec<BridgeAction, ACTIONS>,
    ) -> (r: Result<(), BridgeError>)
        ensures
            ({
                let run = Run::start(self@, actions_of(old(out)@)).emit_all(
                    led_actions(self@.interfaces, leds),
                    ACTIONS as nat,
                );
                &&& run.gives(r)
                &&& run.bridge == self@
                &&& actions_of(final(out)@) == run.out
            }),
    {
        let ghost n = ACTIONS as nat;
        let ghost start = Run::start(self@, actions_of(out@));
        let sinks = fixed::items(&self.state.usb_hid_interfaces);
        let mut i: usize = 0;
        assert(sinks@.take(0) =~= Seq::<UsbHidInterfaceRegistration>::empty());
        while i < sinks.len()
            invariant
                i <= sinks@.len(),
                sinks@ == self@.interfaces,
                n == ACTIONS,
                start == Run::start(self@, actions_of(old(out)@)),
                start.emit_all(led_actions(sinks@.take(i as int), leds), n) == Run::start(
                    self@,
                    actions_of(out@),
                ),
            decreases sinks@.len() - i,
        {
            let sink = sinks[i];
            let ghost before = led_actions(sinks@.take(i as int), leds);
            assert(sinks@.take(i + 1).drop_last() =~= sinks@.take(i as int));
            if sink.keyboard_led_sink {
                let action = BridgeAction::UsbSetKeyboardLeds {
                    interface_id: sink.interface_id,
                    device_id: sink.device_id,
                    leds,
                };
                assert(before.push(action@).drop_last() =~= before);
                match push_action(out, action) {
                    Err(error) => {
                        proof {
                            lemma_led_prefix(sinks@, i + 1, leds);
                            lemma_stopped_prefix(
                                start,
                                led_actions(sinks@, leds),
                                before.push(action@).len() as int,
                                n,
                            );
                        }
                        return Err(error);
                    },
                    Ok(_) => {},
                }
            }
            i += 1;
        }
        assert(sinks@.take(i as int) =~= sinks@);
        Ok(())
    }

    fn emit_detach_updates<const ACTIONS: usize>(
        &mut self,
        host_id: HostId,
        previous_input: &PhysicalInputState,
        reason: NotifyReason,
        out: &mut BoundedVec<BridgeAction, ACTIONS>,
    ) -> (r: Result<(), BridgeError>)
        requires
            old(self).wf(),
        ensures
            final(self).wf(),
            ({
                let run = Run::start(old(self)@, actions_of(old(out)@)).detach(
                    host_id,
                    previous_input@,
                    reason,
                    ACTIONS as nat,
                );
                &&& run.gives(r)
                &&& final(self)@ == run.bridge
                &&& actions_of(final(out)@) == run.out
            }),
    {
        let ghost before = self@;
        match self.state.input.keyboard.to_frame() {
            Err(error) => {
                return Err(BridgeError::Input(error));
            },
            Ok(keyboard) => {
                match self.state.input.keyboard.apply_frame(
                    &keyboard,
                    &mut self.state.suppression.keyboard,
                ) {
                    Err(error) => {
                        return Err(BridgeError::Input(error));
                    },
                    Ok(_) => {},
                }
            },
        }
        proof {
            lemma_held_again(before.input.keyboard);
        }
        assert(self@ == before.keys_unhidden());
        if self.can_send(host_id, ReportKind::Keyboard) && !previous_input.keyboard.same_as(
            &self.state.input.keyboard,
        ) {
            let visible = self.state.input.keyboard.visible_against(
                &self.state.suppression.keyboard,
            );
            let report = BleKeyboard6KroReport::from_visible_state(&visible).report;
            match push_action(
                out,
                BridgeAction::BleNotify { host_id, report: BleHidReport::Keyboard(report), reason },
            ) {
                Err(error) => {
                    return Err(error);
                },
                Ok(_) => {},
            }
        }
        self.state.suppression.mouse_buttons =
        self.state.suppression.mouse_buttons.intersection(self.state.input.mouse.buttons);
        if self.can_send(host_id, ReportKind::Mouse) && previous_input.mouse.buttons
            != self.state.input.mouse.buttons {
            let visible_buttons = self.state.input.mouse.buttons.without(
                self.state.suppression.mouse_buttons,
            );
            let report = BleMouseReport::from_frame(visible_buttons, MouseMovement::neutral());
            match push_action(
                out,
                BridgeAction::BleNotify { host_id, report: BleHidReport::Mouse(report), reason },
            ) {
                Err(error) => {
                    return Err(error);
                },
                Ok(_) => {},
            }
        }
        if self.state.input.consumer.active != self.state.suppression.consumer.active {
            self.state.suppression.consumer.active = None;
        }
        if self.can_send(host_id, ReportKind::Consumer) && previous_input.consumer.active
            != self.state.input.consumer.active {
            let report = match self.state.input.consumer.active {
                Some(usage) => BleConsumerReport::from_usage(usage),
                None => BleConsumerReport::release(),
            };
            match push_action(
                out,
                BridgeAction::BleNotify { host_id, report: BleHidReport::Consumer(report), reason },
            ) {
                Err(error) => {
                    return Err(error);
                },
                Ok(_) => {},
            }
        }
        Ok(())
    }

    fn push_release_reports<const ACTIONS: usize>(
        &self,
        host_id: HostId,
        reason: NotifyReason,
        out: &mut BoundedVec<BridgeAction, ACTIONS>,
    ) -> (r: Result<(), BridgeError>)
        ensures
            ({
                let run = Run::start(self@, actions_of(old(out)@)).emit_all(
                    self@.releases(host_id, reason),
                    ACTIONS as nat,
                );
                &&& run.gives(r)
                &&& run.bridge == self@
                &&& actions_of(final(out)@) == run.out
            }),
    {
        proof {
            lemma_releases(
                Run::start(self@, actions_of(out@)),
                self@,
                host_id,
                reason,
                ACTIONS as nat,
            );
        }
        if self.can_send(host_id, ReportKind::Keyboard) {
            match push_action(
                out,
                BridgeAction::BleNotify {
                    host_id,
                    report: BleHidReport::Keyboard(BleKeyboard6KroReport::release()),
                    reason,
                },
            ) {
                Err(error) => {
                    return Err(error);
                },
                Ok(_) => {},
            }
        }
        if self.can_send(host_id, ReportKind::Mouse) {
            match push_action(
                out,
                BridgeAction::BleNotify {
                    host_id,
                    report: BleHidReport::Mouse(BleMouseReport::release_buttons()),
                    reason,
                },
            ) {
                Err(error) => {
                    return Err(error);
                },
                Ok(_) => {},
            }
        }
        if self.can_send(host_id, ReportKind::Consumer) {
            match push_action(
                out,
                BridgeAction::BleNotify {
                    host_id,
                    report: BleHidReport::Consumer(BleConsumerReport::release()),
                    reason,
                },
            ) {
                Err(error) => {
                    return Err(error);
                },
                Ok(_) => {},
            }
        }
        Ok(())
    }

    fn push_status<const ACTIONS: usize>(
        &self,
        out: &mut BoundedVec<BridgeAction, ACTIONS>,
    ) -> (r: Result<(), BridgeError>)
        ensures
            ({
                let run = Run::start(self@, actions_of(old(out)@)).tell_status(ACTIONS as nat);
                &&& run.gives(r)
                &&& run.bridge == self@
                &&& actions_of(final(out)@) == run.out
            }),
    {
        push_action(out, BridgeAction::StatusChanged(self.status()))
    }

    fn status(&self) -> (r: BridgeStatus)
        ensures
            r == self@.status(),
    {
        BridgeStatus {
            active_target: self.state.hosts.active_target(),
            pairable_host: self.state.pairable_host,
        }
    }

    fn ready_active_host(&self, kind: ReportKind) -> (r: Option<HostId>)
        ensures
            r == self@.ready(kind),
    {
        match self.state.hosts.active_target() {
            Some(host_id) => if self.can_send(host_id, kind) {
                Some(host_id)
            } else {
                None
            },
            None => None,
        }
    }

    /// Whether a report can be sent to a host.
    pub fn can_send(&self, host_id: HostId, kind: ReportKind) -> (r: bool)
        ensures
            r == self@.hosts.sends(host_id, kind),
    {
        self.state.hosts.can_send(host_id, kind)
    }

    /// What is to be kept of the hosts, if that is not too much.
    pub fn storage_state(&self, generation: u32) -> (r: Result<StorageState, StorageError>)
        ensures
            ({
                let profiles = host_state::profiles_of(self@.hosts.hosts);
                &&& profiles.len() <= 4 ==> r is Ok && r->Ok_0@ == (StorageView {
                    generation,
                    last_active_host: self@.hosts.active,
                    hosts: profiles,
                })
                &&& profiles.len() > 4 ==> r == Err::<StorageState, StorageError>(
                    StorageError::HostCapacity,
                )
            }),
    {
        self.state.hosts.storage_state(generation)
    }

    /// Takes back what was kept of hosts. No host may pair then. Where a host
    /// is refused, those before it stay, and the rest of the bridge is as it
    /// was.
    pub fn restore_storage_state<const ACTIONS: usize>(
        &mut self,
        storage: &StorageState,
        out: &mut BoundedVec<BridgeAction, ACTIONS>,
    ) -> (r: Result<(), BridgeError>)
        requires
            old(self).wf(),
        ensures
            final(self).wf(),
            final(out)@.len() == 0,
            match old(self)@.hosts.restored(storage@).1 {
                Some(error) => r == Err::<(), BridgeError>(BridgeError::HostState(error))
                    && final(self)@ == (BridgeView {
                    hosts: old(self)@.hosts.restored(storage@).0,
                    ..old(self)@
                }),
                None => r is Ok && final(self)@ == (BridgeView {
                    hosts: old(self)@.hosts.restored(storage@).0,
                    pairable: None,
                    ..old(self)@
                }),
            },
    {
        out.clear();
        match self.state.hosts.restore(storage) {
            Err(error) => Err(BridgeError::HostState(error)),
            Ok(_) => {
                self.state.pairable_host = None;
                Ok(())
            },
        }
    }
}

impl<const HOSTS: usize> Default for Bridge<HOSTS> {
    fn default() -> (r: Self)
        ensures
            r.wf(),
            r@ == BridgeView::initial(HOSTS as nat),
    {
        Self::new()
    }
}

fn push_all<const ACTIONS: usize>(
    out: &mut BoundedVec<BridgeAction, ACTIONS>,
    actions: &Vec<BridgeAction>,
)
    requires
        actions@.len() == 0 || old(out)@.len() + actions@.len() <= ACTIONS,
    ensures
        actions_of(final(out)@) == actions_of(old(out)@) + actions_of(actions@),
{
    let ghost before = out@;
    let mut i: usize = 0;
    assert(before + actions@.take(0) =~= before);
    while i < actions.len()
        invariant
            i <= actions@.len(),
            actions@.len() == 0 || before.len() + actions@.len() <= ACTIONS,
            before == old(out)@,
            out@ == before + actions@.take(i as int),
        decreases actions@.len() - i,
    {
        let _ = out.push(actions[i]);
        assert(out@ =~= before + actions@.take(i + 1));
        i += 1;
    }
    assert(actions@.take(i as int) =~= actions@);
    assert(actions_of(out@) =~= actions_of(before) + actions_of(actions@));
}

/// Nothing more is asked for after an error.
proof fn lemma_stopped(run: Run, actions: Seq<ActionView>, n: nat)
    requires
        run.error is Some,
    ensures
        run.emit_all(actions, n) == run,
    decreases actions.len(),
{
    if actions.len() > 0 {
        lemma_stopped(run, actions.drop_last(), n);
    }
}

proof fn lemma_stopped_prefix(run: Run, actions: Seq<ActionView>, k: int, n: nat)
    requires
        0 <= k <= actions.len(),
        run.emit_all(actions.take(k), n).error is Some,
    ensures
        run.emit_all(actions, n) == run.emit_all(actions.take(k), n),
    decreases actions.len() - k,
{
    if k < actions.len() {
        assert(actions.take(k + 1).drop_last() =~= actions.take(k));
        lemma_stopped_prefix(run, actions, k + 1, n);
    } else {
        assert(actions.take(k) =~= actions);
    }
}

proof fn lemma_led_prefix(
    interfaces: Seq<UsbHidInterfaceRegistration>,
    k: int,
    leds: KeyboardLedState,
)
    requires
        0 <= k <= interfaces.len(),
    ensures
        ({
            let part = led_actions(interfaces.take(k), leds);
            let all = led_actions(interfaces, leds);
            part.len() <= all.len() && all.take(part.len() as int) == part
        }),
    decreases interfaces.len() - k,
{
    if k < interfaces.len() {
        lemma_led_prefix(interfaces, k + 1, leds);
        assert(interfaces.take(k + 1).drop_last() =~= interfaces.take(k));
        let part = led_actions(interfaces.take(k), leds);
        let more = led_actions(interfaces.take(k + 1), leds);
        let all = led_actions(interfaces, leds);
        assert(more.take(part.len() as int) =~= part);
        assert(all.take(part.len() as int) =~= all.take(more.len() as int).take(
            part.len() as int,
        ));
    } else {
        assert(interfaces.take(k) =~= interfaces);
        let all = led_actions(interfaces, leds);
        assert(all.take(all.len() as int) =~= all);
    }
}

proof fn lemma_emit_all_parts(run: Run, a: Seq<ActionView>, b: Seq<ActionView>, n: nat)
    ensures
        run.emit_all(a + b, n) == run.emit_all(a, n).emit_all(b, n),
    decreases b.len(),
{
    if b.len() > 0 {
        lemma_emit_all_parts(run, a, b.drop_last(), n);
        assert((a + b).drop_last() =~= a + b.drop_last());
    } else {
        assert(a + b =~= a);
    }
}

proof fn lemma_emit_one(run: Run, condition: bool, action: ActionView, n: nat)
    ensures
        run.emit_all(if_so(condition, action), n) == run.emit_if(condition, action, n),
{
    if condition {
        let one = if_so(condition, action);
        assert(one.drop_last().len() == 0);
        assert(run.emit_all(one.drop_last(), n) == run);
    }
}

proof fn lemma_releases(
    run: Run,
    bridge: BridgeView,
    host_id: HostId,
    reason: NotifyReason,
    n: nat,
)
    ensures
        run.emit_all(bridge.releases(host_id, reason), n) == run.emit_if(
            bridge.hosts.sends(host_id, ReportKind::Keyboard),
            steps::notify(
                host_id,
                crate::reports::ReportBytes::Keyboard(crate::bytes::zeros(8)),
                reason,
            ),
            n,
        ).emit_if(
            bridge.hosts.sends(host_id, ReportKind::Mouse),
            steps::notify(
                host_id,
                crate::reports::ReportBytes::Mouse(crate::bytes::zeros(5)),
                reason,
            ),
            n,
        ).emit_if(
            bridge.hosts.sends(host_id, ReportKind::Consumer),
            steps::notify(
                host_id,
                crate::reports::ReportBytes::Consumer(crate::bytes::le16(0)),
                reason,
            ),
            n,
        ),
{
    let k = steps::notify(
        host_id,
        crate::reports::ReportBytes::Keyboard(crate::bytes::zeros(8)),
        reason,
    );
    let m = steps::notify(
        host_id,
        crate::reports::ReportBytes::Mouse(crate::bytes::zeros(5)),
        reason,
    );
    let c = steps::notify(
        host_id,
        crate::reports::ReportBytes::Consumer(crate::bytes::le16(0)),
        reason,
    );
    let ck = bridge.hosts.sends(host_id, ReportKind::Keyboard);
    let cm = bridge.hosts.sends(host_id, ReportKind::Mouse);
    let cc = bridge.hosts.sends(host_id, ReportKind::Consumer);
    lemma_emit_all_parts(run, if_so(ck, k) + if_so(cm, m), if_so(cc, c), n);
    lemma_emit_all_parts(run, if_so(ck, k), if_so(cm, m), n);
    lemma_emit_one(run, ck, k, n);
    lemma_emit_one(run.emit_if(ck, k, n), cm, m, n);
    lemma_emit_one(run.emit_if(ck, k, n).emit_if(cm, m, n), cc, c, n);
}

/// The event of a host that set its lock lights.
pub fn keyboard_led_event_from_ble_output(host_id: HostId, bytes: &[u8]) -> (r: Result<
    BridgeEvent,
    BleKeyboardOutputError,
>)
    ensures
        bytes@.len() == 1 ==> r == Ok::<BridgeEvent, BleKeyboardOutputError>(
            BridgeEvent::HostKeyboardLedChanged {
                host_id,
                leds: KeyboardLedState::of_mask(bytes@[0] & 7),
            },
        ),
        bytes@.len() != 1 ==> r == Err::<BridgeEvent, BleKeyboardOutputError>(
            BleKeyboardOutputError::InvalidLength,
        ),
{
    match BleKeyboardLedOutputReport::from_bytes(bytes) {
        Err(error) => Err(error),
        Ok(report) => Ok(BridgeEvent::HostKeyboardLedChanged { host_id, leds: report.leds() }),
    }
}

} // verus!
