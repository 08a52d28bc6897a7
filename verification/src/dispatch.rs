//! Which commands may be queued, which wait, and which are dropped.

use vstd::prelude::*;

use crate::bridge::{BridgeAction, NotifyReason};
use crate::hex::{push_small_hex, small_hex_of};
use crate::ids::{HostId, InterfaceId};
use crate::lists::{first_where, lemma_first_at, lemma_first_none};
use crate::management::{response_bytes, ManagementResponse};
use crate::reports::BleHidReport;
use crate::runtime::{BleTaskCommand, StatusTaskCommand, StorageTaskCommand, UsbTaskCommand};

verus! {

/// How much it matters that a command is carried out.
#[derive(Clone, Copy, Debug, PartialEq, Eq, Structural)]
pub enum CommandClass {
    /// It waits for room.
    Critical,
    /// It fails where there is no room.
    Realtime,
    /// It is dropped where there is no room.
    BestEffort,
}

/// The queue that a command for the radio takes.
#[derive(Clone, Copy, Debug, PartialEq, Eq, Structural)]
pub enum BleCommandLane {
    Control,
    Notify,
}

/// Why commands were not queued.
#[derive(Clone, Copy, Debug, PartialEq, Eq, Structural)]
pub enum ChannelTaskSendError {
    BleQueueFull,
    UsbQueueFull,
    StorageQueueFull,
    StatusQueueFull,
}

impl BleTaskCommand {
    /// The queue that the command takes.
    pub open spec fn takes(self) -> BleCommandLane {
        match self {
            BleTaskCommand::Notify { .. } => BleCommandLane::Notify,
            _ => BleCommandLane::Control,
        }
    }

    /// Whether the command is movement that can be added to other movement.
    pub open spec fn is_movement(self) -> bool {
        match self {
            BleTaskCommand::Notify { report, reason, .. } => report is Mouse && reason
                == NotifyReason::Input,
            _ => false,
        }
    }

    /// How much it matters: a press is given up where there is no room,
    /// everything else waits.
    pub open spec fn weight(self) -> CommandClass {
        match self {
            BleTaskCommand::Notify { reason: NotifyReason::Input, .. } => CommandClass::Realtime,
            _ => CommandClass::Critical,
        }
    }

    /// The queue that the command takes.
    pub fn lane(&self) -> (r: BleCommandLane)
        ensures
            r == self.takes(),
    {
        match self {
            BleTaskCommand::Notify { .. } => BleCommandLane::Notify,
            _ => BleCommandLane::Control,
        }
    }

    /// How much it matters.
    pub fn class(&self) -> (r: CommandClass)
        ensures
            r == self.weight(),
    {
        match self {
            BleTaskCommand::Notify { reason, .. } => match reason {
                NotifyReason::Input => CommandClass::Realtime,
                _ => CommandClass::Critical,
            },
            _ => CommandClass::Critical,
        }
    }

    fn is_coalesced(&self) -> (r: bool)
        ensures
            r == self.is_movement(),
    {
        match self {
            BleTaskCommand::Notify { report, reason, .. } => match report {
                BleHidReport::Mouse(_) => match reason {
                    NotifyReason::Input => true,
                    _ => false,
                },
                _ => false,
            },
            _ => false,
        }
    }
}

impl StatusTaskCommand {
    /// How much it matters: a response is owed, a status is not.
    pub open spec fn is_owed(self) -> bool {
        self.management is Some
    }

    /// How much it matters.
    pub fn class(&self) -> (r: CommandClass)
        ensures
            r == if self.is_owed() {
                CommandClass::Critical
            } else {
                CommandClass::BestEffort
            },
    {
        if self.management.is_some() {
            CommandClass::Critical
        } else {
            CommandClass::BestEffort
        }
    }
}

/// What is done with a command for the radio.
#[derive(Clone, Copy, Debug, PartialEq, Eq, Structural)]
pub enum BleSendStep {
    /// Its movement is added to what waits for the host.
    Coalesce(HostId),
    /// The command is queued, after what waits for a host is dropped where
    /// there is one.
    Queue { discard: Option<HostId>, lane: BleCommandLane, class: CommandClass },
}

/// The host for which movement that waits is stale once a command is queued: one
/// that sees something released by it.
pub open spec fn made_stale(command: BleTaskCommand) -> Option<HostId> {
    match command {
        BleTaskCommand::Notify { host_id, reason, .. } => if reason == NotifyReason::InputRelease
            || reason == NotifyReason::TargetSwitchRelease || reason
            == NotifyReason::UsbDeviceRemovedRelease || reason == NotifyReason::SafetyRelease {
            Some(host_id)
        } else {
            None
        },
        _ => None,
    }
}

/// What is done with a command for the radio. Movement is added up; everything
/// else is queued.
pub fn ble_send_step(command: &BleTaskCommand) -> (r: BleSendStep)
    ensures
        command.is_movement() ==> match *command {
            BleTaskCommand::Notify { host_id, .. } => r == BleSendStep::Coalesce(host_id),
            _ => false,
        },
        !command.is_movement() ==> r == (BleSendStep::Queue {
            discard: made_stale(*command),
            lane: command.takes(),
            class: command.weight(),
        }),
{
    let mut discard: Option<HostId> = None;
    if let BleTaskCommand::Notify { host_id, reason, .. } = command {
        if command.is_coalesced() {
            return BleSendStep::Coalesce(*host_id);
        }
        match reason {
            NotifyReason::InputRelease
            | NotifyReason::TargetSwitchRelease
            | NotifyReason::UsbDeviceRemovedRelease
            | NotifyReason::SafetyRelease => {
                discard = Some(*host_id);
            },
            _ => {},
        }
    }
    BleSendStep::Queue { discard, lane: command.lane(), class: command.class() }
}

/// What is done with a command for the status task.
#[derive(Clone, Copy, Debug, PartialEq, Eq, Structural)]
pub enum StatusSendStep {
    /// It waits in place of an older one.
    Replace,
    /// It is queued.
    Queue(CommandClass),
}

/// What is done with a command for the status task. A response is queued; a
/// status waits, and a newer one replaces it.
pub fn status_send_step(command: &StatusTaskCommand) -> (r: StatusSendStep)
    ensures
        r == if command.is_owed() {
            StatusSendStep::Queue(CommandClass::Critical)
        } else {
            StatusSendStep::Replace
        },
{
    if command.management.is_none() {
        StatusSendStep::Replace
    } else {
        StatusSendStep::Queue(command.class())
    }
}

/// What is reported for a command that did not wait for room, and was queued or
/// not. One that may be dropped is no failure.
pub fn queue_result(class: CommandClass, queued: bool, error: ChannelTaskSendError) -> (r: Result<
    (),
    ChannelTaskSendError,
>)
    ensures
        queued || class == CommandClass::BestEffort ==> r is Ok,
        !queued && class != CommandClass::BestEffort ==> r == Err::<(), ChannelTaskSendError>(
            error,
        ),
{
    if queued {
        return Ok(());
    }
    match class {
        CommandClass::BestEffort => Ok(()),
        _ => Err(error),
    }
}

/// How many of the commands take the control queue.
pub open spec fn control_count(commands: Seq<BleTaskCommand>) -> nat
    decreases commands.len(),
{
    if commands.len() == 0 {
        0
    } else {
        control_count(commands.drop_last()) + (if commands.last().takes()
            == BleCommandLane::Control {
            1nat
        } else {
            0
        })
    }
}

/// How many of the commands are notifications that cannot be added up.
pub open spec fn notify_count(commands: Seq<BleTaskCommand>) -> nat
    decreases commands.len(),
{
    if commands.len() == 0 {
        0
    } else {
        notify_count(commands.drop_last()) + (if commands.last().takes() == BleCommandLane::Notify
            && !commands.last().is_movement() {
            1nat
        } else {
            0
        })
    }
}

/// How many of the commands are owed.
pub open spec fn owed_count(commands: Seq<StatusTaskCommand>) -> nat
    decreases commands.len(),
{
    if commands.len() == 0 {
        0
    } else {
        owed_count(commands.drop_last()) + (if commands.last().is_owed() {
            1nat
        } else {
            0
        })
    }
}

/// How many more commands each queue takes.
#[derive(Clone, Copy, Debug, PartialEq, Eq, Structural)]
pub struct QueueSpace {
    pub ble_control: usize,
    pub ble_notify: usize,
    pub storage: usize,
    pub status: usize,
}

/// What stands in the way of queueing commands, if anything does.
pub open spec fn space_error(
    space: QueueSpace,
    ble: Seq<BleTaskCommand>,
    storage: nat,
    status: Seq<StatusTaskCommand>,
) -> Option<ChannelTaskSendError> {
    if space.ble_control < control_count(ble) || space.ble_notify < notify_count(ble) {
        Some(ChannelTaskSendError::BleQueueFull)
    } else if space.storage < storage {
        Some(ChannelTaskSendError::StorageQueueFull)
    } else if space.status < owed_count(status) {
        Some(ChannelTaskSendError::StatusQueueFull)
    } else {
        None
    }
}

/// Checks that all commands that must be queued can be, before the first one is.
pub fn ensure_capacity(
    space: QueueSpace,
    ble: &[BleTaskCommand],
    storage: &[StorageTaskCommand],
    status: &[StatusTaskCommand],
) -> (r: Result<(), ChannelTaskSendError>)
    ensures
        match space_error(space, ble@, storage@.len(), status@) {
            Some(error) => r == Err::<(), ChannelTaskSendError>(error),
            None => r is Ok,
        },
{
    let mut control: usize = 0;
    let mut notify: usize = 0;
    let mut i: usize = 0;
    assert(ble@.take(0) =~= Seq::<BleTaskCommand>::empty());
    while i < ble.len()
        invariant
            i <= ble@.len(),
            control == control_count(ble@.take(i as int)),
            notify == notify_count(ble@.take(i as int)),
            control <= i,
            notify <= i,
        decreases ble@.len() - i,
    {
        assert(ble@.take(i + 1).drop_last() =~= ble@.take(i as int));
        match ble[i].lane() {
            BleCommandLane::Control => {
                control += 1;
            },
            BleCommandLane::Notify => {
                if !ble[i].is_coalesced() {
                    notify += 1;
                }
            },
        }
        i += 1;
    }
    assert(ble@.take(i as int) =~= ble@);
    if space.ble_control < control || space.ble_notify < notify {
        return Err(ChannelTaskSendError::BleQueueFull);
    }
    if space.storage < storage.len() {
        return Err(ChannelTaskSendError::StorageQueueFull);
    }
    let mut owed: usize = 0;
    let mut j: usize = 0;
    assert(status@.take(0) =~= Seq::<StatusTaskCommand>::empty());
    while j < status.len()
        invariant
            j <= status@.len(),
            owed == owed_count(status@.take(j as int)),
            owed <= j,
        decreases status@.len() - j,
    {
        assert(status@.take(j + 1).drop_last() =~= status@.take(j as int));
        if status[j].management.is_some() {
            owed += 1;
        }
        j += 1;
    }
    assert(status@.take(j as int) =~= status@);
    if space.status < owed {
        return Err(ChannelTaskSendError::StatusQueueFull);
    }
    Ok(())
}

proof fn lemma_ble_counts(ble: Seq<BleTaskCommand>, from: int, to: int)
    requires
        0 <= from <= to <= ble.len(),
    ensures
        control_count(ble.subrange(from, to)) + control_count(ble.take(from)) <= control_count(ble),
        notify_count(ble.subrange(from, to)) + notify_count(ble.take(from)) <= notify_count(ble),
    decreases ble.len() - from + ble.len() - to,
{
    if to < ble.len() {
        lemma_ble_counts(ble, from, to + 1);
        assert(ble.subrange(from, to + 1).drop_last() =~= ble.subrange(from, to));
    } else if from < ble.len() {
        lemma_ble_counts_split(ble, from);
        assert(ble.subrange(from, to) =~= ble.skip(from));
    } else {
        assert(ble.subrange(from, to) =~= Seq::<BleTaskCommand>::empty());
        assert(ble.take(from) =~= ble);
    }
}

proof fn lemma_ble_counts_split(ble: Seq<BleTaskCommand>, k: int)
    requires
        0 <= k <= ble.len(),
    ensures
        control_count(ble.take(k)) + control_count(ble.skip(k)) == control_count(ble),
        notify_count(ble.take(k)) + notify_count(ble.skip(k)) == notify_count(ble),
    decreases ble.len(),
{
    if k == ble.len() {
        assert(ble.take(k) =~= ble);
        assert(ble.skip(k) =~= Seq::<BleTaskCommand>::empty());
    } else {
        lemma_ble_counts_split(ble.drop_last(), k);
        assert(ble.drop_last().take(k) =~= ble.take(k));
        assert(ble.skip(k).drop_last() =~= ble.drop_last().skip(k));
    }
}

proof fn lemma_owed_counts(status: Seq<StatusTaskCommand>, from: int, to: int)
    requires
        0 <= from <= to <= status.len(),
    ensures
        owed_count(status.subrange(from, to)) <= owed_count(status),
    decreases status.len() + to - from,
{
    if to < status.len() {
        lemma_owed_counts(status.drop_last(), from, to);
        assert(status.drop_last().subrange(from, to) =~= status.subrange(from, to));
    } else if from < to {
        lemma_owed_counts(status.drop_last(), from, to - 1);
        assert(status.subrange(from, to).drop_last() =~= status.drop_last().subrange(from, to - 1));
    } else {
        assert(status.subrange(from, to) =~= Seq::<StatusTaskCommand>::empty());
    }
}

/// Where there is room for all commands, there is for any stretch of them,
/// and so for each of them alone.
pub proof fn law_room_for_fewer(
    space: QueueSpace,
    ble: Seq<BleTaskCommand>,
    storage: nat,
    status: Seq<StatusTaskCommand>,
    ble_from: int,
    ble_to: int,
    fewer_storage: nat,
    status_from: int,
    status_to: int,
)
    requires
        space_error(space, ble, storage, status) is None,
        0 <= ble_from <= ble_to <= ble.len(),
        fewer_storage <= storage,
        0 <= status_from <= status_to <= status.len(),
    ensures
        space_error(
            space,
            ble.subrange(ble_from, ble_to),
            fewer_storage,
            status.subrange(status_from, status_to),
        ) is None,
{
    lemma_ble_counts(ble, ble_from, ble_to);
    lemma_owed_counts(status, status_from, status_to);
}

/// Where there is room for all commands, there still is for the rest of them
/// once the first `k` for the radio were queued.
pub proof fn law_room_for_the_rest(
    space: QueueSpace,
    ble: Seq<BleTaskCommand>,
    storage: nat,
    status: Seq<StatusTaskCommand>,
    k: int,
)
    requires
        space_error(space, ble, storage, status) is None,
        0 <= k <= ble.len(),
    ensures
        control_count(ble.take(k)) <= space.ble_control,
        notify_count(ble.take(k)) <= space.ble_notify,
        space_error(
            (QueueSpace {
                ble_control: (space.ble_control - control_count(ble.take(k))) as usize,
                ble_notify: (space.ble_notify - notify_count(ble.take(k))) as usize,
                ..space
            }),
            ble.skip(k),
            storage,
            status,
        ) is None,
{
    lemma_ble_counts_split(ble, k);
}

/// Commands for the USB task that were not queued yet, at most one for each
/// interface.
#[derive(Clone, Debug, PartialEq, Eq)]
pub struct PendingUsbCommands<const N: usize> {
    slots: [Option<UsbTaskCommand>; N],
}

impl<const N: usize> View for PendingUsbCommands<N> {
    type V = Seq<Option<UsbTaskCommand>>;

    closed spec fn view(&self) -> Seq<Option<UsbTaskCommand>> {
        self.slots@
    }
}

/// Whether a slot holds a command for an interface.
pub open spec fn slot_for_interface(
    interface_id: InterfaceId,
) -> spec_fn(Option<UsbTaskCommand>) -> bool {
    |slot: Option<UsbTaskCommand>| slot is Some && slot->0.interface_id == interface_id
}

/// Whether a slot is free.
pub open spec fn slot_vacant() -> spec_fn(Option<UsbTaskCommand>) -> bool {
    |slot: Option<UsbTaskCommand>| slot is None
}

/// Whether a slot holds a command.
pub open spec fn slot_taken() -> spec_fn(Option<UsbTaskCommand>) -> bool {
    |slot: Option<UsbTaskCommand>| slot is Some
}

/// The slot for a command: that of an older one for the same interface, or else
/// a free one.
pub open spec fn usb_slot(
    slots: Seq<Option<UsbTaskCommand>>,
    interface_id: InterfaceId,
) -> Option<int> {
    match first_where(slots, slot_for_interface(interface_id)) {
        Some(i) => Some(i),
        None => first_where(slots, slot_vacant()),
    }
}

impl<const N: usize> PendingUsbCommands<N> {
    /// Nothing waits.
    pub fn new() -> (r: Self)
        ensures
            r@ == Seq::new(N as nat, |i: int| None::<UsbTaskCommand>),
    {
        let r = Self { slots: [None;N] };
        assert(r@ =~= Seq::new(N as nat, |i: int| None::<UsbTaskCommand>));
        r
    }

    fn find(&self, interface_id: InterfaceId) -> (r: Option<usize>)
        ensures
            r is None ==> usb_slot(self@, interface_id) is None,
            r is Some ==> usb_slot(self@, interface_id) == Some(r->0 as int) && r->0 < N,
    {
        let ghost slots = self@;
        let ghost own = slot_for_interface(interface_id);
        let ghost free = slot_vacant();
        let mut i: usize = 0;
        while i < N
            invariant
                i <= N,
                slots == self@,
                own == slot_for_interface(interface_id),
                forall|j: int| 0 <= j < i ==> !own(#[trigger] slots[j]),
            decreases N - i,
        {
            if let Some(pending) = self.slots[i] {
                if pending.interface_id == interface_id {
                    proof {
                        lemma_first_at(slots, own, i as int);
                    }
                    return Some(i);
                }
            }
            i += 1;
        }
        proof {
            lemma_first_none(slots, own);
        }
        let mut i: usize = 0;
        while i < N
            invariant
                i <= N,
                slots == self@,
                own == slot_for_interface(interface_id),
                free == slot_vacant(),
                first_where(slots, own) is None,
                forall|j: int| 0 <= j < i ==> !free(#[trigger] slots[j]),
            decreases N - i,
        {
            if self.slots[i].is_none() {
                proof {
                    lemma_first_at(slots, free, i as int);
                }
                return Some(i);
            }
            i += 1;
        }
        proof {
            lemma_first_none(slots, free);
        }
        None
    }

    /// Takes a command, in place of an older one for the same interface.
    pub fn push(&mut self, command: UsbTaskCommand) -> (r: Result<(), ChannelTaskSendError>)
        ensures
            match usb_slot(old(self)@, command.interface_id) {
                Some(i) => r is Ok && final(self)@ == old(self)@.update(i, Some(command)),
                None => r == Err::<(), ChannelTaskSendError>(ChannelTaskSendError::UsbQueueFull)
                    && final(self)@ == old(self)@,
            },
    {
        match self.find(command.interface_id) {
            None => Err(ChannelTaskSendError::UsbQueueFull),
            Some(slot) => {
                self.slots[slot] = Some(command);
                Ok(())
            },
        }
    }

    /// The first command that waits, and its slot.
    pub fn first(&self) -> (r: Option<(usize, UsbTaskCommand)>)
        ensures
            match first_where(self@, slot_taken()) {
                Some(i) => r is Some && (r->0).0 == i && (r->0).0 < N && Some((r->0).1) == self@[i],
                None => r is None,
            },
    {
        let ghost slots = self@;
        let ghost taken = slot_taken();
        let mut i: usize = 0;
        while i < N
            invariant
                i <= N,
                slots == self@,
                taken == slot_taken(),
                forall|j: int| 0 <= j < i ==> !taken(#[trigger] slots[j]),
            decreases N - i,
        {
            if let Some(command) = self.slots[i] {
                proof {
                    lemma_first_at(slots, taken, i as int);
                }
                return Some((i, command));
            }
            i += 1;
        }
        proof {
            lemma_first_none(slots, taken);
        }
        None
    }

    /// The command in a slot was queued.
    pub fn queued(&mut self, slot: usize)
        requires
            slot < N,
        ensures
            final(self)@ == old(self)@.update(slot as int, None),
    {
        self.slots[slot] = None;
    }
}

/// The newest status that was not queued yet, and how many were replaced by a
/// newer one.
#[derive(Clone, Copy, Debug, PartialEq, Eq)]
pub struct PendingStatus {
    pub pending: Option<StatusTaskCommand>,
    pub dropped: u32,
}

impl PendingStatus {
    /// Nothing waits.
    pub fn new() -> (r: Self)
        ensures
            r.pending is None,
            r.dropped == 0,
    {
        Self { pending: None, dropped: 0 }
    }

    /// Takes a status, in place of an older one.
    pub fn push(&mut self, command: StatusTaskCommand)
        ensures
            *final(self) == (PendingStatus {
                pending: Some(command),
                dropped: if old(self).pending is Some {
                    old(self).dropped.saturating_add(1)
                } else {
                    old(self).dropped
                },
            }),
    {
        if self.pending.is_some() {
            self.dropped = self.dropped.saturating_add(1);
        }
        self.pending = Some(command);
    }
}

/// The hosts in a set that has one bit for each.
pub open spec fn hosts_in(set: usize) -> Seq<HostId> {
    one_if(set & 1 != 0, HostId(1)) + one_if(set & 2 != 0, HostId(2)) + one_if(
        set & 4 != 0,
        HostId(3),
    ) + one_if(set & 8 != 0, HostId(4))
}

/// A list of one, or of none.
pub open spec fn one_if(condition: bool, host_id: HostId) -> Seq<HostId> {
    if condition {
        seq![host_id]
    } else {
        seq![]
    }
}

/// The hosts in a set that has one bit for each.
pub fn active_hosts(set: usize) -> (r: Vec<HostId>)
    ensures
        r@ == hosts_in(set),
{
    let mut hosts: Vec<HostId> = Vec::new();
    if set & 1 != 0 {
        hosts.push(HostId(1));
    }
    if set & 2 != 0 {
        hosts.push(HostId(2));
    }
    if set & 4 != 0 {
        hosts.push(HostId(3));
    }
    if set & 8 != 0 {
        hosts.push(HostId(4));
    }
    assert(hosts@ =~= hosts_in(set));
    hosts
}

/// The front of the line of a response: "@HIDSHIFT:".
pub const WIRED_RESPONSE_PREFIX: [u8; 10] = [
    0x40, 0x48, 0x49, 0x44, 0x53, 0x48, 0x49, 0x46, 0x54, 0x3a,
];

/// The line of a response that goes out by wire.
pub fn wired_response_line(response: ManagementResponse) -> (r: Vec<u8>)
    ensures
        r@ == WIRED_RESPONSE_PREFIX@ + small_hex_of(response_bytes(response)),
{
    let prefix = WIRED_RESPONSE_PREFIX;
    let mut line: Vec<u8> = Vec::new();
    let mut i: usize = 0;
    while i < 10
        invariant
            i <= 10,
            prefix@.len() == 10,
            line@ == prefix@.take(i as int),
        decreases 10 - i,
    {
        line.push(prefix[i]);
        assert(line@ =~= prefix@.take(i + 1));
        i += 1;
    }
    assert(line@ =~= prefix@);
    let bytes = response.encode();
    push_small_hex(&mut line, bytes.as_slice());
    line
}

/// A command for one of the tasks.
#[derive(Clone, Copy, Debug, PartialEq, Eq)]
pub enum TaskCommand {
    Ble(BleTaskCommand),
    Usb(UsbTaskCommand),
    Storage(StorageTaskCommand),
    Status(StatusTaskCommand),
    ActivateInput(HostId),
}

/// The command for what is to be done.
pub fn task_command(action: BridgeAction) -> (r: TaskCommand)
    ensures
        r == match action {
            BridgeAction::BleNotify { host_id, report, reason } => TaskCommand::Ble(
                BleTaskCommand::Notify { host_id, report, reason },
            ),
            BridgeAction::UsbSetKeyboardLeds { interface_id, device_id, leds } => TaskCommand::Usb(
                UsbTaskCommand { interface_id, device_id, leds },
            ),
            BridgeAction::AllowPairing { host_id } => TaskCommand::Ble(
                BleTaskCommand::AllowPairing { host_id },
            ),
            BridgeAction::RejectPairing { host_id } => TaskCommand::Ble(
                BleTaskCommand::RejectPairing { host_id },
            ),
            BridgeAction::ClearBond { host_id, bond } => TaskCommand::Ble(
                BleTaskCommand::ClearBond { host_id, bond },
            ),
            BridgeAction::ActivateInput { host_id } => TaskCommand::ActivateInput(host_id),
            BridgeAction::PersistProfiles => TaskCommand::Storage(
                StorageTaskCommand::PersistProfiles,
            ),
            BridgeAction::StatusChanged(status) => TaskCommand::Status(
                StatusTaskCommand { status, management: None },
            ),
        },
{
    match action {
        BridgeAction::BleNotify { host_id, report, reason } => TaskCommand::Ble(
            BleTaskCommand::Notify { host_id, report, reason },
        ),
        BridgeAction::UsbSetKeyboardLeds { interface_id, device_id, leds } => TaskCommand::Usb(
            UsbTaskCommand { interface_id, device_id, leds },
        ),
        BridgeAction::AllowPairing { host_id } => TaskCommand::Ble(
            BleTaskCommand::AllowPairing { host_id },
        ),
        BridgeAction::RejectPairing { host_id } => TaskCommand::Ble(
            BleTaskCommand::RejectPairing { host_id },
        ),
        BridgeAction::ClearBond { host_id, bond } => TaskCommand::Ble(
            BleTaskCommand::ClearBond { host_id, bond },
        ),
        BridgeAction::ActivateInput { host_id } => TaskCommand::ActivateInput(host_id),
        BridgeAction::PersistProfiles => TaskCommand::Storage(StorageTaskCommand::PersistProfiles),
        BridgeAction::StatusChanged(status) => TaskCommand::Status(
            StatusTaskCommand { status, management: None },
        ),
    }
}

/// A command for an interface that is known replaces the older one, and no other
/// interface is concerned.
pub proof fn law_newest_usb_command_waits(
    slots: Seq<Option<UsbTaskCommand>>,
    command: UsbTaskCommand,
    i: int,
)
    requires
        0 <= i < slots.len(),
        slots[i] is Some,
        slots[i]->0.interface_id == command.interface_id,
        forall|j: int|
            0 <= j < i ==> !slot_for_interface(command.interface_id)(#[trigger] slots[j]),
    ensures
        usb_slot(slots, command.interface_id) == Some(i),
{
    lemma_first_at(slots, slot_for_interface(command.interface_id), i);
}

/// Nothing is given up for want of room but reports of input that is neither a
/// release nor a button's press: everything else waits.
pub proof fn law_only_plain_input_is_given_up(command: BleTaskCommand)
    ensures
        command.weight() == CommandClass::Realtime <==> (command matches BleTaskCommand::Notify {
            host_id,
            report,
            reason,
        } && reason == NotifyReason::Input),
        command.weight() != CommandClass::Realtime ==> command.weight() == CommandClass::Critical,
{
}

/// Of all commands only mouse reports that change no button are added up, and they
/// are among those that can be given up.
pub proof fn law_only_plain_movement_is_added_up(command: BleTaskCommand)
    ensures
        command.is_movement() <==> (command matches BleTaskCommand::Notify {
            host_id,
            report,
            reason,
        } && reason == NotifyReason::Input && report is Mouse),
        command.is_movement() ==> command.weight() == CommandClass::Realtime,
        command.is_movement() ==> command.takes() == BleCommandLane::Notify,
{
}

/// Reports take one queue and everything else the other, so that no report holds
/// up pairing or the clearing of a bond.
pub proof fn law_reports_have_their_own_queue(command: BleTaskCommand)
    ensures
        command.takes() == BleCommandLane::Notify <==> command is Notify,
        command.takes() == BleCommandLane::Control <==> !(command is Notify),
{
}

/// Movement that waits is dropped for the host that sees something released, and
/// for no other host and on no other account.
pub proof fn law_release_drops_movement_that_waits(command: BleTaskCommand, host_id: HostId)
    ensures
        made_stale(command) == Some(host_id) <==> (command matches BleTaskCommand::Notify {
            host_id: to,
            report,
            reason,
        } && to == host_id && reason != NotifyReason::Input && reason != NotifyReason::InputEdge),
{
}

/// A set has host `n` where bit `n - 1` is set, each host once and in the order of
/// their numbers.
pub proof fn law_hosts_of_a_set(set: usize)
    ensures
        hosts_in(set).contains(HostId(1)) <==> set & 1 != 0,
        hosts_in(set).contains(HostId(2)) <==> set & 2 != 0,
        hosts_in(set).contains(HostId(3)) <==> set & 4 != 0,
        hosts_in(set).contains(HostId(4)) <==> set & 8 != 0,
        forall|i: int, j: int|
            0 <= i < j < hosts_in(set).len() ==> (#[trigger] hosts_in(set)[i]).0 < (
            #[trigger] hosts_in(set)[j]).0,
        forall|i: int| 0 <= i < hosts_in(set).len() ==> 1 <= (#[trigger] hosts_in(set)[i]).0 <= 4,
{
    let a = one_if(set & 1 != 0, HostId(1));
    let b = one_if(set & 2 != 0, HostId(2));
    let c = one_if(set & 4 != 0, HostId(3));
    let d = one_if(set & 8 != 0, HostId(4));
    let all = hosts_in(set);
    assert(all == a + b + c + d);
    if set & 1 != 0 {
        assert(all[0] == HostId(1));
    }
    if set & 2 != 0 {
        assert(all[a.len() as int] == HostId(2));
    }
    if set & 4 != 0 {
        assert(all[(a + b).len() as int] == HostId(3));
    }
    if set & 8 != 0 {
        assert(all[(a + b + c).len() as int] == HostId(4));
    }
}

/// Every command is counted once: it takes the control queue, or it is a report
/// that takes the other, or it is movement that is added up.
pub proof fn law_every_command_is_counted(commands: Seq<BleTaskCommand>)
    ensures
        control_count(commands) + notify_count(commands) <= commands.len(),
        (forall|i: int| 0 <= i < commands.len() ==> !(#[trigger] commands[i]).is_movement())
            ==> control_count(commands) + notify_count(commands) == commands.len(),
        (forall|i: int| 0 <= i < commands.len() ==> (#[trigger] commands[i]) is Notify)
            ==> control_count(commands) == 0,
        (forall|i: int| 0 <= i < commands.len() ==> !((#[trigger] commands[i]) is Notify))
            ==> notify_count(commands) == 0,
    decreases commands.len(),
{
    if commands.len() > 0 {
        let rest = commands.drop_last();
        law_every_command_is_counted(rest);
        assert forall|i: int| 0 <= i < rest.len() implies rest[i] == #[trigger] commands[i] by {}
        assert(commands[commands.len() - 1] == commands.last());
    }
}

} // verus!
