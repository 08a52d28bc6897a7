//! Mouse movement that waits for its turn.

use vstd::prelude::*;

use super::{MouseButtons, MouseFrame, MouseMovement, StandardInputFrame};
use crate::ids::{DeviceId, InterfaceId};
use crate::input::FrameView;
use crate::link::message::clamped;
use crate::lists::{first_where, lemma_first_at, lemma_first_none, lemma_first_where};

verus! {

/// Movement of one interface that was not sent yet.
#[derive(Clone, Copy, Debug, PartialEq, Eq, Structural)]
pub struct PendingMovement {
    pub device_id: DeviceId,
    pub interface_id: InterfaceId,
    pub buttons: MouseButtons,
    pub x: i32,
    pub y: i32,
    pub wheel: i32,
    pub pan: i32,
    pub pending: bool,
}

/// What happened to movement so far.
#[derive(Clone, Copy, Debug, PartialEq, Eq, Structural)]
pub struct UsbMovementCoalescerStats {
    pub reports_coalesced: u32,
    pub movement_saturated: u32,
}

impl Default for UsbMovementCoalescerStats {
    fn default() -> (r: Self)
        ensures
            r == (UsbMovementCoalescerStats { reports_coalesced: 0, movement_saturated: 0 }),
    {
        Self { reports_coalesced: 0, movement_saturated: 0 }
    }
}

/// Why a report was not taken.
#[derive(Clone, Copy, Debug, PartialEq, Eq, Structural)]
pub enum UsbMovementCoalescerError {
    NotMovementOnly,
    InterfaceCapacity,
}

/// Adds up movement per interface while it cannot be passed on.
#[derive(Clone, Debug, PartialEq, Eq)]
pub struct UsbMovementCoalescer<const INTERFACES: usize> {
    pending: [PendingMovement; INTERFACES],
    stats: UsbMovementCoalescerStats,
}

/// What waits, slot by slot.
pub struct CoalescerView {
    pub pending: Seq<PendingMovement>,
    pub stats: UsbMovementCoalescerStats,
}

impl<const INTERFACES: usize> View for UsbMovementCoalescer<INTERFACES> {
    type V = CoalescerView;

    closed spec fn view(&self) -> CoalescerView {
        CoalescerView { pending: self.pending@, stats: self.stats }
    }
}

/// A slot with nothing that waits.
pub open spec fn idle_slot() -> PendingMovement {
    PendingMovement {
        device_id: DeviceId(0),
        interface_id: InterfaceId(0),
        buttons: MouseButtons::of_mask(0),
        x: 0,
        y: 0,
        wheel: 0,
        pan: 0,
        pending: false,
    }
}

/// Whether a slot holds movement of an interface.
pub open spec fn waits_for(interface_id: InterfaceId) -> spec_fn(PendingMovement) -> bool {
    |p: PendingMovement| p.pending && p.interface_id == interface_id
}

/// Whether nothing waits in a slot.
pub open spec fn is_idle() -> spec_fn(PendingMovement) -> bool {
    |p: PendingMovement| !p.pending
}

/// Whether something waits in a slot.
pub open spec fn is_waiting() -> spec_fn(PendingMovement) -> bool {
    |p: PendingMovement| p.pending
}

/// The sum, or the nearest 32-bit number.
pub open spec fn axis_sum(current: i32, delta: int) -> i32 {
    clamped(current + delta, i32::MIN as int, i32::MAX as int) as i32
}

/// One more saturated sum, where the sum is out of range.
pub open spec fn axis_count(saturated: u32, current: i32, delta: int) -> u32 {
    if i32::MIN <= current + delta <= i32::MAX {
        saturated
    } else {
        saturated.saturating_add(1)
    }
}

/// As much of what waits as one report can say.
pub open spec fn axis_part(value: i32) -> i8 {
    clamped(value as int, -128, 127) as i8
}

/// What then still waits.
pub open spec fn axis_rest(value: i32) -> i32 {
    (value - axis_part(value)) as i32
}

impl CoalescerView {
    /// Nothing waits in any of `n` slots.
    pub open spec fn idle(n: nat) -> CoalescerView {
        CoalescerView {
            pending: Seq::new(n, |i: int| idle_slot()),
            stats: UsbMovementCoalescerStats { reports_coalesced: 0, movement_saturated: 0 },
        }
    }

    /// No interface waits in two slots, and a slot in which nothing waits holds
    /// no movement.
    pub open spec fn wf(self) -> bool {
        &&& forall|i: int|
            0 <= i < self.pending.len() && !(#[trigger] self.pending[i]).pending
                ==> self.pending[i].x == 0 && self.pending[i].y == 0 && self.pending[i].wheel == 0
                && self.pending[i].pan == 0
        &&& forall|i: int, j: int|
            0 <= i < j < self.pending.len() && self.pending[i].pending && self.pending[j].pending
                ==> (#[trigger] self.pending[i]).interface_id != (
            #[trigger] self.pending[j]).interface_id
    }

    /// After the next report of a slot was taken.
    pub open spec fn taken(self, i: int) -> CoalescerView {
        CoalescerView {
            pending: self.pending.update(i, CoalescerView::rest_of(self.pending[i])),
            ..self
        }
    }

    /// The slot for movement of an interface: its own, or else a free one.
    pub open spec fn slot_for(self, interface_id: InterfaceId) -> Option<int> {
        match first_where(self.pending, waits_for(interface_id)) {
            Some(i) => Some(i),
            None => first_where(self.pending, is_idle()),
        }
    }

    /// Why a report is refused, where it is. A report that says more than
    /// movement is, and one with other buttons than those that wait.
    pub open spec fn refusal(self, frame: FrameView) -> Option<UsbMovementCoalescerError> {
        if frame.mouse is None || frame.keyboard is Some || frame.consumer is Some
            || frame.mouse->0.movement == MouseMovement::still() {
            Some(UsbMovementCoalescerError::NotMovementOnly)
        } else {
            match self.slot_for(frame.interface_id) {
                None => Some(UsbMovementCoalescerError::InterfaceCapacity),
                Some(i) => if self.pending[i].pending && (self.pending[i].device_id
                    != frame.device_id || self.pending[i].buttons != frame.mouse->0.buttons) {
                    Some(UsbMovementCoalescerError::NotMovementOnly)
                } else {
                    None
                },
            }
        }
    }

    /// The coalescer with the movement of a report that is not refused.
    pub open spec fn pushed(self, frame: FrameView) -> CoalescerView {
        let i = self.slot_for(frame.interface_id)->0;
        let p = self.pending[i];
        let m = frame.mouse->0.movement;
        let s0 = self.stats.movement_saturated;
        let s1 = axis_count(s0, p.x, m.x as int);
        let s2 = axis_count(s1, p.y, m.y as int);
        let s3 = axis_count(s2, p.wheel, m.wheel as int);
        let s4 = axis_count(s3, p.pan, m.pan as int);
        CoalescerView {
            pending: self.pending.update(
                i,
                PendingMovement {
                    device_id: frame.device_id,
                    interface_id: frame.interface_id,
                    buttons: frame.mouse->0.buttons,
                    x: axis_sum(p.x, m.x as int),
                    y: axis_sum(p.y, m.y as int),
                    wheel: axis_sum(p.wheel, m.wheel as int),
                    pan: axis_sum(p.pan, m.pan as int),
                    pending: true,
                },
            ),
            stats: UsbMovementCoalescerStats {
                reports_coalesced: if p.pending {
                    self.stats.reports_coalesced.saturating_add(1)
                } else {
                    self.stats.reports_coalesced
                },
                movement_saturated: s4,
            },
        }
    }

    /// The next report of what waits in a slot.
    pub open spec fn report_of(p: PendingMovement) -> FrameView {
        FrameView {
            device_id: p.device_id,
            interface_id: p.interface_id,
            keyboard: None,
            mouse: Some(
                MouseFrame {
                    buttons: p.buttons,
                    movement: MouseMovement {
                        x: axis_part(p.x) as i16,
                        y: axis_part(p.y) as i16,
                        wheel: axis_part(p.wheel),
                        pan: axis_part(p.pan),
                    },
                },
            ),
            consumer: None,
        }
    }

    /// What waits in a slot after that report.
    pub open spec fn rest_of(p: PendingMovement) -> PendingMovement {
        PendingMovement {
            x: axis_rest(p.x),
            y: axis_rest(p.y),
            wheel: axis_rest(p.wheel),
            pan: axis_rest(p.pan),
            pending: axis_rest(p.x) != 0 || axis_rest(p.y) != 0 || axis_rest(p.wheel) != 0
                || axis_rest(p.pan) != 0,
            ..p
        }
    }
}

fn add_axis(current: i32, delta: i32, stats: &mut UsbMovementCoalescerStats) -> (r: i32)
    ensures
        r == axis_sum(current, delta as int),
        *final(stats) == (UsbMovementCoalescerStats {
            movement_saturated: axis_count(old(stats).movement_saturated, current, delta as int),
            ..*old(stats)
        }),
{
    match current.checked_add(delta) {
        Some(sum) => sum,
        None => {
            stats.movement_saturated = stats.movement_saturated.saturating_add(1);
            if delta < 0 {
                i32::MIN
            } else {
                i32::MAX
            }
        },
    }
}

fn take_axis(value: i32) -> (r: (i8, i32))
    ensures
        r.0 == axis_part(value),
        r.1 == axis_rest(value),
{
    let output: i8 = if value < -128 {
        -128
    } else if value > 127 {
        127
    } else {
        value as i8
    };
    (output, value - output as i32)
}

proof fn lemma_taken_wf(v: CoalescerView, i: int)
    requires
        v.wf(),
        0 <= i < v.pending.len(),
        v.pending[i].pending,
    ensures
        v.taken(i).wf(),
{
    let after = v.taken(i);
    assert forall|a: int, b: int|
        0 <= a < b < after.pending.len() && after.pending[a].pending
            && after.pending[b].pending implies (#[trigger] after.pending[a]).interface_id != (
    #[trigger] after.pending[b]).interface_id by {
        assert(v.pending[a].interface_id != v.pending[b].interface_id);
    }
    assert forall|a: int|
        0 <= a < after.pending.len() && !(
        #[trigger] after.pending[a]).pending implies after.pending[a].x == 0 && after.pending[a].y
        == 0 && after.pending[a].wheel == 0 && after.pending[a].pan == 0 by {
        if a != i {
            assert(after.pending[a] == v.pending[a]);
        }
    }
}

proof fn lemma_pushed_wf(v: CoalescerView, frame: FrameView)
    requires
        v.wf(),
        v.refusal(frame) is None,
    ensures
        v.pushed(frame).wf(),
{
    let p = waits_for(frame.interface_id);
    lemma_first_where(v.pending, p);
    lemma_first_where(v.pending, is_idle());
    let i = v.slot_for(frame.interface_id)->0;
    let after = v.pushed(frame);
    assert forall|j: int| 0 <= j < v.pending.len() && j != i && v.pending[j].pending implies (
    #[trigger] v.pending[j]).interface_id != frame.interface_id by {
        if first_where(v.pending, p) is Some {
            assert(p(v.pending[i]));
            if j < i {
                assert(v.pending[j].interface_id != v.pending[i].interface_id);
            } else {
                assert(v.pending[i].interface_id != v.pending[j].interface_id);
            }
        } else {
            assert(!p(v.pending[j]));
        }
    }
    assert forall|a: int, b: int|
        0 <= a < b < after.pending.len() && after.pending[a].pending
            && after.pending[b].pending implies (#[trigger] after.pending[a]).interface_id != (
    #[trigger] after.pending[b]).interface_id by {
        if a == i {
            assert(v.pending[b].interface_id != frame.interface_id);
        } else if b == i {
            assert(v.pending[a].interface_id != frame.interface_id);
        } else {
            assert(v.pending[a].interface_id != v.pending[b].interface_id);
        }
    }
    assert forall|a: int|
        0 <= a < after.pending.len() && !(
        #[trigger] after.pending[a]).pending implies after.pending[a].x == 0 && after.pending[a].y
        == 0 && after.pending[a].wheel == 0 && after.pending[a].pan == 0 by {
        if a != i {
            assert(after.pending[a] == v.pending[a]);
        }
    }
}

fn idle() -> (r: PendingMovement)
    ensures
        r == idle_slot(),
{
    PendingMovement {
        device_id: DeviceId(0),
        interface_id: InterfaceId(0),
        buttons: MouseButtons::empty(),
        x: 0,
        y: 0,
        wheel: 0,
        pan: 0,
        pending: false,
    }
}

impl<const INTERFACES: usize> UsbMovementCoalescer<INTERFACES> {
    /// Nothing waits.
    pub fn new() -> (r: Self)
        ensures
            r@.wf(),
            r@ == CoalescerView::idle(INTERFACES as nat),
    {
        let r = Self {
            pending: [idle(); INTERFACES],
            stats: UsbMovementCoalescerStats { reports_coalesced: 0, movement_saturated: 0 },
        };
        assert(r@.pending =~= Seq::new(INTERFACES as nat, |i: int| idle_slot()));
        r
    }

    fn find_slot(&self, interface_id: InterfaceId) -> (r: Option<usize>)
        ensures
            r is Some ==> self@.slot_for(interface_id) == Some(r->0 as int) && r->0 < INTERFACES,
            r is None ==> self@.slot_for(interface_id) is None,
    {
        let ghost slots = self.pending@;
        let ghost own = waits_for(interface_id);
        let ghost free = is_idle();
        let mut i: usize = 0;
        while i < INTERFACES
            invariant
                i <= INTERFACES,
                slots == self.pending@,
                own == waits_for(interface_id),
                forall|j: int| 0 <= j < i ==> !own(#[trigger] slots[j]),
            decreases INTERFACES - i,
        {
            if self.pending[i].pending && self.pending[i].interface_id == interface_id {
                proof {
                    lemma_first_at(slots, own, i as int);
                }
                return Some(i);
            }
            i += 1;
        }
        proof {
            lemma_first_none(slots, own);
        }
        let mut i: usize = 0;
        while i < INTERFACES
            invariant
                i <= INTERFACES,
                slots == self.pending@,
                free == is_idle(),
                own == waits_for(interface_id),
                first_where(slots, own) is None,
                forall|j: int| 0 <= j < i ==> !free(#[trigger] slots[j]),
            decreases INTERFACES - i,
        {
            if !self.pending[i].pending {
                proof {
                    lemma_first_at(slots, free, i as int);
                }
                return Some(i);
            }
            i += 1;
        }
        proof {
            lemma_first_none(slots, free);
        }
        None
    }

    /// Takes in a report that says nothing but movement.
    pub fn push(&mut self, frame: &StandardInputFrame) -> (r: Result<(), UsbMovementCoalescerError>)
        ensures
            old(self)@.wf() ==> final(self)@.wf(),
            old(self)@.refusal(frame@) is Some ==> r == Err::<(), UsbMovementCoalescerError>(
                old(self)@.refusal(frame@)->0,
            ) && final(self)@ == old(self)@,
            old(self)@.refusal(frame@) is None ==> r is Ok && final(self)@ == old(self)@.pushed(
                frame@,
            ),
    {
        let mouse = match frame.mouse {
            Some(mouse) => mouse,
            None => {
                return Err(UsbMovementCoalescerError::NotMovementOnly);
            },
        };
        if frame.keyboard.is_some() || frame.consumer.is_some() || mouse.movement
            == MouseMovement::neutral() {
            return Err(UsbMovementCoalescerError::NotMovementOnly);
        }
        let index: usize = match self.find_slot(frame.interface_id) {
            Some(index) => index,
            None => {
                return Err(UsbMovementCoalescerError::InterfaceCapacity);
            },
        };
        let waiting = self.pending[index];
        if waiting.pending {
            if waiting.device_id != frame.device_id || waiting.buttons != mouse.buttons {
                return Err(UsbMovementCoalescerError::NotMovementOnly);
            }
            self.stats.reports_coalesced = self.stats.reports_coalesced.saturating_add(1);
        }
        proof {
            lemma_first_where(self@.pending, waits_for(frame.interface_id));
            lemma_first_where(self@.pending, is_idle());
            if old(self)@.wf() {
                lemma_pushed_wf(old(self)@, frame@);
            }
        }
        let x: i32 = add_axis(waiting.x, mouse.movement.x as i32, &mut self.stats);
        let y: i32 = add_axis(waiting.y, mouse.movement.y as i32, &mut self.stats);
        let wheel: i32 = add_axis(waiting.wheel, mouse.movement.wheel as i32, &mut self.stats);
        let pan: i32 = add_axis(waiting.pan, mouse.movement.pan as i32, &mut self.stats);
        self.pending[index] =
        PendingMovement {
            device_id: frame.device_id,
            interface_id: frame.interface_id,
            buttons: mouse.buttons,
            x,
            y,
            wheel,
            pan,
            pending: true,
        };
        Ok(())
    }

    /// The next report of what waits in a slot.
    fn take_slot(&mut self, index: usize) -> (r: StandardInputFrame)
        requires
            index < INTERFACES,
            old(self)@.pending[index as int].pending,
        ensures
            r@ == CoalescerView::report_of(old(self)@.pending[index as int]),
            final(self)@ == old(self)@.taken(index as int),
    {
        let waiting = self.pending[index];
        let (x, rest_x) = take_axis(waiting.x);
        let (y, rest_y) = take_axis(waiting.y);
        let (wheel, rest_wheel) = take_axis(waiting.wheel);
        let (pan, rest_pan) = take_axis(waiting.pan);
        self.pending[index] =
        PendingMovement {
            device_id: waiting.device_id,
            interface_id: waiting.interface_id,
            buttons: waiting.buttons,
            x: rest_x,
            y: rest_y,
            wheel: rest_wheel,
            pan: rest_pan,
            pending: rest_x != 0 || rest_y != 0 || rest_wheel != 0 || rest_pan != 0,
        };
        StandardInputFrame {
            device_id: waiting.device_id,
            interface_id: waiting.interface_id,
            keyboard: None,
            mouse: Some(
                MouseFrame {
                    buttons: waiting.buttons,
                    movement: MouseMovement { x: x as i16, y: y as i16, wheel, pan },
                },
            ),
            consumer: None,
        }
    }

    /// The next report of the first interface that has one.
    pub fn take_next(&mut self) -> (r: Option<StandardInputFrame>)
        ensures
            old(self)@.wf() ==> final(self)@.wf(),
            match first_where(old(self)@.pending, is_waiting()) {
                None => r is None && final(self)@ == old(self)@,
                Some(i) => r is Some && r->0@ == CoalescerView::report_of(old(self)@.pending[i])
                    && final(self)@ == old(self)@.taken(i),
            },
    {
        let ghost slots = self.pending@;
        let ghost p = is_waiting();
        let mut i: usize = 0;
        while i < INTERFACES
            invariant
                i <= INTERFACES,
                slots == self.pending@,
                *self == *old(self),
                p == is_waiting(),
                forall|j: int| 0 <= j < i ==> !p(#[trigger] slots[j]),
            decreases INTERFACES - i,
        {
            if self.pending[i].pending {
                proof {
                    lemma_first_at(slots, p, i as int);
                    if self@.wf() {
                        lemma_taken_wf(self@, i as int);
                    }
                }
                return Some(self.take_slot(i));
            }
            i += 1;
        }
        proof {
            lemma_first_none(slots, p);
        }
        None
    }

    /// The next report of an interface, where it has one.
    pub fn take_for(&mut self, interface_id: InterfaceId) -> (r: Option<StandardInputFrame>)
        ensures
            old(self)@.wf() ==> final(self)@.wf(),
            match first_where(old(self)@.pending, waits_for(interface_id)) {
                None => r is None && final(self)@ == old(self)@,
                Some(i) => r is Some && r->0@ == CoalescerView::report_of(old(self)@.pending[i])
                    && final(self)@ == old(self)@.taken(i),
            },
    {
        let ghost slots = self.pending@;
        let ghost p = waits_for(interface_id);
        let mut i: usize = 0;
        while i < INTERFACES
            invariant
                i <= INTERFACES,
                slots == self.pending@,
                *self == *old(self),
                p == waits_for(interface_id),
                forall|j: int| 0 <= j < i ==> !p(#[trigger] slots[j]),
            decreases INTERFACES - i,
        {
            if self.pending[i].pending && self.pending[i].interface_id == interface_id {
                proof {
                    lemma_first_at(slots, p, i as int);
                    if self@.wf() {
                        lemma_taken_wf(self@, i as int);
                    }
                }
                return Some(self.take_slot(i));
            }
            i += 1;
        }
        proof {
            lemma_first_none(slots, p);
        }
        None
    }

    /// Drops what waits for an interface.
    pub fn discard(&mut self, interface_id: InterfaceId)
        ensures
            old(self)@.wf() ==> final(self)@.wf(),
            final(self)@ == (CoalescerView {
                pending: match first_where(old(self)@.pending, waits_for(interface_id)) {
                    Some(i) => old(self)@.pending.update(i, idle_slot()),
                    None => old(self)@.pending,
                },
                ..old(self)@
            }),
    {
        let ghost slots = self.pending@;
        let ghost p = waits_for(interface_id);
        let mut i: usize = 0;
        while i < INTERFACES
            invariant
                i <= INTERFACES,
                slots == self.pending@,
                *self == *old(self),
                p == waits_for(interface_id),
                forall|j: int| 0 <= j < i ==> !p(#[trigger] slots[j]),
            decreases INTERFACES - i,
        {
            if self.pending[i].pending && self.pending[i].interface_id == interface_id {
                proof {
                    lemma_first_at(slots, p, i as int);
                }
                self.pending[i] = idle();
                return;
            }
            i += 1;
        }
        proof {
            lemma_first_none(slots, p);
        }
    }

    /// Drops all that waits.
    pub fn discard_all(&mut self)
        ensures
            final(self)@.wf(),
            final(self)@ == (CoalescerView {
                pending: Seq::new(INTERFACES as nat, |i: int| idle_slot()),
                ..old(self)@
            }),
    {
        self.pending = [idle(); INTERFACES];
        assert(self@.pending =~= Seq::new(INTERFACES as nat, |i: int| idle_slot()));
    }

    /// What happened to movement so far.
    pub fn stats(&self) -> (r: UsbMovementCoalescerStats)
        ensures
            r == self@.stats,
    {
        self.stats
    }
}

impl<const INTERFACES: usize> Default for UsbMovementCoalescer<INTERFACES> {
    fn default() -> (r: Self)
        ensures
            r@.wf(),
            r@ == CoalescerView::idle(INTERFACES as nat),
    {
        Self::new()
    }
}

/// No movement is lost: what a report says and what then still waits add up to
/// what waited, on every axis, and the slot is free once nothing waits. A report
/// says nothing but movement, of at most one byte on every axis.
pub proof fn law_movement_is_not_lost(p: PendingMovement)
    ensures
        ({
            let report = CoalescerView::report_of(p);
            let said = report.mouse->0.movement;
            let rest = CoalescerView::rest_of(p);
            &&& said.x + rest.x == p.x
            &&& said.y + rest.y == p.y
            &&& said.wheel + rest.wheel == p.wheel
            &&& said.pan + rest.pan == p.pan
            &&& !rest.pending <==> rest.x == 0 && rest.y == 0 && rest.wheel == 0 && rest.pan == 0
            &&& -128 <= said.x <= 127 && -128 <= said.y <= 127
            &&& -128 <= said.wheel <= 127 && -128 <= said.pan <= 127
            &&& report.keyboard is None && report.consumer is None
        }),
{
}

/// An axis of movement.
pub enum Axis {
    X,
    Y,
    Wheel,
    Pan,
}

/// Movement on an axis.
pub open spec fn on_axis(m: MouseMovement, axis: Axis) -> int {
    match axis {
        Axis::X => m.x as int,
        Axis::Y => m.y as int,
        Axis::Wheel => m.wheel as int,
        Axis::Pan => m.pan as int,
    }
}

/// What waits in a slot on an axis.
pub open spec fn waits_on(p: PendingMovement, axis: Axis) -> int {
    match axis {
        Axis::X => p.x as int,
        Axis::Y => p.y as int,
        Axis::Wheel => p.wheel as int,
        Axis::Pan => p.pan as int,
    }
}

/// A call of the coalescer.
pub enum CoalescerCall {
    /// `push` with a report.
    Push(FrameView),
    /// `take_next`.
    TakeNext,
    /// `take_for` with an interface.
    TakeFor(InterfaceId),
}

impl CoalescerView {
    /// The slot that a call takes a report from, if it does.
    pub open spec fn source(self, call: CoalescerCall) -> Option<int> {
        match call {
            CoalescerCall::Push(_) => None,
            CoalescerCall::TakeNext => first_where(self.pending, is_waiting()),
            CoalescerCall::TakeFor(interface_id) => first_where(
                self.pending,
                waits_for(interface_id),
            ),
        }
    }

    /// After a call.
    pub open spec fn called(self, call: CoalescerCall) -> CoalescerView {
        match call {
            CoalescerCall::Push(frame) => if self.refusal(frame) is None {
                self.pushed(frame)
            } else {
                self
            },
            _ => match self.source(call) {
                Some(i) => self.taken(i),
                None => self,
            },
        }
    }

    /// The movement of an interface that a call puts in.
    pub open spec fn puts_in(self, call: CoalescerCall, interface_id: InterfaceId, axis: Axis) -> int {
        match call {
            CoalescerCall::Push(frame) => if self.refusal(frame) is None && frame.interface_id
                == interface_id {
                on_axis(frame.mouse->0.movement, axis)
            } else {
                0
            },
            _ => 0,
        }
    }

    /// The movement of an interface that a call takes out.
    pub open spec fn takes_out(self, call: CoalescerCall, interface_id: InterfaceId, axis: Axis) -> int {
        match self.source(call) {
            Some(i) => if self.pending[i].interface_id == interface_id {
                on_axis(CoalescerView::report_of(self.pending[i]).mouse->0.movement, axis)
            } else {
                0
            },
            None => 0,
        }
    }

    /// The movement of an interface that waits.
    pub open spec fn waiting(self, interface_id: InterfaceId, axis: Axis) -> int {
        match first_where(self.pending, waits_for(interface_id)) {
            Some(i) => waits_on(self.pending[i], axis),
            None => 0,
        }
    }
}

/// After some calls.
pub open spec fn after_calls(start: CoalescerView, calls: Seq<CoalescerCall>) -> CoalescerView
    decreases calls.len(),
{
    if calls.len() == 0 {
        start
    } else {
        after_calls(start, calls.drop_last()).called(calls.last())
    }
}

/// The movement of an interface that some calls put in.
pub open spec fn put_in(
    start: CoalescerView,
    calls: Seq<CoalescerCall>,
    interface_id: InterfaceId,
    axis: Axis,
) -> int
    decreases calls.len(),
{
    if calls.len() == 0 {
        0
    } else {
        put_in(start, calls.drop_last(), interface_id, axis) + after_calls(
            start,
            calls.drop_last(),
        ).puts_in(calls.last(), interface_id, axis)
    }
}

/// The movement of an interface that some calls took out.
pub open spec fn taken_out(
    start: CoalescerView,
    calls: Seq<CoalescerCall>,
    interface_id: InterfaceId,
    axis: Axis,
) -> int
    decreases calls.len(),
{
    if calls.len() == 0 {
        0
    } else {
        taken_out(start, calls.drop_last(), interface_id, axis) + after_calls(
            start,
            calls.drop_last(),
        ).takes_out(calls.last(), interface_id, axis)
    }
}

/// What waits for an interface is what waits in the slot that is its own.
proof fn lemma_waiting_at(v: CoalescerView, interface_id: InterfaceId, axis: Axis, i: int)
    requires
        v.wf(),
        0 <= i < v.pending.len(),
        v.pending[i].pending,
        v.pending[i].interface_id == interface_id,
    ensures
        v.waiting(interface_id, axis) == waits_on(v.pending[i], axis),
{
    let p = waits_for(interface_id);
    assert forall|j: int| 0 <= j < i implies !p(#[trigger] v.pending[j]) by {
        if p(v.pending[j]) {
            assert(v.pending[j].interface_id != v.pending[i].interface_id);
        }
    }
    lemma_first_at(v.pending, p, i);
}

/// What waits for an interface does not change with a slot that is and was not
/// its own.
proof fn lemma_waiting_elsewhere(
    v: CoalescerView,
    after: CoalescerView,
    interface_id: InterfaceId,
    axis: Axis,
    i: int,
)
    requires
        v.wf(),
        after.wf(),
        0 <= i < v.pending.len(),
        after.pending == v.pending.update(i, after.pending[i]),
        !waits_for(interface_id)(v.pending[i]),
        !waits_for(interface_id)(after.pending[i]),
    ensures
        after.waiting(interface_id, axis) == v.waiting(interface_id, axis),
{
    let p = waits_for(interface_id);
    lemma_first_where(v.pending, p);
    match first_where(v.pending, p) {
        Some(k) => {
            assert(p(v.pending[k]));
            assert(after.pending[k] == v.pending[k]);
            lemma_waiting_at(after, interface_id, axis, k);
        },
        None => {
            assert forall|j: int| 0 <= j < after.pending.len() implies !p(
                #[trigger] after.pending[j],
            ) by {
                if j != i {
                    assert(!p(v.pending[j]));
                }
            }
            lemma_first_none(after.pending, p);
        },
    }
}

proof fn lemma_push_adds(v: CoalescerView, frame: FrameView, interface_id: InterfaceId, axis: Axis)
    requires
        v.wf(),
        v.refusal(frame) is None,
        v.pushed(frame).stats.movement_saturated == 0,
    ensures
        v.pushed(frame).waiting(interface_id, axis) == v.waiting(interface_id, axis) + v.puts_in(
            CoalescerCall::Push(frame),
            interface_id,
            axis,
        ),
        v.stats.movement_saturated == 0,
{
    lemma_pushed_wf(v, frame);
    let own = waits_for(frame.interface_id);
    lemma_first_where(v.pending, own);
    lemma_first_where(v.pending, is_idle());
    let i = v.slot_for(frame.interface_id)->0;
    let after = v.pushed(frame);
    let p = v.pending[i];
    if interface_id == frame.interface_id {
        lemma_waiting_at(after, interface_id, axis, i);
        if first_where(v.pending, own) is None {
            assert(is_idle()(p));
            assert(waits_on(p, axis) == 0);
        }
    } else {
        if first_where(v.pending, own) is Some {
            assert(own(p));
        } else {
            assert(is_idle()(p));
        }
        lemma_waiting_elsewhere(v, after, interface_id, axis, i);
    }
}

proof fn lemma_take_takes(v: CoalescerView, call: CoalescerCall, interface_id: InterfaceId, axis: Axis)
    requires
        v.wf(),
        !(call is Push),
    ensures
        v.called(call).waiting(interface_id, axis) == v.waiting(interface_id, axis) - v.takes_out(
            call,
            interface_id,
            axis,
        ),
{
    if call is TakeFor {
        lemma_first_where(v.pending, waits_for(call->TakeFor_0));
    }
    lemma_first_where(v.pending, is_waiting());
    match v.source(call) {
        None => {},
        Some(i) => {
            if call is TakeFor {
                assert(waits_for(call->TakeFor_0)(v.pending[i]));
            } else {
                assert(is_waiting()(v.pending[i]));
            }
            let after = v.taken(i);
            lemma_taken_wf(v, i);
            law_movement_is_not_lost(v.pending[i]);
            if v.pending[i].interface_id == interface_id {
                lemma_waiting_at(v, interface_id, axis, i);
                if after.pending[i].pending {
                    lemma_waiting_at(after, interface_id, axis, i);
                } else {
                    let p = waits_for(interface_id);
                    assert forall|j: int| 0 <= j < after.pending.len() implies !p(
                        #[trigger] after.pending[j],
                    ) by {
                        if j < i && v.pending[j].pending {
                            assert(v.pending[j].interface_id != v.pending[i].interface_id);
                        } else if j > i && v.pending[j].pending {
                            assert(v.pending[i].interface_id != v.pending[j].interface_id);
                        }
                    }
                    lemma_first_none(after.pending, p);
                }
            } else {
                lemma_waiting_elsewhere(v, after, interface_id, axis, i);
            }
        },
    }
}

proof fn lemma_called_wf(v: CoalescerView, call: CoalescerCall)
    requires
        v.wf(),
    ensures
        v.called(call).wf(),
        v.called(call).stats.movement_saturated == 0 ==> v.stats.movement_saturated == 0,
{
    match call {
        CoalescerCall::Push(frame) => {
            if v.refusal(frame) is None {
                lemma_pushed_wf(v, frame);
            }
        },
        CoalescerCall::TakeNext => {
            lemma_first_where(v.pending, is_waiting());
            if v.source(call) is Some {
                assert(is_waiting()(v.pending[v.source(call)->0]));
                lemma_taken_wf(v, v.source(call)->0);
            }
        },
        CoalescerCall::TakeFor(interface_id) => {
            lemma_first_where(v.pending, waits_for(interface_id));
            if v.source(call) is Some {
                assert(waits_for(interface_id)(v.pending[v.source(call)->0]));
                lemma_taken_wf(v, v.source(call)->0);
            }
        },
    }
}

/// Over any calls of a coalescer that no sum overflowed in, the movement of every
/// interface that was accepted is what was taken and what still waits, on every
/// axis.
pub proof fn law_movement_adds_up(
    n: nat,
    calls: Seq<CoalescerCall>,
    interface_id: InterfaceId,
    axis: Axis,
)
    requires
        after_calls(CoalescerView::idle(n), calls).stats.movement_saturated == 0,
    ensures
        ({
            let start = CoalescerView::idle(n);
            let end = after_calls(start, calls);
            &&& end.wf()
            &&& put_in(start, calls, interface_id, axis) == taken_out(
                start,
                calls,
                interface_id,
                axis,
            ) + end.waiting(interface_id, axis)
        }),
    decreases calls.len(),
{
    let start = CoalescerView::idle(n);
    if calls.len() == 0 {
        lemma_first_none(start.pending, waits_for(interface_id));
    } else {
        let rest = calls.drop_last();
        let call = calls.last();
        let before = after_calls(start, rest);
        lemma_calls_wf(start, rest);
        lemma_called_wf(before, call);
        law_movement_adds_up(n, rest, interface_id, axis);
        match call {
            CoalescerCall::Push(frame) => {
                if before.refusal(frame) is None {
                    lemma_push_adds(before, frame, interface_id, axis);
                }
            },
            _ => {
                lemma_take_takes(before, call, interface_id, axis);
            },
        }
    }
}

proof fn lemma_calls_wf(start: CoalescerView, calls: Seq<CoalescerCall>)
    requires
        start.wf(),
    ensures
        after_calls(start, calls).wf(),
    decreases calls.len(),
{
    if calls.len() > 0 {
        lemma_calls_wf(start, calls.drop_last());
        lemma_called_wf(after_calls(start, calls.drop_last()), calls.last());
    }
}

/// Once `take_next` has nothing more to give, and no sum overflowed, all movement
/// that was accepted has been taken.
pub proof fn law_all_movement_is_taken(
    n: nat,
    calls: Seq<CoalescerCall>,
    interface_id: InterfaceId,
    axis: Axis,
)
    requires
        after_calls(CoalescerView::idle(n), calls).stats.movement_saturated == 0,
        first_where(after_calls(CoalescerView::idle(n), calls).pending, is_waiting()) is None,
    ensures
        put_in(CoalescerView::idle(n), calls, interface_id, axis) == taken_out(
            CoalescerView::idle(n),
            calls,
            interface_id,
            axis,
        ),
{
    law_movement_adds_up(n, calls, interface_id, axis);
    let end = after_calls(CoalescerView::idle(n), calls);
    lemma_first_where(end.pending, is_waiting());
    assert forall|j: int| 0 <= j < end.pending.len() implies !waits_for(interface_id)(
        #[trigger] end.pending[j],
    ) by {
        assert(!is_waiting()(end.pending[j]));
    }
    lemma_first_none(end.pending, waits_for(interface_id));
}

/// A report of movement that waited is one of its device and interface, with the
/// buttons that were held, and nothing else. On each axis it goes as far as one
/// byte can say, and what is left waits.
pub proof fn law_report_of_what_waited(p: PendingMovement)
    ensures
        ({
            let frame = CoalescerView::report_of(p);
            let m = frame.mouse->0.movement;
            let rest = CoalescerView::rest_of(p);
            &&& frame.device_id == p.device_id
            &&& frame.interface_id == p.interface_id
            &&& frame.keyboard is None
            &&& frame.consumer is None
            &&& frame.mouse is Some
            &&& frame.mouse->0.buttons == p.buttons
            &&& m.x + rest.x == p.x
            &&& m.y + rest.y == p.y
            &&& m.wheel + rest.wheel == p.wheel
            &&& m.pan + rest.pan == p.pan
            &&& rest.pending <==> rest.x != 0 || rest.y != 0 || rest.wheel != 0 || rest.pan != 0
        }),
{
}

} // verus!
