//! What is sent next over a busy radio.

use vstd::prelude::*;

use super::message::{InputLane, MotionCumulative, MAX_HID_REPORT_SIZE};
use crate::fixed;
use crate::fixed::bytes_in_256;
use crate::ids::{DeviceId, InterfaceId};
use crate::lists::{
    count_some, first_where, lemma_count_some, lemma_first_at, lemma_first_none,
    lemma_first_where,
};

verus! {

/// Delivery policy for a report travelling over the realtime input lane.
#[derive(Clone, Copy, Debug, PartialEq, Eq, Structural)]
pub enum InputDeliveryClass {
    /// A state transition or vendor report must retain ordering.
    Critical,
    /// A movement-only report may be replaced by a newer report for the same
    /// interface while the radio is busy.
    Motion,
}

/// Why a report could not be admitted to the fixed-capacity scheduler.
#[derive(Clone, Copy, Debug, PartialEq, Eq, Structural)]
pub enum InputSchedulerError {
    CriticalQueueFull,
    MotionQueueDisabled,
    MotionQueueUnavailable,
}

/// A report that waits for the radio.
#[derive(Clone, Debug, PartialEq, Eq)]
pub struct ScheduledInput {
    pub device_id: DeviceId,
    pub interface_id: InterfaceId,
    pub ingress_us: u64,
    pub sequence: u32,
    pub e2e_sequence: u32,
    pub motion: MotionCumulative,
    pub report: heapless::Vec<u8, MAX_HID_REPORT_SIZE>,
    pub(crate) class: InputDeliveryClass,
    pub(crate) order: u32,
}

/// What a scheduled report says.
pub struct ScheduledView {
    pub device_id: DeviceId,
    pub interface_id: InterfaceId,
    pub ingress_us: u64,
    pub sequence: u32,
    pub e2e_sequence: u32,
    pub motion: MotionCumulative,
    pub report: Seq<u8>,
    pub class: InputDeliveryClass,
    pub order: u32,
}

impl View for ScheduledInput {
    type V = ScheduledView;

    open(crate) spec fn view(&self) -> ScheduledView {
        ScheduledView {
            device_id: self.device_id,
            interface_id: self.interface_id,
            ingress_us: self.ingress_us,
            sequence: self.sequence,
            e2e_sequence: self.e2e_sequence,
            motion: self.motion,
            report: bytes_in_256(self.report),
            class: self.class,
            order: self.order,
        }
    }
}

impl ScheduledInput {
    /// A report without motion, unless it is too long.
    pub fn new(
        device_id: DeviceId,
        interface_id: InterfaceId,
        ingress_us: u64,
        sequence: u32,
        e2e_sequence: u32,
        report: &[u8],
        class: InputDeliveryClass,
    ) -> (r: Option<Self>)
        ensures
            r is Some <==> report@.len() <= MAX_HID_REPORT_SIZE,
            r is Some ==> r->0@ == (ScheduledView {
                device_id,
                interface_id,
                ingress_us,
                sequence,
                e2e_sequence,
                motion: MotionCumulative::still(),
                report: report@,
                class,
                order: 0,
            }),
    {
        let mut owned = fixed::new_256();
        match fixed::extend(&mut owned, report) {
            Err(_) => None,
            Ok(_) => {
                assert(bytes_in_256(owned) =~= report@);
                Some(
                    Self {
                        device_id,
                        interface_id,
                        ingress_us,
                        sequence,
                        e2e_sequence,
                        motion: MotionCumulative::zero(),
                        report: owned,
                        class,
                        order: 0,
                    },
                )
            },
        }
    }

    /// The delivery policy.
    pub fn class(&self) -> (r: InputDeliveryClass)
        ensures
            r == self@.class,
    {
        self.class
    }

    /// The lane that the policy stands for.
    pub fn lane(&self) -> (r: InputLane)
        ensures
            r == match self@.class {
                InputDeliveryClass::Motion => InputLane::Motion,
                InputDeliveryClass::Critical => InputLane::Critical,
            },
    {
        match self.class {
            InputDeliveryClass::Motion => InputLane::Motion,
            InputDeliveryClass::Critical => InputLane::Critical,
        }
    }

    /// The report with motion.
    pub fn with_motion(self, motion: MotionCumulative) -> (r: Self)
        ensures
            r@ == (ScheduledView { motion, ..self@ }),
    {
        let mut r = self;
        r.motion = motion;
        r
    }
}

/// What happened to reports so far.
#[derive(Clone, Copy, Debug, PartialEq, Eq, Structural)]
pub struct InputSchedulerStats {
    pub queued_critical: u32,
    pub queued_motion: u32,
    pub coalesced_motion: u32,
    pub dropped_motion: u32,
    pub rejected_critical: u32,
}

impl InputSchedulerStats {
    /// Nothing yet.
    pub open spec fn zero() -> InputSchedulerStats {
        InputSchedulerStats {
            queued_critical: 0,
            queued_motion: 0,
            coalesced_motion: 0,
            dropped_motion: 0,
            rejected_critical: 0,
        }
    }
}

impl Default for InputSchedulerStats {
    fn default() -> (r: Self)
        ensures
            r == InputSchedulerStats::zero(),
    {
        Self {
            queued_critical: 0,
            queued_motion: 0,
            coalesced_motion: 0,
            dropped_motion: 0,
            rejected_critical: 0,
        }
    }
}

/// Fixed-capacity input scheduler used immediately before radio submission.
///
/// Critical reports leave in the order in which they came and are never
/// displaced by movement. Motion is kept per interface and the oldest motion
/// slot is replaced when all slots are busy. This keeps a busy radio from
/// turning stale mouse movement into latency for a later keyboard transition.
pub struct InputScheduler<const CRITICAL: usize, const MOTION: usize> {
    critical: Vec<ScheduledInput>,
    motion: Vec<Option<ScheduledInput>>,
    next_order: u32,
    stats: InputSchedulerStats,
}

/// What a scheduler holds: the critical reports, oldest first, and the motion
/// slots.
pub struct SchedulerView {
    pub critical: Seq<ScheduledView>,
    pub motion: Seq<Option<ScheduledView>>,
    pub next_order: u32,
    pub stats: InputSchedulerStats,
}

/// What a slot holds.
pub open spec fn slot_view(slot: Option<ScheduledInput>) -> Option<ScheduledView> {
    match slot {
        Some(input) => Some(input@),
        None => None,
    }
}

/// Whether a slot holds motion of an interface.
pub open spec fn holds_motion_of(device_id: DeviceId, interface_id: InterfaceId) -> spec_fn(
    Option<ScheduledView>,
) -> bool {
    |slot: Option<ScheduledView>|
        slot is Some && slot->0.device_id == device_id && slot->0.interface_id == interface_id
}

/// Whether a slot is free.
pub open spec fn slot_free() -> spec_fn(Option<ScheduledView>) -> bool {
    |slot: Option<ScheduledView>| slot is None
}

/// How many reports came since this one, where `next` is the number of the
/// next report.
pub open spec fn report_age(next: u32, order: u32) -> u32 {
    next.wrapping_sub(order)
}

/// The slot with the oldest report.
pub open spec fn oldest_slot(slots: Seq<Option<ScheduledView>>, next: u32) -> Option<int>
    decreases slots.len(),
{
    if slots.len() == 0 {
        None
    } else {
        let before = oldest_slot(slots.drop_last(), next);
        match slots.last() {
            None => before,
            Some(input) => if before is Some && report_age(next, slots[before->0]->0.order)
                >= report_age(next, input.order) {
                before
            } else {
                Some(slots.len() - 1)
            },
        }
    }
}

/// Whether no interface has motion in two slots.
pub open spec fn one_slot_each(slots: Seq<Option<ScheduledView>>) -> bool {
    forall|i: int, j: int|
        0 <= i < j < slots.len() && slots[i] is Some && slots[j] is Some ==> (
        #[trigger] slots[i])->0.device_id != (#[trigger] slots[j])->0.device_id
            || slots[i]->0.interface_id != slots[j]->0.interface_id
}

impl SchedulerView {
    /// A scheduler with nothing to send.
    pub open spec fn idle(motion: nat) -> SchedulerView {
        SchedulerView {
            critical: seq![],
            motion: Seq::new(motion, |i: int| None),
            next_order: 1,
            stats: InputSchedulerStats::zero(),
        }
    }

    /// The scheduler once a report has come, and what the sender is told.
    pub open spec fn enqueued(self, input: ScheduledView, critical: int) -> (
        SchedulerView,
        Result<(), InputSchedulerError>,
    ) {
        let numbered = ScheduledView { order: self.next_order, ..input };
        let next = SchedulerView { next_order: self.next_order.wrapping_add(1), ..self };
        match input.class {
            InputDeliveryClass::Critical => if self.critical.len() < critical {
                (
                    SchedulerView {
                        critical: self.critical.push(numbered),
                        stats: InputSchedulerStats {
                            queued_critical: self.stats.queued_critical.saturating_add(1),
                            ..self.stats
                        },
                        ..next
                    },
                    Ok(()),
                )
            } else {
                (
                    SchedulerView {
                        stats: InputSchedulerStats {
                            rejected_critical: self.stats.rejected_critical.saturating_add(1),
                            ..self.stats
                        },
                        ..next
                    },
                    Err(InputSchedulerError::CriticalQueueFull),
                )
            },
            InputDeliveryClass::Motion => {
                let same = first_where(
                    self.motion,
                    holds_motion_of(input.device_id, input.interface_id),
                );
                let free = first_where(self.motion, slot_free());
                let oldest = oldest_slot(self.motion, self.next_order);
                if same is Some {
                    (
                        SchedulerView {
                            motion: self.motion.update(same->0, Some(numbered)),
                            stats: InputSchedulerStats {
                                coalesced_motion: self.stats.coalesced_motion.saturating_add(1),
                                ..self.stats
                            },
                            ..next
                        },
                        Ok(()),
                    )
                } else if free is Some {
                    (
                        SchedulerView {
                            motion: self.motion.update(free->0, Some(numbered)),
                            stats: InputSchedulerStats {
                                queued_motion: self.stats.queued_motion.saturating_add(1),
                                ..self.stats
                            },
                            ..next
                        },
                        Ok(()),
                    )
                } else if oldest is Some {
                    (
                        SchedulerView {
                            motion: self.motion.update(oldest->0, Some(numbered)),
                            stats: InputSchedulerStats {
                                dropped_motion: self.stats.dropped_motion.saturating_add(1),
                                ..self.stats
                            },
                            ..next
                        },
                        Ok(()),
                    )
                } else {
                    (
                        SchedulerView {
                            stats: InputSchedulerStats {
                                dropped_motion: self.stats.dropped_motion.saturating_add(1),
                                ..self.stats
                            },
                            ..next
                        },
                        Err(InputSchedulerError::MotionQueueDisabled),
                    )
                }
            },
        }
    }

    /// The report that is sent next, and the scheduler without it.
    pub open spec fn popped(self) -> (SchedulerView, Option<ScheduledView>) {
        if self.critical.len() > 0 {
            (SchedulerView { critical: self.critical.skip(1), ..self }, Some(self.critical[0]))
        } else {
            match oldest_slot(self.motion, self.next_order) {
                None => (self, None),
                Some(i) => (
                    SchedulerView { motion: self.motion.update(i, None), ..self },
                    self.motion[i],
                ),
            }
        }
    }
}

impl<const CRITICAL: usize, const MOTION: usize> View for InputScheduler<CRITICAL, MOTION> {
    type V = SchedulerView;

    closed spec fn view(&self) -> SchedulerView {
        SchedulerView {
            critical: Seq::new(self.critical@.len(), |i: int| self.critical@[i]@),
            motion: Seq::new(self.motion@.len(), |i: int| slot_view(self.motion@[i])),
            next_order: self.next_order,
            stats: self.stats,
        }
    }
}

proof fn lemma_oldest(slots: Seq<Option<ScheduledView>>, next: u32)
    ensures
        oldest_slot(slots, next) is Some ==> 0 <= oldest_slot(slots, next)->0 < slots.len()
            && slots[oldest_slot(slots, next)->0] is Some,
        oldest_slot(slots, next) is None ==> forall|i: int|
            0 <= i < slots.len() ==> #[trigger] slots[i] is None,
        oldest_slot(slots, next) is Some ==> forall|i: int|
            0 <= i < slots.len() && #[trigger] slots[i] is Some ==> report_age(
                next,
                slots[i]->0.order,
            ) <= report_age(next, slots[oldest_slot(slots, next)->0]->0.order),
    decreases slots.len(),
{
    if slots.len() > 0 {
        let rest = slots.drop_last();
        lemma_oldest(rest, next);
        assert forall|i: int| 0 <= i < slots.len() - 1 implies #[trigger] slots[i] == rest[i] by {}
    }
}

proof fn lemma_freed_keeps_one_slot_each(slots: Seq<Option<ScheduledView>>, k: int)
    requires
        one_slot_each(slots),
        0 <= k < slots.len(),
    ensures
        one_slot_each(slots.update(k, None)),
{
    let after = slots.update(k, None);
    assert forall|i: int, j: int|
        0 <= i < j < after.len() && after[i] is Some && after[j] is Some implies (
    #[trigger] after[i])->0.device_id != (#[trigger] after[j])->0.device_id
        || after[i]->0.interface_id != after[j]->0.interface_id by {
        assert(slots[i] is Some && slots[j] is Some);
    }
}

proof fn lemma_enqueued_keeps_one_slot_each(v: SchedulerView, input: ScheduledView, critical: int)
    requires
        one_slot_each(v.motion),
    ensures
        one_slot_each(v.enqueued(input, critical).0.motion),
{
    let p = holds_motion_of(input.device_id, input.interface_id);
    lemma_first_where(v.motion, p);
    lemma_first_where(v.motion, slot_free());
    lemma_oldest(v.motion, v.next_order);
    let after = v.enqueued(input, critical).0.motion;
    if input.class == InputDeliveryClass::Motion {
        let same = first_where(v.motion, p);
        assert forall|i: int, j: int|
            0 <= i < j < after.len() && after[i] is Some && after[j] is Some implies (
        #[trigger] after[i])->0.device_id != (#[trigger] after[j])->0.device_id
            || after[i]->0.interface_id != after[j]->0.interface_id by {
            if same is Some {
                assert(p(v.motion[same->0]));
                assert(v.motion[i] is Some && v.motion[j] is Some);
            } else {
                assert(!p(v.motion[i]));
                assert(!p(v.motion[j]));
            }
        }
    }
}

/// Something done to a scheduler.
pub enum SchedulerEvent {
    Enqueue(ScheduledView),
    Pop,
}

/// A scheduler after a run, the critical reports that it took on the way, in
/// the order in which they came, and those that left it, in the order in which
/// they left.
pub struct SchedulerRun {
    pub scheduler: SchedulerView,
    pub taken: Seq<ScheduledView>,
    pub left: Seq<ScheduledView>,
}

impl SchedulerRun {
    /// The run with one more event.
    pub open spec fn step(self, event: SchedulerEvent, critical: int) -> SchedulerRun {
        match event {
            SchedulerEvent::Enqueue(input) => {
                let (after, told) = self.scheduler.enqueued(input, critical);
                SchedulerRun {
                    scheduler: after,
                    taken: if input.class == InputDeliveryClass::Critical && told is Ok {
                        self.taken.push(
                            ScheduledView { order: self.scheduler.next_order, ..input },
                        )
                    } else {
                        self.taken
                    },
                    left: self.left,
                }
            },
            SchedulerEvent::Pop => {
                let (after, report) = self.scheduler.popped();
                SchedulerRun {
                    scheduler: after,
                    taken: self.taken,
                    left: if self.scheduler.critical.len() > 0 {
                        self.left.push(report->0)
                    } else {
                        self.left
                    },
                }
            },
        }
    }
}

/// A run of events from a scheduler with nothing to send.
pub open spec fn scheduler_run(events: Seq<SchedulerEvent>, critical: int, motion: nat) -> SchedulerRun
    decreases events.len(),
{
    if events.len() == 0 {
        SchedulerRun { scheduler: SchedulerView::idle(motion), taken: seq![], left: seq![] }
    } else {
        scheduler_run(events.drop_last(), critical, motion).step(events.last(), critical)
    }
}

/// Over any run no critical report that was taken is lost, doubled or
/// overtaken: those that left are the first that were taken, in order, and the
/// others wait, in order. The scheduler stays within its capacity, with at most
/// one motion slot for each interface.
pub proof fn law_critical_reports_over_a_run(
    events: Seq<SchedulerEvent>,
    critical: nat,
    motion: nat,
)
    ensures
        ({
            let run = scheduler_run(events, critical as int, motion);
            &&& run.taken == run.left + run.scheduler.critical
            &&& run.scheduler.critical.len() <= critical
            &&& run.scheduler.motion.len() == motion
            &&& one_slot_each(run.scheduler.motion)
        }),
    decreases events.len(),
{
    let run = scheduler_run(events, critical as int, motion);
    if events.len() == 0 {
        assert(run.taken =~= run.left + run.scheduler.critical);
    } else {
        let before = scheduler_run(events.drop_last(), critical as int, motion);
        law_critical_reports_over_a_run(events.drop_last(), critical, motion);
        lemma_oldest(before.scheduler.motion, before.scheduler.next_order);
        match events.last() {
            SchedulerEvent::Enqueue(input) => {
                lemma_enqueued_keeps_one_slot_each(before.scheduler, input, critical as int);
                let p = holds_motion_of(input.device_id, input.interface_id);
                lemma_first_where(before.scheduler.motion, p);
                lemma_first_where(before.scheduler.motion, slot_free());
            },
            SchedulerEvent::Pop => {
                let oldest = oldest_slot(before.scheduler.motion, before.scheduler.next_order);
                if before.scheduler.critical.len() == 0 && oldest is Some {
                    lemma_freed_keeps_one_slot_each(before.scheduler.motion, oldest->0);
                }
            },
        }
        assert(run.taken =~= run.left + run.scheduler.critical);
    }
}

/// No report that waits for the radio is older than the one that is called the
/// oldest.
pub proof fn law_oldest_is_oldest(slots: Seq<Option<ScheduledView>>, next: u32, i: int)
    requires
        0 <= i < slots.len(),
        slots[i] is Some,
    ensures
        oldest_slot(slots, next) is Some,
        0 <= oldest_slot(slots, next)->0 < slots.len(),
        slots[oldest_slot(slots, next)->0] is Some,
        report_age(next, slots[i]->0.order) <= report_age(
            next,
            slots[oldest_slot(slots, next)->0]->0.order,
        ),
{
    lemma_oldest(slots, next);
}

/// Movement never displaces a critical report, and while a critical report
/// waits none but the first that came is sent.
pub proof fn law_critical_comes_first(v: SchedulerView, input: ScheduledView, critical: int)
    requires
        v.critical.len() > 0,
        input.class == InputDeliveryClass::Motion,
    ensures
        v.enqueued(input, critical).0.critical == v.critical,
        v.popped().1 == Some(v.critical[0]),
        v.enqueued(input, critical).0.popped().1 == v.popped().1,
{
}

/// Critical reports leave in the order in which they came: one that comes is
/// sent after all that wait already.
pub proof fn law_critical_is_first_in_first_out(
    v: SchedulerView,
    input: ScheduledView,
    critical: int,
)
    requires
        input.class == InputDeliveryClass::Critical,
        v.critical.len() < critical,
    ensures
        v.enqueued(input, critical).0.critical.drop_last() == v.critical,
        v.enqueued(input, critical).0.critical.last() == (ScheduledView {
            order: v.next_order,
            ..input
        }),
        v.critical.len() > 0 ==> v.enqueued(input, critical).0.popped().0.critical == v.popped().0.critical.push(
            v.enqueued(input, critical).0.critical.last(),
        ),
{
    let after = v.enqueued(input, critical).0;
    assert(after.critical.drop_last() =~= v.critical);
    if v.critical.len() > 0 {
        assert(after.critical.skip(1) =~= v.critical.skip(1).push(after.critical.last()));
    }
}

/// How many of the slots hold a report.
fn count_slots(slots: &Vec<Option<ScheduledInput>>, Ghost(views): Ghost<
    Seq<Option<ScheduledView>>,
>) -> (r: usize)
    requires
        views == Seq::new(slots@.len(), |i: int| slot_view(slots@[i])),
    ensures
        r == count_some(views),
        r <= slots@.len(),
{
    let mut count: usize = 0;
    let mut i: usize = 0;
    assert(views.take(0) =~= Seq::<Option<ScheduledView>>::empty());
    while i < slots.len()
        invariant
            i <= slots@.len(),
            count <= i,
            views == Seq::new(slots@.len(), |i: int| slot_view(slots@[i])),
            count == count_some(views.take(i as int)),
        decreases slots@.len() - i,
    {
        assert(views.take(i + 1).drop_last() =~= views.take(i as int));
        assert(views.take(i + 1).last() == slot_view(slots@[i as int]));
        if slots[i].is_some() {
            count += 1;
        }
        i += 1;
    }
    assert(views.take(i as int) =~= views);
    count
}

impl<const CRITICAL: usize, const MOTION: usize> InputScheduler<CRITICAL, MOTION> {
    /// No more critical reports wait than there is room for, there are as many
    /// motion slots as were asked for, and no interface has two of them.
    pub closed spec fn wf(&self) -> bool {
        &&& self.critical@.len() <= CRITICAL
        &&& self.motion@.len() == MOTION
        &&& one_slot_each(self@.motion)
    }

    /// What `wf` says of the view.
    pub proof fn lemma_wf(&self)
        requires
            self.wf(),
        ensures
            self@.critical.len() <= CRITICAL,
            self@.motion.len() == MOTION,
            one_slot_each(self@.motion),
    {
    }

    /// A scheduler with nothing to send.
    pub fn new() -> (r: Self)
        ensures
            r.wf(),
            r@ == SchedulerView::idle(MOTION as nat),
    {
        let mut motion: Vec<Option<ScheduledInput>> = Vec::new();
        let mut i: usize = 0;
        while i < MOTION
            invariant
                i <= MOTION,
                motion@.len() == i,
                forall|j: int| 0 <= j < i ==> #[trigger] motion@[j] is None,
            decreases MOTION - i,
        {
            motion.push(None);
            i += 1;
        }
        let r = Self {
            critical: Vec::new(),
            motion,
            next_order: 1,
            stats: InputSchedulerStats::default(),
        };
        assert(r@.motion =~= Seq::new(MOTION as nat, |i: int| None));
        assert(r@.critical =~= seq![]);
        r
    }

    /// Takes in a report, or says why not.
    pub fn enqueue(&mut self, input: ScheduledInput) -> (r: Result<(), InputSchedulerError>)
        requires
            old(self).wf(),
        ensures
            final(self).wf(),
            (final(self)@, r) == old(self)@.enqueued(input@, CRITICAL as int),
    {
        let mut numbered = input;
        let ghost next = self.next_order;
        proof {
            lemma_enqueued_keeps_one_slot_each(self@, input@, CRITICAL as int);
        }
        numbered.order = self.next_order;
        self.next_order = self.next_order.wrapping_add(1);
        match numbered.class {
            InputDeliveryClass::Critical => {
                if self.critical.len() >= CRITICAL {
                    self.stats.rejected_critical = self.stats.rejected_critical.saturating_add(1);
                    assert(self@.critical =~= old(self)@.critical);
                    assert(self@.motion =~= old(self)@.motion);
                    return Err(InputSchedulerError::CriticalQueueFull);
                }
                self.critical.push(numbered);
                self.stats.queued_critical = self.stats.queued_critical.saturating_add(1);
                assert(self@.critical =~= old(self)@.critical.push(
                    ScheduledView { order: next, ..input@ },
                ));
                assert(self@.motion =~= old(self)@.motion);
                Ok(())
            },
            InputDeliveryClass::Motion => {
                let ghost slots = old(self)@.motion;
                assert(self@.critical =~= old(self)@.critical);
                if MOTION == 0 {
                    self.stats.dropped_motion = self.stats.dropped_motion.saturating_add(1);
                    proof {
                        lemma_first_none(
                            slots,
                            holds_motion_of(input@.device_id, input@.interface_id),
                        );
                        lemma_first_none(slots, slot_free());
                        lemma_oldest(slots, next);
                    }
                    assert(self@.motion =~= slots);
                    return Err(InputSchedulerError::MotionQueueDisabled);
                }
                if let Some(index) = self.slot_of(numbered.device_id, numbered.interface_id) {
                    self.motion[index] = Some(numbered);
                    self.stats.coalesced_motion = self.stats.coalesced_motion.saturating_add(1);
                    assert(self@.motion =~= slots.update(
                        index as int,
                        Some(ScheduledView { order: next, ..input@ }),
                    ));
                    assert(self@.critical =~= old(self)@.critical);
                    return Ok(());
                }
                if let Some(index) = self.free_slot() {
                    self.motion[index] = Some(numbered);
                    self.stats.queued_motion = self.stats.queued_motion.saturating_add(1);
                    assert(self@.motion =~= slots.update(
                        index as int,
                        Some(ScheduledView { order: next, ..input@ }),
                    ));
                    assert(self@.critical =~= old(self)@.critical);
                    return Ok(());
                }
                match self.oldest(numbered.order) {
                    None => {
                        proof {
                            lemma_oldest(slots, next);
                            lemma_first_where(slots, slot_free());
                            assert(slots[0] is None);
                        }
                        self.stats.dropped_motion = self.stats.dropped_motion.saturating_add(1);
                        Err(InputSchedulerError::MotionQueueUnavailable)
                    },
                    Some(index) => {
                        self.motion[index] = Some(numbered);
                        self.stats.dropped_motion = self.stats.dropped_motion.saturating_add(1);
                        assert(self@.motion =~= slots.update(
                            index as int,
                            Some(ScheduledView { order: next, ..input@ }),
                        ));
                        assert(self@.critical =~= old(self)@.critical);
                        Ok(())
                    },
                }
            },
        }
    }

    fn slot_of(&self, device_id: DeviceId, interface_id: InterfaceId) -> (r: Option<usize>)
        ensures
            r is Some ==> first_where(self@.motion, holds_motion_of(device_id, interface_id))
                == Some(r->0 as int) && r->0 < self@.motion.len(),
            r is None ==> first_where(self@.motion, holds_motion_of(device_id, interface_id))
                is None,
    {
        let ghost p = holds_motion_of(device_id, interface_id);
        let ghost slots = self@.motion;
        let mut i: usize = 0;
        while i < self.motion.len()
            invariant
                i <= self.motion@.len(),
                slots == self@.motion,
                p == holds_motion_of(device_id, interface_id),
                forall|j: int| 0 <= j < i ==> !p(#[trigger] slots[j]),
            decreases self.motion@.len() - i,
        {
            assert(slots[i as int] == slot_view(self.motion@[i as int]));
            let found = match &self.motion[i] {
                Some(current) => current.device_id == device_id && current.interface_id
                    == interface_id,
                None => false,
            };
            if found {
                proof {
                    lemma_first_at(slots, p, i as int);
                }
                return Some(i);
            }
            i += 1;
        }
        proof {
            lemma_first_none(slots, p);
        }
        None
    }

    fn free_slot(&self) -> (r: Option<usize>)
        ensures
            r is Some ==> first_where(self@.motion, slot_free()) == Some(r->0 as int) && r->0
                < self@.motion.len(),
            r is None ==> first_where(self@.motion, slot_free()) is None,
    {
        let ghost p = slot_free();
        let ghost slots = self@.motion;
        let mut i: usize = 0;
        while i < self.motion.len()
            invariant
                i <= self.motion@.len(),
                slots == self@.motion,
                p == slot_free(),
                forall|j: int| 0 <= j < i ==> !p(#[trigger] slots[j]),
            decreases self.motion@.len() - i,
        {
            assert(slots[i as int] == slot_view(self.motion@[i as int]));
            if self.motion[i].is_none() {
                proof {
                    lemma_first_at(slots, p, i as int);
                }
                return Some(i);
            }
            i += 1;
        }
        proof {
            lemma_first_none(slots, p);
        }
        None
    }

    fn oldest(&self, next: u32) -> (r: Option<usize>)
        ensures
            r is Some ==> oldest_slot(self@.motion, next) == Some(r->0 as int) && r->0
                < self@.motion.len(),
            r is None ==> oldest_slot(self@.motion, next) is None,
    {
        let ghost slots = self@.motion;
        let mut found: Option<usize> = None;
        let mut found_order: u32 = 0;
        let mut i: usize = 0;
        assert(slots.take(0) =~= Seq::<Option<ScheduledView>>::empty());
        while i < self.motion.len()
            invariant
                i <= self.motion@.len(),
                slots == self@.motion,
                found is Some ==> {
                    &&& found->0 < i
                    &&& oldest_slot(slots.take(i as int), next) == Some(found->0 as int)
                    &&& slots[found->0 as int] is Some
                    &&& found_order == slots[found->0 as int]->0.order
                },
                found is None ==> oldest_slot(slots.take(i as int), next) is None,
            decreases self.motion@.len() - i,
        {
            assert(slots[i as int] == slot_view(self.motion@[i as int]));
            assert(slots.take(i + 1).drop_last() =~= slots.take(i as int));
            assert(slots.take(i + 1).last() == slots[i as int]);
            if let Some(input) = &self.motion[i] {
                let older = match found {
                    Some(_) => next.wrapping_sub(found_order) >= next.wrapping_sub(input.order),
                    None => false,
                };
                if !older {
                    found = Some(i);
                    found_order = input.order;
                }
            }
            i += 1;
        }
        assert(slots.take(i as int) =~= slots);
        found
    }

    /// The report that is to be sent next, which leaves the scheduler.
    pub fn pop_next(&mut self) -> (r: Option<ScheduledInput>)
        requires
            old(self).wf(),
        ensures
            final(self).wf(),
            final(self)@ == old(self)@.popped().0,
            slot_view(r) == old(self)@.popped().1,
    {
        if self.critical.len() > 0 {
            let first = self.critical.remove(0);
            assert(self@.critical =~= old(self)@.critical.skip(1));
            assert(self@.motion =~= old(self)@.motion);
            return Some(first);
        }
        match self.oldest(self.next_order) {
            None => None,
            Some(index) => {
                self.motion.push(None);
                let taken = self.motion.swap_remove(index);
                assert(self@.motion =~= old(self)@.motion.update(index as int, None));
                proof {
                    lemma_freed_keeps_one_slot_each(old(self)@.motion, index as int);
                }
                assert(self@.critical =~= old(self)@.critical);
                taken
            },
        }
    }

    /// How many reports wait.
    pub fn len(&self) -> (r: usize)
        requires
            self.wf(),
            CRITICAL + MOTION <= usize::MAX,
        ensures
            r == self@.critical.len() + count_some(self@.motion),
    {
        proof {
            lemma_count_some(self@.motion);
        }
        self.critical.len() + count_slots(&self.motion, Ghost(self@.motion))
    }

    /// Whether none waits.
    pub fn is_empty(&self) -> (r: bool)
        requires
            self.wf(),
        ensures
            r == (self@.critical.len() + count_some(self@.motion) == 0),
    {
        self.critical.len() == 0 && count_slots(&self.motion, Ghost(self@.motion)) == 0
    }

    /// What happened to reports so far.
    pub fn stats(&self) -> (r: InputSchedulerStats)
        ensures
            r == self@.stats,
    {
        self.stats
    }
}

impl<const CRITICAL: usize, const MOTION: usize> Default for InputScheduler<CRITICAL, MOTION> {
    fn default() -> (r: Self)
        ensures
            r.wf(),
            r@ == SchedulerView::idle(MOTION as nat),
    {
        Self::new()
    }
}

/// Motion that comes waits in exactly one slot, with its own report and no older
/// one of its interface, as long as there are slots. Motion of other interfaces
/// stays, but where all slots are taken that of the oldest one makes room.
pub proof fn law_newest_motion_waits(v: SchedulerView, input: ScheduledView, critical: int)
    requires
        one_slot_each(v.motion),
        v.motion.len() > 0,
        input.class == InputDeliveryClass::Motion,
    ensures
        ({
            let after = v.enqueued(input, critical).0;
            let newest = ScheduledView { order: v.next_order, ..input };
            let p = |slot: Option<ScheduledView>|
                slot is Some && slot->0.device_id == input.device_id && slot->0.interface_id
                    == input.interface_id;
            &&& v.enqueued(input, critical).1 is Ok
            &&& after.critical == v.critical
            &&& after.motion.len() == v.motion.len()
            &&& after.motion.contains(Some(newest))
            &&& forall|i: int|
                0 <= i < after.motion.len() && p(#[trigger] after.motion[i]) ==> after.motion[i]
                    == Some(newest)
            &&& forall|i: int|
                0 <= i < v.motion.len() && (#[trigger] v.motion[i]) is Some && !p(v.motion[i])
                    && after.motion[i] != v.motion[i] ==> {
                    &&& forall|j: int| 0 <= j < v.motion.len() ==> (#[trigger] v.motion[j]) is Some
                    &&& forall|j: int|
                        0 <= j < v.motion.len() ==> report_age(
                            v.next_order,
                            (#[trigger] v.motion[j])->0.order,
                        ) <= report_age(v.next_order, v.motion[i]->0.order)
                }
        }),
{
    let q = holds_motion_of(input.device_id, input.interface_id);
    lemma_first_where(v.motion, q);
    lemma_first_where(v.motion, slot_free());
    lemma_oldest(v.motion, v.next_order);
    let after = v.enqueued(input, critical).0;
    let newest = ScheduledView { order: v.next_order, ..input };
    let same = first_where(v.motion, q);
    let free = first_where(v.motion, slot_free());
    let oldest = oldest_slot(v.motion, v.next_order);
    if same is None && free is None && oldest is None {
        assert(v.motion[0] is None);
        assert(!slot_free()(v.motion[0]));
    }
    let k = if same is Some {
        same->0
    } else if free is Some {
        free->0
    } else {
        oldest->0
    };
    assert(after.motion == v.motion.update(k, Some(newest)));
    assert(after.motion[k] == Some(newest));
    if same is Some {
        assert(q(v.motion[k]));
    }
    if same is None && free is Some {
        assert(slot_free()(v.motion[k]));
    }
    assert forall|i: int| 0 <= i < after.motion.len() && i != k implies !q(
        #[trigger] after.motion[i],
    ) by {
        if same is Some {
            if q(v.motion[i]) {
                if i < k {
                    assert(v.motion[i]->0.device_id != v.motion[k]->0.device_id
                        || v.motion[i]->0.interface_id != v.motion[k]->0.interface_id);
                } else {
                    assert(v.motion[k]->0.device_id != v.motion[i]->0.device_id
                        || v.motion[k]->0.interface_id != v.motion[i]->0.interface_id);
                }
            }
        } else {
            assert(!q(v.motion[i]));
        }
    }
    if same is None && free is None {
        assert forall|j: int| 0 <= j < v.motion.len() implies (#[trigger] v.motion[j]) is Some by {
            assert(!slot_free()(v.motion[j]));
        }
    }
}

/// Something is sent whenever something waits: the first critical report, or where
/// there is none the oldest motion. It leaves, and nothing else does.
pub proof fn law_what_is_sent_next(v: SchedulerView)
    ensures
        ({
            let (after, sent) = v.popped();
            &&& sent is None <==> v.critical.len() == 0 && forall|i: int|
                0 <= i < v.motion.len() ==> (#[trigger] v.motion[i]) is None
            &&& sent is None ==> after == v
            &&& v.critical.len() > 0 ==> {
                &&& seq![sent->0] + after.critical == v.critical
                &&& after.motion == v.motion
            }
            &&& v.critical.len() == 0 && sent is Some ==> {
                &&& after.critical.len() == 0
                &&& after.motion.len() == v.motion.len()
                &&& exists|i: int|
                    0 <= i < v.motion.len() && #[trigger] v.motion[i] == sent && after.motion[i] is None
                        && forall|j: int|
                        0 <= j < v.motion.len() && j != i ==> #[trigger] after.motion[j]
                            == v.motion[j]
                &&& forall|j: int|
                    0 <= j < v.motion.len() && (#[trigger] v.motion[j]) is Some ==> report_age(
                        v.next_order,
                        v.motion[j]->0.order,
                    ) <= report_age(v.next_order, sent->0.order)
            }
        }),
{
    let (after, sent) = v.popped();
    lemma_oldest(v.motion, v.next_order);
    if v.critical.len() > 0 {
        assert(seq![sent->0] + after.critical =~= v.critical);
    } else if sent is Some {
        let i = oldest_slot(v.motion, v.next_order)->0;
        assert(v.motion[i] == sent && after.motion[i] is None);
    }
}

} // verus!
