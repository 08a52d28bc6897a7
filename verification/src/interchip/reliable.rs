//! Delivery of cells once and in order.

use vstd::prelude::*;

use super::cell::{CellView, SpiCell, SpiCellHeader, SPI_CELL_PAYLOAD_LEN};
use crate::bytes::{padded, write_at};
use crate::lists::{first_where, lemma_first_at, lemma_first_none, lemma_first_where};

verus! {

/// How many cells may be on the way.
pub const SPI_TX_WINDOW: usize = 4;

/// Holds one application command across link-session renegotiation.
#[derive(Clone, Copy, Debug, PartialEq, Eq)]
pub struct ReliableCommandSlot<T> {
    value: Option<T>,
    queued: bool,
}

/// What a command slot holds.
pub struct CommandSlotView<T> {
    pub value: Option<T>,
    pub queued: bool,
}

impl<T> View for ReliableCommandSlot<T> {
    type V = CommandSlotView<T>;

    closed spec fn view(&self) -> CommandSlotView<T> {
        CommandSlotView { value: self.value, queued: self.queued }
    }
}

impl<T: Copy> ReliableCommandSlot<T> {
    /// An empty slot.
    pub fn new() -> (r: Self)
        ensures
            r@ == (CommandSlotView::<T> { value: None, queued: false }),
    {
        Self { value: None, queued: false }
    }

    /// Puts a command in, in place of any other.
    pub fn stage(&mut self, value: T)
        ensures
            final(self)@ == (CommandSlotView { value: Some(value), queued: false }),
    {
        self.value = Some(value);
        self.queued = false;
    }

    /// The command.
    pub fn value(self) -> (r: Option<T>)
        ensures
            r == self@.value,
    {
        self.value
    }

    /// The command, if there is one, was handed to the sender.
    pub fn mark_queued(&mut self)
        ensures
            final(self)@ == (CommandSlotView {
                value: old(self)@.value,
                queued: old(self)@.value is Some,
            }),
    {
        self.queued = self.value.is_some();
    }

    /// The sender lost what was handed to it.
    pub fn sender_reset(&mut self)
        ensures
            final(self)@ == (CommandSlotView { value: old(self)@.value, queued: false }),
    {
        self.queued = false;
    }

    /// What was handed to the sender was delivered. The command leaves the
    /// slot if that completed it.
    pub fn acknowledge(&mut self, command_completed: bool) -> (r: Option<T>)
        ensures
            final(self)@.queued == false,
            old(self)@.queued && command_completed ==> r == old(self)@.value && final(
                self)@.value is None,
            !(old(self)@.queued && command_completed) ==> r is None && final(self)@.value == old(
                self)@.value,
    {
        if !self.queued {
            return None;
        }
        self.queued = false;
        if command_completed {
            let value = self.value;
            self.value = None;
            value
        } else {
            None
        }
    }

    /// The command was completed by other means, and leaves the slot.
    pub fn complete(&mut self) -> (r: Option<T>)
        ensures
            r == old(self)@.value,
            final(self)@ == (CommandSlotView::<T> { value: None, queued: false }),
    {
        self.queued = false;
        let value = self.value;
        self.value = None;
        value
    }
}

impl<T: Copy> Default for ReliableCommandSlot<T> {
    fn default() -> (r: Self)
        ensures
            r@ == (CommandSlotView::<T> { value: None, queued: false }),
    {
        Self::new()
    }
}

/// A cell that is on the way.
#[derive(Clone, Copy, Debug, PartialEq, Eq)]
pub struct PendingCell {
    pub cell: SpiCell,
    pub last_sent_ms: u64,
    pub attempts: u8,
}

/// Sends cells until they are acknowledged.
#[derive(Clone, Debug, PartialEq, Eq)]
pub struct ReliableSender {
    session_id: u32,
    next_sequence: u16,
    cumulative_ack: u16,
    pending: Vec<PendingCell>,
}

/// What a cell on the way is.
pub struct PendingView {
    pub cell: CellView,
    pub last_sent_ms: u64,
    pub attempts: u8,
}

impl View for PendingCell {
    type V = PendingView;

    open spec fn view(&self) -> PendingView {
        PendingView {
            cell: self.cell@,
            last_sent_ms: self.last_sent_ms,
            attempts: self.attempts,
        }
    }
}

/// What a sender has: the cells on the way, oldest first.
pub struct SenderView {
    pub session_id: u32,
    pub next_sequence: u16,
    pub cumulative_ack: u16,
    pub pending: Seq<PendingView>,
}

/// Why a cell could not be queued.
#[derive(Clone, Copy, Debug, PartialEq, Eq, Structural)]
pub enum SenderError {
    PayloadTooLong,
    WindowFull,
}

/// What is to be sent again.
#[derive(Clone, Copy, Debug, PartialEq, Eq)]
pub enum RetransmitAction {
    Idle,
    Send(SpiCell),
    LinkResetRequired,
}

impl View for ReliableSender {
    type V = SenderView;

    closed spec fn view(&self) -> SenderView {
        SenderView {
            session_id: self.session_id,
            next_sequence: self.next_sequence,
            cumulative_ack: self.cumulative_ack,
            pending: Seq::new(self.pending@.len(), |i: int| self.pending@[i]@),
        }
    }
}

/// The sequence number after `sequence`: zero is never used.
pub open spec fn sequence_after(sequence: u16) -> u16 {
    if sequence == 65535 || sequence == 0 {
        1
    } else {
        (sequence + 1) as u16
    }
}

/// The sequence number before `sequence`.
pub open spec fn sequence_before(sequence: u16) -> u16 {
    if sequence <= 1 {
        65535
    } else {
        (sequence - 1) as u16
    }
}

/// Whether `candidate` is among the last four numbers up to `last`.
pub open spec fn is_recent(candidate: u16, last: u16) -> bool {
    ||| candidate == last
    ||| candidate == sequence_before(last)
    ||| candidate == sequence_before(sequence_before(last))
    ||| candidate == sequence_before(sequence_before(sequence_before(last)))
}

/// Whether a cell on the way has the number `sequence`.
pub open spec fn has_sequence(sequence: u16) -> spec_fn(PendingView) -> bool {
    |p: PendingView| p.cell.header.tx_sequence == sequence
}

/// A cell on the way that acknowledges `ack` instead.
pub open spec fn with_ack(p: PendingView, ack: u16) -> PendingView {
    PendingView {
        cell: CellView {
            header: SpiCellHeader { cumulative_ack: ack, ..p.cell.header },
            payload: p.cell.payload,
        },
        ..p
    }
}

/// Whether a cell can be encoded, with nothing but zeros behind its payload.
pub open spec fn cell_ready(cell: SpiCell) -> bool {
    &&& cell.header.payload_error() is None
    &&& cell.payload@ == padded(cell@.payload, SPI_CELL_PAYLOAD_LEN as nat)
}

impl SenderView {
    /// The number of a cell on the way, and behind the last one that of the
    /// next cell.
    pub open spec fn number(self, i: int) -> u16 {
        if i < self.pending.len() {
            self.pending[i].cell.header.tx_sequence
        } else {
            self.next_sequence
        }
    }

    /// The numbers of the cells on the way, and of the next cell, are not zero
    /// and follow one another.
    pub open spec fn numbered(self) -> bool {
        &&& forall|i: int| 0 <= i <= self.pending.len() ==> #[trigger] self.number(i) != 0
        &&& forall|i: int, j: int|
            0 <= i < self.pending.len() && j == i + 1 ==> #[trigger] self.number(j)
                == sequence_after(#[trigger] self.number(i))
    }

    /// A sender with nothing on the way.
    pub open spec fn fresh(session_id: u32) -> SenderView {
        SenderView { session_id, next_sequence: 1, cumulative_ack: 0, pending: seq![] }
    }

    /// The header of the next cell.
    pub open spec fn next_header(self, payload_len: int, record_count: u8) -> SpiCellHeader {
        SpiCellHeader {
            tx_sequence: self.next_sequence,
            cumulative_ack: self.cumulative_ack,
            payload_len: payload_len as u16,
            record_count,
            ..SpiCellHeader::blank(self.session_id)
        }
    }

    /// The sender with one more cell on the way, and the cell, unless the
    /// payload is too long or the window is full.
    pub open spec fn queued(self, payload: Seq<u8>, record_count: u8, now_ms: u64) -> (
        SenderView,
        Result<CellView, SenderError>,
    ) {
        let cell = CellView {
            header: self.next_header(payload.len() as int, record_count),
            payload,
        };
        if payload.len() > SPI_CELL_PAYLOAD_LEN {
            (self, Err(SenderError::PayloadTooLong))
        } else if self.pending.len() >= SPI_TX_WINDOW {
            (self, Err(SenderError::WindowFull))
        } else {
            (
                SenderView {
                    next_sequence: sequence_after(self.next_sequence),
                    pending: self.pending.push(
                        PendingView { cell, last_sent_ms: now_ms, attempts: 1 },
                    ),
                    ..self
                },
                Ok(cell),
            )
        }
    }

    /// The sender once the peer has all cells up to the one with this number,
    /// if a cell on the way has it.
    pub open spec fn acknowledged(self, cumulative_ack: u16) -> SenderView {
        match first_where(self.pending, has_sequence(cumulative_ack)) {
            None => self,
            Some(index) => SenderView { pending: self.pending.skip(index + 1), ..self },
        }
    }

    /// The sender whose cells, also those on the way, acknowledge this number.
    pub open spec fn acking(self, cumulative_ack: u16) -> SenderView {
        SenderView {
            cumulative_ack,
            pending: Seq::new(
                self.pending.len(),
                |i: int| with_ack(self.pending[i], cumulative_ack),
            ),
            ..self
        }
    }

    /// Whether the oldest cell on the way is to be sent again: once it is due,
    /// up to the most attempts, after which the link must be reset.
    pub open spec fn retransmit(self, now_ms: u64, timeout_ms: u64, max_attempts: u8) -> (
        SenderView,
        RetransmitView,
    ) {
        if self.pending.len() == 0 || now_ms.saturating_sub(self.pending[0].last_sent_ms)
            < timeout_ms {
            (self, RetransmitView::Idle)
        } else if self.pending[0].attempts >= max_attempts {
            (self, RetransmitView::LinkResetRequired)
        } else {
            (
                SenderView {
                    pending: self.pending.update(
                        0,
                        PendingView {
                            cell: self.pending[0].cell,
                            last_sent_ms: now_ms,
                            attempts: (self.pending[0].attempts + 1) as u8,
                        },
                    ),
                    ..self
                },
                RetransmitView::Send(self.pending[0].cell),
            )
        }
    }
}

/// What is to be sent again.
pub enum RetransmitView {
    Idle,
    Send(CellView),
    LinkResetRequired,
}

impl View for RetransmitAction {
    type V = RetransmitView;

    open spec fn view(&self) -> RetransmitView {
        match *self {
            RetransmitAction::Idle => RetransmitView::Idle,
            RetransmitAction::Send(cell) => RetransmitView::Send(cell@),
            RetransmitAction::LinkResetRequired => RetransmitView::LinkResetRequired,
        }
    }
}

/// What a result says, with the cell taken by its view.
pub open spec fn queue_result(r: Result<SpiCell, SenderError>) -> Result<CellView, SenderError> {
    match r {
        Ok(cell) => Ok(cell@),
        Err(error) => Err(error),
    }
}

impl ReliableSender {
    /// No more cells are on the way than the window allows, their numbers
    /// follow one another, and they can be encoded.
    pub closed spec fn wf(&self) -> bool {
        &&& self.pending@.len() <= SPI_TX_WINDOW
        &&& self@.numbered()
        &&& forall|i: int|
            0 <= i < self.pending@.len() ==> cell_ready((#[trigger] self.pending@[i]).cell)
    }

    /// What `wf` says of the view.
    pub proof fn lemma_wf(&self)
        requires
            self.wf(),
        ensures
            self@.pending.len() <= SPI_TX_WINDOW,
            self@.next_sequence != 0,
            self@.numbered(),
            forall|i: int|
                0 <= i < self@.pending.len() ==> (
                #[trigger] self@.pending[i]).cell.header.tx_sequence != 0
                    && self@.pending[i].cell.payload.len() <= SPI_CELL_PAYLOAD_LEN,
            forall|i: int, j: int|
                0 <= i < j < self@.pending.len() ==> (
                #[trigger] self@.pending[i]).cell.header.tx_sequence != (
                #[trigger] self@.pending[j]).cell.header.tx_sequence,
    {
        assert(self@.number(self@.pending.len() as int) != 0);
        assert forall|i: int| 0 <= i < self@.pending.len() implies (
        #[trigger] self@.pending[i]).cell.header.tx_sequence != 0
            && self@.pending[i].cell.payload.len() <= SPI_CELL_PAYLOAD_LEN by {
            assert(self@.number(i) != 0);
            assert(cell_ready(self.pending@[i].cell));
        }
        assert forall|i: int, j: int| 0 <= i < j < self@.pending.len() implies (
        #[trigger] self@.pending[i]).cell.header.tx_sequence != (
        #[trigger] self@.pending[j]).cell.header.tx_sequence by {
            lemma_numbers_differ(self@, i, j);
        }
    }

    /// A sender with nothing on the way.
    pub fn new(session_id: u32) -> (r: Self)
        ensures
            r.wf(),
            r@ == SenderView::fresh(session_id),
    {
        let r = Self { session_id, next_sequence: 1, cumulative_ack: 0, pending: Vec::new() };
        assert(r@.pending =~= seq![]);
        r
    }

    /// The session.
    pub fn session_id(&self) -> (r: u32)
        ensures
            r == self@.session_id,
    {
        self.session_id
    }

    /// How many cells are on the way.
    pub fn pending_len(&self) -> (r: usize)
        ensures
            r == self@.pending.len(),
    {
        self.pending.len()
    }

    /// Starts another session with nothing on the way.
    pub fn reset_session(&mut self, session_id: u32)
        ensures
            final(self).wf(),
            final(self)@ == SenderView::fresh(session_id),
    {
        self.session_id = session_id;
        self.next_sequence = 1;
        self.cumulative_ack = 0;
        self.pending = Vec::new();
        assert(self@.pending =~= seq![]);
    }

    /// Forgets all cells on the way and says how many they were.
    pub fn discard_pending(&mut self) -> (r: usize)
        requires
            old(self).wf(),
        ensures
            final(self).wf(),
            r == old(self)@.pending.len(),
            final(self)@ == (SenderView { pending: seq![], ..old(self)@ }),
    {
        let discarded: usize = self.pending_len();
        self.pending = Vec::new();
        assert(self@.pending =~= seq![]);
        proof {
            lemma_still_numbered(old(self)@, self@, old(self)@.pending.len() as int);
        }
        discarded
    }

    /// Puts a payload on the way as the next cell, unless it is too long or
    /// the window is full.
    pub fn queue(&mut self, payload: &[u8], record_count: u8, now_ms: u64) -> (r: Result<
        SpiCell,
        SenderError,
    >)
        requires
            old(self).wf(),
        ensures
            final(self).wf(),
            (final(self)@, queue_result(r)) == old(self)@.queued(payload@, record_count, now_ms),
            r is Ok ==> cell_ready(r->Ok_0),
    {
        if payload.len() > SPI_CELL_PAYLOAD_LEN {
            return Err(SenderError::PayloadTooLong);
        }
        if self.pending.len() >= SPI_TX_WINDOW {
            return Err(SenderError::WindowFull);
        }
        let sequence: u16 = self.next_sequence;
        assert(self@.number(self@.pending.len() as int) != 0);
        self.next_sequence = next_sequence(sequence);
        let mut cell = SpiCell::empty(self.session_id);
        cell.header.tx_sequence = sequence;
        cell.header.cumulative_ack = self.cumulative_ack;
        cell.header.payload_len = payload.len() as u16;
        cell.header.record_count = record_count;
        write_at(&mut cell.payload, 0, payload);
        assert(cell.payload@ =~= padded(payload@, SPI_CELL_PAYLOAD_LEN as nat));
        assert(cell@.payload =~= payload@);
        let pending = PendingCell { cell, last_sent_ms: now_ms, attempts: 1 };
        self.pending.push(pending);
        assert(self@.pending =~= old(self)@.pending.push(pending@));
        proof {
            lemma_queued_is_numbered(old(self)@, payload@, record_count, now_ms);
        }
        Ok(cell)
    }

    /// The peer has all cells up to the one with this number, which are then
    /// no longer on the way. Says how many they were: none, if no cell has the
    /// number.
    pub fn acknowledge(&mut self, cumulative_ack: u16) -> (r: usize)
        requires
            old(self).wf(),
        ensures
            final(self).wf(),
            final(self)@ == old(self)@.acknowledged(cumulative_ack),
            r == old(self)@.pending.len() - final(self)@.pending.len(),
    {
        let ghost before = self@.pending;
        let ghost p = has_sequence(cumulative_ack);
        let n: usize = self.pending.len();
        let mut index: usize = 0;
        while index < n
            invariant
                index <= n == self.pending@.len(),
                before == self@.pending,
                p == has_sequence(cumulative_ack),
                *self == *old(self),
                self.wf(),
                forall|j: int| 0 <= j < index ==> !p(#[trigger] before[j]),
            decreases n - index,
        {
            assert(before[index as int] == self.pending@[index as int]@);
            if self.pending[index].cell.header.tx_sequence == cumulative_ack {
                proof {
                    lemma_first_at(before, p, index as int);
                }
                let mut rest: Vec<PendingCell> = Vec::new();
                let mut i: usize = index + 1;
                while i < n
                    invariant
                        index < i <= n == self.pending@.len(),
                        *self == *old(self),
                        self.wf(),
                        rest@ == self.pending@.subrange(index + 1, i as int),
                    decreases n - i,
                {
                    rest.push(self.pending[i]);
                    assert(rest@ =~= self.pending@.subrange(index + 1, i + 1));
                    i += 1;
                }
                self.pending = rest;
                assert(self@.pending =~= before.skip(index + 1));
                assert forall|i: int| 0 <= i < self.pending@.len() implies cell_ready(
                    (#[trigger] self.pending@[i]).cell,
                ) by {
                    assert(self.pending@[i] == old(self).pending@[index + 1 + i]);
                }
                proof {
                    lemma_still_numbered(old(self)@, self@, index + 1);
                }
                return index + 1;
            }
            index += 1;
        }
        proof {
            lemma_first_none(before, p);
        }
        0
    }

    /// From now on all cells, also those on the way, acknowledge this number.
    pub fn set_cumulative_ack(&mut self, cumulative_ack: u16)
        requires
            old(self).wf(),
        ensures
            final(self).wf(),
            final(self)@ == old(self)@.acking(cumulative_ack),
    {
        self.cumulative_ack = cumulative_ack;
        let n: usize = self.pending.len();
        let mut i: usize = 0;
        while i < n
            invariant
                i <= n == self.pending@.len(),
                n == old(self).pending@.len(),
                old(self).wf(),
                self.session_id == old(self).session_id,
                self.next_sequence == old(self).next_sequence,
                self.cumulative_ack == cumulative_ack,
                forall|j: int|
                    0 <= j < i ==> (#[trigger] self.pending@[j])@ == with_ack(
                        old(self).pending@[j]@,
                        cumulative_ack,
                    ) && cell_ready(self.pending@[j].cell),
                forall|j: int|
                    i <= j < n ==> #[trigger] self.pending@[j] == old(self).pending@[j],
            decreases n - i,
        {
            let mut pending = self.pending[i];
            assert(cell_ready(old(self).pending@[i as int].cell));
            pending.cell.header.cumulative_ack = cumulative_ack;
            self.pending[i] = pending;
            i += 1;
        }
        assert(self@.pending =~= old(self)@.acking(cumulative_ack).pending);
        assert forall|i: int| 0 <= i < self.pending@.len() implies cell_ready(
            (#[trigger] self.pending@[i]).cell,
        ) by {
            assert(self.pending@[i]@ == with_ack(old(self).pending@[i]@, cumulative_ack));
        }
        proof {
            lemma_still_numbered(old(self)@, self@, 0);
        }
    }

    /// Says whether the oldest cell on the way is to be sent again.
    pub fn poll_retransmit(&mut self, now_ms: u64, timeout_ms: u64, max_attempts: u8) -> (r:
        RetransmitAction)
        requires
            old(self).wf(),
        ensures
            final(self).wf(),
            (final(self)@, r@) == old(self)@.retransmit(now_ms, timeout_ms, max_attempts),
            r matches RetransmitAction::Send(cell) ==> cell_ready(cell),
    {
        if self.pending.len() == 0 {
            return RetransmitAction::Idle;
        }
        let oldest = self.pending[0];
        assert(cell_ready(self.pending@[0].cell));
        if now_ms.saturating_sub(oldest.last_sent_ms) < timeout_ms {
            return RetransmitAction::Idle;
        }
        if oldest.attempts >= max_attempts {
            return RetransmitAction::LinkResetRequired;
        }
        let attempts: u8 = oldest.attempts.saturating_add(1);
        let again = PendingCell { cell: oldest.cell, last_sent_ms: now_ms, attempts };
        self.pending[0] = again;
        assert(self@.pending =~= old(self)@.pending.update(0, again@));
        proof {
            lemma_still_numbered(old(self)@, self@, 0);
        }
        RetransmitAction::Send(oldest.cell)
    }
}

/// Takes cells once and in order.
#[derive(Clone, Copy, Debug, PartialEq, Eq, Structural)]
pub struct ReliableReceiver {
    session_id: Option<u32>,
    cumulative_ack: u16,
}

/// What a cell is to its receiver.
#[derive(Clone, Copy, Debug, PartialEq, Eq, Structural)]
pub enum ReceiveDisposition {
    Empty,
    SessionChanged,
    Accepted { session_changed: bool, cumulative_ack: u16 },
    Duplicate { cumulative_ack: u16 },
    Gap { expected: u16, cumulative_ack: u16 },
}

/// What a receiver knows: the session, and the last number taken.
pub struct ReceiverView {
    pub session_id: Option<u32>,
    pub cumulative_ack: u16,
}

impl View for ReliableReceiver {
    type V = ReceiverView;

    closed spec fn view(&self) -> ReceiverView {
        ReceiverView { session_id: self.session_id, cumulative_ack: self.cumulative_ack }
    }
}

impl ReceiverView {
    /// The receiver in the session of a cell: as it is, or at the start of
    /// another session.
    pub open spec fn in_session(self, session_id: u32) -> ReceiverView {
        if self.session_id == Some(session_id) {
            self
        } else {
            ReceiverView { session_id: Some(session_id), cumulative_ack: 0 }
        }
    }

    /// What a cell is to the receiver: the next one is accepted, one of the
    /// last four is a duplicate, any other is behind a gap.
    pub open spec fn disposition(self, header: SpiCellHeader) -> ReceiveDisposition {
        let session_changed = self.session_id != Some(header.session_id);
        let last = self.in_session(header.session_id).cumulative_ack;
        if header.tx_sequence == 0 {
            if session_changed {
                ReceiveDisposition::SessionChanged
            } else {
                ReceiveDisposition::Empty
            }
        } else if header.tx_sequence == sequence_after(last) {
            ReceiveDisposition::Accepted { session_changed, cumulative_ack: header.tx_sequence }
        } else if is_recent(header.tx_sequence, last) {
            ReceiveDisposition::Duplicate { cumulative_ack: last }
        } else {
            ReceiveDisposition::Gap { expected: sequence_after(last), cumulative_ack: last }
        }
    }

    /// The receiver after the cell.
    pub open spec fn after(self, header: SpiCellHeader) -> ReceiverView {
        let here = self.in_session(header.session_id);
        if header.tx_sequence != 0 && header.tx_sequence == sequence_after(here.cumulative_ack) {
            ReceiverView { cumulative_ack: header.tx_sequence, ..here }
        } else {
            here
        }
    }
}

impl ReliableReceiver {
    /// A receiver that knows no session.
    pub fn new() -> (r: Self)
        ensures
            r@ == (ReceiverView { session_id: None, cumulative_ack: 0 }),
    {
        Self { session_id: None, cumulative_ack: 0 }
    }

    /// The last number taken.
    pub fn cumulative_ack(self) -> (r: u16)
        ensures
            r == self@.cumulative_ack,
    {
        self.cumulative_ack
    }

    /// The session.
    pub fn session_id(self) -> (r: Option<u32>)
        ensures
            r == self@.session_id,
    {
        self.session_id
    }

    /// Starts a session.
    pub fn reset_session(&mut self, session_id: u32)
        ensures
            final(self)@ == (ReceiverView { session_id: Some(session_id), cumulative_ack: 0 }),
    {
        self.session_id = Some(session_id);
        self.cumulative_ack = 0;
    }

    /// Takes in a cell and says what it is.
    pub fn receive(&mut self, cell: &SpiCell) -> (r: ReceiveDisposition)
        ensures
            r == old(self)@.disposition(cell.header),
            final(self)@ == old(self)@.after(cell.header),
    {
        let session_changed = match self.session_id {
            Some(session_id) => session_id != cell.header.session_id,
            None => true,
        };
        if session_changed {
            self.session_id = Some(cell.header.session_id);
            self.cumulative_ack = 0;
        }
        if cell.header.tx_sequence == 0 {
            return if session_changed {
                ReceiveDisposition::SessionChanged
            } else {
                ReceiveDisposition::Empty
            };
        }
        let expected: u16 = next_sequence(self.cumulative_ack);
        if cell.header.tx_sequence == expected {
            self.cumulative_ack = cell.header.tx_sequence;
            ReceiveDisposition::Accepted {
                session_changed,
                cumulative_ack: self.cumulative_ack,
            }
        } else if is_recent_sequence(cell.header.tx_sequence, self.cumulative_ack) {
            ReceiveDisposition::Duplicate { cumulative_ack: self.cumulative_ack }
        } else {
            ReceiveDisposition::Gap { expected, cumulative_ack: self.cumulative_ack }
        }
    }
}

impl Default for ReliableReceiver {
    fn default() -> (r: Self)
        ensures
            r@ == (ReceiverView { session_id: None, cumulative_ack: 0 }),
    {
        Self::new()
    }
}

fn next_sequence(sequence: u16) -> (r: u16)
    ensures
        r == sequence_after(sequence),
{
    if sequence == 65535 || sequence == 0 {
        1
    } else {
        sequence + 1
    }
}

fn previous_sequence(sequence: u16) -> (r: u16)
    ensures
        r == sequence_before(sequence),
{
    if sequence <= 1 {
        65535
    } else {
        sequence - 1
    }
}

fn is_recent_sequence(candidate: u16, cumulative_ack: u16) -> (r: bool)
    ensures
        r == is_recent(candidate, cumulative_ack),
{
    let one: u16 = previous_sequence(cumulative_ack);
    let two: u16 = previous_sequence(one);
    let three: u16 = previous_sequence(two);
    candidate == cumulative_ack || candidate == one || candidate == two || candidate == three
}

/// A sender without the `k` oldest cells of another, whose cells have the same
/// numbers, is numbered if the other is.
pub proof fn lemma_still_numbered(v: SenderView, w: SenderView, k: int)
    requires
        v.numbered(),
        0 <= k <= v.pending.len(),
        w.pending.len() == v.pending.len() - k,
        w.next_sequence == v.next_sequence,
        forall|i: int|
            0 <= i < w.pending.len() ==> (#[trigger] w.pending[i]).cell.header.tx_sequence
                == v.pending[k + i].cell.header.tx_sequence,
    ensures
        w.numbered(),
{
    assert forall|i: int| 0 <= i <= w.pending.len() implies #[trigger] w.number(i) != 0 && w.number(
        i,
    ) == v.number(k + i) by {
        assert(v.number(k + i) != 0);
    }
    assert forall|i: int, j: int| 0 <= i < w.pending.len() && j == i + 1 implies #[trigger] w.number(
        j,
    ) == sequence_after(#[trigger] w.number(i)) by {
        assert(v.number(k + j) == sequence_after(v.number(k + i)));
    }
}

/// A sender stays numbered with one more cell on the way.
pub proof fn lemma_queued_is_numbered(
    v: SenderView,
    payload: Seq<u8>,
    record_count: u8,
    now_ms: u64,
)
    requires
        v.numbered(),
    ensures
        v.queued(payload, record_count, now_ms).0.numbered(),
{
    let w = v.queued(payload, record_count, now_ms).0;
    if w.pending.len() > v.pending.len() {
        let n = v.pending.len() as int;
        assert(v.number(n) != 0);
        assert(w.number(n + 1) == sequence_after(w.number(n)));
        assert forall|i: int| 0 <= i <= n implies w.number(i) == #[trigger] v.number(i) by {}
        assert forall|i: int| 0 <= i <= w.pending.len() implies #[trigger] w.number(i) != 0 by {
            if i <= n {
                assert(v.number(i) != 0);
            }
        }
        assert forall|i: int, j: int|
            0 <= i < w.pending.len() && j == i + 1 implies #[trigger] w.number(j)
            == sequence_after(#[trigger] w.number(i)) by {
            if i < n {
                assert(v.number(j) == sequence_after(v.number(i)));
            }
        }
    }
}

/// The numbers of two cells on the way, or of one and the next cell, differ.
pub proof fn lemma_numbers_differ(v: SenderView, i: int, j: int)
    requires
        v.numbered(),
        v.pending.len() <= SPI_TX_WINDOW,
        0 <= i < j <= v.pending.len(),
    ensures
        v.number(i) != v.number(j),
{
    assert(v.number(i) != 0);
    assert(v.number(i + 1) == sequence_after(v.number(i)));
    if i + 2 <= j {
        assert(v.number(i + 2) == sequence_after(v.number(i + 1)));
    }
    if i + 3 <= j {
        assert(v.number(i + 3) == sequence_after(v.number(i + 2)));
    }
    if i + 4 <= j {
        assert(v.number(i + 4) == sequence_after(v.number(i + 3)));
    }
}

/// An acknowledgement frees all cells up to the one with its number, which is
/// the only one with that number, and none beyond. One with a number that no
/// cell on the way has frees none.
pub proof fn law_acknowledgement_frees_up_to(s: SenderView, number: u16)
    requires
        s.numbered(),
        s.pending.len() <= SPI_TX_WINDOW,
    ensures
        forall|k: int|
            0 <= k < s.pending.len() && (#[trigger] s.pending[k]).cell.header.tx_sequence == number
                ==> s.acknowledged(number) == (SenderView { pending: s.pending.skip(k + 1), ..s }),
        (forall|k: int|
            0 <= k < s.pending.len() ==> (#[trigger] s.pending[k]).cell.header.tx_sequence
                != number) ==> s.acknowledged(number) == s,
{
    let p = has_sequence(number);
    lemma_first_where(s.pending, p);
    assert forall|k: int|
        0 <= k < s.pending.len() && (#[trigger] s.pending[k]).cell.header.tx_sequence
            == number implies s.acknowledged(number) == (SenderView {
        pending: s.pending.skip(k + 1),
        ..s
    }) by {
        assert forall|j: int| 0 <= j < k implies !p(#[trigger] s.pending[j]) by {
            lemma_numbers_differ(s, j, k);
        }
        lemma_first_at(s.pending, p, k);
    }
    if first_where(s.pending, p) is Some {
        assert(p(s.pending[first_where(s.pending, p)->0]));
    }
}

/// A cell that was accepted and comes again, right away or after the next
/// cell of the session, is not accepted again.
pub proof fn law_no_double_delivery(
    r: ReceiverView,
    first: SpiCellHeader,
    second: SpiCellHeader,
)
    requires
        r.disposition(first) is Accepted,
        second.session_id == first.session_id,
        second.tx_sequence == sequence_after(first.tx_sequence),
    ensures
        r.after(first).disposition(first) is Duplicate,
        r.after(first).disposition(second) is Accepted,
        r.after(first).after(second).disposition(first) is Duplicate,
{
}

/// Nothing is acknowledged across a gap: a cell that is not the next one does
/// not move the last number taken.
pub proof fn law_no_ack_across_a_gap(r: ReceiverView, header: SpiCellHeader)
    requires
        r.disposition(header) is Gap || r.disposition(header) is Duplicate,
    ensures
        r.after(header) == r.in_session(header.session_id),
{
}

/// No cell has the number zero, which stands for no cell, and numbers follow
/// one another in both directions.
pub proof fn law_sequences_skip_zero(sequence: u16)
    ensures
        sequence_after(sequence) != 0,
        sequence_before(sequence) != 0,
        sequence != 0 ==> sequence_before(sequence_after(sequence)) == sequence,
        sequence != 0 ==> sequence_after(sequence_before(sequence)) == sequence,
{
}

/// What the sender numbers the receiver takes: cells that are queued one after
/// the other and received one after the other are all accepted, the session's
/// first one too.
pub proof fn law_queued_cells_are_accepted(s: SenderView, r: ReceiverView, payload_len: int, n: u8)
    requires
        s.next_sequence == sequence_after(r.in_session(s.session_id).cumulative_ack),
    ensures
        r.disposition(s.next_header(payload_len, n)) is Accepted,
        sequence_after(s.next_sequence) == sequence_after(
            r.after(s.next_header(payload_len, n)).in_session(s.session_id).cumulative_ack,
        ),
{
}

/// Nothing is sent again before its time. Once it is due the oldest cell is sent
/// as it was, unless it has been sent as often as it may be: then the link is to
/// be reset. Only that cell's time and count change, so that it is not due again
/// before the time has passed once more.
pub proof fn law_when_a_cell_is_sent_again(
    s: SenderView,
    now_ms: u64,
    later_ms: u64,
    timeout_ms: u64,
    max_attempts: u8,
)
    requires
        s.pending.len() > 0,
        s.pending[0].last_sent_ms <= now_ms <= later_ms,
    ensures
        ({
            let oldest = s.pending[0];
            let (after, action) = s.retransmit(now_ms, timeout_ms, max_attempts);
            let due = now_ms - oldest.last_sent_ms >= timeout_ms;
            &&& action == RetransmitView::Idle <==> !due
            &&& action == RetransmitView::LinkResetRequired <==> due && oldest.attempts
                >= max_attempts
            &&& action is Send <==> due && oldest.attempts < max_attempts
            &&& !(action is Send) ==> after == s
            &&& action is Send ==> {
                &&& action == RetransmitView::Send(oldest.cell)
                &&& after.pending.len() == s.pending.len()
                &&& after.pending[0].cell == oldest.cell
                &&& after.pending[0].attempts == oldest.attempts + 1
                &&& forall|i: int|
                    0 < i < s.pending.len() ==> #[trigger] after.pending[i] == s.pending[i]
                &&& after.session_id == s.session_id && after.next_sequence == s.next_sequence
                    && after.cumulative_ack == s.cumulative_ack
                &&& later_ms - now_ms < timeout_ms ==> after.retransmit(
                    later_ms,
                    timeout_ms,
                    max_attempts,
                ).1 == RetransmitView::Idle
            }
        }),
{
}

/// An acknowledgement goes out with every cell, also with those that are sent
/// again and with the next one, and nothing else of them changes.
pub proof fn law_every_cell_acknowledges(s: SenderView, number: u16, i: int, n: int, records: u8)
    requires
        0 <= i < s.pending.len(),
    ensures
        s.acking(number).pending.len() == s.pending.len(),
        s.acking(number).pending[i].cell.header.cumulative_ack == number,
        s.acking(number).pending[i].cell.header.tx_sequence
            == s.pending[i].cell.header.tx_sequence,
        s.acking(number).pending[i].cell.header.session_id == s.pending[i].cell.header.session_id,
        s.acking(number).pending[i].cell.header.payload_len == s.pending[i].cell.header.payload_len,
        s.acking(number).pending[i].cell.header.record_count
            == s.pending[i].cell.header.record_count,
        s.acking(number).pending[i].cell.payload == s.pending[i].cell.payload,
        s.acking(number).pending[i].last_sent_ms == s.pending[i].last_sent_ms,
        s.acking(number).pending[i].attempts == s.pending[i].attempts,
        s.acking(number).next_header(n, records).cumulative_ack == number,
        s.acking(number).next_header(n, records).tx_sequence == s.next_header(
            n,
            records,
        ).tx_sequence,
{
}

} // verus!
