//! What a sender and a receiver do together over a link that loses cells.

use vstd::prelude::*;

use super::reliable::{
    is_recent, law_acknowledgement_frees_up_to, lemma_numbers_differ, lemma_queued_is_numbered,
    lemma_still_numbered, sequence_after, with_ack, ReceiverView, SenderView, SPI_TX_WINDOW,
};

verus! {

/// Something that happens on a link.
pub enum DeliveryEvent {
    /// A payload is put on the way.
    Queue { payload: Seq<u8>, record_count: u8, now_ms: u64 },
    /// The sender is asked what is to be sent again.
    Retransmit { now_ms: u64, timeout_ms: u64, max_attempts: u8 },
    /// The sender's cells acknowledge another number from now on.
    Acking(u16),
    /// A cell on the way arrives, counted from the oldest.
    Arrive(int),
    /// The receiver's acknowledgement arrives.
    Acknowledge,
}

/// Both ends of a link, the payloads that were put on the way, and those that
/// were accepted.
pub struct Delivery {
    pub sender: SenderView,
    pub receiver: ReceiverView,
    pub queued: Seq<Seq<u8>>,
    pub delivered: Seq<Seq<u8>>,
}

impl Delivery {
    /// A new session of the sender, with a receiver that has taken nothing of
    /// it.
    pub open spec fn start(session_id: u32, receiver: ReceiverView) -> Delivery {
        Delivery {
            sender: SenderView::fresh(session_id),
            receiver,
            queued: seq![],
            delivered: seq![],
        }
    }

    /// The link after an event.
    pub open spec fn step(self, event: DeliveryEvent) -> Delivery {
        match event {
            DeliveryEvent::Queue { payload, record_count, now_ms } => {
                let (sender, told) = self.sender.queued(payload, record_count, now_ms);
                Delivery {
                    sender,
                    queued: if told is Ok {
                        self.queued.push(payload)
                    } else {
                        self.queued
                    },
                    ..self
                }
            },
            DeliveryEvent::Retransmit { now_ms, timeout_ms, max_attempts } => Delivery {
                sender: self.sender.retransmit(now_ms, timeout_ms, max_attempts).0,
                ..self
            },
            DeliveryEvent::Acking(number) => Delivery { sender: self.sender.acking(number), ..self },
            DeliveryEvent::Arrive(i) => if 0 <= i < self.sender.pending.len() {
                let cell = self.sender.pending[i].cell;
                Delivery {
                    receiver: self.receiver.after(cell.header),
                    delivered: if self.receiver.disposition(cell.header) is Accepted {
                        self.delivered.push(cell.payload)
                    } else {
                        self.delivered
                    },
                    ..self
                }
            } else {
                self
            },
            DeliveryEvent::Acknowledge => if self.receiver.session_id == Some(
                self.sender.session_id,
            ) {
                Delivery {
                    sender: self.sender.acknowledged(self.receiver.cumulative_ack),
                    ..self
                }
            } else {
                self
            },
        }
    }

    /// The link after some events.
    pub open spec fn run(self, events: Seq<DeliveryEvent>) -> Delivery
        decreases events.len(),
    {
        if events.len() == 0 {
            self
        } else {
            self.run(events.drop_last()).step(events.last())
        }
    }

    /// The last number of the sender's session that the receiver has taken.
    pub open spec fn last_taken(self) -> u16 {
        self.receiver.in_session(self.sender.session_id).cumulative_ack
    }

    /// How many payloads were acknowledged.
    pub open spec fn freed(self) -> int {
        self.queued.len() - self.sender.pending.len()
    }

    /// How many cells on the way were accepted.
    pub open spec fn ahead(self) -> int {
        self.delivered.len() - self.freed()
    }

    /// The two ends go together: the cells on the way are the last payloads that
    /// were put on the way, what was accepted are the first ones, at least all
    /// that were acknowledged, and the receiver waits for the one after them.
    pub open spec fn in_step(self) -> bool {
        &&& self.sender.numbered()
        &&& self.sender.pending.len() <= SPI_TX_WINDOW
        &&& self.freed() >= 0
        &&& 0 <= self.ahead() <= self.sender.pending.len()
        &&& self.delivered == self.queued.take(self.delivered.len() as int)
        &&& sequence_after(self.last_taken()) == self.sender.number(self.ahead())
        &&& self.ahead() > 0 ==> self.last_taken() == self.sender.number(self.ahead() - 1)
        &&& forall|i: int|
            0 <= i < self.sender.pending.len() ==> (
            #[trigger] self.sender.pending[i]).cell.header.session_id == self.sender.session_id
                && self.sender.pending[i].cell.payload == self.queued[self.freed() + i]
    }
}

proof fn lemma_arrival(d: Delivery, i: int)
    requires
        d.in_step(),
        0 <= i < d.sender.pending.len(),
    ensures
        d.step(DeliveryEvent::Arrive(i)).in_step(),
        d.step(DeliveryEvent::Arrive(i)).ahead() == if i == d.ahead() {
            d.ahead() + 1
        } else {
            d.ahead()
        },
        i < d.ahead() ==> d.receiver.disposition(d.sender.pending[i].cell.header) is Duplicate,
        i == d.ahead() ==> d.receiver.disposition(d.sender.pending[i].cell.header) is Accepted,
        i > d.ahead() ==> !(d.receiver.disposition(
            d.sender.pending[i].cell.header,
        ) is Accepted),
{
    let s = d.sender;
    let k = d.ahead();
    let header = s.pending[i].cell.header;
    let after = d.step(DeliveryEvent::Arrive(i));
    assert(s.number(i) != 0);
    assert(header.session_id == s.session_id);
    if i == k {
        assert(after.delivered =~= after.queued.take(after.delivered.len() as int));
        assert(s.number(k + 1) == sequence_after(s.number(k)));
    } else if i < k {
        lemma_numbers_differ(s, i, k);
        assert(is_recent(s.number(i), s.number(k - 1))) by {
            assert(s.number(k - 1) != 0);
            if i <= k - 2 {
                assert(s.number(k - 2) != 0);
                assert(s.number(k - 1) == sequence_after(s.number(k - 2)));
            }
            if i <= k - 3 {
                assert(s.number(k - 3) != 0);
                assert(s.number(k - 2) == sequence_after(s.number(k - 3)));
            }
            if i <= k - 4 {
                assert(s.number(k - 4) != 0);
                assert(s.number(k - 3) == sequence_after(s.number(k - 4)));
            }
        }
    } else {
        lemma_numbers_differ(s, k, i);
    }
}

proof fn lemma_acknowledgement(d: Delivery)
    requires
        d.in_step(),
    ensures
        d.step(DeliveryEvent::Acknowledge).in_step(),
{
    let s = d.sender;
    let k = d.ahead();
    let after = d.step(DeliveryEvent::Acknowledge);
    if d.receiver.session_id == Some(s.session_id) {
        let n = d.last_taken();
        law_acknowledgement_frees_up_to(s, n);
        if k > 0 {
            assert(s.pending[k - 1].cell.header.tx_sequence == n);
            assert(after.sender.pending == s.pending.skip(k));
            lemma_still_numbered(s, after.sender, k);
        } else {
            assert forall|j: int| 0 <= j < s.pending.len() implies (
            #[trigger] s.pending[j]).cell.header.tx_sequence != n by {
                assert(s.number(j) != 0);
                assert(s.number(0) != 0);
                if 1 <= j {
                    assert(s.number(1) == sequence_after(s.number(0)));
                }
                if 2 <= j {
                    assert(s.number(2) == sequence_after(s.number(1)));
                }
                if 3 <= j {
                    assert(s.number(3) == sequence_after(s.number(2)));
                }
            }
        }
    }
}

proof fn lemma_step(d: Delivery, event: DeliveryEvent)
    requires
        d.in_step(),
    ensures
        d.step(event).in_step(),
{
    let after = d.step(event);
    let s = d.sender;
    match event {
        DeliveryEvent::Queue { payload, record_count, now_ms } => {
            lemma_queued_is_numbered(s, payload, record_count, now_ms);
            assert(after.delivered =~= after.queued.take(after.delivered.len() as int));
        },
        DeliveryEvent::Retransmit { now_ms, timeout_ms, max_attempts } => {
            lemma_still_numbered(s, after.sender, 0);
            assert forall|i: int| 0 <= i < s.pending.len() implies (
            #[trigger] after.sender.pending[i]).cell == s.pending[i].cell by {}
        },
        DeliveryEvent::Acking(number) => {
            assert forall|i: int| 0 <= i < s.pending.len() implies #[trigger] after.sender.pending[i]
                == with_ack(s.pending[i], number) by {}
            lemma_still_numbered(s, after.sender, 0);
        },
        DeliveryEvent::Arrive(i) => {
            if 0 <= i < s.pending.len() {
                lemma_arrival(d, i);
            }
        },
        DeliveryEvent::Acknowledge => {
            lemma_acknowledgement(d);
        },
    }
}

/// Whatever cells and acknowledgements are lost or come again, the payloads
/// that are accepted are the first ones that were put on the way, each once and
/// in order, and none is forgotten by the sender before it was accepted.
pub proof fn law_delivered_once_and_in_order(
    session_id: u32,
    receiver: ReceiverView,
    events: Seq<DeliveryEvent>,
)
    requires
        receiver.in_session(session_id).cumulative_ack == 0,
    ensures
        ({
            let d = Delivery::start(session_id, receiver).run(events);
            &&& d.in_step()
            &&& d.delivered.len() <= d.queued.len()
            &&& d.delivered == d.queued.take(d.delivered.len() as int)
            &&& d.freed() <= d.delivered.len()
        }),
    decreases events.len(),
{
    let start = Delivery::start(session_id, receiver);
    if events.len() == 0 {
        assert(start.delivered =~= start.queued.take(0));
    } else {
        law_delivered_once_and_in_order(session_id, receiver, events.drop_last());
        lemma_step(start.run(events.drop_last()), events.last());
    }
}

/// The arrival of the first `n` cells on the way, oldest first.
pub open spec fn arrivals(n: nat) -> Seq<DeliveryEvent> {
    Seq::new(n, |i: int| DeliveryEvent::Arrive(i))
}

proof fn lemma_arrivals(d: Delivery, n: nat)
    requires
        d.in_step(),
        n <= d.sender.pending.len(),
    ensures
        d.run(arrivals(n)).in_step(),
        d.run(arrivals(n)).ahead() >= n,
        d.run(arrivals(n)).sender == d.sender,
        d.run(arrivals(n)).queued == d.queued,
    decreases n,
{
    if n > 0 {
        let m = (n - 1) as nat;
        lemma_arrivals(d, m);
        assert(arrivals(n).drop_last() =~= arrivals(m));
        assert(arrivals(n).last() == DeliveryEvent::Arrive(m as int));
        lemma_arrival(d.run(arrivals(m)), m as int);
    }
}

/// Once the cells on the way have all arrived, in order, every payload that was
/// put on the way has been accepted, and the acknowledgement of that leaves
/// nothing on the way.
pub proof fn law_what_arrives_is_delivered(d: Delivery)
    requires
        d.in_step(),
    ensures
        ({
            let after = d.run(arrivals(d.sender.pending.len()));
            &&& after.delivered == d.queued
            &&& d.sender.pending.len() > 0 ==> after.step(
                DeliveryEvent::Acknowledge,
            ).sender.pending.len() == 0
        }),
{
    let n = d.sender.pending.len();
    lemma_arrivals(d, n);
    let after = d.run(arrivals(n));
    assert(after.queued.take(after.delivered.len() as int) =~= d.queued);
    if n > 0 {
        let number = after.last_taken();
        law_acknowledgement_frees_up_to(after.sender, number);
        assert(after.sender.pending[n - 1].cell.header.tx_sequence == number);
        lemma_session_after_arrivals(d, n);
    }
}

proof fn lemma_session_after_arrivals(d: Delivery, n: nat)
    requires
        d.in_step(),
        0 < n <= d.sender.pending.len(),
    ensures
        d.run(arrivals(n)).receiver.session_id == Some(d.sender.session_id),
{
    let m = (n - 1) as nat;
    lemma_arrivals(d, m);
    assert(arrivals(n).drop_last() =~= arrivals(m));
    assert(arrivals(n).last() == DeliveryEvent::Arrive(m as int));
    let before = d.run(arrivals(m));
    assert(before.sender.pending[m as int].cell.header.session_id == d.sender.session_id);
}

} // verus!
