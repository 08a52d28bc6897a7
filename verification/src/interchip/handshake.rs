//! One transaction for each time that the device is ready.

use vstd::prelude::*;

verus! {

/// Where a handshake stands.
#[derive(Clone, Copy, Debug, PartialEq, Eq, Structural)]
pub enum SpiReadyPhase {
    AwaitingReady,
    AwaitingDeassertion { transfer_started_ms: u64 },
}

/// What the host is to do.
#[derive(Clone, Copy, Debug, PartialEq, Eq, Structural)]
pub enum SpiReadyAction {
    Wait,
    Transfer,
    /// READY is high but its previous falling edge was not observed. The
    /// device contract makes this safe: high means a slave transaction is
    /// currently armed, regardless of whether the previous edge was missed.
    RecoverTransfer,
}

/// Prevents the master from starting more than one transaction for each arm
/// cycle of the device.
///
/// `deassertion_observed` must come from a latched falling edge, rather than
/// only the sampled READY level. The device may finish processing and rearm
/// between two host samples, making the low pulse otherwise invisible.
#[derive(Clone, Copy, Debug, PartialEq, Eq, Structural)]
pub struct SpiReadyHandshake {
    phase: SpiReadyPhase,
    deassertion_timeout_ms: u64,
}

/// Where a handshake stands, and how long it waits for an edge.
pub struct ReadyView {
    pub phase: SpiReadyPhase,
    pub timeout_ms: u64,
}

impl View for SpiReadyHandshake {
    type V = ReadyView;

    closed spec fn view(&self) -> ReadyView {
        ReadyView { phase: self.phase, timeout_ms: self.deassertion_timeout_ms }
    }
}

impl ReadyView {
    /// The handshake after a look at READY: the device let go of READY if its
    /// falling edge was latched or the line is low.
    pub open spec fn after(self, ready_high: bool, deassertion_observed: bool) -> ReadyView {
        if deassertion_observed || !ready_high {
            ReadyView { phase: SpiReadyPhase::AwaitingReady, ..self }
        } else {
            self
        }
    }

    /// What the host is to do, in a phase that is up to date.
    pub open spec fn action(self, ready_high: bool, now_ms: u64) -> SpiReadyAction {
        if !ready_high {
            SpiReadyAction::Wait
        } else {
            match self.phase {
                SpiReadyPhase::AwaitingReady => SpiReadyAction::Transfer,
                SpiReadyPhase::AwaitingDeassertion { transfer_started_ms } => if now_ms.saturating_sub(
                    transfer_started_ms,
                ) >= self.timeout_ms {
                    SpiReadyAction::RecoverTransfer
                } else {
                    SpiReadyAction::Wait
                },
            }
        }
    }
}

impl SpiReadyHandshake {
    /// A handshake that waits for the device.
    pub fn new(deassertion_timeout_ms: u64) -> (r: Self)
        ensures
            r@ == (ReadyView {
                phase: SpiReadyPhase::AwaitingReady,
                timeout_ms: deassertion_timeout_ms,
            }),
    {
        Self { phase: SpiReadyPhase::AwaitingReady, deassertion_timeout_ms }
    }

    /// Takes in a look at READY and says what the host is to do.
    pub fn observe(&mut self, ready_high: bool, deassertion_observed: bool, now_ms: u64) -> (r:
        SpiReadyAction)
        ensures
            final(self)@ == old(self)@.after(ready_high, deassertion_observed),
            r == final(self)@.action(ready_high, now_ms),
    {
        if deassertion_observed || !ready_high {
            self.phase = SpiReadyPhase::AwaitingReady;
        }
        if !ready_high {
            return SpiReadyAction::Wait;
        }
        match self.phase {
            SpiReadyPhase::AwaitingReady => SpiReadyAction::Transfer,
            SpiReadyPhase::AwaitingDeassertion { transfer_started_ms } => {
                if now_ms.saturating_sub(transfer_started_ms) >= self.deassertion_timeout_ms {
                    SpiReadyAction::RecoverTransfer
                } else {
                    SpiReadyAction::Wait
                }
            },
        }
    }

    /// Commits a previously returned `Transfer` action after all local
    /// preparation has succeeded and immediately before the transaction.
    pub fn mark_transfer_started(&mut self, now_ms: u64)
        ensures
            final(self)@ == (ReadyView {
                phase: SpiReadyPhase::AwaitingDeassertion { transfer_started_ms: now_ms },
                ..old(self)@
            }),
    {
        self.phase = SpiReadyPhase::AwaitingDeassertion { transfer_started_ms: now_ms };
    }

    /// Cancels a transfer which failed before it could produce a READY edge.
    pub fn cancel_transfer(&mut self)
        ensures
            final(self)@ == (ReadyView { phase: SpiReadyPhase::AwaitingReady, ..old(self)@ }),
    {
        self.phase = SpiReadyPhase::AwaitingReady;
    }
}

/// Once a transfer was started, and until READY is seen low or its edge was
/// latched or the timeout is over, no other is started, however often the host
/// looks.
pub proof fn law_one_transfer_per_ready_cycle(h: ReadyView, started_ms: u64, now_ms: u64)
    requires
        h.phase == (SpiReadyPhase::AwaitingDeassertion { transfer_started_ms: started_ms }),
        now_ms.saturating_sub(started_ms) < h.timeout_ms,
    ensures
        h.after(true, false) == h,
        h.after(true, false).action(true, now_ms) == SpiReadyAction::Wait,
{
}

/// A transfer is due exactly where READY is high and the device has let go of it
/// since the last transfer was started, seen low or by its edge.
pub proof fn law_when_a_transfer_is_due(
    h: ReadyView,
    ready_high: bool,
    edge: bool,
    now_ms: u64,
)
    ensures
        h.after(ready_high, edge).action(ready_high, now_ms) == SpiReadyAction::Transfer
            <==> ready_high && (edge || h.phase == SpiReadyPhase::AwaitingReady),
        !ready_high ==> h.after(ready_high, edge).action(ready_high, now_ms)
            == SpiReadyAction::Wait && h.after(ready_high, edge).phase
            == SpiReadyPhase::AwaitingReady,
        h.after(ready_high, edge).timeout_ms == h.timeout_ms,
{
}

/// A transfer that the device does not let go of is given up once the timeout is
/// over, and not before.
pub proof fn law_when_a_transfer_is_given_up(h: ReadyView, started_ms: u64, now_ms: u64)
    requires
        h.phase == (SpiReadyPhase::AwaitingDeassertion { transfer_started_ms: started_ms }),
        started_ms <= now_ms,
    ensures
        h.after(true, false).action(true, now_ms) == SpiReadyAction::RecoverTransfer <==> now_ms
            - started_ms >= h.timeout_ms,
{
}

} // verus!
