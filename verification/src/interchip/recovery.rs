//! Silence as a way to reset a peer.

use vstd::prelude::*;

verus! {

/// Where a recovery stands.
#[derive(Clone, Copy, Debug, PartialEq, Eq, Structural)]
pub enum RecoveryPhase {
    Polling { last_progress_ms: u64 },
    Quiet { until_ms: u64 },
}

/// What the host is to do.
#[derive(Clone, Copy, Debug, PartialEq, Eq, Structural)]
pub enum SpiLinkRecoveryAction {
    Poll,
    EnterQuiet,
    StayQuiet,
    ResumePolling,
}

/// Forces a receive-only peer to observe silence long enough to reset a
/// wedged transmit path before polling resumes.
#[derive(Clone, Copy, Debug, PartialEq, Eq, Structural)]
pub struct SpiLinkRecovery {
    phase: RecoveryPhase,
    progress_timeout_ms: u64,
    quiet_period_ms: u64,
}

/// Where a recovery stands, and how long it waits and is quiet.
pub struct RecoveryView {
    pub phase: RecoveryPhase,
    pub progress_timeout_ms: u64,
    pub quiet_period_ms: u64,
}

impl View for SpiLinkRecovery {
    type V = RecoveryView;

    closed spec fn view(&self) -> RecoveryView {
        RecoveryView {
            phase: self.phase,
            progress_timeout_ms: self.progress_timeout_ms,
            quiet_period_ms: self.quiet_period_ms,
        }
    }
}

impl RecoveryView {
    /// What the host is to do at `now_ms`.
    pub open spec fn action(self, now_ms: u64) -> SpiLinkRecoveryAction {
        match self.phase {
            RecoveryPhase::Polling { last_progress_ms } => if now_ms.saturating_sub(
                last_progress_ms,
            ) >= self.progress_timeout_ms {
                SpiLinkRecoveryAction::EnterQuiet
            } else {
                SpiLinkRecoveryAction::Poll
            },
            RecoveryPhase::Quiet { until_ms } => if now_ms < until_ms {
                SpiLinkRecoveryAction::StayQuiet
            } else {
                SpiLinkRecoveryAction::ResumePolling
            },
        }
    }

    /// The recovery after that.
    pub open spec fn after(self, now_ms: u64) -> RecoveryView {
        RecoveryView {
            phase: match self.action(now_ms) {
                SpiLinkRecoveryAction::Poll => self.phase,
                SpiLinkRecoveryAction::StayQuiet => self.phase,
                SpiLinkRecoveryAction::EnterQuiet => RecoveryPhase::Quiet {
                    until_ms: now_ms.saturating_add(self.quiet_period_ms),
                },
                SpiLinkRecoveryAction::ResumePolling => RecoveryPhase::Polling {
                    last_progress_ms: now_ms,
                },
            },
            ..self
        }
    }
}

impl SpiLinkRecovery {
    /// A recovery that polls.
    pub fn new(started_ms: u64, progress_timeout_ms: u64, quiet_period_ms: u64) -> (r: Self)
        ensures
            r@ == (RecoveryView {
                phase: RecoveryPhase::Polling { last_progress_ms: started_ms },
                progress_timeout_ms,
                quiet_period_ms,
            }),
    {
        Self {
            phase: RecoveryPhase::Polling { last_progress_ms: started_ms },
            progress_timeout_ms,
            quiet_period_ms,
        }
    }

    /// A valid cell came, which is progress unless the host is quiet.
    pub fn observe_valid_cell(&mut self, now_ms: u64)
        ensures
            final(self)@ == (RecoveryView {
                phase: match old(self)@.phase {
                    RecoveryPhase::Polling { .. } => RecoveryPhase::Polling {
                        last_progress_ms: now_ms,
                    },
                    RecoveryPhase::Quiet { until_ms } => RecoveryPhase::Quiet { until_ms },
                },
                ..old(self)@
            }),
    {
        match self.phase {
            RecoveryPhase::Polling { .. } => {
                self.phase = RecoveryPhase::Polling { last_progress_ms: now_ms };
            },
            RecoveryPhase::Quiet { .. } => {},
        }
    }

    /// Says what the host is to do.
    pub fn advance(&mut self, now_ms: u64) -> (r: SpiLinkRecoveryAction)
        ensures
            r == old(self)@.action(now_ms),
            final(self)@ == old(self)@.after(now_ms),
    {
        match self.phase {
            RecoveryPhase::Polling { last_progress_ms } => {
                if now_ms.saturating_sub(last_progress_ms) >= self.progress_timeout_ms {
                    self.phase =
                    RecoveryPhase::Quiet { until_ms: now_ms.saturating_add(self.quiet_period_ms) };
                    SpiLinkRecoveryAction::EnterQuiet
                } else {
                    SpiLinkRecoveryAction::Poll
                }
            },
            RecoveryPhase::Quiet { until_ms } => {
                if now_ms < until_ms {
                    SpiLinkRecoveryAction::StayQuiet
                } else {
                    self.phase = RecoveryPhase::Polling { last_progress_ms: now_ms };
                    SpiLinkRecoveryAction::ResumePolling
                }
            },
        }
    }
}

/// Detects transactions that complete without any decodable peer cell. A
/// completely absent master never arms this watchdog, so standalone fallback
/// USB operation remains stable.
#[derive(Clone, Copy, Debug, PartialEq, Eq, Structural)]
pub struct SpiTransactionWatchdog {
    last_valid_or_first_transaction_ms: Option<u64>,
    timeout_ms: u64,
}

impl SpiTransactionWatchdog {
    /// When the last valid cell came, or else the first transaction.
    pub closed spec fn since(self) -> Option<u64> {
        self.last_valid_or_first_transaction_ms
    }

    /// How long that may be ago.
    pub closed spec fn timeout(self) -> u64 {
        self.timeout_ms
    }

    /// A watchdog that is not armed.
    pub fn new(timeout_ms: u64) -> (r: Self)
        ensures
            r.since() is None,
            r.timeout() == timeout_ms,
    {
        Self { last_valid_or_first_transaction_ms: None, timeout_ms }
    }

    /// A transaction was completed, which arms the watchdog.
    pub fn observe_transaction(&mut self, now_ms: u64)
        ensures
            final(self).timeout() == old(self).timeout(),
            final(self).since() == match old(self).since() {
                Some(since) => Some(since),
                None => Some(now_ms),
            },
    {
        if self.last_valid_or_first_transaction_ms.is_none() {
            self.last_valid_or_first_transaction_ms = Some(now_ms);
        }
    }

    /// A valid cell came.
    pub fn observe_valid_cell(&mut self, now_ms: u64)
        ensures
            final(self).timeout() == old(self).timeout(),
            final(self).since() == Some(now_ms),
    {
        self.last_valid_or_first_transaction_ms = Some(now_ms);
    }

    /// Whether the watchdog is armed and no valid cell came for too long.
    pub fn timed_out(self, now_ms: u64) -> (r: bool)
        ensures
            r == (self.since() is Some && now_ms.saturating_sub(self.since()->0)
                >= self.timeout()),
    {
        match self.last_valid_or_first_transaction_ms {
            Some(last) => now_ms.saturating_sub(last) >= self.timeout_ms,
            None => false,
        }
    }
}

/// The host polls as long as there was progress within the timeout, and is quiet
/// after that.
pub proof fn law_when_the_host_goes_quiet(r: RecoveryView, last_ms: u64, now_ms: u64)
    requires
        r.phase == (RecoveryPhase::Polling { last_progress_ms: last_ms }),
        last_ms <= now_ms,
    ensures
        now_ms - last_ms < r.progress_timeout_ms ==> r.action(now_ms)
            == SpiLinkRecoveryAction::Poll && r.after(now_ms) == r,
        now_ms - last_ms >= r.progress_timeout_ms ==> r.action(now_ms)
            == SpiLinkRecoveryAction::EnterQuiet,
{
}

/// Once quiet, the host stays quiet for the whole quiet period, and polls again
/// when it is over, with the timeout counted from then.
pub proof fn law_quiet_lasts_its_period(r: RecoveryView, from_ms: u64, now_ms: u64)
    requires
        r.action(from_ms) == SpiLinkRecoveryAction::EnterQuiet,
        from_ms + r.quiet_period_ms <= u64::MAX,
        from_ms <= now_ms,
    ensures
        ({
            let quiet = r.after(from_ms);
            &&& now_ms < from_ms + r.quiet_period_ms ==> quiet.action(now_ms)
                == SpiLinkRecoveryAction::StayQuiet && quiet.after(now_ms) == quiet
            &&& now_ms >= from_ms + r.quiet_period_ms ==> quiet.action(now_ms)
                == SpiLinkRecoveryAction::ResumePolling && quiet.after(now_ms).phase == (
            RecoveryPhase::Polling { last_progress_ms: now_ms })
            &&& quiet.progress_timeout_ms == r.progress_timeout_ms
            &&& quiet.quiet_period_ms == r.quiet_period_ms
        }),
{
}

} // verus!
