//! Bounded refreshes of the critical state.

use vstd::prelude::*;

verus! {

/// Quiet period before the one bounded critical-state refresh. A newer input
/// supersedes this schedule and already carries the critical history, while an
/// idle lost release is still recovered inside the 15 ms radio latency budget.
pub const CRITICAL_STATE_REFRESH_INTERVAL_US: u64 = 4_000;

/// Number of state refreshes after the primary broadcast. These are current
/// state snapshots, not acknowledgement-driven packet retransmissions.
pub const CRITICAL_STATE_REFRESH_COUNT: u8 = 1;

/// Schedule for bounded current-state refreshes.
#[derive(Clone, Copy, Debug, PartialEq, Eq, Structural)]
pub struct CriticalStateRefresh {
    remaining: u8,
    next_due_us: u64,
}

impl CriticalStateRefresh {
    /// How many refreshes are left.
    pub closed spec fn left(self) -> u8 {
        self.remaining
    }

    /// When the next one is due.
    pub closed spec fn due(self) -> u64 {
        self.next_due_us
    }

    /// The schedule that starts with a primary broadcast.
    pub fn after_primary(now_us: u64) -> (r: Self)
        ensures
            r.left() == CRITICAL_STATE_REFRESH_COUNT,
            r.due() == now_us.saturating_add(CRITICAL_STATE_REFRESH_INTERVAL_US),
    {
        Self {
            remaining: CRITICAL_STATE_REFRESH_COUNT,
            next_due_us: now_us.saturating_add(CRITICAL_STATE_REFRESH_INTERVAL_US),
        }
    }

    /// A motion snapshot already carries the current critical state, so begin
    /// the quiet-period timer again instead of sending a competing snapshot.
    pub fn defer_after_piggyback(&mut self, now_us: u64)
        ensures
            final(self).left() == old(self).left(),
            final(self).due() == now_us.saturating_add(CRITICAL_STATE_REFRESH_INTERVAL_US),
    {
        self.next_due_us = now_us.saturating_add(CRITICAL_STATE_REFRESH_INTERVAL_US);
    }

    /// Whether a refresh is to be sent now.
    pub fn take_due(&mut self, now_us: u64) -> (r: bool)
        ensures
            r == (old(self).left() > 0 && now_us >= old(self).due()),
            !r ==> *final(self) == *old(self),
            r ==> final(self).left() == old(self).left() - 1 && final(self).due()
                == now_us.saturating_add(CRITICAL_STATE_REFRESH_INTERVAL_US),
    {
        if self.remaining == 0 || now_us < self.next_due_us {
            return false;
        }
        self.remaining -= 1;
        self.next_due_us = now_us.saturating_add(CRITICAL_STATE_REFRESH_INTERVAL_US);
        true
    }

    /// Whether no refresh is left.
    pub fn is_complete(self) -> (r: bool)
        ensures
            r == (self.left() == 0),
    {
        self.remaining == 0
    }
}

} // verus!
