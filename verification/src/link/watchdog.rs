//! Loss of the realtime link.

use vstd::prelude::*;

verus! {

/// Emits one safety release when the realtime link disappears.
#[derive(Clone, Copy, Debug, PartialEq, Eq, Structural)]
pub struct LinkWatchdog {
    timeout_ms: u64,
    last_received_ms: Option<u64>,
    release_emitted: bool,
}

impl LinkWatchdog {
    /// How long the link may be silent.
    pub closed spec fn timeout(self) -> u64 {
        self.timeout_ms
    }

    /// When the last packet came.
    pub closed spec fn last_received(self) -> Option<u64> {
        self.last_received_ms
    }

    /// Whether the release for the present silence was emitted.
    pub closed spec fn released(self) -> bool {
        self.release_emitted
    }

    /// Whether the link has been silent for too long at `now_ms`.
    pub open spec fn silent(self, now_ms: u64) -> bool {
        self.last_received() is Some && now_ms.wrapping_sub(self.last_received()->0)
            >= self.timeout()
    }

    /// A watchdog that has seen no packet.
    pub fn new(timeout_ms: u64) -> (r: Self)
        ensures
            r.timeout() == timeout_ms,
            r.last_received() is None,
            !r.released(),
    {
        Self { timeout_ms, last_received_ms: None, release_emitted: false }
    }

    /// A packet came.
    pub fn observe_packet(&mut self, now_ms: u64)
        ensures
            final(self).timeout() == old(self).timeout(),
            final(self).last_received() == Some(now_ms),
            !final(self).released(),
    {
        self.last_received_ms = Some(now_ms);
        self.release_emitted = false;
    }

    /// Whether all keys must be released now: once for each silence.
    pub fn take_release_required(&mut self, now_ms: u64) -> (r: bool)
        ensures
            r == (old(self).silent(now_ms) && !old(self).released()),
            final(self).timeout() == old(self).timeout(),
            final(self).last_received() == old(self).last_received(),
            final(self).released() == (old(self).released() || r),
    {
        let timed_out = match self.last_received_ms {
            Some(last) => now_ms.wrapping_sub(last) >= self.timeout_ms,
            None => false,
        };
        if timed_out && !self.release_emitted {
            self.release_emitted = true;
            true
        } else {
            false
        }
    }
}

/// The link is silent once the timeout has passed since the last packet, and not
/// before, and never where no packet has come.
pub proof fn law_when_the_link_is_silent(w: LinkWatchdog, now_ms: u64)
    requires
        w.last_received() is Some ==> w.last_received()->0 <= now_ms,
    ensures
        w.silent(now_ms) <==> w.last_received() is Some && w.last_received()->0 + w.timeout()
            <= now_ms,
{
}

} // verus!
