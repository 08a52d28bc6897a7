//! The window in which a host may pair.

use vstd::prelude::*;

use crate::ids::HostId;

verus! {

/// At most one host that may pair, and until when.
#[derive(Clone, Copy, Debug, PartialEq, Eq, Structural)]
pub struct PairingMode {
    pub(crate) current: Option<PairingSession>,
}

/// A host that may pair, and until when.
#[derive(Clone, Copy, Debug, PartialEq, Eq, Structural)]
pub struct PairingSession {
    pub host_id: HostId,
    pub expires_at_ms: u64,
}

impl View for PairingMode {
    type V = Option<PairingSession>;

    open(crate) spec fn view(&self) -> Option<PairingSession> {
        self.current
    }
}

impl PairingMode {
    /// Whether a host may pair.
    pub open spec fn open_for(&self, host_id: HostId) -> bool {
        self@ is Some && self@->0.host_id == host_id
    }

    /// No host may pair.
    pub fn new() -> (r: Self)
        ensures
            r@ is None,
    {
        Self { current: None }
    }

    /// The host that may pair, and until when.
    pub fn current(&self) -> (r: Option<PairingSession>)
        ensures
            r == self@,
    {
        self.current
    }

    /// Lets one host pair for a while, and no other.
    pub fn enter(&mut self, host_id: HostId, now_ms: u64, duration_ms: u64)
        ensures
            final(self)@ == Some(
                PairingSession { host_id, expires_at_ms: now_ms.saturating_add(duration_ms) },
            ),
    {
        self.current =
        Some(PairingSession { host_id, expires_at_ms: now_ms.saturating_add(duration_ms) });
    }

    /// Lets no host pair.
    pub fn cancel(&mut self)
        ensures
            final(self)@ is None,
    {
        self.current = None;
    }

    /// Lets a host pair no longer.
    pub fn clear_host(&mut self, host_id: HostId)
        ensures
            final(self)@ == if old(self).open_for(host_id) {
                None
            } else {
                old(self)@
            },
    {
        if self.is_open_for(host_id) {
            self.current = None;
        }
    }

    /// Ends the window when its time has come, and says for which host.
    pub fn tick(&mut self, now_ms: u64) -> (r: Option<HostId>)
        ensures
            ({
                let over = old(self)@ is Some && now_ms >= old(self)@->0.expires_at_ms;
                &&& over ==> r == Some(old(self)@->0.host_id) && final(self)@ is None
                &&& !over ==> r is None && final(self)@ == old(self)@
            }),
    {
        let session = match self.current {
            Some(session) => session,
            None => {
                return None;
            },
        };
        if now_ms < session.expires_at_ms {
            return None;
        }
        self.current = None;
        Some(session.host_id)
    }

    /// Whether a host may pair.
    pub fn is_open_for(&self, host_id: HostId) -> (r: bool)
        ensures
            r == self.open_for(host_id),
    {
        match self.current {
            Some(session) => session.host_id == host_id,
            None => false,
        }
    }
}

impl Default for PairingMode {
    fn default() -> (r: Self)
        ensures
            r@ is None,
    {
        Self::new()
    }
}

/// At most one host may pair at a time.
pub proof fn law_one_host_may_pair(mode: PairingMode, a: HostId, b: HostId)
    requires
        mode.open_for(a),
        mode.open_for(b),
    ensures
        a == b,
{
}

} // verus!
