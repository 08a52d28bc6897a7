//! Session handshake of the broadcast link.
//!
//! A Hello is authenticated with the pairing key, but it is not sufficient to
//! identify the current boot by itself: an old authenticated Hello can be
//! captured and replayed. The peer-session echo makes the handshake a
//! challenge/response exchange. Data is accepted only after both sides have
//! observed the current pair.

use vstd::prelude::*;

verus! {

/// What a Hello leads to.
#[derive(Clone, Copy, Debug, PartialEq, Eq, Structural)]
pub enum SessionDecision {
    Ignore,
    Reply,
    Established,
}

/// One side of the handshake.
#[derive(Clone, Copy, Debug, PartialEq, Eq, Structural)]
pub struct SessionHandshake {
    local_session: u32,
    peer_session: Option<u32>,
    pending_peer: Option<u32>,
    established: bool,
}

/// What one side of the handshake knows.
pub struct HandshakeView {
    pub local: u32,
    pub peer: Option<u32>,
    pub pending: Option<u32>,
    pub established: bool,
}

impl View for SessionHandshake {
    type V = HandshakeView;

    closed spec fn view(&self) -> HandshakeView {
        HandshakeView {
            local: self.local_session,
            peer: self.peer_session,
            pending: self.pending_peer,
            established: self.established,
        }
    }
}

impl HandshakeView {
    /// What a Hello of `peer` that echoes `echo` leads to. A Hello without a
    /// session, or with the echo of another session than ours, is ignored. One
    /// without an echo is answered, unless another peer is established. One
    /// with our echo establishes the peer, unless another peer is established
    /// or, before any is, unless another one is known but not pending.
    pub open spec fn decision(self, peer: u32, echo: u32) -> SessionDecision {
        if peer == 0 || (echo != 0 && echo != self.local) {
            SessionDecision::Ignore
        } else if self.established && self.peer != Some(peer) {
            SessionDecision::Ignore
        } else if echo == 0 {
            SessionDecision::Reply
        } else if self.established || self.pending == Some(peer) || self.peer is None {
            SessionDecision::Established
        } else {
            SessionDecision::Ignore
        }
    }

    /// The handshake after that Hello.
    pub open spec fn after(self, peer: u32, echo: u32) -> HandshakeView {
        match self.decision(peer, echo) {
            SessionDecision::Ignore => self,
            SessionDecision::Reply => HandshakeView { pending: Some(peer), ..self },
            SessionDecision::Established => if self.established {
                self
            } else {
                HandshakeView {
                    local: self.local,
                    peer: Some(peer),
                    pending: None,
                    established: true,
                }
            },
        }
    }
}

impl SessionHandshake {
    /// A handshake that knows no peer.
    pub fn new(local_session: u32) -> (r: Self)
        ensures
            r@ == (HandshakeView {
                local: local_session,
                peer: None,
                pending: None,
                established: false,
            }),
    {
        Self { local_session, peer_session: None, pending_peer: None, established: false }
    }

    /// Our session.
    pub fn local_session(&self) -> (r: u32)
        ensures
            r == self@.local,
    {
        self.local_session
    }

    /// The peer's session.
    pub fn peer_session(&self) -> (r: Option<u32>)
        ensures
            r == self@.peer,
    {
        self.peer_session
    }

    /// Whether data is accepted.
    pub fn is_established(&self) -> (r: bool)
        ensures
            r == self@.established,
    {
        self.established
    }

    /// Process a peer Hello and return whether a response or data activation
    /// is needed. A non-zero echo must always refer to our current session.
    pub fn observe(&mut self, peer_session: u32, echoed_local_session: u32) -> (r: SessionDecision)
        ensures
            r == old(self)@.decision(peer_session, echoed_local_session),
            final(self)@ == old(self)@.after(peer_session, echoed_local_session),
    {
        if peer_session == 0 || (echoed_local_session != 0 && echoed_local_session
            != self.local_session) {
            return SessionDecision::Ignore;
        }
        let is_peer = match self.peer_session {
            Some(peer) => peer == peer_session,
            None => false,
        };
        if echoed_local_session == 0 {
            if self.established && !is_peer {
                return SessionDecision::Ignore;
            }
            self.pending_peer = Some(peer_session);
            return SessionDecision::Reply;
        }
        if self.established {
            return if is_peer {
                SessionDecision::Established
            } else {
                SessionDecision::Ignore
            };
        }
        let is_pending = match self.pending_peer {
            Some(peer) => peer == peer_session,
            None => false,
        };
        if is_pending || self.peer_session.is_none() {
            self.peer_session = Some(peer_session);
            self.pending_peer = None;
            self.established = true;
            SessionDecision::Established
        } else {
            SessionDecision::Ignore
        }
    }

    /// Forgets the peer.
    pub fn reset(&mut self)
        ensures
            final(self)@ == (HandshakeView {
                local: old(self)@.local,
                peer: None,
                pending: None,
                established: false,
            }),
    {
        self.peer_session = None;
        self.pending_peer = None;
        self.established = false;
    }

    /// Whether data of this peer session is accepted.
    pub fn accepts_peer(&self, peer_session: u32) -> (r: bool)
        ensures
            r == (self@.established && self@.peer == Some(peer_session)),
    {
        match self.peer_session {
            Some(peer) => self.established && peer == peer_session,
            None => false,
        }
    }
}

/// No Hello makes an established link leave its peer.
pub proof fn law_established_peer_stays(h: HandshakeView, peer: u32, echo: u32)
    requires
        h.established,
    ensures
        h.after(peer, echo).established,
        h.after(peer, echo).peer == h.peer,
        h.peer != Some(peer) ==> h.decision(peer, echo) == SessionDecision::Ignore,
{
}

/// A link is established only by a Hello that echoes our own session.
pub proof fn law_established_only_by_our_echo(h: HandshakeView, peer: u32, echo: u32)
    requires
        !h.established,
        h.after(peer, echo).established,
    ensures
        echo == h.local,
        h.after(peer, echo).peer == Some(peer),
{
}

/// Two sides that know no peer establish a link with three greetings: the second
/// answers the first's greeting, the answer establishes the first's side, and its
/// greeting in return establishes the second's. Each then knows the other's session.
pub proof fn law_two_sides_come_together(a: HandshakeView, b: HandshakeView)
    requires
        a.local != 0,
        b.local != 0,
        a.peer is None && a.pending is None && !a.established,
        b.peer is None && b.pending is None && !b.established,
    ensures
        b.decision(a.local, 0) == SessionDecision::Reply,
        a.decision(b.local, a.local) == SessionDecision::Established,
        a.after(b.local, a.local).established,
        a.after(b.local, a.local).peer == Some(b.local),
        b.after(a.local, 0).decision(a.local, b.local) == SessionDecision::Established,
        b.after(a.local, 0).after(a.local, b.local).established,
        b.after(a.local, 0).after(a.local, b.local).peer == Some(a.local),
{
}

/// A peer that is established and greets again, with or without our session, is
/// answered or stays established, and its session is still the one that is known.
pub proof fn law_established_peer_is_answered(h: HandshakeView, peer: u32)
    requires
        h.established,
        h.peer == Some(peer),
        peer != 0,
        h.local != 0,
    ensures
        h.decision(peer, 0) == SessionDecision::Reply,
        h.decision(peer, h.local) == SessionDecision::Established,
        h.after(peer, 0).established,
        h.after(peer, 0).peer == Some(peer),
        h.after(peer, h.local) == h,
{
}

/// A greeting without a session, or one that answers another session than ours, is
/// ignored.
pub proof fn law_foreign_greetings_are_ignored(h: HandshakeView, peer: u32, echo: u32)
    requires
        peer == 0 || (echo != 0 && echo != h.local),
    ensures
        h.decision(peer, echo) == SessionDecision::Ignore,
        h.after(peer, echo) == h,
{
}

} // verus!
