//! The hosts that input can go to, and their sessions.

use vstd::prelude::*;

use crate::bytes::same_bytes;
use crate::fixed;
use crate::fixed::destinations_in_8;
use crate::lists::{
    first_where, free_from, lemma_first_at, lemma_first_none, lemma_first_where, lemma_free_from,
    lemma_some_free,
};

verus! {

/// How many destinations are remembered.
pub const DESTINATION_CAPACITY: usize = 8;

/// How many of them can be connected.
pub const SESSION_CAPACITY: usize = 4;

/// The number of a destination, from 1 to 8.
#[derive(Clone, Copy, Debug, PartialEq, Eq, PartialOrd, Ord, Hash, Structural)]
pub struct DestinationId(pub(crate) u8);

impl DestinationId {
    /// The number.
    pub open(crate) spec fn number(self) -> int {
        self.0 as int
    }

    /// The destination with a number, if there is one.
    pub fn new(value: u8) -> (r: Option<Self>)
        ensures
            r is Some <==> 1 <= value <= 8,
            r is Some ==> r->0.number() == value,
    {
        if value >= 1 && value <= 8 {
            Some(Self(value))
        } else {
            None
        }
    }

    /// The number.
    pub fn get(self) -> (r: u8)
        ensures
            r == self.number(),
    {
        self.0
    }
}

/// The number of a session, from 0 to 3.
#[derive(Clone, Copy, Debug, PartialEq, Eq, PartialOrd, Ord, Hash, Structural)]
pub struct SessionId(pub(crate) u8);

impl SessionId {
    /// The number.
    pub open(crate) spec fn number(self) -> int {
        self.0 as int
    }

    /// The number.
    pub fn get(self) -> (r: u8)
        ensures
            r == self.number(),
    {
        self.0
    }
}

/// A host that input can go to.
#[derive(Clone, Debug, PartialEq, Eq)]
pub struct Destination {
    pub id: DestinationId,
    pub peer_identity: [u8; 16],
    pub auto_connect: bool,
    pub connected_session: Option<SessionId>,
    pub last_seen: u64,
}

impl Destination {
    /// Whether the host is connected.
    pub fn connected(&self) -> (r: bool)
        ensures
            r == (self.connected_session is Some),
    {
        self.connected_session.is_some()
    }
}

/// Why a change was refused.
#[derive(Clone, Copy, Debug, PartialEq, Eq, Structural)]
pub enum DestinationError {
    RegistryFull,
    SessionCapacity,
    UnknownDestination,
    AutoConnectDisabled,
    AlreadyConnected,
}

/// The hosts that are remembered.
#[derive(Clone, Debug, PartialEq, Eq)]
pub struct DestinationRegistry {
    destinations: heapless::Vec<Destination, DESTINATION_CAPACITY>,
    sessions: [Option<DestinationId>; SESSION_CAPACITY],
}

/// The hosts that are remembered, and who has each session.
pub struct RegistryView {
    pub destinations: Seq<Destination>,
    pub sessions: Seq<Option<DestinationId>>,
}

impl View for DestinationRegistry {
    type V = RegistryView;

    closed spec fn view(&self) -> RegistryView {
        RegistryView {
            destinations: destinations_in_8(self.destinations),
            sessions: self.sessions@,
        }
    }
}

/// Whether a destination is the one of a peer.
pub open spec fn is_peer(peer: Seq<u8>) -> spec_fn(Destination) -> bool {
    |d: Destination| d.peer_identity@ == peer
}

/// Whether a destination has a number.
pub open spec fn has_id(id: DestinationId) -> spec_fn(Destination) -> bool {
    |d: Destination| d.id == id
}

/// Whether a destination is connected.
pub open spec fn is_connected() -> spec_fn(Destination) -> bool {
    |d: Destination| d.connected_session is Some
}

/// Whether a destination is not connected.
pub open spec fn is_registered() -> spec_fn(Destination) -> bool {
    |d: Destination| d.connected_session is None
}

/// Whether a session is free.
pub open spec fn is_free() -> spec_fn(Option<DestinationId>) -> bool {
    |s: Option<DestinationId>| s is None
}

/// The numbers of destinations.
pub open spec fn numbers(destinations: Seq<Destination>) -> Seq<int> {
    Seq::new(destinations.len(), |i: int| destinations[i].id.number())
}

impl RegistryView {
    /// No two destinations share a number or a peer, and a session belongs to
    /// the destination that has it.
    pub open spec fn wf(self) -> bool {
        &&& self.destinations.len() <= 8
        &&& self.sessions.len() == 4
        &&& forall|i: int, j: int|
            0 <= i < j < self.destinations.len() ==> (#[trigger] self.destinations[i]).id
                != (#[trigger] self.destinations[j]).id
        &&& forall|i: int, j: int|
            0 <= i < j < self.destinations.len() ==> (
            #[trigger] self.destinations[i]).peer_identity@ != (
            #[trigger] self.destinations[j]).peer_identity@
        &&& forall|i: int|
            0 <= i < self.destinations.len() ==> self.session_is_kept(#[trigger] self.destinations[i])
        &&& forall|s: int| #![trigger self.sessions[s]]
            0 <= s < 4 && self.sessions[s] is Some ==> self.holder(s)
    }

    /// The session of a destination is its own.
    pub open spec fn session_is_kept(self, d: Destination) -> bool {
        d.connected_session is Some ==> 0 <= d.connected_session->0.number() < 4
            && self.sessions[d.connected_session->0.number()] == Some(d.id)
    }

    /// Some destination has a session that is taken.
    pub open spec fn holder(self, s: int) -> bool {
        let found = self.index_of(self.sessions[s]->0);
        &&& found is Some
        &&& self.destinations[found->0].connected_session is Some
        &&& self.destinations[found->0].connected_session->0.number() == s
    }

    /// Where the destination with a number stands.
    pub open spec fn index_of(self, id: DestinationId) -> Option<int> {
        first_where(self.destinations, has_id(id))
    }

    /// The registry with one destination changed.
    pub open spec fn with(self, i: int, d: Destination) -> RegistryView {
        RegistryView { destinations: self.destinations.update(i, d), ..self }
    }

    /// The registry without the session of a destination.
    pub open spec fn disconnected(self, id: DestinationId) -> RegistryView {
        match self.index_of(id) {
            Some(i) => match self.destinations[i].connected_session {
                Some(session) => RegistryView {
                    destinations: self.destinations.update(
                        i,
                        Destination { connected_session: None, ..self.destinations[i] },
                    ),
                    sessions: self.sessions.update(session.number(), None),
                },
                None => self,
            },
            None => self,
        }
    }

    /// Why a destination is not connected, where it is not.
    pub open spec fn connect_error(self, id: DestinationId) -> Option<DestinationError> {
        match self.index_of(id) {
            None => Some(DestinationError::UnknownDestination),
            Some(i) => if !self.destinations[i].auto_connect {
                Some(DestinationError::AutoConnectDisabled)
            } else if self.destinations[i].connected_session is Some {
                Some(DestinationError::AlreadyConnected)
            } else if first_where(self.sessions, is_free()) is None {
                Some(DestinationError::SessionCapacity)
            } else {
                None
            },
        }
    }
}

fn copy_of(d: &Destination) -> (r: Destination)
    ensures
        r == *d,
{
    Destination {
        id: d.id,
        peer_identity: d.peer_identity,
        auto_connect: d.auto_connect,
        connected_session: d.connected_session,
        last_seen: d.last_seen,
    }
}

impl Default for DestinationRegistry {
    fn default() -> (r: Self)
        ensures
            r@.wf(),
            r@ == (RegistryView {
                destinations: seq![],
                sessions: seq![None::<DestinationId>, None, None, None],
            }),
    {
        Self::new()
    }
}

impl DestinationRegistry {
    /// No host yet.
    pub fn new() -> (r: Self)
        ensures
            r@.wf(),
            r@ == (RegistryView {
                destinations: seq![],
                sessions: seq![None::<DestinationId>, None, None, None],
            }),
    {
        let r = Self { destinations: fixed::new_destinations(), sessions: [None, None, None, None] };
        assert(r.sessions@ =~= seq![None::<DestinationId>, None, None, None]);
        assert(r@.destinations =~= seq![]);
        r
    }

    /// All that are remembered.
    pub fn destinations(&self) -> (r: &[Destination])
        ensures
            r@ == self@.destinations,
    {
        fixed::items(&self.destinations)
    }

    /// Those that are connected.
    pub fn connected(&self) -> (r: Vec<&Destination>)
        ensures
            r@.map_values(|d: &Destination| *d) == self@.destinations.filter(is_connected()),
    {
        let items = fixed::items(&self.destinations);
        let mut r: Vec<&Destination> = Vec::new();
        let ghost p = is_connected();
        let ghost plain = |d: &Destination| *d;
        let mut i: usize = 0;
        proof {
            reveal(Seq::filter);
            assert(items@.take(0) =~= seq![]);
            assert(r@.map_values(plain) =~= items@.take(0).filter(p));
        }
        while i < items.len()
            invariant
                i <= items@.len(),
                p == is_connected(),
                plain == (|d: &Destination| *d),
                r@.map_values(plain) == items@.take(i as int).filter(p),
            decreases items@.len() - i,
        {
            proof {
                reveal(Seq::filter);
                assert(items@.take(i + 1).drop_last() =~= items@.take(i as int));
            }
            let ghost before = r@;
            if items[i].connected() {
                r.push(&items[i]);
                assert(r@.map_values(plain) =~= before.map_values(plain).push(items@[i as int]));
            }
            i += 1;
        }
        assert(items@.take(i as int) =~= items@);
        r
    }

    /// Those that are not.
    pub fn registered(&self) -> (r: Vec<&Destination>)
        ensures
            r@.map_values(|d: &Destination| *d) == self@.destinations.filter(is_registered()),
    {
        let items = fixed::items(&self.destinations);
        let mut r: Vec<&Destination> = Vec::new();
        let ghost p = is_registered();
        let ghost plain = |d: &Destination| *d;
        let mut i: usize = 0;
        proof {
            reveal(Seq::filter);
            assert(items@.take(0) =~= seq![]);
            assert(r@.map_values(plain) =~= items@.take(0).filter(p));
        }
        while i < items.len()
            invariant
                i <= items@.len(),
                p == is_registered(),
                plain == (|d: &Destination| *d),
                r@.map_values(plain) == items@.take(i as int).filter(p),
            decreases items@.len() - i,
        {
            proof {
                reveal(Seq::filter);
                assert(items@.take(i + 1).drop_last() =~= items@.take(i as int));
            }
            let ghost before = r@;
            if !items[i].connected() {
                r.push(&items[i]);
                assert(r@.map_values(plain) =~= before.map_values(plain).push(items@[i as int]));
            }
            i += 1;
        }
        assert(items@.take(i as int) =~= items@);
        r
    }

    fn index_of(&self, id: DestinationId) -> (r: Option<usize>)
        ensures
            r is None ==> self@.index_of(id) is None,
            r is Some ==> self@.index_of(id) == Some(r->0 as int) && r->0
                < self@.destinations.len() <= 8,
    {
        let items = fixed::items(&self.destinations);
        let ghost p = has_id(id);
        let mut i: usize = 0;
        while i < items.len()
            invariant
                i <= items@.len() <= 8,
                p == has_id(id),
                items@ == self@.destinations,
                forall|j: int| 0 <= j < i ==> !p(#[trigger] items@[j]),
            decreases items@.len() - i,
        {
            if items[i].id == id {
                proof {
                    lemma_first_at(items@, p, i as int);
                }
                return Some(i);
            }
            i += 1;
        }
        proof {
            lemma_first_none(items@, p);
        }
        None
    }

    fn index_of_peer(&self, peer_identity: &[u8; 16]) -> (r: Option<usize>)
        ensures
            r is None ==> first_where(self@.destinations, is_peer(peer_identity@)) is None,
            r is Some ==> first_where(self@.destinations, is_peer(peer_identity@)) == Some(
                r->0 as int,
            ) && r->0 < self@.destinations.len(),
    {
        let items = fixed::items(&self.destinations);
        let ghost p = is_peer(peer_identity@);
        let mut i: usize = 0;
        while i < items.len()
            invariant
                i <= items@.len(),
                p == is_peer(peer_identity@),
                items@ == self@.destinations,
                forall|j: int| 0 <= j < i ==> !p(#[trigger] items@[j]),
            decreases items@.len() - i,
        {
            if same_bytes(items[i].peer_identity.as_slice(), peer_identity.as_slice()) {
                proof {
                    lemma_first_at(items@, p, i as int);
                }
                return Some(i);
            }
            i += 1;
        }
        proof {
            lemma_first_none(items@, p);
        }
        None
    }

    fn free_id(&self) -> (r: Option<DestinationId>)
        ensures
            r is None ==> free_from(numbers(self@.destinations), 1) is None,
            r is Some ==> free_from(numbers(self@.destinations), 1) == Some(r->0.number()),
    {
        let ghost taken = numbers(self@.destinations);
        let mut value: u8 = 1;
        while value <= 8
            invariant
                1 <= value <= 9,
                taken == numbers(self@.destinations),
                free_from(taken, 1) == free_from(taken, value as int),
            decreases 9 - value,
        {
            let id = DestinationId(value);
            match self.index_of(id) {
                Some(i) => {
                    proof {
                        lemma_first_where(self@.destinations, has_id(id));
                        assert(taken[i as int] == value);
                    }
                },
                None => {
                    proof {
                        lemma_first_where(self@.destinations, has_id(id));
                        assert(!taken.contains(value as int)) by {
                            if taken.contains(value as int) {
                                let i = choose|i: int|
                                    0 <= i < taken.len() && taken[i] == value as int;
                                assert(has_id(id)(self@.destinations[i]));
                            }
                        }
                    }
                    return Some(id);
                },
            }
            value += 1;
        }
        None
    }

    /// Remembers a peer, and when it was seen. A peer that is known keeps its
    /// number; a new one gets the least that is free.
    pub fn register(&mut self, peer_identity: [u8; 16], now: u64) -> (r: Result<
        DestinationId,
        DestinationError,
    >)
        requires
            old(self)@.wf(),
        ensures
            final(self)@.wf(),
            match first_where(old(self)@.destinations, is_peer(peer_identity@)) {
                Some(i) => r == Ok::<DestinationId, DestinationError>(
                    old(self)@.destinations[i].id,
                ) && final(self)@ == old(self)@.with(
                    i,
                    Destination { last_seen: now, ..old(self)@.destinations[i] },
                ),
                None => if old(self)@.destinations.len() >= 8 {
                    r == Err::<DestinationId, DestinationError>(DestinationError::RegistryFull)
                        && final(self)@ == old(self)@
                } else {
                    &&& r is Ok
                    &&& free_from(numbers(old(self)@.destinations), 1) == Some(r->Ok_0.number())
                    &&& final(self)@ == (RegistryView {
                        destinations: old(self)@.destinations.push(
                            Destination {
                                id: r->Ok_0,
                                peer_identity,
                                auto_connect: true,
                                connected_session: None,
                                last_seen: now,
                            },
                        ),
                        ..old(self)@
                    })
                },
            },
    {
        let ghost before = self@;
        if let Some(index) = self.index_of_peer(&peer_identity) {
            proof {
                lemma_first_where(before.destinations, is_peer(peer_identity@));
            }
            let mut existing = copy_of(&fixed::items(&self.destinations)[index]);
            existing.last_seen = now;
            let id = existing.id;
            fixed::set(&mut self.destinations, index, existing);
            proof {
                lemma_wf_after_change(before, self@, index as int);
            }
            return Ok(id);
        }
        let id = match self.free_id() {
            Some(id) => id,
            None => {
                proof {
                    if before.destinations.len() < 8 {
                        lemma_some_free(numbers(before.destinations));
                    }
                }
                return Err(DestinationError::RegistryFull);
            },
        };
        match fixed::push(
            &mut self.destinations,
            Destination {
                id,
                peer_identity,
                auto_connect: true,
                connected_session: None,
                last_seen: now,
            },
        ) {
            Ok(_) => {
                proof {
                    lemma_free_from(numbers(before.destinations), 1);
                    lemma_first_where(before.destinations, is_peer(peer_identity@));
                    lemma_wf_after_push(before, self@);
                }
                Ok(id)
            },
            Err(_) => Err(DestinationError::RegistryFull),
        }
    }

    /// Lets a destination connect by itself, or not. One that may not is
    /// disconnected.
    pub fn set_auto_connect(&mut self, id: DestinationId, enabled: bool) -> (r: Result<
        (),
        DestinationError,
    >)
        requires
            old(self)@.wf(),
        ensures
            final(self)@.wf(),
            match old(self)@.index_of(id) {
                None => r == Err::<(), DestinationError>(DestinationError::UnknownDestination)
                    && final(self)@ == old(self)@,
                Some(i) => {
                    let changed = old(self)@.with(
                        i,
                        Destination { auto_connect: enabled, ..old(self)@.destinations[i] },
                    );
                    r is Ok && final(self)@ == if enabled {
                        changed
                    } else {
                        changed.disconnected(id)
                    }
                },
            },
    {
        let ghost before = self@;
        let index: usize = match self.index_of(id) {
            Some(index) => index,
            None => {
                return Err(DestinationError::UnknownDestination);
            },
        };
        proof {
            lemma_first_where(before.destinations, has_id(id));
        }
        let mut destination = copy_of(&fixed::items(&self.destinations)[index]);
        destination.auto_connect = enabled;
        fixed::set(&mut self.destinations, index, destination);
        proof {
            lemma_wf_after_change(before, self@, index as int);
        }
        if !enabled {
            self.disconnect(id);
        }
        Ok(())
    }

    /// Gives a destination the first free session.
    pub fn connect(&mut self, id: DestinationId, now: u64) -> (r: Result<
        SessionId,
        DestinationError,
    >)
        requires
            old(self)@.wf(),
        ensures
            final(self)@.wf(),
            match old(self)@.connect_error(id) {
                Some(error) => r == Err::<SessionId, DestinationError>(error) && final(self)@
                    == old(self)@,
                None => {
                    let i = old(self)@.index_of(id)->0;
                    &&& r is Ok
                    &&& first_where(old(self)@.sessions, is_free()) == Some(r->Ok_0.number())
                    &&& final(self)@ == (RegistryView {
                        destinations: old(self)@.destinations.update(
                            i,
                            Destination {
                                connected_session: Some(r->Ok_0),
                                last_seen: now,
                                ..old(self)@.destinations[i]
                            },
                        ),
                        sessions: old(self)@.sessions.update(r->Ok_0.number(), Some(id)),
                    })
                },
            },
    {
        let ghost before = self@;
        let index: usize = match self.index_of(id) {
            Some(index) => index,
            None => {
                return Err(DestinationError::UnknownDestination);
            },
        };
        proof {
            lemma_first_where(before.destinations, has_id(id));
        }
        let mut destination = copy_of(&fixed::items(&self.destinations)[index]);
        if !destination.auto_connect {
            return Err(DestinationError::AutoConnectDisabled);
        }
        if destination.connected() {
            return Err(DestinationError::AlreadyConnected);
        }
        let ghost free = is_free();
        let mut slot: usize = 0;
        while slot < 4 && self.sessions[slot].is_some()
            invariant
                slot <= 4,
                free == is_free(),
                forall|j: int| 0 <= j < slot ==> !free(#[trigger] self.sessions@[j]),
            decreases 4 - slot,
        {
            slot += 1;
        }
        if slot == 4 {
            proof {
                lemma_first_none(before.sessions, free);
            }
            return Err(DestinationError::SessionCapacity);
        }
        proof {
            lemma_first_at(before.sessions, free, slot as int);
        }
        let session = SessionId(slot as u8);
        self.sessions[slot] = Some(id);
        destination.connected_session = Some(session);
        destination.last_seen = now;
        fixed::set(&mut self.destinations, index, destination);
        proof {
            lemma_wf_after_session(before, self@, index as int, slot as int);
        }
        Ok(session)
    }

    /// Takes the session of a destination away. Says whether it had one.
    pub fn disconnect(&mut self, id: DestinationId) -> (r: bool)
        requires
            old(self)@.wf(),
        ensures
            final(self)@.wf(),
            r == (old(self)@.index_of(id) is Some && old(self)@.destinations[old(self)@.index_of(
                id,
            )->0].connected_session is Some),
            final(self)@ == old(self)@.disconnected(id),
    {
        let ghost before = self@;
        let index: usize = match self.index_of(id) {
            Some(index) => index,
            None => {
                return false;
            },
        };
        proof {
            lemma_first_where(before.destinations, has_id(id));
        }
        let mut destination = copy_of(&fixed::items(&self.destinations)[index]);
        let session = match destination.connected_session {
            Some(session) => session,
            None => {
                return false;
            },
        };
        assert(before.session_is_kept(before.destinations[index as int]));
        destination.connected_session = None;
        fixed::set(&mut self.destinations, index, destination);
        self.sessions[session.get() as usize] = None;
        proof {
            lemma_wf_after_session(before, self@, index as int, session.number());
        }
        true
    }

    /// Forgets a destination. The last one takes its place in the list.
    pub fn forget(&mut self, id: DestinationId) -> (r: Result<Destination, DestinationError>)
        requires
            old(self)@.wf(),
        ensures
            final(self)@.wf(),
            match old(self)@.index_of(id) {
                None => r == Err::<Destination, DestinationError>(
                    DestinationError::UnknownDestination,
                ) && final(self)@ == old(self)@,
                Some(i) => {
                    let rest = old(self)@.disconnected(id);
                    &&& r == Ok::<Destination, DestinationError>(rest.destinations[i])
                    &&& final(self)@ == (RegistryView {
                        destinations: rest.destinations.update(
                            i,
                            rest.destinations.last(),
                        ).drop_last(),
                        ..rest
                    })
                },
            },
    {
        let ghost before = self@;
        let index: usize = match self.index_of(id) {
            Some(index) => index,
            None => {
                return Err(DestinationError::UnknownDestination);
            },
        };
        self.disconnect(id);
        let ghost rest = self@;
        proof {
            lemma_first_where(before.destinations, has_id(id));
            assert(rest.destinations.len() == before.destinations.len());
            assert(rest.destinations[index as int].connected_session is None);
            assert(rest.destinations[index as int].id == id);
        }
        let r = fixed::swap_remove(&mut self.destinations, index);
        proof {
            lemma_wf_after_removal(rest, self@, index as int);
        }
        Ok(r)
    }
}

proof fn lemma_holder(v: RegistryView, i: int, s: int)
    requires
        0 <= i < v.destinations.len(),
        forall|i: int, j: int|
            0 <= i < j < v.destinations.len() ==> (#[trigger] v.destinations[i]).id != (
            #[trigger] v.destinations[j]).id,
        v.sessions[s] == Some(v.destinations[i].id),
        v.destinations[i].connected_session is Some,
        v.destinations[i].connected_session->0.number() == s,
    ensures
        v.holder(s),
{
    let id = v.destinations[i].id;
    assert forall|j: int| 0 <= j < i implies !has_id(id)(#[trigger] v.destinations[j]) by {}
    lemma_first_at(v.destinations, has_id(id), i);
}

/// A change that touches neither number, peer nor session keeps `wf`.
proof fn lemma_wf_after_change(a: RegistryView, b: RegistryView, i: int)
    requires
        a.wf(),
        0 <= i < a.destinations.len(),
        b.sessions == a.sessions,
        b.destinations == a.destinations.update(i, b.destinations[i]),
        b.destinations[i].id == a.destinations[i].id,
        b.destinations[i].peer_identity == a.destinations[i].peer_identity,
        b.destinations[i].connected_session == a.destinations[i].connected_session,
    ensures
        b.wf(),
{
    assert forall|j: int| 0 <= j < b.destinations.len() implies b.session_is_kept(
        #[trigger] b.destinations[j],
    ) by {
        assert(a.session_is_kept(a.destinations[j]));
    }
    assert forall|s: int| #![trigger b.sessions[s]]
        0 <= s < 4 && b.sessions[s] is Some implies b.holder(s) by {
        assert(a.holder(s));
        lemma_first_where(a.destinations, has_id(a.sessions[s]->0));
        lemma_holder(b, a.index_of(a.sessions[s]->0)->0, s);
    }
}

proof fn lemma_wf_after_push(a: RegistryView, b: RegistryView)
    requires
        a.wf(),
        b.sessions == a.sessions,
        a.destinations.len() < 8,
        b.destinations == a.destinations.push(b.destinations.last()),
        b.destinations.last().connected_session is None,
        !numbers(a.destinations).contains(b.destinations.last().id.number()),
        forall|i: int|
            0 <= i < a.destinations.len() ==> !is_peer(b.destinations.last().peer_identity@)(
                #[trigger] a.destinations[i],
            ),
    ensures
        b.wf(),
{
    let n = a.destinations.len() as int;
    assert forall|i: int| 0 <= i < n implies (#[trigger] a.destinations[i]).id
        != b.destinations[n].id && a.destinations[i].peer_identity@
        != b.destinations[n].peer_identity@ by {
        assert(numbers(a.destinations)[i] == a.destinations[i].id.number());
        assert(!is_peer(b.destinations.last().peer_identity@)(a.destinations[i]));
    }
    assert forall|i: int, j: int| 0 <= i < j < b.destinations.len() implies (
    #[trigger] b.destinations[i]).id != (#[trigger] b.destinations[j]).id by {
        assert(b.destinations[i] == a.destinations[i]);
    }
    assert forall|i: int, j: int| 0 <= i < j < b.destinations.len() implies (
    #[trigger] b.destinations[i]).peer_identity@ != (
    #[trigger] b.destinations[j]).peer_identity@ by {
        assert(b.destinations[i] == a.destinations[i]);
    }
    assert forall|j: int| 0 <= j < b.destinations.len() implies b.session_is_kept(
        #[trigger] b.destinations[j],
    ) by {
        if j < n {
            assert(a.session_is_kept(a.destinations[j]));
        }
    }
    assert forall|s: int| #![trigger b.sessions[s]]
        0 <= s < 4 && b.sessions[s] is Some implies b.holder(s) by {
        assert(a.holder(s));
        lemma_first_where(a.destinations, has_id(a.sessions[s]->0));
        lemma_holder(b, a.index_of(a.sessions[s]->0)->0, s);
    }
}

/// To give a free session to a destination without one, or to take it away,
/// keeps `wf`.
proof fn lemma_wf_after_session(a: RegistryView, b: RegistryView, i: int, t: int)
    requires
        a.wf(),
        0 <= i < a.destinations.len(),
        0 <= t < 4,
        b.sessions == a.sessions.update(t, b.sessions[t]),
        b.destinations == a.destinations.update(i, b.destinations[i]),
        b.destinations[i].id == a.destinations[i].id,
        b.destinations[i].peer_identity == a.destinations[i].peer_identity,
        ({
            ||| a.sessions[t] is None && a.destinations[i].connected_session is None
                && b.sessions[t] == Some(a.destinations[i].id)
                && b.destinations[i].connected_session is Some
                && b.destinations[i].connected_session->0.number() == t
            ||| b.sessions[t] is None && b.destinations[i].connected_session is None
                && a.destinations[i].connected_session is Some
                && a.destinations[i].connected_session->0.number() == t
        }),
    ensures
        b.wf(),
{
    assert forall|j: int| 0 <= j < b.destinations.len() implies b.session_is_kept(
        #[trigger] b.destinations[j],
    ) by {
        assert(a.session_is_kept(a.destinations[j]));
        assert(a.session_is_kept(a.destinations[i]));
        if j != i && a.destinations[j].connected_session is Some
            && a.destinations[j].connected_session->0.number() == t {
            assert(a.sessions[t] == Some(a.destinations[j].id));
            if i < j {
                assert(a.destinations[i].id != a.destinations[j].id);
            } else {
                assert(a.destinations[j].id != a.destinations[i].id);
            }
        }
    }
    assert forall|s: int| #![trigger b.sessions[s]]
        0 <= s < 4 && b.sessions[s] is Some implies b.holder(s) by {
        if s == t {
            lemma_holder(b, i, s);
        } else {
            assert(a.sessions[s] is Some);
            assert(a.holder(s));
            lemma_first_where(a.destinations, has_id(a.sessions[s]->0));
            let k = a.index_of(a.sessions[s]->0)->0;
            lemma_holder(b, k, s);
        }
    }
}

/// To remove a destination without a session keeps `wf`.
proof fn lemma_wf_after_removal(a: RegistryView, b: RegistryView, i: int)
    requires
        a.wf(),
        0 <= i < a.destinations.len(),
        a.destinations[i].connected_session is None,
        b.sessions == a.sessions,
        b.destinations == a.destinations.update(i, a.destinations.last()).drop_last(),
    ensures
        b.wf(),
{
    let n = a.destinations.len() - 1;
    assert forall|j: int| 0 <= j < n implies #[trigger] b.destinations[j] == a.destinations[if j
        == i {
        n
    } else {
        j
    }] by {}
    assert forall|j: int, k: int| 0 <= j < k < b.destinations.len() implies (
    #[trigger] b.destinations[j]).id != (#[trigger] b.destinations[k]).id
        && b.destinations[j].peer_identity@ != b.destinations[k].peer_identity@ by {
        let j2 = if j == i { n } else { j };
        let k2 = if k == i { n } else { k };
        if j2 < k2 {
            assert(a.destinations[j2].id != a.destinations[k2].id);
            assert(a.destinations[j2].peer_identity@ != a.destinations[k2].peer_identity@);
        } else {
            assert(a.destinations[k2].id != a.destinations[j2].id);
            assert(a.destinations[k2].peer_identity@ != a.destinations[j2].peer_identity@);
        }
    }
    assert forall|j: int| 0 <= j < b.destinations.len() implies b.session_is_kept(
        #[trigger] b.destinations[j],
    ) by {
        assert(a.session_is_kept(a.destinations[if j == i { n } else { j }]));
    }
    assert forall|s: int| #![trigger b.sessions[s]]
        0 <= s < 4 && b.sessions[s] is Some implies b.holder(s) by {
        assert(a.holder(s));
        lemma_first_where(a.destinations, has_id(a.sessions[s]->0));
        let k = a.index_of(a.sessions[s]->0)->0;
        assert(k != i);
        let k2 = if k == n { i } else { k };
        assert(b.destinations[k2] == a.destinations[k]);
        lemma_holder(b, k2, s);
    }
}

/// At most four destinations are connected, each in a session of its own.
pub proof fn law_sessions_are_not_shared(v: RegistryView, i: int, j: int)
    requires
        v.wf(),
        0 <= i < j < v.destinations.len(),
        v.destinations[i].connected_session is Some,
        v.destinations[j].connected_session is Some,
    ensures
        v.destinations[i].connected_session->0.number()
            != v.destinations[j].connected_session->0.number(),
        0 <= v.destinations[i].connected_session->0.number() < 4,
        0 <= v.destinations[j].connected_session->0.number() < 4,
{
    assert(v.session_is_kept(v.destinations[i]));
    assert(v.session_is_kept(v.destinations[j]));
    assert(v.destinations[i].id != v.destinations[j].id);
}

/// A destination that is disconnected is still remembered, with its number,
/// peer and setting.
pub proof fn law_disconnected_is_remembered(v: RegistryView, id: DestinationId, i: int)
    requires
        v.wf(),
        0 <= i < v.destinations.len(),
    ensures
        v.disconnected(id).destinations.len() == v.destinations.len(),
        v.disconnected(id).destinations[i] == (Destination {
            connected_session: if v.destinations[i].id == id {
                None
            } else {
                v.destinations[i].connected_session
            },
            ..v.destinations[i]
        }),
{
    lemma_first_where(v.destinations, has_id(id));
    if v.destinations[i].id == id {
        assert(has_id(id)(v.destinations[i]));
        let k = v.index_of(id)->0;
        if k < i {
            assert(v.destinations[k].id != v.destinations[i].id);
        }
    }
}

/// To forget a destination frees its number and leaves every other destination
/// as it was.
pub proof fn law_forgetting_leaves_the_others(v: RegistryView, i: int, j: int)
    requires
        v.wf(),
        0 <= i < v.destinations.len(),
        0 <= j < v.destinations.len(),
        i != j,
    ensures
        ({
            let after = v.destinations.update(i, v.destinations.last()).drop_last();
            &&& after.contains(v.destinations[j])
            &&& !numbers(after).contains(v.destinations[i].id.number())
        }),
{
    let after = v.destinations.update(i, v.destinations.last()).drop_last();
    let n = v.destinations.len() - 1;
    if j == n {
        assert(after[i] == v.destinations[j]);
    } else {
        assert(after[j] == v.destinations[j]);
    }
    let id = v.destinations[i].id;
    assert forall|k: int| 0 <= k < numbers(after).len() implies numbers(after)[k]
        != id.number() by {
        let from = if k == i {
            n
        } else {
            k
        };
        assert(after[k] == v.destinations[from]);
        if from < i {
            assert(v.destinations[from].id != v.destinations[i].id);
        } else {
            assert(v.destinations[i].id != v.destinations[from].id);
        }
    }
}

/// A destination connects exactly where it is known, is to be connected without
/// being asked, is not connected already, and one of the four sessions is free.
pub proof fn law_when_a_destination_connects(v: RegistryView, id: DestinationId)
    requires
        v.wf(),
    ensures
        v.connect_error(id) is None <==> (exists|i: int|
            0 <= i < v.destinations.len() && (#[trigger] v.destinations[i]).id == id
                && v.destinations[i].auto_connect && v.destinations[i].connected_session is None)
            && exists|s: int| 0 <= s < 4 && (#[trigger] v.sessions[s]) is None,
        v.connect_error(id) == Some(DestinationError::UnknownDestination) <==> forall|i: int|
            0 <= i < v.destinations.len() ==> (#[trigger] v.destinations[i]).id != id,
{
    let p = has_id(id);
    lemma_first_where(v.destinations, p);
    lemma_first_where(v.sessions, is_free());
    match v.index_of(id) {
        Some(k) => {
            assert(p(v.destinations[k]));
            assert forall|i: int| 0 <= i < v.destinations.len() && (
            #[trigger] v.destinations[i]).id == id implies i == k by {
                if i < k {
                    assert(v.destinations[i].id != v.destinations[k].id);
                } else if k < i {
                    assert(v.destinations[k].id != v.destinations[i].id);
                }
            }
        },
        None => {
            assert forall|i: int| 0 <= i < v.destinations.len() implies (
            #[trigger] v.destinations[i]).id != id by {
                assert(!p(v.destinations[i]));
            }
        },
    }
    match first_where(v.sessions, is_free()) {
        Some(s) => {
            assert(is_free()(v.sessions[s]));
        },
        None => {
            assert forall|s: int| 0 <= s < 4 implies (#[trigger] v.sessions[s]) is Some by {
                assert(!is_free()(v.sessions[s]));
            }
        },
    }
}

/// The session of a destination that is disconnected is free again, and the other
/// sessions stay with whom they were.
pub proof fn law_disconnecting_frees_the_session(v: RegistryView, id: DestinationId, i: int, s: int)
    requires
        v.wf(),
        0 <= i < v.destinations.len(),
        v.destinations[i].id == id,
        v.destinations[i].connected_session is Some,
        0 <= s < 4,
    ensures
        v.disconnected(id).sessions[s] == if s == v.destinations[i].connected_session->0.number() {
            None
        } else {
            v.sessions[s]
        },
{
    let p = has_id(id);
    lemma_first_where(v.destinations, p);
    assert(p(v.destinations[i]));
    let k = v.index_of(id)->0;
    if k < i {
        assert(v.destinations[k].id != v.destinations[i].id);
    }
    assert(v.session_is_kept(v.destinations[i]));
}

} // verus!
