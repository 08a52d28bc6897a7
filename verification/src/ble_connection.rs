//! Which connection is that of which host.

use vstd::prelude::*;

use crate::bytes::same_bytes;
use crate::ids::{is_host_slot, HostId};
use crate::lists::{
    count_some, first_where, lemma_first_at, lemma_first_none, lemma_first_where,
};
use crate::storage::{StorageState, StoredBond, StoredHostProfile};

verus! {

/// Which hosts get no input until they are activated again.
#[derive(Clone, Copy, Debug, PartialEq, Eq)]
pub struct BleInputGate<const HOSTS: usize> {
    blocked: [bool; HOSTS],
}

impl<const HOSTS: usize> View for BleInputGate<HOSTS> {
    type V = Seq<bool>;

    closed spec fn view(&self) -> Seq<bool> {
        self.blocked@
    }
}

/// Where a host stands, of `n` hosts.
pub open spec fn blocked_index(host_id: HostId, n: nat) -> Option<int> {
    if is_host_slot(host_id.0) && host_id.0 <= n {
        Some(host_id.0 - 1)
    } else {
        None
    }
}

/// With one host blocked or not.
pub open spec fn with_blocked(hosts: Seq<bool>, host_id: HostId, blocked: bool) -> Seq<bool> {
    match blocked_index(host_id, hosts.len()) {
        Some(i) => hosts.update(i, blocked),
        None => hosts,
    }
}

/// Whether input for a host is dropped.
pub open spec fn drops_input(hosts: Seq<bool>, host_id: HostId) -> bool {
    match blocked_index(host_id, hosts.len()) {
        Some(i) => hosts[i],
        None => true,
    }
}

impl<const HOSTS: usize> BleInputGate<HOSTS> {
    /// No host is blocked.
    pub fn new() -> (r: Self)
        ensures
            r@ == Seq::new(HOSTS as nat, |i: int| false),
    {
        let r = Self { blocked: [false;HOSTS] };
        assert(r@ =~= Seq::new(HOSTS as nat, |i: int| false));
        r
    }

    /// Blocks a host.
    pub fn block(&mut self, host_id: HostId)
        ensures
            final(self)@ == with_blocked(old(self)@, host_id, true),
    {
        if let Some(index) = host_index::<HOSTS>(host_id) {
            self.blocked[index] = true;
        }
    }

    /// Lets input through to a host.
    pub fn activate(&mut self, host_id: HostId)
        ensures
            final(self)@ == with_blocked(old(self)@, host_id, false),
    {
        if let Some(index) = host_index::<HOSTS>(host_id) {
            self.blocked[index] = false;
        }
    }

    /// Whether input for a host is dropped.
    pub fn should_drop_input(&self, host_id: HostId) -> (r: bool)
        ensures
            r == drops_input(self@, host_id),
    {
        match host_index::<HOSTS>(host_id) {
            Some(index) => self.blocked[index],
            None => true,
        }
    }
}

impl<const HOSTS: usize> Default for BleInputGate<HOSTS> {
    fn default() -> (r: Self)
        ensures
            r@ == Seq::new(HOSTS as nat, |i: int| false),
    {
        Self::new()
    }
}

/// To block a host and to activate it concern that host alone, and the last of
/// them decides.
pub proof fn law_blocking_concerns_one_host(
    hosts: Seq<bool>,
    host_id: HostId,
    other: HostId,
    blocked: bool,
)
    ensures
        blocked_index(host_id, hosts.len()) is Some ==> drops_input(
            with_blocked(hosts, host_id, blocked),
            host_id,
        ) == blocked,
        other != host_id ==> drops_input(with_blocked(hosts, host_id, blocked), other) == drops_input(
            hosts,
            other,
        ),
{
}

fn host_index<const HOSTS: usize>(host_id: HostId) -> (r: Option<usize>)
    ensures
        r is None <==> blocked_index(host_id, HOSTS as nat) is None,
        r is Some ==> r->0 < HOSTS && blocked_index(host_id, HOSTS as nat) == Some(r->0 as int),
{
    match host_id.validated() {
        Err(_) => None,
        Ok(slot) => {
            let index: usize = (slot.get() - 1) as usize;
            if index < HOSTS {
                Some(index)
            } else {
                None
            }
        },
    }
}

/// Why a connection was refused.
#[derive(Clone, Copy, Debug, PartialEq, Eq, Structural)]
pub enum BleConnectionSlotError {
    InvalidSlot,
    InvalidHost,
    NoFreeSlot,
    DuplicateHost,
    DuplicatePeer,
}

/// Who a peer is.
#[derive(Clone, Copy, Debug, PartialEq, Eq)]
pub struct BlePeerIdentity {
    pub peer_address: [u8; 6],
    pub peer_irk: Option<[u8; 16]>,
}

/// Whether an address and a resolving key are those of one peer: the keys are
/// the same, or else the addresses are.
pub open spec fn same_peer(
    address: [u8; 6],
    irk: Option<[u8; 16]>,
    other_address: [u8; 6],
    other_irk: Option<[u8; 16]>,
) -> bool {
    (irk is Some && other_irk is Some && irk->0@ == other_irk->0@) || address@ == other_address@
}

fn is_same_peer(
    address: &[u8; 6],
    irk: &Option<[u8; 16]>,
    other_address: &[u8; 6],
    other_irk: &Option<[u8; 16]>,
) -> (r: bool)
    ensures
        r == same_peer(*address, *irk, *other_address, *other_irk),
{
    let by_key = match (irk, other_irk) {
        (Some(irk), Some(other_irk)) => same_bytes(irk.as_slice(), other_irk.as_slice()),
        _ => false,
    };
    by_key || same_bytes(address.as_slice(), other_address.as_slice())
}

impl BlePeerIdentity {
    /// Whether a bond is with this peer.
    pub open spec fn has_bond(self, bond: StoredBond) -> bool {
        same_peer(self.peer_address, self.peer_irk, bond.peer_address, bond.peer_irk)
    }

    /// Whether it is the same peer.
    pub open spec fn is(self, other: BlePeerIdentity) -> bool {
        same_peer(self.peer_address, self.peer_irk, other.peer_address, other.peer_irk)
    }

    /// Whether a bond is with this peer.
    pub fn matches_bond(self, bond: StoredBond) -> (r: bool)
        ensures
            r == self.has_bond(bond),
    {
        is_same_peer(&self.peer_address, &self.peer_irk, &bond.peer_address, &bond.peer_irk)
    }

    /// Whether it is the same peer.
    pub fn matches_peer(self, other: Self) -> (r: bool)
        ensures
            r == self.is(other),
    {
        is_same_peer(&self.peer_address, &self.peer_irk, &other.peer_address, &other.peer_irk)
    }
}

/// A peer with a resolving key is known by it, whatever its address.
pub proof fn law_known_by_key(a: BlePeerIdentity, b: BlePeerIdentity)
    requires
        a.peer_irk is Some,
        b.peer_irk is Some,
        a.peer_irk->0@ == b.peer_irk->0@,
    ensures
        a.is(b),
{
}

/// A connection.
#[derive(Clone, Copy, Debug, PartialEq, Eq)]
pub struct BleConnectionEntry {
    pub host_id: HostId,
    pub peer_identity: BlePeerIdentity,
}

/// The connections, each in a slot.
#[derive(Clone, Debug, PartialEq, Eq)]
pub struct BleConnectionSlots<const SLOTS: usize> {
    entries: [Option<BleConnectionEntry>; SLOTS],
}

impl<const SLOTS: usize> View for BleConnectionSlots<SLOTS> {
    type V = Seq<Option<BleConnectionEntry>>;

    closed spec fn view(&self) -> Seq<Option<BleConnectionEntry>> {
        self.entries@
    }
}

/// Whether a slot stands in the way of a connection.
pub open spec fn in_the_way(
    host_id: HostId,
    peer: BlePeerIdentity,
) -> spec_fn(Option<BleConnectionEntry>) -> bool {
    |entry: Option<BleConnectionEntry>|
        entry is Some && (entry->0.host_id == host_id || entry->0.peer_identity.is(peer))
}

/// Whether a slot is free.
pub open spec fn slot_free() -> spec_fn(Option<BleConnectionEntry>) -> bool {
    |entry: Option<BleConnectionEntry>| entry is None
}

/// Whether a slot is that of a host.
pub open spec fn slot_of(host_id: HostId) -> spec_fn(Option<BleConnectionEntry>) -> bool {
    |entry: Option<BleConnectionEntry>| entry is Some && entry->0.host_id == host_id
}

/// Why a connection is refused beside others, where it is. The first slot in
/// the way decides.
pub open spec fn conflict(
    entries: Seq<Option<BleConnectionEntry>>,
    host_id: HostId,
    peer: BlePeerIdentity,
) -> Option<BleConnectionSlotError> {
    match first_where(entries, in_the_way(host_id, peer)) {
        Some(i) => if entries[i]->0.host_id == host_id {
            Some(BleConnectionSlotError::DuplicateHost)
        } else {
            Some(BleConnectionSlotError::DuplicatePeer)
        },
        None => None,
    }
}

/// Why a host is not connected in a free slot, where it is not.
pub open spec fn connect_error(
    entries: Seq<Option<BleConnectionEntry>>,
    host_id: HostId,
    peer: BlePeerIdentity,
) -> Option<BleConnectionSlotError> {
    if !is_host_slot(host_id.0) {
        Some(BleConnectionSlotError::InvalidHost)
    } else if conflict(entries, host_id, peer) is Some {
        conflict(entries, host_id, peer)
    } else if first_where(entries, slot_free()) is None {
        Some(BleConnectionSlotError::NoFreeSlot)
    } else {
        None
    }
}

/// Why a host is not connected in a given slot, where it is not.
pub open spec fn set_error(
    entries: Seq<Option<BleConnectionEntry>>,
    slot: usize,
    host_id: HostId,
    peer: BlePeerIdentity,
) -> Option<BleConnectionSlotError> {
    if slot >= entries.len() {
        Some(BleConnectionSlotError::InvalidSlot)
    } else if !is_host_slot(host_id.0) {
        Some(BleConnectionSlotError::InvalidHost)
    } else {
        conflict(entries.update(slot as int, None), host_id, peer)
    }
}

/// Whether no two connections are with the same host or the same peer.
pub open spec fn all_distinct(entries: Seq<Option<BleConnectionEntry>>) -> bool {
    forall|i: int, j: int|
        0 <= i < entries.len() && 0 <= j < entries.len() && i != j && entries[i] is Some
            && entries[j] is Some ==> (#[trigger] entries[i])->0.host_id != (
        #[trigger] entries[j])->0.host_id && !entries[i]->0.peer_identity.is(
            entries[j]->0.peer_identity,
        )
}

/// A connection that nothing stands in the way of leaves all connections with
/// different hosts and different peers.
pub proof fn law_connections_are_distinct(
    entries: Seq<Option<BleConnectionEntry>>,
    slot: int,
    entry: BleConnectionEntry,
)
    requires
        all_distinct(entries),
        0 <= slot < entries.len(),
        conflict(entries.update(slot, None), entry.host_id, entry.peer_identity) is None,
    ensures
        all_distinct(entries.update(slot, Some(entry))),
{
    let others = entries.update(slot, None);
    lemma_first_where(others, in_the_way(entry.host_id, entry.peer_identity));
    let after = entries.update(slot, Some(entry));
    assert forall|i: int, j: int|
        0 <= i < after.len() && 0 <= j < after.len() && i != j && after[i] is Some
            && after[j] is Some implies (#[trigger] after[i])->0.host_id != (
    #[trigger] after[j])->0.host_id && !after[i]->0.peer_identity.is(
        after[j]->0.peer_identity,
    ) by {
        if i == slot {
            assert(!in_the_way(entry.host_id, entry.peer_identity)(others[j]));
            lemma_same_peer(entry.peer_identity, after[j]->0.peer_identity);
        } else if j == slot {
            assert(!in_the_way(entry.host_id, entry.peer_identity)(others[i]));
        } else {
            assert(entries[i]->0.host_id != entries[j]->0.host_id);
        }
    }
}

proof fn lemma_freed_is_distinct(entries: Seq<Option<BleConnectionEntry>>, slot: int)
    requires
        all_distinct(entries),
        0 <= slot < entries.len(),
    ensures
        all_distinct(entries.update(slot, None)),
{
    let after = entries.update(slot, None);
    assert forall|i: int, j: int|
        0 <= i < after.len() && 0 <= j < after.len() && i != j && after[i] is Some
            && after[j] is Some implies (#[trigger] after[i])->0.host_id != (
    #[trigger] after[j])->0.host_id && !after[i]->0.peer_identity.is(
        after[j]->0.peer_identity,
    ) by {
        assert(entries[i]->0.host_id != entries[j]->0.host_id);
    }
}

proof fn lemma_same_peer(a: BlePeerIdentity, b: BlePeerIdentity)
    ensures
        a.is(b) == b.is(a),
{
}

impl<const SLOTS: usize> BleConnectionSlots<SLOTS> {
    /// No connection.
    pub fn new() -> (r: Self)
        ensures
            all_distinct(r@),
            r@ == Seq::new(SLOTS as nat, |i: int| None::<BleConnectionEntry>),
    {
        let r = Self { entries: [None;SLOTS] };
        assert(r@ =~= Seq::new(SLOTS as nat, |i: int| None::<BleConnectionEntry>));
        r
    }

    /// These connections.
    pub fn with_entries(entries: [Option<BleConnectionEntry>; SLOTS]) -> (r: Self)
        ensures
            r@ == entries@,
    {
        Self { entries }
    }

    /// Connects a host in the first free slot.
    pub fn connect_first_free(&mut self, host_id: HostId, peer_identity: BlePeerIdentity) -> (r:
        Result<BleConnectionSlot, BleConnectionSlotError>)
        ensures
            all_distinct(old(self)@) ==> all_distinct(final(self)@),
            match connect_error(old(self)@, host_id, peer_identity) {
                Some(error) => r == Err::<BleConnectionSlot, BleConnectionSlotError>(error)
                    && final(self)@ == old(self)@,
                None => {
                    let slot = first_where(old(self)@, slot_free())->0;
                    &&& r is Ok
                    &&& r->Ok_0.number() == slot
                    &&& r->Ok_0.host() == host_id
                    &&& final(self)@ == old(self)@.update(
                        slot,
                        Some(BleConnectionEntry { host_id, peer_identity }),
                    )
                },
            },
    {
        if host_id.validated().is_err() {
            return Err(BleConnectionSlotError::InvalidHost);
        }
        match self.ensure_unique(host_id, peer_identity, None) {
            Err(error) => {
                return Err(error);
            },
            Ok(_) => {},
        }
        let ghost entries = self@;
        let ghost free = slot_free();
        let mut slot: usize = 0;
        while slot < SLOTS
            invariant
                slot <= SLOTS,
                entries == self@,
                entries == old(self)@,
                connect_error(entries, host_id, peer_identity) is None
                    || first_where(entries, slot_free()) is None && connect_error(
                    entries,
                    host_id,
                    peer_identity,
                ) == Some(BleConnectionSlotError::NoFreeSlot),
                free == slot_free(),
                forall|j: int| 0 <= j < slot ==> !free(#[trigger] entries[j]),
            decreases SLOTS - slot,
        {
            if self.entries[slot].is_none() {
                proof {
                    lemma_first_at(entries, free, slot as int);
                    if all_distinct(entries) {
                        assert(entries.update(slot as int, None) =~= entries);
                        law_connections_are_distinct(
                            entries,
                            slot as int,
                            BleConnectionEntry { host_id, peer_identity },
                        );
                    }
                }
                self.entries[slot] = Some(BleConnectionEntry { host_id, peer_identity });
                return Ok(BleConnectionSlot::new(slot, host_id));
            }
            slot += 1;
        }
        proof {
            lemma_first_none(entries, free);
        }
        Err(BleConnectionSlotError::NoFreeSlot)
    }

    /// Connects a host in a given slot, in place of whatever was there.
    pub fn set_connected(
        &mut self,
        slot: usize,
        host_id: HostId,
        peer_identity: BlePeerIdentity,
    ) -> (r: Result<BleConnectionSlot, BleConnectionSlotError>)
        ensures
            all_distinct(old(self)@) ==> all_distinct(final(self)@),
            match set_error(old(self)@, slot, host_id, peer_identity) {
                Some(error) => r == Err::<BleConnectionSlot, BleConnectionSlotError>(error)
                    && final(self)@ == old(self)@,
                None => {
                    &&& r is Ok
                    &&& r->Ok_0.number() == slot
                    &&& r->Ok_0.host() == host_id
                    &&& final(self)@ == old(self)@.update(
                        slot as int,
                        Some(BleConnectionEntry { host_id, peer_identity }),
                    )
                },
            },
    {
        match self.slot(slot) {
            Err(error) => {
                return Err(error);
            },
            Ok(_) => {},
        }
        if host_id.validated().is_err() {
            return Err(BleConnectionSlotError::InvalidHost);
        }
        match self.ensure_unique(host_id, peer_identity, Some(slot)) {
            Err(error) => {
                return Err(error);
            },
            Ok(_) => {},
        }
        proof {
            if all_distinct(self@) {
                law_connections_are_distinct(
                    self@,
                    slot as int,
                    BleConnectionEntry { host_id, peer_identity },
                );
            }
        }
        self.entries[slot] = Some(BleConnectionEntry { host_id, peer_identity });
        Ok(BleConnectionSlot::new(slot, host_id))
    }

    fn ensure_unique(
        &self,
        host_id: HostId,
        peer_identity: BlePeerIdentity,
        replacing_slot: Option<usize>,
    ) -> (r: Result<(), BleConnectionSlotError>)
        requires
            replacing_slot is Some ==> replacing_slot->0 < SLOTS,
        ensures
            ({
                let others = match replacing_slot {
                    Some(slot) => self@.update(slot as int, None),
                    None => self@,
                };
                match conflict(others, host_id, peer_identity) {
                    Some(error) => r == Err::<(), BleConnectionSlotError>(error),
                    None => r is Ok,
                }
            }),
    {
        let ghost others = match replacing_slot {
            Some(slot) => self@.update(slot as int, None),
            None => self@,
        };
        let ghost p = in_the_way(host_id, peer_identity);
        let mut slot: usize = 0;
        while slot < SLOTS
            invariant
                slot <= SLOTS,
                others == match replacing_slot {
                    Some(slot) => self@.update(slot as int, None),
                    None => self@,
                },
                others.len() == SLOTS,
                replacing_slot is Some ==> replacing_slot->0 < SLOTS,
                p == in_the_way(host_id, peer_identity),
                forall|j: int| 0 <= j < slot ==> !p(#[trigger] others[j]),
            decreases SLOTS - slot,
        {
            let replaced = match replacing_slot {
                Some(replacing) => replacing == slot,
                None => false,
            };
            if !replaced {
                if let Some(entry) = self.entries[slot] {
                    assert(others[slot as int] == Some(entry));
                    if entry.host_id == host_id {
                        proof {
                            lemma_first_at(others, p, slot as int);
                        }
                        return Err(BleConnectionSlotError::DuplicateHost);
                    }
                    if entry.peer_identity.matches_peer(peer_identity) {
                        proof {
                            lemma_first_at(others, p, slot as int);
                        }
                        return Err(BleConnectionSlotError::DuplicatePeer);
                    }
                }
            }
            slot += 1;
        }
        proof {
            lemma_first_none(others, p);
        }
        Ok(())
    }

    /// Frees a slot, and says who was connected there.
    pub fn set_disconnected(&mut self, slot: usize) -> (r: Result<
        Option<BleConnectionSlot>,
        BleConnectionSlotError,
    >)
        ensures
            all_distinct(old(self)@) ==> all_distinct(final(self)@),
            slot >= old(self)@.len() ==> r == Err::<
                Option<BleConnectionSlot>,
                BleConnectionSlotError,
            >(BleConnectionSlotError::InvalidSlot) && final(self)@ == old(self)@,
            slot < old(self)@.len() ==> {
                &&& r is Ok
                &&& final(self)@ == old(self)@.update(slot as int, None)
                &&& r->Ok_0 is Some <==> old(self)@[slot as int] is Some
                &&& r->Ok_0 is Some ==> r->Ok_0->0.number() == slot && r->Ok_0->0.host()
                    == old(self)@[slot as int]->0.host_id
            },
    {
        match self.slot(slot) {
            Err(error) => {
                return Err(error);
            },
            Ok(_) => {},
        }
        let ghost before = self@;
        let entry = self.entries[slot];
        self.entries[slot] = None;
        proof {
            if all_distinct(before) {
                lemma_freed_is_distinct(before, slot as int);
            }
        }
        match entry {
            Some(entry) => Ok(Some(BleConnectionSlot::new(slot, entry.host_id))),
            None => Ok(None),
        }
    }

    /// The slot of a host.
    pub fn dispatch_slot_for_host(&self, host_id: HostId) -> (r: Option<BleConnectionSlot>)
        ensures
            match first_where(self@, slot_of(host_id)) {
                Some(slot) => r is Some && r->0.number() == slot && r->0.host() == host_id,
                None => r is None,
            },
    {
        let ghost p = slot_of(host_id);
        let mut slot: usize = 0;
        while slot < SLOTS
            invariant
                slot <= SLOTS,
                p == slot_of(host_id),
                forall|j: int| 0 <= j < slot ==> !p(#[trigger] self@[j]),
            decreases SLOTS - slot,
        {
            if let Some(entry) = self.entries[slot] {
                if entry.host_id == host_id {
                    proof {
                        lemma_first_at(self@, p, slot as int);
                    }
                    return Some(BleConnectionSlot::new(slot, entry.host_id));
                }
            }
            slot += 1;
        }
        proof {
            lemma_first_none(self@, p);
        }
        None
    }

    /// The host in a slot.
    pub fn host_for_slot(&self, slot: usize) -> (r: Option<HostId>)
        ensures
            r == if slot < self@.len() && self@[slot as int] is Some {
                Some(self@[slot as int]->0.host_id)
            } else {
                None
            },
    {
        match self.entry_for_slot(slot) {
            Some(entry) => Some(entry.host_id),
            None => None,
        }
    }

    /// The connection in a slot.
    pub fn entry_for_slot(&self, slot: usize) -> (r: Option<BleConnectionEntry>)
        ensures
            r == if slot < self@.len() {
                self@[slot as int]
            } else {
                None
            },
    {
        if slot < SLOTS {
            self.entries[slot]
        } else {
            None
        }
    }

    /// Whether there is a free slot.
    pub fn should_advertise(&self) -> (r: bool)
        ensures
            r == (first_where(self@, slot_free()) is Some),
    {
        let ghost p = slot_free();
        let mut slot: usize = 0;
        while slot < SLOTS
            invariant
                slot <= SLOTS,
                p == slot_free(),
                forall|j: int| 0 <= j < slot ==> !p(#[trigger] self@[j]),
            decreases SLOTS - slot,
        {
            if self.entries[slot].is_none() {
                proof {
                    lemma_first_at(self@, p, slot as int);
                }
                return true;
            }
            slot += 1;
        }
        proof {
            lemma_first_none(self@, p);
        }
        false
    }

    /// Whether someone is connected in a slot.
    pub fn is_connected(&self, slot: usize) -> (r: bool)
        ensures
            r == (slot < self@.len() && self@[slot as int] is Some),
    {
        slot < SLOTS && self.entries[slot].is_some()
    }

    /// How many connections there are.
    pub fn connected_count(&self) -> (r: usize)
        ensures
            r == count_some(self@),
    {
        let ghost entries = self@;
        let mut count: usize = 0;
        let mut slot: usize = 0;
        assert(entries.take(0) =~= Seq::<Option<BleConnectionEntry>>::empty());
        while slot < SLOTS
            invariant
                slot <= SLOTS,
                entries == self@,
                entries.len() == SLOTS,
                count == count_some(entries.take(slot as int)),
                count <= slot,
            decreases SLOTS - slot,
        {
            assert(entries.take(slot + 1).drop_last() =~= entries.take(slot as int));
            if self.entries[slot].is_some() {
                count += 1;
            }
            slot += 1;
        }
        assert(entries.take(slot as int) =~= entries);
        count
    }

    fn slot(&self, slot: usize) -> (r: Result<(), BleConnectionSlotError>)
        ensures
            slot < SLOTS ==> r is Ok,
            slot >= SLOTS ==> r == Err::<(), BleConnectionSlotError>(
                BleConnectionSlotError::InvalidSlot,
            ),
            self@.len() == SLOTS,
    {
        if slot < SLOTS {
            Ok(())
        } else {
            Err(BleConnectionSlotError::InvalidSlot)
        }
    }
}

impl<const SLOTS: usize> Default for BleConnectionSlots<SLOTS> {
    fn default() -> (r: Self)
        ensures
            r@ == Seq::new(SLOTS as nat, |i: int| None::<BleConnectionEntry>),
    {
        Self::new()
    }
}

/// A host and its slot.
#[derive(Clone, Copy, Debug, PartialEq, Eq, Structural)]
pub struct BleConnectionSlot {
    pub(crate) index: usize,
    pub(crate) host_id: HostId,
}

impl BleConnectionSlot {
    /// The slot.
    pub open(crate) spec fn number(self) -> int {
        self.index as int
    }

    /// The host.
    pub open(crate) spec fn host(self) -> HostId {
        self.host_id
    }

    /// A host in a slot.
    pub fn new(index: usize, host_id: HostId) -> (r: Self)
        ensures
            r.number() == index,
            r.host() == host_id,
    {
        Self { index, host_id }
    }

    /// The slot.
    pub fn index(self) -> (r: usize)
        ensures
            r == self.number(),
    {
        self.index
    }

    /// The host.
    pub fn host_id(self) -> (r: HostId)
        ensures
            r == self.host(),
    {
        self.host_id
    }
}

/// Whether what was kept of a host has a bond with a peer.
pub open spec fn bonded_with(peer: BlePeerIdentity) -> spec_fn(StoredHostProfile) -> bool {
    |host: StoredHostProfile| host.bond is Some && peer.has_bond(host.bond->0)
}

/// The host that a peer is: the first that has a bond with it, or else the one
/// that may pair.
pub open spec fn host_of_peer(
    hosts: Seq<StoredHostProfile>,
    peer: BlePeerIdentity,
    pairing_host: Option<HostId>,
) -> Option<HostId> {
    match first_where(hosts, bonded_with(peer)) {
        Some(i) => Some(hosts[i].host_id),
        None => pairing_host,
    }
}

/// The host that a peer is.
pub fn resolve_host_id(
    storage: Option<&StorageState>,
    peer_identity: BlePeerIdentity,
    pairing_host: Option<HostId>,
) -> (r: Option<HostId>)
    ensures
        r == host_of_peer(
            match storage {
                Some(storage) => storage@.hosts,
                None => seq![],
            },
            peer_identity,
            pairing_host,
        ),
{
    if let Some(kept) = storage {
        let hosts = kept.hosts();
        let ghost p = bonded_with(peer_identity);
        let mut i: usize = 0;
        while i < hosts.len()
            invariant
                i <= hosts@.len(),
                hosts@ == kept@.hosts,
                storage == Some(kept),
                p == bonded_with(peer_identity),
                forall|j: int| 0 <= j < i ==> !p(#[trigger] hosts@[j]),
            decreases hosts@.len() - i,
        {
            if let Some(bond) = hosts[i].bond {
                if peer_identity.matches_bond(bond) {
                    proof {
                        lemma_first_at(hosts@, p, i as int);
                    }
                    return Some(hosts[i].host_id);
                }
            }
            i += 1;
        }
        proof {
            lemma_first_none(hosts@, p);
        }
    }
    pairing_host
}

/// A peer that no bond is with is no host, unless one may pair.
pub proof fn law_unknown_peer_is_no_host(
    hosts: Seq<StoredHostProfile>,
    peer: BlePeerIdentity,
    pairing_host: Option<HostId>,
)
    requires
        forall|i: int| 0 <= i < hosts.len() ==> !bonded_with(peer)(#[trigger] hosts[i]),
    ensures
        host_of_peer(hosts, peer, pairing_host) == pairing_host,
{
    lemma_first_none(hosts, bonded_with(peer));
}

/// Two peers are the same exactly where they have the same resolving key or the
/// same address.
pub proof fn law_who_is_the_same_peer(a: BlePeerIdentity, b: BlePeerIdentity, bond: StoredBond)
    ensures
        a.is(b) <==> (a.peer_irk is Some && b.peer_irk is Some && a.peer_irk->0@ == b.peer_irk->0@)
            || a.peer_address@ == b.peer_address@,
        a.is(b) <==> b.is(a),
        a.has_bond(bond) <==> (a.peer_irk is Some && bond.peer_irk is Some && a.peer_irk->0@
            == bond.peer_irk->0@) || a.peer_address@ == bond.peer_address@,
{
}

/// A host is connected in a free slot exactly where its number is that of a slot,
/// one to four, no connection is with the same host or the same peer, and a slot is
/// free.
pub proof fn law_when_a_host_connects(
    entries: Seq<Option<BleConnectionEntry>>,
    host_id: HostId,
    peer: BlePeerIdentity,
)
    ensures
        connect_error(entries, host_id, peer) is None <==> {
            &&& 1 <= host_id.0 <= 4
            &&& forall|i: int|
                0 <= i < entries.len() && (#[trigger] entries[i]) is Some
                    ==> entries[i]->0.host_id != host_id && !entries[i]->0.peer_identity.is(peer)
            &&& exists|i: int| 0 <= i < entries.len() && (#[trigger] entries[i]) is None
        },
{
    let p = in_the_way(host_id, peer);
    lemma_first_where(entries, p);
    lemma_first_where(entries, slot_free());
    match first_where(entries, p) {
        Some(i) => {
            assert(p(entries[i]));
        },
        None => {
            assert forall|i: int| 0 <= i < entries.len() && (
            #[trigger] entries[i]) is Some implies entries[i]->0.host_id != host_id
                && !entries[i]->0.peer_identity.is(peer) by {
                assert(!p(entries[i]));
            }
        },
    }
    match first_where(entries, slot_free()) {
        Some(i) => {
            assert(slot_free()(entries[i]));
        },
        None => {
            assert forall|i: int| 0 <= i < entries.len() implies (#[trigger] entries[i]) is Some by {
                assert(!slot_free()(entries[i]));
            }
        },
    }
}

/// A peer is the host that has a bond with it, whatever host may pair, and where
/// several have one the first of them.
pub proof fn law_known_peer_is_its_host(
    hosts: Seq<StoredHostProfile>,
    peer: BlePeerIdentity,
    pairing_host: Option<HostId>,
    i: int,
)
    requires
        0 <= i < hosts.len(),
        hosts[i].bond is Some,
        peer.has_bond(hosts[i].bond->0),
        forall|j: int|
            0 <= j < i && (#[trigger] hosts[j]).bond is Some ==> !peer.has_bond(hosts[j].bond->0),
    ensures
        host_of_peer(hosts, peer, pairing_host) == Some(hosts[i].host_id),
{
    lemma_first_at(hosts, bonded_with(peer), i);
}

} // verus!
