//! Which domains changed, and how often.

use vstd::prelude::*;

verus! {

/// A set of domains.
#[derive(Clone, Copy, Debug, PartialEq, Eq, Structural)]
pub struct ChangeSet(pub(crate) u16);

impl ChangeSet {
    /// The set of the summary domain alone.
    pub fn summary() -> (r: Self)
        ensures
            r == ChangeSet::of_mask(1),
    {
        Self(1)
    }

    /// The set of the sessions domain alone.
    pub fn sessions() -> (r: Self)
        ensures
            r == ChangeSet::of_mask(2),
    {
        Self(2)
    }

    /// The set of the destinations domain alone.
    pub fn destinations() -> (r: Self)
        ensures
            r == ChangeSet::of_mask(4),
    {
        Self(4)
    }

    /// The set of the inputs domain alone.
    pub fn inputs() -> (r: Self)
        ensures
            r == ChangeSet::of_mask(8),
    {
        Self(8)
    }

    /// The set of the system domain alone.
    pub fn system() -> (r: Self)
        ensures
            r == ChangeSet::of_mask(16),
    {
        Self(16)
    }

    /// The set of the wired domain alone.
    pub fn wired() -> (r: Self)
        ensures
            r == ChangeSet::of_mask(32),
    {
        Self(32)
    }

    /// The set of the support domain alone.
    pub fn support() -> (r: Self)
        ensures
            r == ChangeSet::of_mask(64),
    {
        Self(64)
    }

    /// The set of all domains.
    pub fn all() -> (r: Self)
        ensures
            r == ChangeSet::of_mask(0x7f),
    {
        Self(0x7f)
    }

    /// The set of no domain.
    pub fn empty() -> (r: Self)
        ensures
            r == ChangeSet::of_mask(0),
    {
        Self(0)
    }

    /// One bit for each domain in the set.
    pub open(crate) spec fn mask(self) -> u16 {
        self.0
    }

    /// The set with these bits.
    pub open(crate) spec fn of_mask(bits: u16) -> ChangeSet {
        ChangeSet(bits)
    }

    /// The set of a mask has that mask.
    pub broadcast proof fn lemma_of_mask(bits: u16)
        ensures
            (#[trigger] ChangeSet::of_mask(bits)).mask() == bits,
    {
    }

    /// The mask.
    pub fn bits(self) -> (r: u16)
        ensures
            r == self.mask(),
    {
        self.0
    }

    /// Whether all domains of `other` are in the set.
    pub fn contains(&self, other: Self) -> (r: bool)
        ensures
            r == (self.mask() & other.mask() == other.mask()),
    {
        self.0 & other.0 == other.0
    }
}

impl core::ops::BitOr for ChangeSet {
    type Output = ChangeSet;

    fn bitor(self, rhs: Self) -> (r: Self) {
        Self(self.0 | rhs.0)
    }
}

impl vstd::std_specs::ops::BitOrSpecImpl for ChangeSet {
    open spec fn obeys_bitor_spec() -> bool {
        true
    }

    open spec fn bitor_req(self, rhs: Self) -> bool {
        true
    }

    open spec fn bitor_spec(self, rhs: Self) -> Self {
        ChangeSet::of_mask(self.mask() | rhs.mask())
    }
}

/// How often a domain changed, as far as 32 bits count.
#[derive(Clone, Copy, Debug, PartialEq, Eq, Structural)]
pub struct DomainRevision(pub u32);

impl Default for DomainRevision {
    fn default() -> (r: Self)
        ensures
            r.0 == 0,
    {
        Self(0)
    }
}

impl DomainRevision {
    /// The revision after `changes`, for the domain with this bit.
    pub open spec fn after(self, changes: ChangeSet, bit: u16) -> DomainRevision {
        if changes.mask() & bit == bit {
            DomainRevision(self.0.wrapping_add(1))
        } else {
            self
        }
    }

    fn advance(&mut self)
        ensures
            final(self).0 == old(self).0.wrapping_add(1),
    {
        self.0 = self.0.wrapping_add(1);
    }
}

/// A revision for each domain.
#[derive(Clone, Copy, Debug, PartialEq, Eq, Structural)]
pub struct Revisions {
    pub summary: DomainRevision,
    pub sessions: DomainRevision,
    pub destinations: DomainRevision,
    pub inputs: DomainRevision,
    pub system: DomainRevision,
    pub wired: DomainRevision,
    pub support: DomainRevision,
}

impl Default for Revisions {
    fn default() -> (r: Self)
        ensures
            r == Revisions::initial(),
    {
        Self {
            summary: DomainRevision(0),
            sessions: DomainRevision(0),
            destinations: DomainRevision(0),
            inputs: DomainRevision(0),
            system: DomainRevision(0),
            wired: DomainRevision(0),
            support: DomainRevision(0),
        }
    }
}

impl Revisions {
    /// Nothing changed yet.
    pub open spec fn initial() -> Revisions {
        Revisions {
            summary: DomainRevision(0),
            sessions: DomainRevision(0),
            destinations: DomainRevision(0),
            inputs: DomainRevision(0),
            system: DomainRevision(0),
            wired: DomainRevision(0),
            support: DomainRevision(0),
        }
    }

    /// The revisions after `changes`: those of the changed domains move on by
    /// one, and no others.
    pub open spec fn after(self, changes: ChangeSet) -> Revisions {
        Revisions {
            summary: self.summary.after(changes, 1),
            sessions: self.sessions.after(changes, 2),
            destinations: self.destinations.after(changes, 4),
            inputs: self.inputs.after(changes, 8),
            system: self.system.after(changes, 16),
            wired: self.wired.after(changes, 32),
            support: self.support.after(changes, 64),
        }
    }

    /// Moves the revisions of the changed domains on.
    pub fn changed(&mut self, changes: ChangeSet)
        ensures
            *final(self) == old(self).after(changes),
    {
        if changes.contains(ChangeSet::summary()) {
            self.summary.advance();
        }
        if changes.contains(ChangeSet::sessions()) {
            self.sessions.advance();
        }
        if changes.contains(ChangeSet::destinations()) {
            self.destinations.advance();
        }
        if changes.contains(ChangeSet::inputs()) {
            self.inputs.advance();
        }
        if changes.contains(ChangeSet::system()) {
            self.system.advance();
        }
        if changes.contains(ChangeSet::wired()) {
            self.wired.advance();
        }
        if changes.contains(ChangeSet::support()) {
            self.support.advance();
        }
    }
}

/// A change of one domain moves the revision of that domain on by one and leaves
/// the others, a change of none moves nothing, and a change of all moves each.
pub proof fn law_the_changed_domain_moves(r: Revisions)
    ensures
        r.after(ChangeSet::of_mask(0)) == r,
        r.after(ChangeSet::of_mask(1)) == (Revisions {
            summary: DomainRevision(r.summary.0.wrapping_add(1)),
            ..r
        }),
        r.after(ChangeSet::of_mask(2)) == (Revisions {
            sessions: DomainRevision(r.sessions.0.wrapping_add(1)),
            ..r
        }),
        r.after(ChangeSet::of_mask(4)) == (Revisions {
            destinations: DomainRevision(r.destinations.0.wrapping_add(1)),
            ..r
        }),
        r.after(ChangeSet::of_mask(8)) == (Revisions {
            inputs: DomainRevision(r.inputs.0.wrapping_add(1)),
            ..r
        }),
        r.after(ChangeSet::of_mask(16)) == (Revisions {
            system: DomainRevision(r.system.0.wrapping_add(1)),
            ..r
        }),
        r.after(ChangeSet::of_mask(32)) == (Revisions {
            wired: DomainRevision(r.wired.0.wrapping_add(1)),
            ..r
        }),
        r.after(ChangeSet::of_mask(64)) == (Revisions {
            support: DomainRevision(r.support.0.wrapping_add(1)),
            ..r
        }),
        r.after(ChangeSet::of_mask(0x7f)) == (Revisions {
            summary: DomainRevision(r.summary.0.wrapping_add(1)),
            sessions: DomainRevision(r.sessions.0.wrapping_add(1)),
            destinations: DomainRevision(r.destinations.0.wrapping_add(1)),
            inputs: DomainRevision(r.inputs.0.wrapping_add(1)),
            system: DomainRevision(r.system.0.wrapping_add(1)),
            wired: DomainRevision(r.wired.0.wrapping_add(1)),
            support: DomainRevision(r.support.0.wrapping_add(1)),
        }),
{
    assert forall|changes: u16|
        #![trigger changes & 1]
        changes == 0 || changes == 1 || changes == 2 || changes == 4 || changes == 8 || changes
            == 16 || changes == 32 || changes == 64 || changes == 0x7f implies {
        &&& changes & 1 == 1 <==> changes == 1 || changes == 0x7f
        &&& changes & 2 == 2 <==> changes == 2 || changes == 0x7f
        &&& changes & 4 == 4 <==> changes == 4 || changes == 0x7f
        &&& changes & 8 == 8 <==> changes == 8 || changes == 0x7f
        &&& changes & 16 == 16 <==> changes == 16 || changes == 0x7f
        &&& changes & 32 == 32 <==> changes == 32 || changes == 0x7f
        &&& changes & 64 == 64 <==> changes == 64 || changes == 0x7f
    } by {
        lemma_bits_of_one(changes);
    }
}

proof fn lemma_bits_of_one(changes: u16)
    requires
        changes == 0 || changes == 1 || changes == 2 || changes == 4 || changes == 8 || changes
            == 16 || changes == 32 || changes == 64 || changes == 0x7f,
    ensures
        changes & 1 == 1 <==> changes == 1 || changes == 0x7f,
        changes & 2 == 2 <==> changes == 2 || changes == 0x7f,
        changes & 4 == 4 <==> changes == 4 || changes == 0x7f,
        changes & 8 == 8 <==> changes == 8 || changes == 0x7f,
        changes & 16 == 16 <==> changes == 16 || changes == 0x7f,
        changes & 32 == 32 <==> changes == 32 || changes == 0x7f,
        changes & 64 == 64 <==> changes == 64 || changes == 0x7f,
{
    assert((changes == 0 || changes == 1 || changes == 2 || changes == 4 || changes == 8 || changes
        == 16 || changes == 32 || changes == 64 || changes == 0x7f) ==> (((changes & 1 == 1) == (
    changes == 1 || changes == 0x7f)) && ((changes & 2 == 2) == (changes == 2 || changes == 0x7f))
        && ((changes & 4 == 4) == (changes == 4 || changes == 0x7f)) && ((changes & 8 == 8) == (
    changes == 8 || changes == 0x7f)) && ((changes & 16 == 16) == (changes == 16 || changes
        == 0x7f)) && ((changes & 32 == 32) == (changes == 32 || changes == 0x7f)) && ((changes & 64
        == 64) == (changes == 64 || changes == 0x7f)))) by (bit_vector);
}

} // verus!
