//! What is kept of hosts while the power is off.

use vstd::prelude::*;
use vstd::string::StringSliceAdditionalSpecFns;

use crate::bytes::{padded, same_bytes};
use crate::ids::HostId;

verus! {

/// How many hosts are kept.
pub const STORED_HOSTS_MAX: usize = 4;

/// The longest name.
pub const FIXED_NAME_MAX_LEN: usize = 32;

/// Why something could not be kept.
#[derive(Clone, Copy, Debug, PartialEq, Eq, Structural)]
pub enum StorageError {
    HostCapacity,
    InvalidName,
}

/// A short ASCII name.
#[derive(Clone, Copy, Debug, PartialEq, Eq)]
pub struct FixedName {
    pub(crate) len: u8,
    pub(crate) bytes: [u8; FIXED_NAME_MAX_LEN],
}

impl FixedName {
    /// The name's bytes.
    pub open(crate) spec fn text(self) -> Seq<u8> {
        self.bytes@.take(self.len as int)
    }

    /// The name is no longer than a name can be, and zeros stand behind it.
    pub open(crate) spec fn wf(self) -> bool {
        self.len <= FIXED_NAME_MAX_LEN && self.bytes@ == padded(
            self.text(),
            FIXED_NAME_MAX_LEN as nat,
        )
    }

    /// No name.
    pub open(crate) spec fn nameless() -> FixedName {
        FixedName { len: 0, bytes: [0;FIXED_NAME_MAX_LEN] }
    }

    /// No name.
    pub fn empty() -> (r: Self)
        ensures
            r == FixedName::nameless(),
            r.wf(),
            r.text() == Seq::<u8>::empty(),
    {
        let r = Self { len: 0, bytes: [0;FIXED_NAME_MAX_LEN] };
        assert(r.bytes@ =~= padded(r.text(), FIXED_NAME_MAX_LEN as nat));
        assert(r.bytes =~= FixedName::nameless().bytes);
        r
    }

    /// The name with this text, where that is ASCII and short enough.
    pub fn from_ascii(name: &str) -> (r: Result<Self, StorageError>)
        ensures
            ({
                let bytes = name.spec_bytes();
                let fits = bytes.len() <= FIXED_NAME_MAX_LEN && forall|i: int|
                    0 <= i < bytes.len() ==> #[trigger] bytes[i] < 128;
                &&& fits ==> r is Ok && r->Ok_0.wf() && r->Ok_0.text() == bytes
                &&& !fits ==> r == Err::<Self, StorageError>(StorageError::InvalidName)
            }),
    {
        let text = name.as_bytes();
        let n: usize = text.len();
        if n > FIXED_NAME_MAX_LEN {
            return Err(StorageError::InvalidName);
        }
        let mut bytes = [0u8;FIXED_NAME_MAX_LEN];
        let mut i: usize = 0;
        while i < n
            invariant
                i <= n == text@.len(),
                text@ == name.spec_bytes(),
                n <= 32,
                bytes@.len() == 32,
                forall|j: int| 0 <= j < i ==> #[trigger] text@[j] < 128,
                forall|j: int| 0 <= j < i ==> #[trigger] bytes@[j] == text@[j],
                forall|j: int| i <= j < 32 ==> #[trigger] bytes@[j] == 0,
            decreases n - i,
        {
            if text[i] >= 128 {
                assert(!(name.spec_bytes()[i as int] < 128));
                return Err(StorageError::InvalidName);
            }
            bytes[i] = text[i];
            i += 1;
        }
        let r = Self { len: n as u8, bytes };
        assert(r.text() =~= text@);
        assert(r.bytes@ =~= padded(r.text(), FIXED_NAME_MAX_LEN as nat));
        Ok(r)
    }

    /// The name's bytes.
    pub fn as_bytes(&self) -> (r: &[u8])
        requires
            self.wf(),
        ensures
            r@ == self.text(),
    {
        crate::bytes::part(self.bytes.as_slice(), 0, self.len as usize)
    }

    /// Whether both are the same name.
    pub fn same_as(&self, other: &Self) -> (r: bool)
        ensures
            r == (*self == *other),
    {
        if self.len == other.len && same_bytes(self.bytes.as_slice(), other.bytes.as_slice()) {
            assert(self.bytes =~= other.bytes);
            true
        } else {
            false
        }
    }
}

/// The kind of a peer's address.
#[derive(Clone, Copy, Debug, PartialEq, Eq, Structural)]
pub enum StoredAddressKind {
    Public,
    Random,
}

/// How well a bond protects.
#[derive(Clone, Copy, Debug, PartialEq, Eq, Structural)]
pub enum StoredSecurityLevel {
    NoEncryption,
    Encrypted,
    EncryptedAuthenticated,
}

/// A bond with a peer.
#[derive(Clone, Copy, Debug, PartialEq, Eq)]
pub struct StoredBond {
    pub peer_address: [u8; 6],
    pub peer_address_kind: StoredAddressKind,
    pub peer_irk: Option<[u8; 16]>,
    pub ltk: [u8; 16],
    pub is_bonded: bool,
    pub security_level: StoredSecurityLevel,
}

impl StoredBond {
    /// Whether both are the same bond.
    pub fn same_as(&self, other: &Self) -> (r: bool)
        ensures
            r == (*self == *other),
    {
        let same_irk = match (&self.peer_irk, &other.peer_irk) {
            (None, None) => true,
            (Some(a), Some(b)) => {
                let same = same_bytes(a.as_slice(), b.as_slice());
                assert(same ==> *a =~= *b);
                same
            },
            _ => false,
        };
        assert(same_irk == (self.peer_irk == other.peer_irk));
        let same_address = same_bytes(self.peer_address.as_slice(), other.peer_address.as_slice());
        assert(same_address ==> self.peer_address =~= other.peer_address);
        let same_key = same_bytes(self.ltk.as_slice(), other.ltk.as_slice());
        assert(same_key ==> self.ltk =~= other.ltk);
        same_irk && same_address && same_key && self.peer_address_kind == other.peer_address_kind
            && self.is_bonded == other.is_bonded && self.security_level == other.security_level
    }
}

/// Whether both are the same bond, or both none.
pub fn same_bond(a: &Option<StoredBond>, b: &Option<StoredBond>) -> (r: bool)
    ensures
        r == (*a == *b),
{
    match (a, b) {
        (None, None) => true,
        (Some(a), Some(b)) => a.same_as(b),
        _ => false,
    }
}

/// What is kept of a host.
#[derive(Clone, Copy, Debug, PartialEq, Eq)]
pub struct StoredHostProfile {
    pub host_id: HostId,
    pub bonded: bool,
    pub keyboard_cccd_enabled: bool,
    pub mouse_cccd_enabled: bool,
    pub consumer_cccd_enabled: bool,
    pub keyboard_output_cccd_enabled: bool,
    pub name: FixedName,
    pub bond: Option<StoredBond>,
}

impl StoredHostProfile {
    /// Nothing known of a host.
    pub fn empty() -> (r: Self)
        ensures
            r == (StoredHostProfile {
                host_id: HostId(0),
                bonded: false,
                keyboard_cccd_enabled: false,
                mouse_cccd_enabled: false,
                consumer_cccd_enabled: false,
                keyboard_output_cccd_enabled: false,
                name: FixedName::nameless(),
                bond: None,
            }),
    {
        Self {
            host_id: HostId(0),
            bonded: false,
            keyboard_cccd_enabled: false,
            mouse_cccd_enabled: false,
            consumer_cccd_enabled: false,
            keyboard_output_cccd_enabled: false,
            name: FixedName::empty(),
            bond: None,
        }
    }
}

/// What is kept of all hosts.
#[derive(Clone, Debug, PartialEq, Eq)]
pub struct StorageState {
    pub generation: u32,
    pub last_active_host: Option<HostId>,
    pub(crate) hosts: Vec<StoredHostProfile>,
}

/// What is kept of all hosts.
pub struct StorageView {
    pub generation: u32,
    pub last_active_host: Option<HostId>,
    pub hosts: Seq<StoredHostProfile>,
}

impl View for StorageState {
    type V = StorageView;

    open(crate) spec fn view(&self) -> StorageView {
        StorageView {
            generation: self.generation,
            last_active_host: self.last_active_host,
            hosts: self.hosts@,
        }
    }
}

impl StorageState {
    /// Nothing is kept.
    pub fn new(generation: u32) -> (r: Self)
        ensures
            r@ == (StorageView { generation, last_active_host: None, hosts: seq![] }),
    {
        Self { generation, last_active_host: None, hosts: Vec::new() }
    }

    /// The hosts.
    pub fn hosts(&self) -> (r: &[StoredHostProfile])
        ensures
            r@ == self@.hosts,
    {
        self.hosts.as_slice()
    }

    /// Keeps one more host, where there is room.
    pub fn push_host(&mut self, host: StoredHostProfile) -> (r: Result<(), StorageError>)
        ensures
            old(self)@.hosts.len() < STORED_HOSTS_MAX ==> r is Ok && final(self)@ == (StorageView {
                hosts: old(self)@.hosts.push(host),
                ..old(self)@
            }),
            old(self)@.hosts.len() >= STORED_HOSTS_MAX ==> r == Err::<(), StorageError>(
                StorageError::HostCapacity,
            ) && final(self)@ == old(self)@,
    {
        if self.hosts.len() < STORED_HOSTS_MAX {
            self.hosts.push(host);
            Ok(())
        } else {
            Err(StorageError::HostCapacity)
        }
    }
}

} // verus!
