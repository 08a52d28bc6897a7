//! The pairing of two chips over the radio, and how it is kept.

use vstd::prelude::*;

use crate::bytes::{
    array_at, get32, le32, lemma_u32_in, part, same_bytes, splice, to_le32, u32_at, write_at,
};
use crate::checksum::{crc32, crc32_ieee, law_crc32_detects_a_changed_byte};

verus! {

/// The bytes of a key.
pub const ESPNOW_KEY_LEN: usize = 16;

/// The bytes of a pairing that is kept.
pub const ESPNOW_PAIRING_IMAGE_LEN: usize = 64;

/// The version of that form.
pub const ESPNOW_PAIRING_SCHEMA_VERSION: u8 = 1;

/// The longest part of a key that is written at once.
pub const ESPNOW_PAIRING_KEY_CHUNK_LEN: usize = 14;

/// The first bytes of a pairing that is kept: "HSEP".
pub const ESPNOW_PAIRING_MAGIC: [u8; 4] = [0x48, 0x53, 0x45, 0x50];

/// Which of the two chips it is.
#[derive(Clone, Copy, Debug, PartialEq, Eq, Structural)]
pub enum EspNowRole {
    UsbHost,
    UsbDevice,
}

impl EspNowRole {
    /// The byte that stands for the chip.
    pub open spec fn byte(self) -> u8 {
        match self {
            EspNowRole::UsbHost => 1,
            EspNowRole::UsbDevice => 2,
        }
    }

    /// The other chip.
    pub open spec fn other(self) -> EspNowRole {
        match self {
            EspNowRole::UsbHost => EspNowRole::UsbDevice,
            EspNowRole::UsbDevice => EspNowRole::UsbHost,
        }
    }

    /// The other chip.
    pub fn peer(self) -> (r: Self)
        ensures
            r == self.other(),
    {
        match self {
            Self::UsbHost => Self::UsbDevice,
            Self::UsbDevice => Self::UsbHost,
        }
    }

    /// The byte that stands for the chip.
    pub fn to_byte(self) -> (r: u8)
        ensures
            r == self.byte(),
    {
        match self {
            Self::UsbHost => 1,
            Self::UsbDevice => 2,
        }
    }

    fn decode(value: u8) -> (r: Result<Self, EspNowPairingError>)
        ensures
            r is Ok <==> value == 1 || value == 2,
            r is Ok ==> r->Ok_0.byte() == value,
            r is Err ==> r->Err_0 == EspNowPairingError::InvalidRole,
    {
        match value {
            1 => Ok(Self::UsbHost),
            2 => Ok(Self::UsbDevice),
            _ => Err(EspNowPairingError::InvalidRole),
        }
    }
}

/// Why a pairing was refused.
#[derive(Clone, Copy, Debug, PartialEq, Eq, Structural)]
pub enum EspNowPairingError {
    InvalidLength,
    InvalidMagic,
    UnsupportedVersion,
    CrcMismatch,
    InvalidRole,
    InvalidPeerAddress,
    InvalidChannel,
    InvalidKey,
    InvalidKeyChunk,
    NoTransaction,
    IncompleteKey,
}

/// A pairing with another chip.
#[derive(Clone, Copy, Debug, PartialEq, Eq)]
pub struct EspNowPairing {
    pub generation: u32,
    pub local_role: EspNowRole,
    pub peer_address: [u8; 6],
    pub channel: u8,
    pub key: [u8; ESPNOW_KEY_LEN],
}

/// What a pairing says.
pub struct PairingView {
    pub generation: u32,
    pub local_role: EspNowRole,
    pub peer_address: Seq<u8>,
    pub channel: u8,
    pub key: Seq<u8>,
}

impl View for EspNowPairing {
    type V = PairingView;

    open spec fn view(&self) -> PairingView {
        PairingView {
            generation: self.generation,
            local_role: self.local_role,
            peer_address: self.peer_address@,
            channel: self.channel,
            key: self.key@,
        }
    }
}

/// `n` times the same byte.
pub open spec fn repeated(byte: u8, n: nat) -> Seq<u8> {
    Seq::new(n, |i: int| byte)
}

impl PairingView {
    /// What is wrong with the pairing.
    pub open spec fn error(self) -> Option<EspNowPairingError> {
        if self.peer_address == repeated(0, 6) || self.peer_address == repeated(0xff, 6) {
            Some(EspNowPairingError::InvalidPeerAddress)
        } else if !(1 <= self.channel <= 14) {
            Some(EspNowPairingError::InvalidChannel)
        } else if self.key == repeated(0, 16) {
            Some(EspNowPairingError::InvalidKey)
        } else {
            None
        }
    }

    /// The bytes that are kept, before the checksum.
    pub open spec fn body(self) -> Seq<u8> {
        ESPNOW_PAIRING_MAGIC@ + seq![
            ESPNOW_PAIRING_SCHEMA_VERSION,
            self.local_role.byte(),
            self.channel,
            0xffu8,
        ] + le32(self.generation) + self.peer_address + self.key + repeated(0xff, 26)
    }

    /// The bytes that are kept.
    pub open spec fn image(self) -> Seq<u8> {
        self.body() + le32(crc32(self.body()))
    }

    /// The pairing of which these bytes were kept, apart from the chip.
    pub open spec fn of_image(image: Seq<u8>, local_role: EspNowRole) -> PairingView {
        PairingView {
            generation: u32_at(image, 8),
            local_role,
            peer_address: image.subrange(12, 18),
            channel: image[6],
            key: image.subrange(18, 34),
        }
    }
}

/// Why kept bytes are no pairing, where they are none.
pub open spec fn image_error(image: Seq<u8>) -> Option<EspNowPairingError> {
    if image.len() != ESPNOW_PAIRING_IMAGE_LEN {
        Some(EspNowPairingError::InvalidLength)
    } else if image.take(4) != ESPNOW_PAIRING_MAGIC@ {
        Some(EspNowPairingError::InvalidMagic)
    } else if image[4] != ESPNOW_PAIRING_SCHEMA_VERSION {
        Some(EspNowPairingError::UnsupportedVersion)
    } else if crc32(image.take(60)) != u32_at(image, 60) {
        Some(EspNowPairingError::CrcMismatch)
    } else if image[5] != 1 && image[5] != 2 {
        Some(EspNowPairingError::InvalidRole)
    } else {
        PairingView::of_image(image, EspNowRole::UsbHost).error()
    }
}

/// Whether kept bytes are those of a pairing.
pub open spec fn is_image_of(image: Seq<u8>, pairing: PairingView) -> bool {
    &&& image[5] == pairing.local_role.byte()
    &&& pairing == PairingView::of_image(image, pairing.local_role)
}

fn all_are(bytes: &[u8], value: u8) -> (r: bool)
    ensures
        r == (bytes@ == repeated(value, bytes@.len())),
{
    let mut i: usize = 0;
    while i < bytes.len()
        invariant
            i <= bytes@.len(),
            forall|j: int| 0 <= j < i ==> #[trigger] bytes@[j] == value,
        decreases bytes@.len() - i,
    {
        if bytes[i] != value {
            assert(repeated(value, bytes@.len())[i as int] == value);
            return false;
        }
        i += 1;
    }
    assert(bytes@ =~= repeated(value, bytes@.len()));
    true
}

impl EspNowPairing {
    /// Checks that address, channel and key can be used.
    pub fn validate(&self) -> (r: Result<(), EspNowPairingError>)
        ensures
            match self@.error() {
                Some(error) => r == Err::<(), EspNowPairingError>(error),
                None => r is Ok,
            },
    {
        if all_are(self.peer_address.as_slice(), 0) || all_are(
            self.peer_address.as_slice(),
            0xff,
        ) {
            return Err(EspNowPairingError::InvalidPeerAddress);
        }
        if self.channel < 1 || self.channel > 14 {
            return Err(EspNowPairingError::InvalidChannel);
        }
        if all_are(self.key.as_slice(), 0) {
            return Err(EspNowPairingError::InvalidKey);
        }
        Ok(())
    }

    /// The bytes to be kept of a pairing that can be used.
    pub fn encode(self) -> (r: Result<[u8; ESPNOW_PAIRING_IMAGE_LEN], EspNowPairingError>)
        ensures
            match self@.error() {
                Some(error) => r == Err::<[u8; ESPNOW_PAIRING_IMAGE_LEN], EspNowPairingError>(
                    error,
                ),
                None => r is Ok && r->Ok_0@ == self@.image(),
            },
    {
        match self.validate() {
            Err(error) => {
                return Err(error);
            },
            Ok(_) => {},
        }
        let mut image = [0xffu8; ESPNOW_PAIRING_IMAGE_LEN];
        let magic = ESPNOW_PAIRING_MAGIC;
        write_at(&mut image, 0, &magic);
        image[4] = ESPNOW_PAIRING_SCHEMA_VERSION;
        image[5] = self.local_role.to_byte();
        image[6] = self.channel;
        write_at(&mut image, 8, &to_le32(self.generation));
        write_at(&mut image, 12, &self.peer_address);
        write_at(&mut image, 18, &self.key);
        assert(image@.take(60) =~= self@.body());
        let crc: u32 = crc32_ieee(part(&image, 0, 60));
        write_at(&mut image, 60, &to_le32(crc));
        assert(image@ =~= self@.image());
        Ok(image)
    }

    /// The pairing of which these bytes were kept.
    pub fn decode(image: &[u8]) -> (r: Result<Self, EspNowPairingError>)
        ensures
            match image_error(image@) {
                Some(error) => r == Err::<Self, EspNowPairingError>(error),
                None => r is Ok && is_image_of(image@, r->Ok_0@),
            },
    {
        if image.len() != ESPNOW_PAIRING_IMAGE_LEN {
            return Err(EspNowPairingError::InvalidLength);
        }
        let magic = ESPNOW_PAIRING_MAGIC;
        if !same_bytes(part(image, 0, 4), magic.as_slice()) {
            return Err(EspNowPairingError::InvalidMagic);
        }
        if image[4] != ESPNOW_PAIRING_SCHEMA_VERSION {
            return Err(EspNowPairingError::UnsupportedVersion);
        }
        let expected: u32 = get32(image, 60);
        if crc32_ieee(part(image, 0, 60)) != expected {
            return Err(EspNowPairingError::CrcMismatch);
        }
        let local_role = match EspNowRole::decode(image[5]) {
            Ok(role) => role,
            Err(error) => {
                return Err(error);
            },
        };
        let pairing = Self {
            generation: get32(image, 8),
            local_role,
            peer_address: array_at::<6>(image, 12),
            channel: image[6],
            key: array_at::<ESPNOW_KEY_LEN>(image, 18),
        };
        match pairing.validate() {
            Err(error) => Err(error),
            Ok(_) => Ok(pairing),
        }
    }
}

/// A pairing that can be used comes back from the bytes that are kept of it.
pub proof fn law_pairing_round_trip(pairing: PairingView)
    requires
        pairing.error() is None,
        pairing.peer_address.len() == 6,
        pairing.key.len() == 16,
    ensures
        image_error(pairing.image()) is None,
        is_image_of(pairing.image(), pairing),
{
    let image = pairing.image();
    assert(image.len() == 64);
    assert(image.take(4) =~= ESPNOW_PAIRING_MAGIC@);
    assert(image.take(60) =~= pairing.body());
    assert(image.subrange(60, 64) =~= le32(crc32(pairing.body())));
    lemma_u32_in(image, 60, crc32(pairing.body()));
    assert(image.subrange(8, 12) =~= le32(pairing.generation));
    lemma_u32_in(image, 8, pairing.generation);
    assert(image.subrange(12, 18) =~= pairing.peer_address);
    assert(image.subrange(18, 34) =~= pairing.key);
}

/// Kept bytes of which one was changed are no pairing: the checksum says so,
/// where the magic or the version does not already.
pub proof fn law_pairing_corruption(image: Seq<u8>, at: int, byte: u8)
    requires
        image_error(image) is None,
        0 <= at < 64,
        byte != image[at],
    ensures
        image_error(image.update(at, byte)) == Some(
            if at < 4 {
                EspNowPairingError::InvalidMagic
            } else if at == 4 {
                EspNowPairingError::UnsupportedVersion
            } else {
                EspNowPairingError::CrcMismatch
            },
        ),
{
    let changed = image.update(at, byte);
    if at < 4 {
        assert(changed.take(4)[at] == byte);
        assert(image.take(4)[at] == image[at]);
    } else {
        assert(changed.take(4) =~= image.take(4));
    }
    if at < 60 {
        law_crc32_detects_a_changed_byte(image.take(60), at, byte);
        assert(changed.take(60) =~= image.take(60).update(at, byte));
        assert(u32_at(changed, 60) == u32_at(image, 60));
    } else {
        assert(changed.take(60) =~= image.take(60));
        crate::bytes::lemma_join32(image[60], image[61], image[62], image[63]);
        crate::bytes::lemma_join32(changed[60], changed[61], changed[62], changed[63]);
        if u32_at(changed, 60) == u32_at(image, 60) {
            let a = seq![image[60], image[61], image[62], image[63]];
            let b = seq![changed[60], changed[61], changed[62], changed[63]];
            assert(a[at - 60] == image[at]);
            assert(b[at - 60] == byte);
        }
    }
}

/// A pairing that is being told, piece by piece.
#[derive(Clone, Copy, Debug, PartialEq, Eq)]
pub struct EspNowPairingTransaction {
    role: EspNowRole,
    peer_address: [u8; 6],
    channel: u8,
    key: [u8; ESPNOW_KEY_LEN],
    received: [bool; ESPNOW_KEY_LEN],
    active: bool,
}

/// A pairing that is being told: what is known of it, and which bytes of its
/// key.
pub struct TransactionView {
    pub role: EspNowRole,
    pub peer_address: Seq<u8>,
    pub channel: u8,
    pub key: Seq<u8>,
    pub received: Seq<bool>,
    pub active: bool,
}

impl View for EspNowPairingTransaction {
    type V = TransactionView;

    closed spec fn view(&self) -> TransactionView {
        TransactionView {
            role: self.role,
            peer_address: self.peer_address@,
            channel: self.channel,
            key: self.key@,
            received: self.received@,
            active: self.active,
        }
    }
}

impl TransactionView {
    /// Nothing is being told.
    pub open spec fn idle(role: EspNowRole) -> TransactionView {
        TransactionView {
            role,
            peer_address: repeated(0, 6),
            channel: 0,
            key: repeated(0, 16),
            received: Seq::new(16, |i: int| false),
            active: false,
        }
    }

    /// After it was given up.
    pub open spec fn cancelled(self) -> TransactionView {
        TransactionView {
            key: repeated(0, 16),
            received: Seq::new(16, |i: int| false),
            active: false,
            ..self
        }
    }

    /// Why it cannot begin, where it cannot.
    pub open spec fn begin_error(peer_address: Seq<u8>, channel: u8) -> Option<EspNowPairingError> {
        if peer_address == repeated(0, 6) || peer_address == repeated(0xff, 6) {
            Some(EspNowPairingError::InvalidPeerAddress)
        } else if !(1 <= channel <= 14) {
            Some(EspNowPairingError::InvalidChannel)
        } else {
            None
        }
    }

    /// Once address and channel are told.
    pub open spec fn begun(self, peer_address: Seq<u8>, channel: u8) -> TransactionView {
        TransactionView {
            peer_address,
            channel,
            key: repeated(0, 16),
            received: Seq::new(16, |i: int| false),
            active: true,
            ..self
        }
    }

    /// Why a part of the key is refused, where it is.
    pub open spec fn chunk_error(self, offset: u8, bytes: Seq<u8>) -> Option<EspNowPairingError> {
        if !self.active {
            Some(EspNowPairingError::NoTransaction)
        } else if bytes.len() == 0 || bytes.len() > ESPNOW_PAIRING_KEY_CHUNK_LEN || offset
            + bytes.len() > ESPNOW_KEY_LEN {
            Some(EspNowPairingError::InvalidKeyChunk)
        } else {
            None
        }
    }

    /// Once a part of the key is told.
    pub open spec fn with_chunk(self, offset: u8, bytes: Seq<u8>) -> TransactionView {
        TransactionView {
            key: splice(self.key, offset as int, bytes),
            received: splice(
                self.received,
                offset as int,
                Seq::new(bytes.len(), |i: int| true),
            ),
            ..self
        }
    }

    /// Whether the whole key was told.
    pub open spec fn is_complete(self) -> bool {
        self.received == Seq::new(16, |i: int| true)
    }

    /// The pairing that was told.
    pub open spec fn pairing(self, generation: u32) -> PairingView {
        PairingView {
            generation,
            local_role: self.role,
            peer_address: self.peer_address,
            channel: self.channel,
            key: self.key,
        }
    }

    /// Why there is no pairing yet, where there is none.
    pub open spec fn commit_error(self) -> Option<EspNowPairingError> {
        if !self.active {
            Some(EspNowPairingError::NoTransaction)
        } else if !self.is_complete() {
            Some(EspNowPairingError::IncompleteKey)
        } else {
            self.pairing(0).error()
        }
    }
}

impl EspNowPairingTransaction {
    /// Nothing is being told.
    pub fn new(role: EspNowRole) -> (r: Self)
        ensures
            r@ == TransactionView::idle(role),
    {
        let r = Self {
            role,
            peer_address: [0;6],
            channel: 0,
            key: [0;ESPNOW_KEY_LEN],
            received: [false;ESPNOW_KEY_LEN],
            active: false,
        };
        assert(r@.peer_address =~= repeated(0, 6));
        assert(r@.key =~= repeated(0, 16));
        assert(r@.received =~= Seq::new(16, |i: int| false));
        r
    }

    /// Begins anew, with an address and a channel that can be used.
    pub fn begin(&mut self, peer_address: [u8; 6], channel: u8) -> (r: Result<
        (),
        EspNowPairingError,
    >)
        ensures
            match TransactionView::begin_error(peer_address@, channel) {
                Some(error) => r == Err::<(), EspNowPairingError>(error) && final(self)@
                    == old(self)@,
                None => r is Ok && final(self)@ == old(self)@.begun(peer_address@, channel),
            },
    {
        let candidate = EspNowPairing {
            generation: 0,
            local_role: self.role,
            peer_address,
            channel,
            key: [1;ESPNOW_KEY_LEN],
        };
        assert(candidate@.key[0] == 1 && repeated(0, 16)[0] == 0);
        match candidate.validate() {
            Err(error) => {
                return Err(error);
            },
            Ok(_) => {},
        }
        self.peer_address = peer_address;
        self.channel = channel;
        self.key = [0;ESPNOW_KEY_LEN];
        self.received = [false;ESPNOW_KEY_LEN];
        self.active = true;
        assert(self@.key =~= repeated(0, 16));
        assert(self@.received =~= Seq::new(16, |i: int| false));
        Ok(())
    }

    /// Takes a part of the key.
    pub fn write_key_chunk(&mut self, offset: u8, bytes: &[u8]) -> (r: Result<
        (),
        EspNowPairingError,
    >)
        ensures
            match old(self)@.chunk_error(offset, bytes@) {
                Some(error) => r == Err::<(), EspNowPairingError>(error) && final(self)@
                    == old(self)@,
                None => r is Ok && final(self)@ == old(self)@.with_chunk(offset, bytes@),
            },
    {
        let ghost before = self@;
        if !self.active {
            return Err(EspNowPairingError::NoTransaction);
        }
        let n: usize = bytes.len();
        if n == 0 || n > ESPNOW_PAIRING_KEY_CHUNK_LEN {
            return Err(EspNowPairingError::InvalidKeyChunk);
        }
        let start: usize = offset as usize;
        let end: usize = start + n;
        if end > ESPNOW_KEY_LEN {
            return Err(EspNowPairingError::InvalidKeyChunk);
        }
        write_at(&mut self.key, start, bytes);
        let mut index: usize = start;
        while index < end
            invariant
                start <= index <= end <= 16,
                end == start + n,
                n == bytes@.len(),
                start == offset,
                self@ == (TransactionView {
                    key: splice(before.key, offset as int, bytes@),
                    received: self@.received,
                    ..before
                }),
                self@.received.len() == 16,
                before.received.len() == 16,
                forall|j: int|
                    0 <= j < 16 ==> #[trigger] self@.received[j] == (start <= j < index
                        || before.received[j]),
            decreases end - index,
        {
            self.received[index] = true;
            index += 1;
        }
        assert(self@.received =~= before.with_chunk(offset, bytes@).received);
        Ok(())
    }

    /// The pairing that was told, with its generation. Nothing is being told
    /// then.
    pub fn commit(&mut self, generation: u32) -> (r: Result<EspNowPairing, EspNowPairingError>)
        ensures
            match old(self)@.commit_error() {
                Some(error) => r == Err::<EspNowPairing, EspNowPairingError>(error)
                    && final(self)@ == old(self)@,
                None => r is Ok && r->Ok_0@ == old(self)@.pairing(generation) && final(self)@
                    == old(self)@.cancelled(),
            },
    {
        if !self.active {
            return Err(EspNowPairingError::NoTransaction);
        }
        let mut index: usize = 0;
        while index < ESPNOW_KEY_LEN
            invariant
                index <= 16,
                *self == *old(self),
                self@.active,
                self@.received.len() == 16,
                forall|j: int| 0 <= j < index ==> #[trigger] self@.received[j],
            decreases 16 - index,
        {
            if !self.received[index] {
                assert(!self@.received[index as int]);
                assert(Seq::new(16, |i: int| true)[index as int]);
                return Err(EspNowPairingError::IncompleteKey);
            }
            index += 1;
        }
        assert(self@.received =~= Seq::new(16, |i: int| true));
        let pairing = EspNowPairing {
            generation,
            local_role: self.role,
            peer_address: self.peer_address,
            channel: self.channel,
            key: self.key,
        };
        match pairing.validate() {
            Err(error) => Err(error),
            Ok(_) => {
                self.cancel();
                Ok(pairing)
            },
        }
    }

    /// Gives up what was told.
    pub fn cancel(&mut self)
        ensures
            final(self)@ == old(self)@.cancelled(),
    {
        self.key = [0;ESPNOW_KEY_LEN];
        self.received = [false;ESPNOW_KEY_LEN];
        self.active = false;
        assert(self@.key =~= repeated(0, 16));
        assert(self@.received =~= Seq::new(16, |i: int| false));
    }
}

/// After the two parts of a key were told, in either order, the pairing has
/// exactly that key.
pub proof fn law_told_key_is_committed(start: TransactionView, key: Seq<u8>, cut: int)
    requires
        start.active,
        start.key.len() == 16,
        start.received.len() == 16,
        key.len() == 16,
        2 <= cut <= 14,
    ensures
        ({
            let head = key.take(cut);
            let tail = key.skip(cut);
            let a = start.with_chunk(0, head).with_chunk(cut as u8, tail);
            let b = start.with_chunk(cut as u8, tail).with_chunk(0, head);
            &&& a.is_complete() && b.is_complete()
            &&& a.key == key && b.key == key
        }),
{
    let head = key.take(cut);
    let tail = key.skip(cut);
    let a = start.with_chunk(0, head).with_chunk(cut as u8, tail);
    let b = start.with_chunk(cut as u8, tail).with_chunk(0, head);
    assert(a.key =~= key);
    assert(b.key =~= key);
    assert(a.received =~= Seq::new(16, |i: int| true));
    assert(b.received =~= Seq::new(16, |i: int| true));
}

/// A key of which a byte was never told is not committed.
pub proof fn law_incomplete_key_is_refused(v: TransactionView, at: int)
    requires
        v.active,
        v.received.len() == 16,
        0 <= at < 16,
        !v.received[at],
    ensures
        v.commit_error() == Some(EspNowPairingError::IncompleteKey),
{
    assert(Seq::new(16, |i: int| true)[at]);
}

/// Whether a generation comes after another, where generations wrap.
pub open spec fn is_newer(candidate: u32, current: u32) -> bool {
    candidate != current && candidate.wrapping_sub(current) < 0x8000_0000
}

/// The newest pairing of which these bytes were kept.
pub fn select_newest_pairing(
    first: &[u8; ESPNOW_PAIRING_IMAGE_LEN],
    second: &[u8; ESPNOW_PAIRING_IMAGE_LEN],
) -> (r: Option<EspNowPairing>)
    ensures
        ({
            let a = image_error(first@) is None;
            let b = image_error(second@) is None;
            let take_second = b && (!a || is_newer(u32_at(second@, 8), u32_at(first@, 8)));
            &&& r is Some <==> a || b
            &&& take_second ==> is_image_of(second@, r->0@)
            &&& a && !take_second ==> is_image_of(first@, r->0@)
        }),
{
    match (EspNowPairing::decode(first.as_slice()), EspNowPairing::decode(second.as_slice())) {
        (Ok(first), Ok(second)) => {
            if generation_is_newer(second.generation, first.generation) {
                Some(second)
            } else {
                Some(first)
            }
        },
        (Ok(first), Err(_)) => Some(first),
        (Err(_), Ok(second)) => Some(second),
        (Err(_), Err(_)) => None,
    }
}

/// Whether a generation comes after another, where generations wrap.
pub fn generation_is_newer(candidate: u32, current: u32) -> (r: bool)
    ensures
        r == is_newer(candidate, current),
{
    candidate != current && candidate.wrapping_sub(current) < 0x8000_0000
}

/// The next generation is newer, also past the last number.
pub proof fn law_next_generation_is_newer(current: u32)
    ensures
        is_newer(current.wrapping_add(1), current),
        !is_newer(current, current.wrapping_add(1)),
{
}

/// A pairing can begin with any address but that of nobody and that of everybody,
/// on the channels 1 to 14.
pub proof fn law_when_a_pairing_begins(peer_address: Seq<u8>, channel: u8)
    requires
        peer_address.len() == 6,
    ensures
        TransactionView::begin_error(peer_address, channel) is None <==> {
            &&& exists|i: int| 0 <= i < 6 && (#[trigger] peer_address[i]) != 0
            &&& exists|i: int| 0 <= i < 6 && (#[trigger] peer_address[i]) != 0xff
            &&& 1 <= channel <= 14
        },
{
    if peer_address != repeated(0, 6) {
        if forall|i: int| 0 <= i < 6 ==> (#[trigger] peer_address[i]) == 0 {
            assert(peer_address =~= repeated(0, 6));
        }
    } else {
        assert forall|i: int| 0 <= i < 6 implies (#[trigger] peer_address[i]) == 0 by {
            assert(repeated(0, 6)[i] == 0);
        }
    }
    if peer_address != repeated(0xff, 6) {
        if forall|i: int| 0 <= i < 6 ==> (#[trigger] peer_address[i]) == 0xff {
            assert(peer_address =~= repeated(0xff, 6));
        }
    } else {
        assert forall|i: int| 0 <= i < 6 implies (#[trigger] peer_address[i]) == 0xff by {
            assert(repeated(0xff, 6)[i] == 0xff);
        }
    }
}

/// The pairing that comes of what was told has the address and the channel that it
/// began with, this chip's own role, the key as told byte for byte, and the
/// generation that it is given.
pub proof fn law_pairing_is_what_was_told(
    t: TransactionView,
    peer_address: Seq<u8>,
    channel: u8,
    first: Seq<u8>,
    second: Seq<u8>,
    generation: u32,
)
    requires
        first.len() == 14,
        second.len() == 2,
    ensures
        ({
            let after = t.begun(peer_address, channel).with_chunk(0, first).with_chunk(14, second);
            let p = after.pairing(generation);
            &&& p.peer_address == peer_address
            &&& p.channel == channel
            &&& p.local_role == t.role
            &&& p.generation == generation
            &&& p.key.len() == 16
            &&& forall|i: int| 0 <= i < 14 ==> #[trigger] p.key[i] == first[i]
            &&& p.key[14] == second[0]
            &&& p.key[15] == second[1]
            &&& after.is_complete()
        }),
{
    let after = t.begun(peer_address, channel).with_chunk(0, first).with_chunk(14, second);
    assert(after.received =~= Seq::new(16, |i: int| true));
}

} // verus!
