//! Encrypted and authenticated frames between two paired chips.

use aes::cipher::generic_array::GenericArray;
use aes::cipher::{BlockEncrypt, KeyInit};
use aes::Aes128;
use cmac::{Cmac, Mac};
use vstd::prelude::*;

use crate::bytes::{
    get32, le32, lemma_u32_in, part, splice, to_le32, u32_at, write_at,
};
use crate::espnow_pairing::{EspNowRole, ESPNOW_KEY_LEN};

verus! {

/// The longest frame.
pub const ESPNOW_FRAME_MAX: usize = 250;

/// The bytes of a frame's header.
pub const SECURE_HEADER_LEN: usize = 12;

/// The bytes of a frame's tag.
pub const SECURE_TAG_LEN: usize = 8;

/// The longest payload.
pub const SECURE_PAYLOAD_MAX: usize = 230;

/// The first bytes of a frame: "HE".
pub const SECURE_MAGIC: [u8; 2] = [0x48, 0x45];

/// The version of that form.
pub const SECURE_VERSION: u8 = 1;

/// What session keys are derived for: "HIDSHIFT-ESPNOW-SESSION".
pub const SESSION_KEY_LABEL: [u8; 23] = [
    0x48, 0x49, 0x44, 0x53, 0x48, 0x49, 0x46, 0x54, 0x2d, 0x45, 0x53, 0x50, 0x4e, 0x4f, 0x57, 0x2d,
    0x53, 0x45, 0x53, 0x53, 0x49, 0x4f, 0x4e,
];

/// The AES-128 encryption of a block of 16 bytes under a key of 16 bytes.
pub uninterp spec fn aes128_block(key: Seq<u8>, block: Seq<u8>) -> Seq<u8>;

/// The AES-128 CMAC of a message under a key of 16 bytes.
pub uninterp spec fn aes128_cmac(key: Seq<u8>, message: Seq<u8>) -> Seq<u8>;

/// `aes::Aes128`'s `encrypt_block` on one block, under the key that the cipher
/// is made with. All that is claimed is that key and block decide the result.
#[verifier::external_body]
fn encrypt_block(key: &[u8; ESPNOW_KEY_LEN], block: [u8; 16]) -> (r: [u8; 16])
    ensures
        r@ == aes128_block(key@, block@),
{
    let cipher = Aes128::new(GenericArray::from_slice(key));
    let mut state = GenericArray::from(block);
    cipher.encrypt_block(&mut state);
    state.into()
}

/// `cmac::Cmac<aes::Aes128>` over a whole message, under the key that it is
/// made with. All that is claimed is that key and message decide the result.
#[verifier::external_body]
fn message_code(key: &[u8; ESPNOW_KEY_LEN], message: &[u8]) -> (r: [u8; 16])
    ensures
        r@ == aes128_cmac(key@, message@),
{
    let mut mac = <Cmac<Aes128> as KeyInit>::new(GenericArray::from_slice(key));
    mac.update(message);
    mac.finalize().into_bytes().into()
}

/// Why a frame was refused.
#[derive(Clone, Copy, Debug, PartialEq, Eq, Structural)]
pub enum EspNowSecurityError {
    TooShort,
    PayloadTooLong,
    InvalidMagic,
    UnsupportedVersion,
    WrongSenderRole,
    AuthenticationFailed,
}

/// The header of a frame.
pub open spec fn secure_header(sender: EspNowRole, session: u32, sequence: u32) -> Seq<u8> {
    SECURE_MAGIC@ + seq![SECURE_VERSION, sender.byte()] + le32(session) + le32(sequence)
}

/// The block that is encrypted into the mask of the `index`-th 16 bytes of a
/// payload.
pub open spec fn counter_block(role: EspNowRole, session: u32, sequence: u32, index: u32) -> Seq<
    u8,
> {
    le32(session) + le32(sequence) + seq![role.byte()] + le32(index) + seq![0x48u8, 0x49, 0x44]
}

/// The byte that masks a payload's byte at a place.
pub open spec fn mask_at(
    key: Seq<u8>,
    role: EspNowRole,
    session: u32,
    sequence: u32,
    at: int,
) -> u8 {
    aes128_block(key, counter_block(role, session, sequence, (at / 16) as u32))[at % 16]
}

/// A payload with every byte masked, or unmasked.
pub open spec fn masked(
    key: Seq<u8>,
    role: EspNowRole,
    session: u32,
    sequence: u32,
    bytes: Seq<u8>,
) -> Seq<u8> {
    Seq::new(bytes.len(), |i: int| bytes[i] ^ mask_at(key, role, session, sequence, i))
}

/// The tag of a frame's other bytes.
pub open spec fn tag_of(key: Seq<u8>, bytes: Seq<u8>) -> Seq<u8> {
    Seq::new(8, |i: int| aes128_cmac(key, bytes)[i])
}

/// The frame's bytes before its tag.
pub open spec fn sealed_body(
    key: Seq<u8>,
    sender: EspNowRole,
    session: u32,
    sequence: u32,
    plaintext: Seq<u8>,
) -> Seq<u8> {
    secure_header(sender, session, sequence) + masked(key, sender, session, sequence, plaintext)
}

/// The frame around a payload.
pub open spec fn sealed(
    key: Seq<u8>,
    sender: EspNowRole,
    session: u32,
    sequence: u32,
    plaintext: Seq<u8>,
) -> Seq<u8> {
    let body = sealed_body(key, sender, session, sequence, plaintext);
    body + tag_of(key, body)
}

/// Why a frame is not opened, where it is not.
pub open spec fn open_error(
    frame: Seq<u8>,
    key: Seq<u8>,
    expected_sender: EspNowRole,
) -> Option<EspNowSecurityError> {
    if frame.len() < SECURE_HEADER_LEN + SECURE_TAG_LEN {
        Some(EspNowSecurityError::TooShort)
    } else if frame.take(2) != SECURE_MAGIC@ {
        Some(EspNowSecurityError::InvalidMagic)
    } else if frame[2] != SECURE_VERSION {
        Some(EspNowSecurityError::UnsupportedVersion)
    } else if frame[3] != expected_sender.byte() {
        Some(EspNowSecurityError::WrongSenderRole)
    } else if tag_of(key, frame.take(frame.len() - 8)) != frame.skip(frame.len() - 8) {
        Some(EspNowSecurityError::AuthenticationFailed)
    } else {
        None
    }
}

/// The payload in a frame that is opened.
pub open spec fn opened(frame: Seq<u8>, key: Seq<u8>, sender: EspNowRole) -> Seq<u8> {
    masked(
        key,
        sender,
        u32_at(frame, 4),
        u32_at(frame, 8),
        frame.subrange(12, frame.len() - 8),
    )
}

/// A frame.
#[derive(Clone, Debug, PartialEq, Eq)]
pub struct SecureEspNowFrame {
    bytes: [u8; ESPNOW_FRAME_MAX],
    len: u8,
}

impl View for SecureEspNowFrame {
    type V = Seq<u8>;

    /// The frame's bytes.
    closed spec fn view(&self) -> Seq<u8> {
        self.bytes@.take(self.len as int)
    }
}

/// What was in a frame.
#[derive(Clone, Copy, Debug, PartialEq, Eq)]
pub struct SecureEspNowPayload<'a> {
    pub session: u32,
    pub sequence: u32,
    pub bytes: &'a [u8],
}

impl SecureEspNowFrame {
    /// The frame is no longer than a frame can be.
    pub closed spec fn wf(&self) -> bool {
        self.len <= ESPNOW_FRAME_MAX
    }

    /// What `wf` says of the view.
    pub proof fn lemma_wf(&self)
        requires
            self.wf(),
        ensures
            self@.len() <= ESPNOW_FRAME_MAX,
    {
    }

    /// The frame around a payload that is not too long.
    pub fn seal(
        key: &[u8; ESPNOW_KEY_LEN],
        sender: EspNowRole,
        session: u32,
        sequence: u32,
        plaintext: &[u8],
    ) -> (r: Result<Self, EspNowSecurityError>)
        ensures
            plaintext@.len() > SECURE_PAYLOAD_MAX ==> r == Err::<Self, EspNowSecurityError>(
                EspNowSecurityError::PayloadTooLong,
            ),
            plaintext@.len() <= SECURE_PAYLOAD_MAX ==> r is Ok && r->Ok_0.wf() && r->Ok_0@
                == sealed(key@, sender, session, sequence, plaintext@),
    {
        let n: usize = plaintext.len();
        if n > SECURE_PAYLOAD_MAX {
            return Err(EspNowSecurityError::PayloadTooLong);
        }
        let mut frame = Self {
            bytes: [0;ESPNOW_FRAME_MAX],
            len: (SECURE_HEADER_LEN + n + SECURE_TAG_LEN) as u8,
        };
        let magic = SECURE_MAGIC;
        write_at(&mut frame.bytes, 0, &magic);
        frame.bytes[2] = SECURE_VERSION;
        frame.bytes[3] = sender.to_byte();
        write_at(&mut frame.bytes, 4, &to_le32(session));
        write_at(&mut frame.bytes, 8, &to_le32(sequence));
        let payload_end: usize = SECURE_HEADER_LEN + n;
        write_at(&mut frame.bytes, SECURE_HEADER_LEN, plaintext);
        assert(frame.bytes@.take(12) =~= secure_header(sender, session, sequence));
        assert(frame.bytes@.subrange(12, 12 + n) =~= plaintext@);
        let ghost before = frame.bytes@;
        apply_ctr(key, sender, session, sequence, &mut frame.bytes, payload_end);
        let ghost body = sealed_body(key@, sender, session, sequence, plaintext@);
        assert(frame.bytes@.take(payload_end as int) =~= body) by {
            assert forall|i: int| 0 <= i < 12 implies frame.bytes@[i] == body[i] by {
                assert(before.take(12)[i] == before[i]);
            }
        }
        let tag = authentication_tag(key, part(&frame.bytes, 0, payload_end));
        write_at(&mut frame.bytes, payload_end, &tag);
        assert(frame@ =~= sealed(key@, sender, session, sequence, plaintext@));
        Ok(frame)
    }

    /// Opens a frame of the expected sender, and unmasks its payload in place.
    pub fn open<'a>(&'a mut self, key: &[u8; ESPNOW_KEY_LEN], expected_sender: EspNowRole) -> (r:
        Result<SecureEspNowPayload<'a>, EspNowSecurityError>)
        requires
            old(self).wf(),
        ensures
            final(self).wf(),
            match open_error(old(self)@, key@, expected_sender) {
                Some(error) => r is Err && r->Err_0 == error && final(self)@ == old(self)@,
                None => {
                    &&& r is Ok
                    &&& r->Ok_0.session == u32_at(old(self)@, 4)
                    &&& r->Ok_0.sequence == u32_at(old(self)@, 8)
                    &&& r->Ok_0.bytes@ == opened(old(self)@, key@, expected_sender)
                    &&& final(self)@ == splice(
                        old(self)@,
                        12,
                        opened(old(self)@, key@, expected_sender),
                    )
                },
            },
    {
        let ghost frame = self@;
        let len: usize = self.len as usize;
        if len < SECURE_HEADER_LEN + SECURE_TAG_LEN {
            return Err(EspNowSecurityError::TooShort);
        }
        let magic = SECURE_MAGIC;
        assert(frame.take(2) =~= self.bytes@.subrange(0, 2));
        if !crate::bytes::same_bytes(part(&self.bytes, 0, 2), magic.as_slice()) {
            return Err(EspNowSecurityError::InvalidMagic);
        }
        if self.bytes[2] != SECURE_VERSION {
            return Err(EspNowSecurityError::UnsupportedVersion);
        }
        if self.bytes[3] != expected_sender.to_byte() {
            return Err(EspNowSecurityError::WrongSenderRole);
        }
        let payload_end: usize = len - SECURE_TAG_LEN;
        assert(frame.take(frame.len() - 8) =~= self.bytes@.subrange(0, payload_end as int));
        assert(frame.skip(frame.len() - 8) =~= self.bytes@.subrange(
            payload_end as int,
            len as int,
        ));
        let expected_tag = authentication_tag(key, part(&self.bytes, 0, payload_end));
        if !constant_time_eq(expected_tag.as_slice(), part(&self.bytes, payload_end, len)) {
            return Err(EspNowSecurityError::AuthenticationFailed);
        }
        let session: u32 = get32(&self.bytes, 4);
        let sequence: u32 = get32(&self.bytes, 8);
        assert(frame.subrange(12, frame.len() - 8) =~= self.bytes@.subrange(
            12,
            payload_end as int,
        ));
        apply_ctr(key, expected_sender, session, sequence, &mut self.bytes, payload_end);
        assert(self.bytes@.subrange(12, payload_end as int) =~= opened(
            frame,
            key@,
            expected_sender,
        ));
        assert(self@ =~= splice(frame, 12, opened(frame, key@, expected_sender)));
        Ok(
            SecureEspNowPayload {
                session,
                sequence,
                bytes: part(&self.bytes, SECURE_HEADER_LEN, payload_end),
            },
        )
    }

    /// The frame of these bytes, which are as many as a frame can have.
    pub fn decode(bytes: &[u8]) -> (r: Result<Self, EspNowSecurityError>)
        ensures
            bytes@.len() > ESPNOW_FRAME_MAX ==> r == Err::<Self, EspNowSecurityError>(
                EspNowSecurityError::PayloadTooLong,
            ),
            bytes@.len() < SECURE_HEADER_LEN + SECURE_TAG_LEN ==> r == Err::<
                Self,
                EspNowSecurityError,
            >(EspNowSecurityError::TooShort),
            SECURE_HEADER_LEN + SECURE_TAG_LEN <= bytes@.len() <= ESPNOW_FRAME_MAX ==> r is Ok
                && r->Ok_0.wf() && r->Ok_0@ == bytes@,
    {
        if bytes.len() > ESPNOW_FRAME_MAX {
            return Err(EspNowSecurityError::PayloadTooLong);
        }
        if bytes.len() < SECURE_HEADER_LEN + SECURE_TAG_LEN {
            return Err(EspNowSecurityError::TooShort);
        }
        let mut frame = Self { bytes: [0;ESPNOW_FRAME_MAX], len: bytes.len() as u8 };
        write_at(&mut frame.bytes, 0, bytes);
        assert(frame@ =~= bytes@);
        Ok(frame)
    }

    /// The frame's bytes.
    pub fn as_bytes(&self) -> (r: &[u8])
        requires
            self.wf(),
        ensures
            r@ == self@,
    {
        let r = part(&self.bytes, 0, self.len as usize);
        assert(r@ =~= self@);
        r
    }
}

/// What a session key is the message code of.
pub open spec fn session_label(host_session: u32, device_session: u32, sender: EspNowRole) -> Seq<
    u8,
> {
    SESSION_KEY_LABEL@ + le32(host_session) + le32(device_session) + seq![sender.byte()]
}

/// The key for one direction of a session of both chips.
///
/// Hello packets keep the pairing key, so that a chip that was rebooted can
/// find the other one. All other packets have a key that is bound to the boot
/// sessions of both chips and to the sender.
pub fn derive_session_key(
    pairing_key: &[u8; ESPNOW_KEY_LEN],
    host_session: u32,
    device_session: u32,
    sender: EspNowRole,
) -> (r: [u8; ESPNOW_KEY_LEN])
    ensures
        r@ == aes128_cmac(pairing_key@, session_label(host_session, device_session, sender)),
{
    let mut message = [0u8; 32];
    let label = SESSION_KEY_LABEL;
    write_at(&mut message, 0, &label);
    write_at(&mut message, 23, &to_le32(host_session));
    write_at(&mut message, 27, &to_le32(device_session));
    message[31] = sender.to_byte();
    assert(message@ =~= session_label(host_session, device_session, sender));
    message_code(pairing_key, message.as_slice())
}

/// Masks or unmasks the payload in front of `end`.
fn apply_ctr(
    key: &[u8; ESPNOW_KEY_LEN],
    role: EspNowRole,
    session: u32,
    sequence: u32,
    bytes: &mut [u8; ESPNOW_FRAME_MAX],
    end: usize,
)
    requires
        12 <= end <= 250,
    ensures
        final(bytes)@ == splice(
            old(bytes)@,
            12,
            masked(key@, role, session, sequence, old(bytes)@.subrange(12, end as int)),
        ),
{
    let ghost before = bytes@;
    let ghost plain = before.subrange(12, end as int);
    let mut mask: [u8; 16] = [0; 16];
    let n: usize = end - SECURE_HEADER_LEN;
    let mut i: usize = 0;
    while i < n
        invariant
            i <= n <= 238,
            n == end - 12,
            bytes@.len() == 250,
            before.len() == 250,
            before == old(bytes)@,
            plain == before.subrange(12, end as int),
            i % 16 != 0 ==> mask@ == aes128_block(
                key@,
                counter_block(role, session, sequence, (i / 16) as u32),
            ),
            forall|j: int| 0 <= j < 12 ==> bytes@[j] == before[j],
            forall|j: int| 12 + i <= j < 250 ==> bytes@[j] == before[j],
            forall|j: int|
                0 <= j < i ==> bytes@[12 + j] == #[trigger] masked(
                    key@,
                    role,
                    session,
                    sequence,
                    plain,
                )[j],
        decreases n - i,
    {
        if i % 16 == 0 {
            let s = to_le32(session);
            let q = to_le32(sequence);
            let b = to_le32((i / 16) as u32);
            let counter = [
                s[0], s[1], s[2], s[3], q[0], q[1], q[2], q[3], role.to_byte(), b[0], b[1], b[2],
                b[3], 0x48, 0x49, 0x44,
            ];
            assert(counter@ =~= counter_block(role, session, sequence, (i / 16) as u32));
            mask = encrypt_block(key, counter);
        }
        let ghost now = bytes@;
        bytes[SECURE_HEADER_LEN + i] = bytes[SECURE_HEADER_LEN + i] ^ mask[i % 16];
        proof {
            assert(plain[i as int] == before[12 + i]);
            assert((i + 1) % 16 != 0 ==> (i + 1) / 16 == i / 16);
        }
        i += 1;
    }
    proof {
        let out = masked(key@, role, session, sequence, plain);
        assert forall|j: int| 0 <= j < 250 implies bytes@[j] == splice(before, 12, out)[j] by {
            if 12 <= j < end {
                assert(bytes@[12 + (j - 12)] == out[j - 12]);
            }
        }
        assert(bytes@ =~= splice(before, 12, out));
    }
}

fn authentication_tag(key: &[u8; ESPNOW_KEY_LEN], bytes: &[u8]) -> (r: [u8; SECURE_TAG_LEN])
    ensures
        r@ == tag_of(key@, bytes@),
{
    let full = message_code(key, bytes);
    let tag = crate::bytes::array_at::<SECURE_TAG_LEN>(full.as_slice(), 0);
    assert(tag@ =~= tag_of(key@, bytes@));
    tag
}

/// Whether the bytes are the same, by looking at all of them in any case.
fn constant_time_eq(expected: &[u8], actual: &[u8]) -> (r: bool)
    ensures
        r == (expected@ == actual@),
{
    if expected.len() != actual.len() {
        return false;
    }
    let mut difference: u8 = 0;
    let mut i: usize = 0;
    assert(expected@.take(0) =~= actual@.take(0));
    while i < expected.len()
        invariant
            i <= expected@.len() == actual@.len(),
            difference == 0 <==> expected@.take(i as int) == actual@.take(i as int),
        decreases expected@.len() - i,
    {
        let left: u8 = expected[i];
        let right: u8 = actual[i];
        proof {
            assert((difference | (left ^ right)) == 0 <==> difference == 0 && left == right)
                by (bit_vector);
            let a = expected@.take(i + 1);
            let b = actual@.take(i + 1);
            assert(a.drop_last() =~= expected@.take(i as int));
            assert(b.drop_last() =~= actual@.take(i as int));
            if a.drop_last() == b.drop_last() && left == right {
                assert(a =~= b);
            }
            if a == b {
                assert(a[i as int] == b[i as int]);
            }
        }
        difference = difference | (left ^ right);
        i += 1;
    }
    assert(expected@.take(i as int) =~= expected@);
    assert(actual@.take(i as int) =~= actual@);
    difference == 0
}

proof fn lemma_masked_twice(
    key: Seq<u8>,
    role: EspNowRole,
    session: u32,
    sequence: u32,
    bytes: Seq<u8>,
)
    ensures
        masked(key, role, session, sequence, masked(key, role, session, sequence, bytes)) == bytes,
{
    let once = masked(key, role, session, sequence, bytes);
    let twice = masked(key, role, session, sequence, once);
    assert forall|i: int| 0 <= i < bytes.len() implies twice[i] == bytes[i] by {
        let b = bytes[i];
        let m = mask_at(key, role, session, sequence, i);
        assert((b ^ m) ^ m == b) by (bit_vector);
    }
    assert(twice =~= bytes);
}

/// A frame that was sealed opens under the same key for the sender that sealed
/// it, and gives back session, sequence and payload.
pub proof fn law_sealed_frame_opens(
    key: Seq<u8>,
    sender: EspNowRole,
    session: u32,
    sequence: u32,
    plaintext: Seq<u8>,
)
    ensures
        ({
            let frame = sealed(key, sender, session, sequence, plaintext);
            &&& open_error(frame, key, sender) is None
            &&& u32_at(frame, 4) == session
            &&& u32_at(frame, 8) == sequence
            &&& opened(frame, key, sender) == plaintext
        }),
{
    let body = sealed_body(key, sender, session, sequence, plaintext);
    let frame = sealed(key, sender, session, sequence, plaintext);
    let n = frame.len() - 8;
    assert(frame.take(n) =~= body);
    assert(frame.skip(n) =~= tag_of(key, body));
    assert(frame.take(2) =~= SECURE_MAGIC@);
    assert(frame.subrange(4, 8) =~= le32(session));
    lemma_u32_in(frame, 4, session);
    assert(frame.subrange(8, 12) =~= le32(sequence));
    lemma_u32_in(frame, 8, sequence);
    assert(frame.subrange(12, n) =~= masked(key, sender, session, sequence, plaintext));
    lemma_masked_twice(key, sender, session, sequence, plaintext);
}

/// A frame that comes back to the chip that sealed it is refused there.
pub proof fn law_reflected_frame_is_refused(
    key: Seq<u8>,
    other_key: Seq<u8>,
    sender: EspNowRole,
    session: u32,
    sequence: u32,
    plaintext: Seq<u8>,
)
    ensures
        open_error(
            sealed(key, sender, session, sequence, plaintext),
            other_key,
            sender.other(),
        ) == Some(EspNowSecurityError::WrongSenderRole),
{
    let frame = sealed(key, sender, session, sequence, plaintext);
    assert(frame.take(2) =~= SECURE_MAGIC@);
}

/// The messages that session keys are codes of differ wherever the sessions or
/// the sender differ.
pub proof fn law_session_labels_differ(
    host_a: u32,
    device_a: u32,
    sender_a: EspNowRole,
    host_b: u32,
    device_b: u32,
    sender_b: EspNowRole,
)
    requires
        session_label(host_a, device_a, sender_a) == session_label(host_b, device_b, sender_b),
    ensures
        host_a == host_b,
        device_a == device_b,
        sender_a == sender_b,
{
    let a = session_label(host_a, device_a, sender_a);
    let b = session_label(host_b, device_b, sender_b);
    assert(a.subrange(23, 27) =~= le32(host_a));
    assert(b.subrange(23, 27) =~= le32(host_b));
    lemma_u32_in(a, 23, host_a);
    lemma_u32_in(b, 23, host_b);
    assert(a.subrange(27, 31) =~= le32(device_a));
    assert(b.subrange(27, 31) =~= le32(device_b));
    lemma_u32_in(a, 27, device_a);
    lemma_u32_in(b, 27, device_b);
    assert(a[31] == sender_a.byte());
    assert(b[31] == sender_b.byte());
}

} // verus!
