//! The two cyclic redundancy checks that guard frames and images.

use vstd::prelude::*;

verus! {

/// One shift of the CCITT register, most significant bit first.
pub open spec fn crc16_shift(crc: u16) -> u16 {
    if crc & 0x8000 != 0 {
        (crc << 1) ^ 0x1021
    } else {
        crc << 1
    }
}

/// `n` shifts of the CCITT register.
pub open spec fn crc16_shifts(crc: u16, n: nat) -> u16
    decreases n,
{
    if n == 0 {
        crc
    } else {
        crc16_shift(crc16_shifts(crc, (n - 1) as nat))
    }
}

/// The CCITT register after one more byte.
pub open spec fn crc16_byte(crc: u16, byte: u8) -> u16 {
    crc16_shifts(crc ^ ((byte as u16) << 8), 8)
}

/// The CCITT register after all of `bytes`, from `crc` on.
pub open spec fn crc16_from(crc: u16, bytes: Seq<u8>) -> u16
    decreases bytes.len(),
{
    if bytes.len() == 0 {
        crc
    } else {
        crc16_byte(crc16_from(crc, bytes.drop_last()), bytes.last())
    }
}

/// CRC-16/CCITT-FALSE: polynomial 0x1021, all ones at the start, nothing
/// reflected, nothing added at the end.
pub open spec fn crc16(bytes: Seq<u8>) -> u16 {
    crc16_from(0xffff, bytes)
}

/// One shift of the IEEE register, least significant bit first.
pub open spec fn crc32_shift(crc: u32) -> u32 {
    if crc & 1 != 0 {
        (crc >> 1) ^ 0xedb8_8320
    } else {
        crc >> 1
    }
}

/// `n` shifts of the IEEE register.
pub open spec fn crc32_shifts(crc: u32, n: nat) -> u32
    decreases n,
{
    if n == 0 {
        crc
    } else {
        crc32_shift(crc32_shifts(crc, (n - 1) as nat))
    }
}

/// The IEEE register after one more byte.
pub open spec fn crc32_byte(crc: u32, byte: u8) -> u32 {
    crc32_shifts(crc ^ (byte as u32), 8)
}

/// The IEEE register after all of `bytes`, from `crc` on.
pub open spec fn crc32_from(crc: u32, bytes: Seq<u8>) -> u32
    decreases bytes.len(),
{
    if bytes.len() == 0 {
        crc
    } else {
        crc32_byte(crc32_from(crc, bytes.drop_last()), bytes.last())
    }
}

/// CRC-32 as IEEE 802.3 has it: reflected polynomial 0xedb88320, all ones at
/// the start, inverted at the end.
pub open spec fn crc32(bytes: Seq<u8>) -> u32 {
    !crc32_from(0xffff_ffff, bytes)
}

/// Runs the eight shifts of one byte.
fn crc16_next(crc: u16, byte: u8) -> (r: u16)
    ensures
        r == crc16_byte(crc, byte),
{
    let mut state: u16 = crc ^ ((byte as u16) << 8);
    let ghost start = state;
    let mut n: usize = 0;
    while n < 8
        invariant
            n <= 8,
            start == crc ^ ((byte as u16) << 8),
            state == crc16_shifts(start, n as nat),
        decreases 8 - n,
    {
        state = if state & 0x8000 != 0 {
            (state << 1) ^ 0x1021
        } else {
            state << 1
        };
        n += 1;
    }
    state
}

/// Continues a CCITT checksum over more bytes.
pub fn crc16_continue(crc: u16, bytes: &[u8]) -> (r: u16)
    ensures
        r == crc16_from(crc, bytes@),
{
    let mut state: u16 = crc;
    let mut i: usize = 0;
    while i < bytes.len()
        invariant
            i <= bytes@.len(),
            state == crc16_from(crc, bytes@.subrange(0, i as int)),
        decreases bytes@.len() - i,
    {
        state = crc16_next(state, bytes[i]);
        proof {
            let next = bytes@.subrange(0, i + 1);
            assert(next.drop_last() =~= bytes@.subrange(0, i as int));
        }
        i += 1;
    }
    assert(bytes@.subrange(0, i as int) =~= bytes@);
    state
}

/// The CRC-16/CCITT-FALSE of `bytes`.
pub fn crc16_ccitt_false(bytes: &[u8]) -> (r: u16)
    ensures
        r == crc16(bytes@),
{
    crc16_continue(0xffff, bytes)
}

/// The IEEE CRC-32 of `bytes`.
pub fn crc32_ieee(bytes: &[u8]) -> (r: u32)
    ensures
        r == crc32(bytes@),
{
    let mut crc = Crc32::new();
    crc.update(bytes);
    crc.finalize()
}

/// An IEEE CRC-32 that takes its bytes in pieces.
#[derive(Clone, Copy, Debug, PartialEq, Eq, Structural)]
pub struct Crc32 {
    state: u32,
}

impl Crc32 {
    /// The register as it stands.
    pub closed spec fn register(self) -> u32 {
        self.state
    }

    /// A checksum over no bytes yet.
    pub fn new() -> (r: Self)
        ensures
            r.register() == 0xffff_ffff,
    {
        Self { state: 0xffff_ffff }
    }

    /// Adds `bytes` to what the checksum covers.
    pub fn update(&mut self, bytes: &[u8])
        ensures
            final(self).register() == crc32_from(old(self).register(), bytes@),
    {
        let mut i: usize = 0;
        while i < bytes.len()
            invariant
                i <= bytes@.len(),
                self.state == crc32_from(old(self).state, bytes@.subrange(0, i as int)),
            decreases bytes@.len() - i,
        {
            self.state = crc32_next(self.state, bytes[i]);
            proof {
                let next = bytes@.subrange(0, i + 1);
                assert(next.drop_last() =~= bytes@.subrange(0, i as int));
            }
            i += 1;
        }
        assert(bytes@.subrange(0, i as int) =~= bytes@);
    }

    /// The checksum of all bytes so far.
    pub fn finalize(self) -> (r: u32)
        ensures
            r == !self.register(),
    {
        !self.state
    }
}

impl Default for Crc32 {
    fn default() -> (r: Self)
        ensures
            r.register() == 0xffff_ffff,
    {
        Self::new()
    }
}

/// Runs the eight shifts of one byte.
fn crc32_next(crc: u32, byte: u8) -> (r: u32)
    ensures
        r == crc32_byte(crc, byte),
{
    let mut state: u32 = crc ^ (byte as u32);
    let ghost start = state;
    let mut n: usize = 0;
    while n < 8
        invariant
            n <= 8,
            start == crc ^ (byte as u32),
            state == crc32_shifts(start, n as nat),
        decreases 8 - n,
    {
        state = if state & 1 != 0 {
            (state >> 1) ^ 0xedb8_8320
        } else {
            state >> 1
        };
        n += 1;
    }
    state
}

/// A CCITT checksum over two pieces is that of the pieces put together.
pub proof fn law_crc16_pieces(crc: u16, a: Seq<u8>, b: Seq<u8>)
    ensures
        crc16_from(crc16_from(crc, a), b) == crc16_from(crc, a + b),
    decreases b.len(),
{
    if b.len() == 0 {
        assert(a + b =~= a);
    } else {
        law_crc16_pieces(crc, a, b.drop_last());
        assert((a + b).drop_last() =~= a + b.drop_last());
        assert((a + b).last() == b.last());
    }
}

/// An IEEE checksum over two pieces is that of the pieces put together, so
/// that updating in pieces gives what one call over all bytes gives.
pub proof fn law_crc32_pieces(crc: u32, a: Seq<u8>, b: Seq<u8>)
    ensures
        crc32_from(crc32_from(crc, a), b) == crc32_from(crc, a + b),
    decreases b.len(),
{
    if b.len() == 0 {
        assert(a + b =~= a);
    } else {
        law_crc32_pieces(crc, a, b.drop_last());
        assert((a + b).drop_last() =~= a + b.drop_last());
        assert((a + b).last() == b.last());
    }
}

proof fn lemma_crc16_shifts_injective(a: u16, b: u16, n: nat)
    requires
        a != b,
    ensures
        crc16_shifts(a, n) != crc16_shifts(b, n),
    decreases n,
{
    if n > 0 {
        lemma_crc16_shifts_injective(a, b, (n - 1) as nat);
        let x = crc16_shifts(a, (n - 1) as nat);
        let y = crc16_shifts(b, (n - 1) as nat);
        assert(x != y ==> (if x & 0x8000 != 0 {
            (x << 1) ^ 0x1021
        } else {
            x << 1
        }) != (if y & 0x8000 != 0 {
            (y << 1) ^ 0x1021
        } else {
            y << 1
        })) by (bit_vector);
    }
}

proof fn lemma_crc32_shifts_injective(a: u32, b: u32, n: nat)
    requires
        a != b,
    ensures
        crc32_shifts(a, n) != crc32_shifts(b, n),
    decreases n,
{
    if n > 0 {
        lemma_crc32_shifts_injective(a, b, (n - 1) as nat);
        let x = crc32_shifts(a, (n - 1) as nat);
        let y = crc32_shifts(b, (n - 1) as nat);
        assert(x != y ==> (if x & 1 != 0 {
            (x >> 1) ^ 0xedb8_8320
        } else {
            x >> 1
        }) != (if y & 1 != 0 {
            (y >> 1) ^ 0xedb8_8320
        } else {
            y >> 1
        })) by (bit_vector);
    }
}

proof fn lemma_crc16_from_injective(x: u16, y: u16, bytes: Seq<u8>)
    requires
        x != y,
    ensures
        crc16_from(x, bytes) != crc16_from(y, bytes),
    decreases bytes.len(),
{
    if bytes.len() > 0 {
        lemma_crc16_from_injective(x, y, bytes.drop_last());
        let p = crc16_from(x, bytes.drop_last());
        let q = crc16_from(y, bytes.drop_last());
        let d = bytes.last();
        assert(p != q ==> p ^ ((d as u16) << 8) != q ^ ((d as u16) << 8)) by (bit_vector);
        lemma_crc16_shifts_injective(p ^ ((d as u16) << 8), q ^ ((d as u16) << 8), 8);
    }
}

proof fn lemma_crc32_from_injective(x: u32, y: u32, bytes: Seq<u8>)
    requires
        x != y,
    ensures
        crc32_from(x, bytes) != crc32_from(y, bytes),
    decreases bytes.len(),
{
    if bytes.len() > 0 {
        lemma_crc32_from_injective(x, y, bytes.drop_last());
        let p = crc32_from(x, bytes.drop_last());
        let q = crc32_from(y, bytes.drop_last());
        let d = bytes.last();
        assert(p != q ==> p ^ (d as u32) != q ^ (d as u32)) by (bit_vector);
        lemma_crc32_shifts_injective(p ^ (d as u32), q ^ (d as u32), 8);
    }
}

/// A frame in which one byte was changed has another CCITT checksum.
pub proof fn law_crc16_detects_a_changed_byte(bytes: Seq<u8>, at: int, byte: u8)
    requires
        0 <= at < bytes.len(),
        byte != bytes[at],
    ensures
        crc16(bytes.update(at, byte)) != crc16(bytes),
{
    let head = bytes.subrange(0, at);
    let tail = bytes.subrange(at + 1, bytes.len() as int);
    let old_byte = bytes[at];
    assert(bytes =~= head.push(old_byte) + tail);
    assert(bytes.update(at, byte) =~= head.push(byte) + tail);
    law_crc16_pieces(0xffff, head.push(old_byte), tail);
    law_crc16_pieces(0xffff, head.push(byte), tail);
    assert(head.push(old_byte).drop_last() =~= head);
    assert(head.push(byte).drop_last() =~= head);
    let c = crc16_from(0xffff, head);
    assert(byte != old_byte ==> c ^ ((byte as u16) << 8) != c ^ ((old_byte as u16) << 8))
        by (bit_vector);
    lemma_crc16_shifts_injective(c ^ ((byte as u16) << 8), c ^ ((old_byte as u16) << 8), 8);
    lemma_crc16_from_injective(
        crc16_from(0xffff, head.push(byte)),
        crc16_from(0xffff, head.push(old_byte)),
        tail,
    );
}

/// An image in which one byte was changed has another IEEE checksum.
pub proof fn law_crc32_detects_a_changed_byte(bytes: Seq<u8>, at: int, byte: u8)
    requires
        0 <= at < bytes.len(),
        byte != bytes[at],
    ensures
        crc32(bytes.update(at, byte)) != crc32(bytes),
{
    let head = bytes.subrange(0, at);
    let tail = bytes.subrange(at + 1, bytes.len() as int);
    let old_byte = bytes[at];
    assert(bytes =~= head.push(old_byte) + tail);
    assert(bytes.update(at, byte) =~= head.push(byte) + tail);
    law_crc32_pieces(0xffff_ffff, head.push(old_byte), tail);
    law_crc32_pieces(0xffff_ffff, head.push(byte), tail);
    assert(head.push(old_byte).drop_last() =~= head);
    assert(head.push(byte).drop_last() =~= head);
    let c = crc32_from(0xffff_ffff, head);
    assert(byte != old_byte ==> c ^ (byte as u32) != c ^ (old_byte as u32)) by (bit_vector);
    lemma_crc32_shifts_injective(c ^ (byte as u32), c ^ (old_byte as u32), 8);
    lemma_crc32_from_injective(
        crc32_from(0xffff_ffff, head.push(byte)),
        crc32_from(0xffff_ffff, head.push(old_byte)),
        tail,
    );
    let p = crc32_from(0xffff_ffff, bytes.update(at, byte));
    let q = crc32_from(0xffff_ffff, bytes);
    assert(p != q ==> !p != !q) by (bit_vector);
}

} // verus!
