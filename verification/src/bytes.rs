//! Little-endian fields and copies inside byte buffers.

use vstd::prelude::*;

verus! {

/// The two little-endian bytes of `x`.
pub open spec fn le16(x: u16) -> Seq<u8> {
    seq![(x % 256) as u8, (x / 256) as u8]
}

/// The four little-endian bytes of `x`.
pub open spec fn le32(x: u32) -> Seq<u8> {
    seq![
        (x % 256) as u8,
        ((x / 0x100) % 256) as u8,
        ((x / 0x1_0000) % 256) as u8,
        (x / 0x100_0000) as u8,
    ]
}

/// The eight little-endian bytes of `x`.
#[verifier::opaque]
pub open spec fn le64(x: u64) -> Seq<u8> {
    le32((x % 0x1_0000_0000) as u32) + le32((x / 0x1_0000_0000) as u32)
}

/// The 16-bit number whose little-endian bytes are `low` and `high`.
pub open spec fn join16(low: u8, high: u8) -> u16 {
    (low + 0x100 * high) as u16
}

/// The 32-bit number with these little-endian bytes.
pub open spec fn join32(b0: u8, b1: u8, b2: u8, b3: u8) -> u32 {
    (b0 + 0x100 * b1 + 0x1_0000 * b2 + 0x100_0000 * b3) as u32
}

/// The 16-bit little-endian number at `at` in `s`.
pub open spec fn u16_at(s: Seq<u8>, at: int) -> u16 {
    join16(s[at], s[at + 1])
}

/// The 32-bit little-endian number at `at` in `s`.
pub open spec fn u32_at(s: Seq<u8>, at: int) -> u32 {
    join32(s[at], s[at + 1], s[at + 2], s[at + 3])
}

/// The 64-bit little-endian number at `at` in `s`.
pub open spec fn u64_at(s: Seq<u8>, at: int) -> u64 {
    (u32_at(s, at) + 0x1_0000_0000 * u32_at(s, at + 4)) as u64
}

/// The two's complement bits of `x`.
pub open spec fn bits32(x: i32) -> u32 {
    if x >= 0 {
        x as u32
    } else {
        (x + 0x1_0000_0000) as u32
    }
}

/// The signed number whose two's complement bits are `x`.
pub open spec fn signed32(x: u32) -> i32 {
    if x < 0x8000_0000 {
        x as i32
    } else {
        (x - 0x1_0000_0000) as i32
    }
}

/// The two's complement bits of `x`.
pub open spec fn bits8(x: i8) -> u8 {
    if x >= 0 {
        x as u8
    } else {
        (x + 0x100) as u8
    }
}

/// The signed number whose two's complement bits are `x`.
pub open spec fn signed8(x: u8) -> i8 {
    if x < 0x80 {
        x as i8
    } else {
        (x - 0x100) as i8
    }
}

/// The two's complement bits of `x`.
pub open spec fn bits16(x: i16) -> u16 {
    if x >= 0 {
        x as u16
    } else {
        (x + 0x1_0000) as u16
    }
}

/// The signed number whose two's complement bits are `x`.
pub open spec fn signed16(x: u16) -> i16 {
    if x < 0x8000 {
        x as i16
    } else {
        (x - 0x1_0000) as i16
    }
}

/// `s` with the bytes from `at` on replaced by `data`.
pub open spec fn splice<T>(s: Seq<T>, at: int, data: Seq<T>) -> Seq<T> {
    Seq::new(
        s.len(),
        |i: int|
            if at <= i < at + data.len() {
                data[i - at]
            } else {
                s[i]
            },
    )
}

/// `n` zero bytes.
pub open spec fn zeros(n: nat) -> Seq<u8> {
    Seq::new(n, |i: int| 0u8)
}

/// `s` followed by zero bytes, up to a length of `n`.
pub open spec fn padded(s: Seq<u8>, n: nat) -> Seq<u8> {
    s + zeros((n - s.len()) as nat)
}

/// The bytes of a 16-bit number give it back.
pub broadcast proof fn lemma_le16(x: u16)
    ensures
        (#[trigger] le16(x)).len() == 2,
        join16(le16(x)[0], le16(x)[1]) == x,
{
}

/// The bytes of a 32-bit number give it back.
pub broadcast proof fn lemma_le32(x: u32)
    ensures
        (#[trigger] le32(x)).len() == 4,
        join32(le32(x)[0], le32(x)[1], le32(x)[2], le32(x)[3]) == x,
{
}

/// A 64-bit number has eight bytes.
pub broadcast proof fn lemma_le64_len(x: u64)
    ensures
        (#[trigger] le64(x)).len() == 8,
{
    lemma_le64(x);
}

/// The bytes of a 64-bit number give it back.
pub proof fn lemma_le64(x: u64)
    ensures
        le64(x).len() == 8,
        u64_at(le64(x), 0) == x,
{
    reveal(le64);
    lemma_le32((x % 0x1_0000_0000) as u32);
    lemma_le32((x / 0x1_0000_0000) as u32);
    let low = le32((x % 0x1_0000_0000) as u32);
    let high = le32((x / 0x1_0000_0000) as u32);
    assert(u32_at(le64(x), 0) == join32(low[0], low[1], low[2], low[3]));
    assert(u32_at(le64(x), 4) == join32(high[0], high[1], high[2], high[3]));
}

/// A part of what stands at `at` is a part of the whole.
pub proof fn lemma_part_of_part(bytes: Seq<u8>, at: int, b: Seq<u8>, from: int, to: int)
    requires
        0 <= at,
        at + b.len() <= bytes.len(),
        bytes.subrange(at, at + b.len()) == b,
        0 <= from <= to <= b.len(),
    ensures
        bytes.subrange(at + from, at + to) == b.subrange(from, to),
{
    let whole = bytes.subrange(at, at + b.len());
    assert(bytes.subrange(at + from, at + to) =~= whole.subrange(from, to));
}

/// A 16-bit field is read back from where it was written.
pub proof fn lemma_u16_in(bytes: Seq<u8>, at: int, x: u16)
    requires
        0 <= at,
        at + 2 <= bytes.len(),
        bytes.subrange(at, at + 2) == le16(x),
    ensures
        u16_at(bytes, at) == x,
{
    lemma_le16(x);
    let sub = bytes.subrange(at, at + 2);
    assert(sub[0] == bytes[at] && sub[1] == bytes[at + 1]);
}

/// A 32-bit field is read back from where it was written.
pub proof fn lemma_u32_in(bytes: Seq<u8>, at: int, x: u32)
    requires
        0 <= at,
        at + 4 <= bytes.len(),
        bytes.subrange(at, at + 4) == le32(x),
    ensures
        u32_at(bytes, at) == x,
{
    lemma_le32(x);
    let sub = bytes.subrange(at, at + 4);
    assert(sub[0] == bytes[at] && sub[1] == bytes[at + 1] && sub[2] == bytes[at + 2] && sub[3]
        == bytes[at + 3]);
}

/// A 64-bit field is read back from where it was written.
pub proof fn lemma_u64_in(bytes: Seq<u8>, at: int, x: u64)
    requires
        0 <= at,
        at + 8 <= bytes.len(),
        bytes.subrange(at, at + 8) == le64(x),
    ensures
        u64_at(bytes, at) == x,
{
    lemma_le64(x);
    let sub = bytes.subrange(at, at + 8);
    assert(forall|i: int| 0 <= i < 8 ==> sub[i] == bytes[at + i]);
    assert(u32_at(bytes, at) == u32_at(sub, 0));
    assert(u32_at(bytes, at + 4) == u32_at(sub, 4));
}

/// Two bytes give the number that has them as its bytes.
pub proof fn lemma_join16(low: u8, high: u8)
    ensures
        le16(join16(low, high)) == seq![low, high],
{
    assert(le16(join16(low, high)) =~= seq![low, high]);
}

/// Four bytes give the number that has them as its bytes.
pub proof fn lemma_join32(b0: u8, b1: u8, b2: u8, b3: u8)
    ensures
        le32(join32(b0, b1, b2, b3)) == seq![b0, b1, b2, b3],
{
    let x = join32(b0, b1, b2, b3) as int;
    let y = b1 + 0x100 * b2 + 0x1_0000 * b3;
    let z = b2 + 0x100 * b3;
    assert(x == b0 + 0x100 * y);
    assert(x % 0x100 == b0 && x / 0x100 == y);
    assert(y == b1 + 0x100 * z);
    assert(y % 0x100 == b1 && y / 0x100 == z);
    assert(x / 0x1_0000 == z);
    assert(z % 0x100 == b2 && z / 0x100 == b3);
    assert(x / 0x100_0000 == b3);
    assert(le32(x as u32) =~= seq![b0, b1, b2, b3]);
}

/// The little-endian bytes of `x`.
pub fn to_le16(x: u16) -> (r: [u8; 2])
    ensures
        r@ == le16(x),
{
    let r = [(x % 256) as u8, (x / 256) as u8];
    assert(r@ =~= le16(x));
    r
}

/// The little-endian bytes of `x`.
pub fn to_le32(x: u32) -> (r: [u8; 4])
    ensures
        r@ == le32(x),
{
    let r = [
        (x % 256) as u8,
        ((x / 0x100) % 256) as u8,
        ((x / 0x1_0000) % 256) as u8,
        (x / 0x100_0000) as u8,
    ];
    assert(r@ =~= le32(x));
    r
}

/// The little-endian bytes of `x`.
pub fn to_le64(x: u64) -> (r: [u8; 8])
    ensures
        r@ == le64(x),
        r@.len() == 8,
{
    let a = to_le32((x % 0x1_0000_0000) as u32);
    let b = to_le32((x / 0x1_0000_0000) as u32);
    let r = [a[0], a[1], a[2], a[3], b[0], b[1], b[2], b[3]];
    proof {
        reveal(le64);
    }
    assert(r@ =~= le64(x));
    r
}

/// The number with these little-endian bytes.
pub fn from_le16(low: u8, high: u8) -> (r: u16)
    ensures
        r == join16(low, high),
{
    low as u16 + 0x100 * (high as u16)
}

/// The number with these little-endian bytes.
pub fn from_le32(b0: u8, b1: u8, b2: u8, b3: u8) -> (r: u32)
    ensures
        r == join32(b0, b1, b2, b3),
{
    b0 as u32 + 0x100 * (b1 as u32) + 0x1_0000 * (b2 as u32) + 0x100_0000 * (b3 as u32)
}

/// The 16-bit number at `at`.
pub fn get16(s: &[u8], at: usize) -> (r: u16)
    requires
        at + 2 <= s@.len(),
    ensures
        r == u16_at(s@, at as int),
{
    from_le16(s[at], s[at + 1])
}

/// The 32-bit number at `at`.
pub fn get32(s: &[u8], at: usize) -> (r: u32)
    requires
        at + 4 <= s@.len(),
    ensures
        r == u32_at(s@, at as int),
{
    from_le32(s[at], s[at + 1], s[at + 2], s[at + 3])
}

/// The 64-bit number at `at`.
pub fn get64(s: &[u8], at: usize) -> (r: u64)
    requires
        at + 8 <= s@.len(),
    ensures
        r == u64_at(s@, at as int),
{
    let n: usize = s.len();
    assert(at + 8 <= n);
    get32(s, at) as u64 + 0x1_0000_0000 * (get32(s, at + 4) as u64)
}

/// The two's complement bits of `x`.
pub fn to_bits32(x: i32) -> (r: u32)
    ensures
        r == bits32(x),
        signed32(r) == x,
{
    if x >= 0 {
        x as u32
    } else {
        (x as i64 + 0x1_0000_0000) as u32
    }
}

/// The signed number with the bits `x`.
pub fn from_bits32(x: u32) -> (r: i32)
    ensures
        r == signed32(x),
        bits32(r) == x,
{
    if x < 0x8000_0000 {
        x as i32
    } else {
        (x as i64 - 0x1_0000_0000) as i32
    }
}

/// The two's complement bits of `x`.
pub fn to_bits16(x: i16) -> (r: u16)
    ensures
        r == bits16(x),
        signed16(r) == x,
{
    if x >= 0 {
        x as u16
    } else {
        (x as i32 + 0x1_0000) as u16
    }
}

/// The signed number with the bits `x`.
pub fn from_bits16(x: u16) -> (r: i16)
    ensures
        r == signed16(x),
        bits16(r) == x,
{
    if x < 0x8000 {
        x as i16
    } else {
        (x as i32 - 0x1_0000) as i16
    }
}

/// The two's complement bits of `x`.
pub fn to_bits8(x: i8) -> (r: u8)
    ensures
        r == bits8(x),
        signed8(r) == x,
{
    if x >= 0 {
        x as u8
    } else {
        (x as i16 + 0x100) as u8
    }
}

/// The signed number with the bits `x`.
pub fn from_bits8(x: u8) -> (r: i8)
    ensures
        r == signed8(x),
        bits8(r) == x,
{
    if x < 0x80 {
        x as i8
    } else {
        (x as i16 - 0x100) as i8
    }
}

/// Copies `data` into `out` from `at` on.
pub fn write_at(out: &mut [u8], at: usize, data: &[u8])
    requires
        at + data@.len() <= old(out)@.len(),
    ensures
        final(out)@ == splice(old(out)@, at as int, data@),
{
    let n: usize = out.len();
    let mut i: usize = 0;
    while i < data.len()
        invariant
            n == out@.len(),
            i <= data@.len(),
            at + data@.len() <= out@.len(),
            out@ == splice(old(out)@, at as int, data@.subrange(0, i as int)),
        decreases data@.len() - i,
    {
        out[at + i] = data[i];
        i += 1;
        assert(out@ =~= splice(old(out)@, at as int, data@.subrange(0, i as int)));
    }
    assert(data@.subrange(0, i as int) =~= data@);
    assert(out@ =~= splice(old(out)@, at as int, data@));
}

/// Writes `head` and `tail` one after the other to the front of `out`.
pub fn write_front(out: &mut [u8], head: &[u8], tail: &[u8])
    requires
        head@.len() + tail@.len() <= old(out)@.len(),
    ensures
        final(out)@ == head@ + tail@ + old(out)@.skip((head@.len() + tail@.len()) as int),
{
    write_at(out, 0, head);
    write_at(out, head.len(), tail);
    assert(out@ =~= head@ + tail@ + old(out)@.skip((head@.len() + tail@.len()) as int));
}

/// Sets every byte of `out` to zero.
pub fn fill_zero(out: &mut [u8])
    ensures
        final(out)@ == zeros(old(out)@.len()),
{
    let n: usize = out.len();
    let mut i: usize = 0;
    while i < n
        invariant
            i <= n,
            n == out@.len(),
            n == old(out)@.len(),
            forall|j: int| 0 <= j < i ==> out@[j] == 0,
        decreases n - i,
    {
        out[i] = 0;
        i += 1;
    }
    assert(out@ =~= zeros(old(out)@.len()));
}

/// The bytes of `s` from `start` up to `end`.
pub fn part<'a>(s: &'a [u8], start: usize, end: usize) -> (r: &'a [u8])
    requires
        start <= end <= s@.len(),
    ensures
        r@ == s@.subrange(start as int, end as int),
{
    vstd::slice::slice_subrange(s, start, end)
}

/// The `N` bytes from `at` on.
pub fn array_at<const N: usize>(s: &[u8], at: usize) -> (r: [u8; N])
    requires
        at + N <= s@.len(),
    ensures
        r@ == s@.subrange(at as int, at + N),
{
    let n: usize = s.len();
    let mut r = [0u8; N];
    let mut i: usize = 0;
    while i < N
        invariant
            i <= N,
            n == s@.len(),
            at + N <= n,
            r@.len() == N,
            forall|j: int| 0 <= j < i ==> #[trigger] r@[j] == s@[at + j],
        decreases N - i,
    {
        r[i] = s[at + i];
        i += 1;
    }
    assert(r@ =~= s@.subrange(at as int, at + N));
    r
}

/// Whether the two slices hold the same bytes.
pub fn same_bytes(a: &[u8], b: &[u8]) -> (r: bool)
    ensures
        r == (a@ == b@),
{
    if a.len() != b.len() {
        return false;
    }
    let mut i: usize = 0;
    while i < a.len()
        invariant
            i <= a@.len(),
            a@.len() == b@.len(),
            a@.subrange(0, i as int) =~= b@.subrange(0, i as int),
        decreases a@.len() - i,
    {
        if a[i] != b[i] {
            assert(a@[i as int] != b@[i as int]);
            return false;
        }
        assert(a@.subrange(0, i + 1) =~= a@.subrange(0, i as int).push(a@[i as int]));
        assert(b@.subrange(0, i + 1) =~= b@.subrange(0, i as int).push(b@[i as int]));
        i += 1;
    }
    assert(a@.subrange(0, i as int) =~= a@);
    assert(b@.subrange(0, i as int) =~= b@);
    true
}

/// Whether every byte from `start` up to `end` is zero.
pub fn all_zero(s: &[u8], start: usize, end: usize) -> (r: bool)
    requires
        start <= end <= s@.len(),
    ensures
        r == (forall|i: int| start <= i < end ==> s@[i] == 0),
{
    let mut i: usize = start;
    while i < end
        invariant
            start <= i <= end <= s@.len(),
            forall|j: int| start <= j < i ==> s@[j] == 0,
        decreases end - i,
    {
        if s[i] != 0 {
            return false;
        }
        i += 1;
    }
    true
}

} // verus!
