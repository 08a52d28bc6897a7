//! Bytes as hexadecimal digits.

use vstd::prelude::*;

use crate::bytes::splice;

verus! {

/// The digit of a number below 16.
pub open spec fn digit_of(value: u8) -> u8 {
    if value < 10 {
        (0x30 + value) as u8
    } else {
        (0x41 + value - 10) as u8
    }
}

/// The number of a digit, in upper or lower case.
pub open spec fn number_of(digit: u8) -> Option<u8> {
    if 0x30 <= digit <= 0x39 {
        Some((digit - 0x30) as u8)
    } else if 0x61 <= digit <= 0x66 {
        Some((digit - 0x61 + 10) as u8)
    } else if 0x41 <= digit <= 0x46 {
        Some((digit - 0x41 + 10) as u8)
    } else {
        None
    }
}

/// The digits of bytes, two for each.
pub open spec fn hex_of(bytes: Seq<u8>) -> Seq<u8> {
    Seq::new(
        2 * bytes.len(),
        |i: int|
            digit_of(
                if i % 2 == 0 {
                    bytes[i / 2] / 16
                } else {
                    bytes[i / 2] % 16
                },
            ),
    )
}

/// Whether all are digits.
pub open spec fn is_hex(digits: Seq<u8>) -> bool {
    forall|i: int| 0 <= i < digits.len() ==> number_of(#[trigger] digits[i]) is Some
}

/// The bytes of digits, one for two.
pub open spec fn unhex(digits: Seq<u8>) -> Seq<u8> {
    Seq::new(
        digits.len() / 2,
        |i: int| (number_of(digits[2 * i])->0 * 16 + number_of(digits[2 * i + 1])->0) as u8,
    )
}

/// The digit of a number below 16.
pub fn hex_digit(value: u8) -> (r: u8)
    requires
        value < 16,
    ensures
        r == digit_of(value),
{
    if value < 10 {
        0x30 + value
    } else {
        0x41 + value - 10
    }
}

/// The number of a digit, in upper or lower case.
pub fn hex_nibble(digit: u8) -> (r: Option<u8>)
    ensures
        r == number_of(digit),
{
    if 0x30 <= digit && digit <= 0x39 {
        Some(digit - 0x30)
    } else if 0x61 <= digit && digit <= 0x66 {
        Some(digit - 0x61 + 10)
    } else if 0x41 <= digit && digit <= 0x46 {
        Some(digit - 0x41 + 10)
    } else {
        None
    }
}

/// The lower-case digit of a number below 16.
pub open spec fn small_digit_of(value: u8) -> u8 {
    if value < 10 {
        (0x30 + value) as u8
    } else {
        (0x61 + value - 10) as u8
    }
}

/// The lower-case digits of bytes, two for each.
pub open spec fn small_hex_of(bytes: Seq<u8>) -> Seq<u8>
    decreases bytes.len(),
{
    if bytes.len() == 0 {
        seq![]
    } else {
        small_hex_of(bytes.drop_last()) + seq![
            small_digit_of(bytes.last() / 16),
            small_digit_of(bytes.last() % 16),
        ]
    }
}

fn small_digit(value: u8) -> (r: u8)
    requires
        value < 16,
    ensures
        r == small_digit_of(value),
{
    if value < 10 {
        0x30 + value
    } else {
        0x61 + value - 10
    }
}

/// Puts the lower-case digits of bytes behind `out`.
pub fn push_small_hex(out: &mut Vec<u8>, bytes: &[u8])
    ensures
        final(out)@ == old(out)@ + small_hex_of(bytes@),
{
    let ghost before = out@;
    let mut i: usize = 0;
    assert(bytes@.take(0) =~= Seq::<u8>::empty());
    assert(out@ =~= before + small_hex_of(bytes@.take(0)));
    while i < bytes.len()
        invariant
            i <= bytes@.len(),
            out@ == before + small_hex_of(bytes@.take(i as int)),
        decreases bytes@.len() - i,
    {
        assert(bytes@.take(i + 1).drop_last() =~= bytes@.take(i as int));
        let byte: u8 = bytes[i];
        out.push(small_digit(byte / 16));
        out.push(small_digit(byte % 16));
        assert(out@ =~= before + small_hex_of(bytes@.take(i + 1)));
        i += 1;
    }
    assert(bytes@.take(i as int) =~= bytes@);
}

/// Writes the digits of bytes from `at` on.
pub fn write_hex(out: &mut [u8], at: usize, bytes: &[u8])
    requires
        at + 2 * bytes@.len() <= old(out)@.len(),
    ensures
        final(out)@ == splice(old(out)@, at as int, hex_of(bytes@)),
{
    let ghost before = out@;
    let total: usize = out.len();
    let mut i: usize = 0;
    while i < bytes.len()
        invariant
            i <= bytes@.len(),
            total == before.len(),
            out@.len() == before.len(),
            at + 2 * bytes@.len() <= total,
            forall|j: int| 0 <= j < at ==> out@[j] == before[j],
            forall|j: int| at + 2 * i <= j < before.len() ==> out@[j] == before[j],
            forall|j: int| 0 <= j < 2 * i ==> out@[at + j] == #[trigger] hex_of(bytes@)[j],
        decreases bytes@.len() - i,
    {
        let byte: u8 = bytes[i];
        let ghost now = out@;
        proof {
            assert((2 * i) / 2 == i && (2 * i) % 2 == 0);
            assert((2 * i + 1) / 2 == i && (2 * i + 1) % 2 == 1);
        }
        out[at + 2 * i] = hex_digit(byte / 16);
        out[at + 2 * i + 1] = hex_digit(byte % 16);
        assert forall|j: int| 0 <= j < 2 * (i + 1) implies out@[at + j] == #[trigger] hex_of(
            bytes@,
        )[j] by {
            if j < 2 * i {
                assert(now[at + j] == hex_of(bytes@)[j]);
            }
        }
        i += 1;
    }
    proof {
        let goal = splice(before, at as int, hex_of(bytes@));
        assert forall|j: int| 0 <= j < before.len() implies out@[j] == goal[j] by {
            if at <= j < at + 2 * bytes@.len() {
                assert(out@[at + (j - at)] == hex_of(bytes@)[j - at]);
            }
        }
        assert(out@ =~= goal);
    }
}

/// The bytes of digits, where all are digits.
pub fn read_hex<const N: usize>(digits: &[u8]) -> (r: Option<[u8; N]>)
    requires
        digits@.len() == 2 * N,
    ensures
        r is Some <==> is_hex(digits@),
        r is Some ==> r->0@ == unhex(digits@),
{
    let n: usize = digits.len();
    let mut out = [0u8; N];
    let mut i: usize = 0;
    while i < N
        invariant
            i <= N,
            n == digits@.len(),
            n == 2 * N,
            out@.len() == N,
            forall|j: int| 0 <= j < 2 * i ==> number_of(#[trigger] digits@[j]) is Some,
            forall|j: int| 0 <= j < i ==> #[trigger] out@[j] == unhex(digits@)[j],
        decreases N - i,
    {
        let high = match hex_nibble(digits[2 * i]) {
            Some(high) => high,
            None => {
                return None;
            },
        };
        let low = match hex_nibble(digits[2 * i + 1]) {
            Some(low) => low,
            None => {
                return None;
            },
        };
        out[i] = high * 16 + low;
        assert forall|j: int| 0 <= j < 2 * (i + 1) implies number_of(
            #[trigger] digits@[j],
        ) is Some by {
            if j >= 2 * i {
                assert(j == 2 * i || j == 2 * i + 1);
            }
        }
        i += 1;
    }
    assert(out@ =~= unhex(digits@));
    Some(out)
}

/// The digits of bytes give them back.
pub proof fn law_hex_round_trip(bytes: Seq<u8>)
    ensures
        is_hex(hex_of(bytes)),
        unhex(hex_of(bytes)) == bytes,
{
    let digits = hex_of(bytes);
    assert forall|i: int| 0 <= i < digits.len() implies number_of(#[trigger] digits[i]) is Some by {
        assert(bytes[i / 2] / 16 < 16);
        assert(bytes[i / 2] % 16 < 16);
    }
    let back = unhex(digits);
    assert forall|i: int| 0 <= i < bytes.len() implies back[i] == bytes[i] by {
        assert((2 * i) / 2 == i && (2 * i) % 2 == 0);
        assert((2 * i + 1) / 2 == i && (2 * i + 1) % 2 == 1);
        let b = bytes[i];
        assert(digits[2 * i] == digit_of(b / 16));
        assert(digits[2 * i + 1] == digit_of(b % 16));
    }
    assert(back =~= bytes);
}

} // verus!
