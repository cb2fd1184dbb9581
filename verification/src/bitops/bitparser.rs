use vstd::prelude::*;
use vstd::slice::slice_subrange;

use crate::bitops::lfsr::{lfsr_bit, lfsr_iter, LFSR0221};

verus! {

/// A sequence is a bit stream: every element is 0 or 1.
pub open spec fn is_bits(s: Seq<u8>) -> bool {
    forall|i: int| 0 <= i < s.len() ==> #[trigger] s[i] <= 1
}

/// Bit `j` (least significant first) of byte `b`.
pub open spec fn bit_of(b: u8, j: int) -> u8 {
    (b >> (j as u8)) & 1
}

/// The eight bits of `b`, least significant first.
pub open spec fn bits_of_byte(b: u8) -> Seq<u8> {
    Seq::new(8, |j: int| bit_of(b, j))
}

/// The byte whose bits, least significant first, are the first eight
/// elements of `s`.
pub open spec fn byte_val(s: Seq<u8>) -> u8
    recommends
        s.len() == 8,
        is_bits(s),
{
    (s[0] + 2 * s[1] + 4 * s[2] + 8 * s[3] + 16 * s[4] + 32 * s[5] + 64 * s[6] + 128 * s[7]) as u8
}

/// Every bit of the zero byte is zero.
pub proof fn lemma_byte_zero_bits()
    ensures
        forall|j: int| 0 <= j < 8 ==> #[trigger] bit_of(0u8, j) == 0,
{
    assert forall|j: int| 0 <= j < 8 implies #[trigger] bit_of(0u8, j) == 0 by {
        let ju = j as u8;
        assert(ju < 8 ==> (0u8 >> ju) & 1 == 0) by (bit_vector);
    }
}

pub proof fn lemma_bit_of_le_1(b: u8, j: int)
    requires
        0 <= j < 8,
    ensures
        bit_of(b, j) <= 1,
{
    let ju = j as u8;
    assert(ju < 8 ==> (b >> ju) & 1 <= 1) by (bit_vector);
}

/// The bits of `byte_val(s)` are the elements of `s`.
pub proof fn lemma_byte_val_bits(s: Seq<u8>)
    requires
        s.len() == 8,
        is_bits(s),
    ensures
        forall|j: int| 0 <= j < 8 ==> #[trigger] bit_of(byte_val(s), j) == s[j],
{
    let b0 = s[0];
    let b1 = s[1];
    let b2 = s[2];
    let b3 = s[3];
    let b4 = s[4];
    let b5 = s[5];
    let b6 = s[6];
    let b7 = s[7];
    assert(0 <= b0 + 2 * b1 + 4 * b2 + 8 * b3 + 16 * b4 + 32 * b5 + 64 * b6 + 128 * b7 < 256);
    let v = byte_val(s);
    assert(v == b0 + 2 * b1 + 4 * b2 + 8 * b3 + 16 * b4 + 32 * b5 + 64 * b6 + 128 * b7);
    assert((b0 <= 1 && b1 <= 1 && b2 <= 1 && b3 <= 1 && b4 <= 1 && b5 <= 1 && b6 <= 1 && b7 <= 1
        && v == b0 + 2 * b1 + 4 * b2 + 8 * b3 + 16 * b4 + 32 * b5 + 64 * b6 + 128 * b7) ==> ((v
        >> 0u8) & 1 == b0 && (v >> 1u8) & 1 == b1 && (v >> 2u8) & 1 == b2 && (v >> 3u8) & 1 == b3
        && (v >> 4u8) & 1 == b4 && (v >> 5u8) & 1 == b5 && (v >> 6u8) & 1 == b6 && (v >> 7u8) & 1
        == b7)) by (bit_vector);
    assert forall|j: int| 0 <= j < 8 implies #[trigger] bit_of(byte_val(s), j) == s[j] by {
        if j == 0 {
        } else if j == 1 {
        } else if j == 2 {
        } else if j == 3 {
        } else if j == 4 {
        } else if j == 5 {
        } else if j == 6 {
        } else {
        }
    }
}

/// A byte is recovered from its own bit sequence.
pub proof fn lemma_byte_val_of_bits_of_byte(b: u8)
    ensures
        byte_val(bits_of_byte(b)) == b,
{
    assert(((b >> 0u8) & 1) + 2 * ((b >> 1u8) & 1) + 4 * ((b >> 2u8) & 1) + 8 * ((b >> 3u8) & 1)
        + 16 * ((b >> 4u8) & 1) + 32 * ((b >> 5u8) & 1) + 64 * ((b >> 6u8) & 1) + 128 * ((b
        >> 7u8) & 1) == b) by (bit_vector);
    assert((b >> 0u8) & 1 <= 1 && (b >> 1u8) & 1 <= 1 && (b >> 2u8) & 1 <= 1 && (b >> 3u8) & 1 <= 1
        && (b >> 4u8) & 1 <= 1 && (b >> 5u8) & 1 <= 1 && (b >> 6u8) & 1 <= 1 && (b >> 7u8) & 1
        <= 1) by (bit_vector);
}

/// Two bytes with the same eight bits are equal.
pub proof fn lemma_byte_eq_by_bits(a: u8, b: u8)
    requires
        forall|j: int| 0 <= j < 8 ==> #[trigger] bit_of(a, j) == bit_of(b, j),
    ensures
        a == b,
{
    assert(((a >> 0u8) & 1 == (b >> 0u8) & 1 && (a >> 1u8) & 1 == (b >> 1u8) & 1 && (a >> 2u8) & 1
        == (b >> 2u8) & 1 && (a >> 3u8) & 1 == (b >> 3u8) & 1 && (a >> 4u8) & 1 == (b >> 4u8) & 1
        && (a >> 5u8) & 1 == (b >> 5u8) & 1 && (a >> 6u8) & 1 == (b >> 6u8) & 1 && (a >> 7u8) & 1
        == (b >> 7u8) & 1) ==> a == b) by (bit_vector);
    assert(bit_of(a, 0) == bit_of(b, 0));
    assert(bit_of(a, 1) == bit_of(b, 1));
    assert(bit_of(a, 2) == bit_of(b, 2));
    assert(bit_of(a, 3) == bit_of(b, 3));
    assert(bit_of(a, 4) == bit_of(b, 4));
    assert(bit_of(a, 5) == bit_of(b, 5));
    assert(bit_of(a, 6) == bit_of(b, 6));
    assert(bit_of(a, 7) == bit_of(b, 7));
}

/// The result of the Bluetooth-Classic access-code search, kept only to tell
/// Classic streams from BLE ones.
#[derive(Debug)]
pub struct Lap {
    pub lap: Option<u32>,
}

impl Lap {
    /// A stream is treated as BLE when the Classic search found nothing, or
    /// found only the all-ones sentinel.
    pub fn is_valid_as_ble(&self) -> (r: bool)
        ensures
            r <==> (self.lap is None || self.lap == Some(0xffffffffu32)),
    {
        if let Some(lap) = self.lap {
            return lap == 0xffffffff;
        }

        true
    }
}

/// The six alternating bits are a preamble, tolerant of phase: bits 0, 2, 4
/// agree and bits 1, 3, 5 agree.
pub open spec fn preamble_ok(s: Seq<u8>) -> bool {
    s.len() >= 6 && s[0] == s[2] && s[1] == s[3] && s[2] == s[4] && s[3] == s[5]
}

#[derive(Debug)]
pub struct Preamble {}

impl Preamble {
    pub fn parse(input: &[u8]) -> (r: Option<(&[u8], Self)>)
        ensures
            r is Some <==> preamble_ok(input@),
            r matches Some(x) ==> x.0@ == input@.skip(6),
    {
        if input.len() < 6 {
            return None;
        }

        let mut fail = false;

        if input[0] != input[2] {
            fail = true;
        }
        if input[1] != input[3] {
            fail = true;
        }
        if input[2] != input[4] {
            fail = true;
        }
        if input[3] != input[5] {
            fail = true;
        }

        if fail {
            return None;
        }

        Some((slice_subrange(input, 6, input.len()), Self {}))
    }

    pub fn encode(dest: &mut Vec<u8>)
        ensures
            final(dest)@ == old(dest)@ + seq![0u8, 1u8, 0u8, 1u8, 0u8, 1u8],
    {
        dest.push(0);
        dest.push(1);
        dest.push(0);
        dest.push(1);
        dest.push(0);
        dest.push(1);
        proof {
            assert(dest@ =~= old(dest)@ + seq![0u8, 1u8, 0u8, 1u8, 0u8, 1u8]);
        }
    }
}

/// An unwhitened byte read from the stream, least-significant bit first.
#[derive(Debug)]
pub struct RawByte {
    pub byte: u8,
}

impl RawByte {
    pub fn parse(input: &[u8]) -> (r: Option<(&[u8], Self)>)
        requires
            is_bits(input@),
        ensures
            r is Some <==> input@.len() >= 8,
            r matches Some(x) ==> {
                &&& x.0@ == input@.skip(8)
                &&& x.1.byte == byte_val(input@.subrange(0, 8))
            },
    {
        if input.len() < 8 {
            return None;
        }

        let mut byte: u8 = 0;
        proof {
            lemma_byte_zero_bits();
        }
        for i in 0..8usize
            invariant
                is_bits(input@),
                input@.len() >= 8,
                forall|j: int| 0 <= j < i ==> #[trigger] bit_of(byte, j) == input@[j],
                forall|j: int| i <= j < 8 ==> #[trigger] bit_of(byte, j) == 0,
        {
            let b = input[i];
            proof {
                lemma_or_shl(byte, b, i as u8);
            }
            byte |= b << i;
        }

        proof {
            lemma_byte_val_bits(input@.subrange(0, 8));
            lemma_byte_eq_by_bits(byte, byte_val(input@.subrange(0, 8)));
        }

        Some((slice_subrange(input, 8, input.len()), Self { byte }))
    }

    pub fn encode(&self, dest: &mut Vec<u8>)
        ensures
            final(dest)@ == old(dest)@ + bits_of_byte(self.byte),
    {
        for i in 0..8usize
            invariant
                dest@ == old(dest)@ + bits_of_byte(self.byte).take(i as int),
        {
            proof {
                lemma_shr_and_1(self.byte, i as u8);
            }
            dest.push((self.byte >> i) & 1);
            proof {
                assert(dest@ =~= old(dest)@ + bits_of_byte(self.byte).take(i + 1));
            }
        }
        proof {
            assert(dest@ =~= old(dest)@ + bits_of_byte(self.byte));
        }
    }
}

/// Setting one clear bit of `x` by an or with a shifted bit.
proof fn lemma_or_shl(x: u8, b: u8, i: u8)
    requires
        b <= 1,
        i < 8,
        bit_of(x, i as int) == 0,
    ensures
        forall|j: int|
            0 <= j < 8 && j != i ==> #[trigger] bit_of(x | (b << i), j) == bit_of(x, j),
        bit_of(x | (b << i), i as int) == b,
{
    assert forall|j: int| 0 <= j < 8 && j != i implies #[trigger] bit_of(x | (b << i), j) == bit_of(
        x,
        j,
    ) by {
        let ju = j as u8;
        assert((b <= 1 && i < 8 && ju < 8 && ju != i) ==> ((x | (b << i)) >> ju) & 1 == (x >> ju)
            & 1) by (bit_vector);
    }
    assert((b <= 1 && i < 8 && (x >> i) & 1 == 0) ==> ((x | (b << i)) >> i) & 1 == b)
        by (bit_vector);
}

/// `(x >> i) & 1` is the `i`-th element of the byte's bit sequence.
proof fn lemma_shr_and_1(x: u8, i: u8)
    requires
        i < 8,
    ensures
        (x >> i) & 1 == bits_of_byte(x)[i as int],
        (x >> i) & 1 <= 1,
{
    assert(i < 8 ==> (x >> i) & 1 <= 1) by (bit_vector);
}

/// A whitened byte: each stream bit is xored with the next whitening bit
/// before being assembled, least-significant bit first.
#[derive(Debug)]
pub struct WhitedByte {
    pub byte: u8,
}

/// The first eight stream bits of `s` dewhitened with the sequence that the
/// LFSR produces from state `st`.
pub open spec fn white8(s: Seq<u8>, st: u8) -> Seq<u8>
    recommends
        s.len() >= 8,
{
    Seq::new(8, |k: int| s[k] ^ lfsr_bit(st, k))
}

impl WhitedByte {
    pub fn parse<'a>(input: &'a [u8], lsfr: &mut LFSR0221) -> (r: Option<(&'a [u8], Self)>)
        requires
            is_bits(input@),
        ensures
            r is Some <==> input@.len() >= 8,
            r is None ==> *final(lsfr) == *old(lsfr),
            r matches Some(x) ==> {
                &&& x.0@ == input@.skip(8)
                &&& x.1.byte == byte_val(white8(input@, old(lsfr)@))
                &&& final(lsfr)@ == lfsr_iter(old(lsfr)@, 8)
            },
    {
        if input.len() < 8 {
            return None;
        }

        let ghost st0 = lsfr@;
        let mut byte: u8 = 0;
        proof {
            lemma_byte_zero_bits();
        }
        for i in 0..8usize
            invariant
                is_bits(input@),
                input@.len() >= 8,
                lsfr@ == lfsr_iter(st0, i as int),
                forall|j: int| 0 <= j < i ==> #[trigger] bit_of(byte, j) == white8(input@, st0)[j],
                forall|j: int| i <= j < 8 ==> #[trigger] bit_of(byte, j) == 0,
        {
            let w = lsfr.next_white();
            let b = input[i] ^ w;
            proof {
                let bi = input@[i as int];
                assert(bi <= 1 && w <= 1 ==> bi ^ w <= 1) by (bit_vector);
                assert(w == lfsr_bit(st0, i as int));
                assert(b == white8(input@, st0)[i as int]);
                lemma_or_shl(byte, b, i as u8);
            }
            byte |= b << i;
        }

        proof {
            assert(is_bits(white8(input@, st0))) by {
                assert forall|k: int| 0 <= k < 8 implies #[trigger] white8(input@, st0)[k]
                    <= 1 by {
                    let a = input@[k];
                    let si = lfsr_iter(st0, k);
                    assert(si & 1 <= 1) by (bit_vector);
                    let w = lfsr_bit(st0, k);
                    assert(a <= 1 && w <= 1 ==> a ^ w <= 1) by (bit_vector);
                }
            }
            lemma_byte_val_bits(white8(input@, st0));
            lemma_byte_eq_by_bits(byte, byte_val(white8(input@, st0)));
        }

        Some((slice_subrange(input, 8, input.len()), Self { byte }))
    }

    pub fn encode(&self, dest: &mut Vec<u8>, lsfr: &mut LFSR0221)
        ensures
            final(dest)@ == old(dest)@ + white8(bits_of_byte(self.byte), old(lsfr)@),
            final(lsfr)@ == lfsr_iter(old(lsfr)@, 8),
    {
        let ghost st0 = lsfr@;
        for i in 0..8usize
            invariant
                lsfr@ == lfsr_iter(st0, i as int),
                dest@ == old(dest)@ + white8(bits_of_byte(self.byte), st0).take(i as int),
        {
            proof {
                lemma_shr_and_1(self.byte, i as u8);
            }
            let w = lsfr.next_white();
            dest.push(((self.byte >> i) & 1) ^ w);
            proof {
                assert(w == lfsr_bit(st0, i as int));
                assert(dest@ =~= old(dest)@ + white8(bits_of_byte(self.byte), st0).take(i + 1));
            }
        }
        proof {
            assert(dest@ =~= old(dest)@ + white8(bits_of_byte(self.byte), st0));
        }
    }
}

} // verus!
