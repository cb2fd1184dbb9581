pub mod bitparser;
pub mod lfsr;

use vstd::prelude::*;
use vstd::bytes::{spec_u32_from_le_bytes, spec_u32_to_le_bytes, u32_from_le_bytes, u32_to_le_bytes};
use vstd::slice::{slice_subrange, slice_to_vec};

use crate::bitops::bitparser::{
    bit_of, bits_of_byte, byte_val, is_bits, preamble_ok, white8, Preamble, RawByte, WhitedByte,
};
use crate::bitops::lfsr::{
    lemma_lfsr_iter_add, lfsr_bit, lfsr_iter, spec_freq_channel, LFSR0221,
};

verus! {

/// A decoded link-layer byte packet: the raw FSK packet it came from, the
/// recovered bytes, the access address, the source RF frequency in MHz, the
/// spare bit count past the declared length, the bit offset that was chosen,
/// and the trailing bits the byte parser did not consume.
#[derive(Debug, Clone)]
pub struct BytePacket {
    pub raw: Option<crate::fsk::Packet>,
    pub bytes: Vec<u8>,
    pub aa: u32,
    pub freq: usize,
    pub delta: i64,
    pub offset: usize,
    pub remain_bits: Vec<u8>,
}

/// Why a bit stream failed to decode into a byte packet.
#[derive(Debug, Clone, Copy, PartialEq, Eq, Structural)]
pub enum BitopsError {
    /// The first six bits are not an alternating preamble.
    PreambleMismatch,
    /// The stream ran out of bits while the access address was read.
    BitStarvation,
    /// No trial offset left spare bits past its declared packet length.
    LengthNotFound,
    /// The best trial offset left 20 or more spare bits.
    DeltaTooLarge,
}

/// The whitening LFSR seed for an RF frequency in MHz: the channel index
/// with bit 6 set.
pub open spec fn seed_of_freq(freq: int) -> u8 {
    (spec_freq_channel(freq) + 64) as u8
}

/// The `j`-th unwhitened byte of a stream, bits taken LSB first.
pub open spec fn raw_byte_at(s: Seq<u8>, j: int) -> u8 {
    byte_val(s.subrange(8 * j, 8 * j + 8))
}

/// The `j`-th whitened byte of a stream whose whitened region starts at bit
/// 32, dewhitened with the sequence seeded by `seed`.
pub open spec fn white_byte_at(s: Seq<u8>, seed: u8, j: int) -> u8 {
    byte_val(Seq::new(8, |k: int| s[32 + 8 * j + k] ^ lfsr_bit(seed, 8 * j + k)))
}

/// How many whole whitened bytes fit after the 32 access-address bits.
pub open spec fn n_whited(sub_len: int) -> int {
    (sub_len - 32) / 8
}

/// All bytes one trial offset recovers: four raw access-address bytes, then
/// every whole whitened byte the remaining bits supply.
pub open spec fn stream_bytes(sub: Seq<u8>, seed: u8) -> Seq<u8> {
    Seq::new(4, |j: int| raw_byte_at(sub, j)) + Seq::new(
        n_whited(sub.len() as int) as nat,
        |j: int| white_byte_at(sub, seed, j),
    )
}

/// The spare bits of one trial offset: the whole stream length minus the
/// declared packet length of 8 padding + 32 address + 16 header + payload +
/// 24 CRC bits.
pub open spec fn stream_delta(total_len: int, sub: Seq<u8>, seed: u8) -> int {
    total_len - (80 + 8 * stream_bytes(sub, seed)[5])
}

/// A trial offset is a candidate when its stream holds at least the address,
/// header and length fields and leaves spare bits.
pub open spec fn offset_ok(s: Seq<u8>, seed: u8, o: int) -> bool {
    &&& s.len() - 6 - o >= 48
    &&& stream_delta(s.len() as int, s.skip(6 + o), seed) > 0
}

/// One step of the best-offset search: a candidate replaces the running best
/// only when its spare bit count is strictly smaller.
pub open spec fn upd_min(cur: Option<(int, int)>, s: Seq<u8>, seed: u8, o: int) -> Option<
    (int, int),
> {
    if offset_ok(s, seed, o) {
        let d = stream_delta(s.len() as int, s.skip(6 + o), seed);
        match cur {
            Option::None => Some((o, d)),
            Option::Some(p) => if d < p.1 {
                Some((o, d))
            } else {
                cur
            },
        }
    } else {
        cur
    }
}

/// The offset the decoder keeps, with its spare bit count: the earliest of
/// the offsets 0, 1, 2 whose spare bit count is minimal.
pub open spec fn spec_best(s: Seq<u8>, seed: u8) -> Option<(int, int)> {
    upd_min(upd_min(upd_min(Option::None, s, seed, 0), s, seed, 1), s, seed, 2)
}

/// Parse one trial offset of `rem`, the bits past the preamble: four raw
/// access-address bytes, then whitened bytes until the bits run out.
/// `Err` is bit starvation inside the address; `Ok(None)` a declared length
/// at least as long as the stream; `Ok(Some)` the spare bit count, the
/// bytes, and the unconsumed bits.
fn try_offset<'a>(rem: &'a [u8], bits_len: i64, freq: usize, offset: usize) -> (r: Result<
    Option<(i64, Vec<u8>, &'a [u8])>,
    BitopsError,
>)
    requires
        is_bits(rem@),
        offset <= 2,
        offset <= rem@.len(),
        rem@.len() - offset < 32 || rem@.len() - offset >= 48,
        bits_len >= rem@.len(),
        2402 <= freq,
        (freq - 2402) / 2 <= 65,
    ensures
        ({
            let sub = rem@.skip(offset as int);
            let seed = seed_of_freq(freq as int);
            let d = stream_delta(bits_len as int, sub, seed);
            &&& (r is Err <==> sub.len() < 32)
            &&& (r matches Err(e) ==> e == BitopsError::BitStarvation)
            &&& (r matches Ok(opt) ==> {
                &&& (opt is Some <==> d > 0)
                &&& (opt matches Some(t) ==> {
                    &&& t.0 == d
                    &&& t.1@ == stream_bytes(sub, seed)
                    &&& t.2@ == sub.skip(32 + 8 * n_whited(sub.len() as int))
                })
            })
        }),
{
    let ghost seed = seed_of_freq(freq as int);

    let sub = slice_subrange(rem, offset, rem.len());
    proof {
        assert(sub@ =~= rem@.skip(offset as int));
        assert forall|i: int| 0 <= i < sub@.len() implies #[trigger] sub@[i] <= 1 by {
            assert(sub@[i] == rem@[offset + i]);
        }
    }

    let mut whitening = LFSR0221::from_freq(freq);
    proof {
        assert(whitening@ == seed);
    }

    let mut bytes: Vec<u8> = Vec::new();
    let mut cur = sub;
    proof {
        assert(sub@.skip(0) =~= sub@);
    }

    for j in 0..4usize
        invariant
            sub@ == rem@.skip(offset as int),
            is_bits(sub@),
            8 * j + cur@.len() == sub@.len(),
            cur@ == sub@.skip(8 * j as int),
            bytes@.len() == j,
            forall|t: int| 0 <= t < j ==> bytes@[t] == raw_byte_at(sub@, t),
            whitening@ == seed,
    {
        proof {
            assert forall|i: int| 0 <= i < cur@.len() implies #[trigger] cur@[i] <= 1 by {
                assert(cur@[i] == sub@[8 * j + i]);
            }
        }
        match RawByte::parse(cur) {
            Some(parsed) => {
                proof {
                    assert(cur@.subrange(0, 8) =~= sub@.subrange(8 * j as int, 8 * j + 8));
                    assert(cur@.skip(8) =~= sub@.skip(8 * (j + 1)));
                }
                cur = parsed.0;
                bytes.push(parsed.1.byte);
            },
            None => {
                proof {
                    assert(cur@.len() < 8);
                    assert(sub@.len() < 32);
                }
                return Err(BitopsError::BitStarvation);
            },
        }
    }

    proof {
        assert(sub@.len() >= 32);
        assert(sub@.len() >= 48);
    }

    let ghost mut w: int = 0;
    loop
        invariant
            is_bits(sub@),
            sub@.len() >= 48,
            0 <= w,
            32 + 8 * w + cur@.len() == sub@.len(),
            cur@ == sub@.skip(32 + 8 * w),
            whitening@ == lfsr_iter(seed, 8 * w),
            bytes@.len() == 4 + w,
            forall|t: int| 0 <= t < 4 ==> bytes@[t] == raw_byte_at(sub@, t),
            forall|t: int| 0 <= t < w ==> bytes@[4 + t] == white_byte_at(sub@, seed, t),
        ensures
            cur@.len() < 8,
            32 + 8 * w + cur@.len() == sub@.len(),
            cur@ == sub@.skip(32 + 8 * w),
            bytes@.len() == 4 + w,
            w == n_whited(sub@.len() as int),
            forall|t: int| 0 <= t < 4 ==> bytes@[t] == raw_byte_at(sub@, t),
            forall|t: int| 0 <= t < w ==> bytes@[4 + t] == white_byte_at(sub@, seed, t),
        decreases cur@.len(),
    {
        proof {
            assert forall|i: int| 0 <= i < cur@.len() implies #[trigger] cur@[i] <= 1 by {
                assert(cur@[i] == sub@[32 + 8 * w + i]);
            }
        }
        let ghost st = whitening@;
        match WhitedByte::parse(cur, &mut whitening) {
            Some(parsed) => {
                proof {
                    assert forall|k: int| 0 <= k < 8 implies white8(cur@, st)[k] == (Seq::new(
                        8,
                        |kk: int| sub@[32 + 8 * w + kk] ^ lfsr_bit(seed, 8 * w + kk),
                    ))[k] by {
                        assert(cur@[k] == sub@[32 + 8 * w + k]);
                        lemma_lfsr_iter_add(seed, 8 * w, k);
                        assert(lfsr_bit(st, k) == lfsr_bit(seed, 8 * w + k));
                    }
                    assert(white8(cur@, st) =~= Seq::new(
                        8,
                        |kk: int| sub@[32 + 8 * w + kk] ^ lfsr_bit(seed, 8 * w + kk),
                    ));
                    assert(parsed.1.byte == white_byte_at(sub@, seed, w));
                    lemma_lfsr_iter_add(seed, 8 * w, 8);
                    assert(cur@.skip(8) =~= sub@.skip(32 + 8 * (w + 1)));
                }
                cur = parsed.0;
                bytes.push(parsed.1.byte);
                proof {
                    w = w + 1;
                }
            },
            None => {
                proof {
                    let l = sub@.len() as int;
                    assert(l - 32 - 8 * w == cur@.len());
                    assert(0 <= cur@.len() < 8);
                    vstd::arithmetic::div_mod::lemma_fundamental_div_mod_converse(
                        l - 32,
                        8,
                        w,
                        cur@.len() as int,
                    );
                    assert(w == (l - 32) / 8);
                }
                break ;
            },
        }
    }

    let b5 = bytes[5];
    proof {
        assert(stream_bytes(sub@, seed)[5] == white_byte_at(sub@, seed, 1));
        assert(bytes@ =~= stream_bytes(sub@, seed));
    }

    let packet_length: i64 = 8 + 32 + 16 + (b5 as i64) * 8 + 24;
    let delta: i64 = bits_len - packet_length;

    if delta <= 0 {
        return Ok(None);
    }

    Ok(Some((delta, bytes, cur)))
}

/// Decode a demodulated bit stream into the BLE link-layer byte packet it
/// carries: check the preamble, try the bit offsets 0, 1 and 2, keep the
/// offset whose declared packet length best matches the stream, and reject
/// it when 20 or more bits are left over.
pub fn bits_to_packet(bits: &[u8], freq: usize) -> (r: Result<BytePacket, BitopsError>)
    requires
        is_bits(bits@),
        bits@.len() < 38 || bits@.len() >= 56,
        bits@.len() <= i64::MAX,
        2402 <= freq,
        (freq - 2402) / 2 <= 65,
    ensures
        ({
            let s = bits@;
            let seed = seed_of_freq(freq as int);
            &&& (!preamble_ok(s) ==> r == Err::<BytePacket, BitopsError>(
                BitopsError::PreambleMismatch,
            ))
            &&& (preamble_ok(s) && s.len() < 38 ==> r == Err::<BytePacket, BitopsError>(
                BitopsError::BitStarvation,
            ))
            &&& (preamble_ok(s) && s.len() >= 56 ==> match spec_best(s, seed) {
                Option::None => r == Err::<BytePacket, BitopsError>(BitopsError::LengthNotFound),
                Option::Some(best) => {
                    if best.1 >= 20 {
                        r == Err::<BytePacket, BitopsError>(BitopsError::DeltaTooLarge)
                    } else {
                        match r {
                            Ok(p) => {
                                &&& p.offset == best.0
                                &&& p.delta == best.1
                                &&& p.bytes@ == stream_bytes(s.skip(6 + best.0), seed)
                                &&& p.aa == spec_u32_from_le_bytes(p.bytes@.subrange(0, 4))
                                &&& p.remain_bits@ == s.skip(6 + best.0).skip(
                                    32 + 8 * n_whited(s.len() - 6 - best.0),
                                )
                                &&& p.freq == freq
                                &&& p.raw is None
                            },
                            Err(_) => false,
                        }
                    }
                },
            })
        }),
{
    let ghost s = bits@;
    let ghost seed = seed_of_freq(freq as int);

    let bits_len = bits.len() as i64;

    let rem = match Preamble::parse(bits) {
        Some(parsed) => parsed.0,
        None => {
            return Err(BitopsError::PreambleMismatch);
        },
    };

    proof {
        assert forall|i: int| 0 <= i < rem@.len() implies #[trigger] rem@[i] <= 1 by {
            assert(rem@[i] == s[6 + i]);
        }
        assert(rem@.skip(0) =~= rem@);
        assert(rem@.skip(0) =~= s.skip(6));
    }

    let r0 = try_offset(rem, bits_len, freq, 0)?;
    proof {
        if rem@.len() < 32 {
            assert(false);
        }
        assert(rem@.len() >= 50);
        assert(rem@.skip(1) =~= s.skip(7));
        assert(rem@.skip(2) =~= s.skip(8));
    }

    let r1 = try_offset(rem, bits_len, freq, 1)?;
    let r2 = try_offset(rem, bits_len, freq, 2)?;

    let ghost g0 = upd_min(Option::None, s, seed, 0);
    let ghost g1 = upd_min(g0, s, seed, 1);
    let ghost g2 = upd_min(g1, s, seed, 2);

    let mut best: Option<(i64, Vec<u8>, &[u8], usize)> = None;

    if let Some(t) = r0 {
        best = Some((t.0, t.1, t.2, 0));
    }
    proof {
        assert(match (best, g0) {
            (Option::None, Option::None) => true,
            (Option::Some(b), Option::Some(g)) => {
                &&& b.0 == g.1
                &&& b.3 == g.0
                &&& b.1@ == stream_bytes(s.skip(6 + g.0), seed)
                &&& b.2@ == s.skip(6 + g.0).skip(32 + 8 * n_whited(s.len() - 6 - g.0))
            },
            _ => false,
        });
    }

    match r1 {
        Some(t) => {
            let take = match &best {
                None => true,
                Some(b) => t.0 < b.0,
            };
            if take {
                best = Some((t.0, t.1, t.2, 1));
            }
        },
        None => {},
    }
    proof {
        assert(match (best, g1) {
            (Option::None, Option::None) => true,
            (Option::Some(b), Option::Some(g)) => {
                &&& b.0 == g.1
                &&& b.3 == g.0
                &&& b.1@ == stream_bytes(s.skip(6 + g.0), seed)
                &&& b.2@ == s.skip(6 + g.0).skip(32 + 8 * n_whited(s.len() - 6 - g.0))
            },
            _ => false,
        });
    }

    match r2 {
        Some(t) => {
            let take = match &best {
                None => true,
                Some(b) => t.0 < b.0,
            };
            if take {
                best = Some((t.0, t.1, t.2, 2));
            }
        },
        None => {},
    }
    proof {
        assert(match (best, g2) {
            (Option::None, Option::None) => true,
            (Option::Some(b), Option::Some(g)) => {
                &&& b.0 == g.1
                &&& b.3 == g.0
                &&& b.1@ == stream_bytes(s.skip(6 + g.0), seed)
                &&& b.2@ == s.skip(6 + g.0).skip(32 + 8 * n_whited(s.len() - 6 - g.0))
            },
            _ => false,
        });
    }

    let found = match best {
        Some(t) => t,
        None => {
            return Err(BitopsError::LengthNotFound);
        },
    };

    let (delta, bytes, remain, offset) = found;

    if 20 <= delta {
        return Err(BitopsError::DeltaTooLarge);
    }

    let aa = u32_from_le_bytes(slice_subrange(bytes.as_slice(), 0, 4));

    Ok(
        BytePacket {
            raw: None,
            bytes,
            aa,
            offset,
            delta,
            freq,
            remain_bits: slice_to_vec(remain),
        },
    )
}

/// Decode the bit stream of an FSK packet and keep the packet itself in the
/// result.
pub fn fsk_to_packet(packet: crate::fsk::Packet, freq: usize) -> (r: Result<
    BytePacket,
    BitopsError,
>)
    requires
        is_bits(packet.bits@),
        packet.bits@.len() < 38 || packet.bits@.len() >= 56,
        packet.bits@.len() <= i64::MAX,
        2402 <= freq,
        (freq - 2402) / 2 <= 65,
    ensures
        ({
            let s = packet.bits@;
            let seed = seed_of_freq(freq as int);
            &&& (r is Err ==> bits_to_packet_err_matches(s, seed, r->Err_0))
            &&& (r matches Ok(p) ==> {
                &&& (preamble_ok(s) && s.len() >= 56)
                &&& match spec_best(s, seed) {
                    Option::Some(best) => {
                        &&& best.1 < 20
                        &&& p.offset == best.0
                        &&& p.delta == best.1
                        &&& p.bytes@ == stream_bytes(s.skip(6 + best.0), seed)
                        &&& p.aa == spec_u32_from_le_bytes(p.bytes@.subrange(0, 4))
                        &&& p.remain_bits@ == s.skip(6 + best.0).skip(
                            32 + 8 * n_whited(s.len() - 6 - best.0),
                        )
                        &&& p.freq == freq
                        &&& p.raw == Some(packet)
                    },
                    Option::None => false,
                }
            })
        }),
{
    match bits_to_packet(packet.bits.as_slice(), freq) {
        Ok(b) => Ok(
            BytePacket {
                raw: Some(packet),
                bytes: b.bytes,
                aa: b.aa,
                offset: b.offset,
                delta: b.delta,
                freq: b.freq,
                remain_bits: b.remain_bits,
            },
        ),
        Err(e) => Err(e),
    }
}

/// The error cases of `bits_to_packet`, shared by its callers: which error
/// comes back on which stream.
pub open spec fn bits_to_packet_err_matches(s: Seq<u8>, seed: u8, e: BitopsError) -> bool {
    &&& (!preamble_ok(s) ==> e == BitopsError::PreambleMismatch)
    &&& (preamble_ok(s) && s.len() < 38 ==> e == BitopsError::BitStarvation)
    &&& (preamble_ok(s) && s.len() >= 56 ==> match spec_best(s, seed) {
        Option::None => e == BitopsError::LengthNotFound,
        Option::Some(best) => best.1 >= 20 && e == BitopsError::DeltaTooLarge,
    })
}

/// Bit sequences of whole byte strings, least-significant bit of each byte
/// first.
pub open spec fn bits_of_bytes(bs: Seq<u8>) -> Seq<u8> {
    Seq::new(8 * bs.len(), |i: int| bit_of(bs[i / 8], i % 8))
}

/// The whitened bit sequence of a byte string: each bit xored with the
/// whitening sequence seeded by `seed`.
pub open spec fn whitened_bits(bs: Seq<u8>, seed: u8) -> Seq<u8> {
    Seq::new(8 * bs.len(), |i: int| bit_of(bs[i / 8], i % 8) ^ lfsr_bit(seed, i))
}

/// The bit stream `packet_to_bits` emits: preamble, two padding bits, the
/// raw access address, then the whitened header padding, length, payload and
/// CRC placeholder bytes, and four trailing zero bits.
pub open spec fn spec_encoded(payload: Seq<u8>, freq: int, aa: u32) -> Seq<u8> {
    let seed = seed_of_freq(freq);
    let body = seq![0u8] + seq![(payload.len() % 256) as u8] + payload + seq![0u8, 0u8, 0u8];
    seq![0u8, 1u8, 0u8, 1u8, 0u8, 1u8] + seq![0u8, 0u8] + bits_of_bytes(spec_u32_to_le_bytes(aa))
        + whitened_bits(body, seed) + seq![0u8, 0u8, 0u8, 0u8]
}

/// Appending a byte to a byte string appends its eight bits.
proof fn lemma_bits_of_bytes_push(bs: Seq<u8>, b: u8)
    ensures
        bits_of_bytes(bs.push(b)) == bits_of_bytes(bs) + bits_of_byte(b),
{
    assert forall|i: int| 0 <= i < 8 * (bs.len() + 1) implies bits_of_bytes(bs.push(b))[i] == (
    bits_of_bytes(bs) + bits_of_byte(b))[i] by {
        vstd::arithmetic::div_mod::lemma_fundamental_div_mod_converse(i, 8, i / 8, i % 8);
        if i < 8 * bs.len() {
            assert(i / 8 < bs.len()) by {
                vstd::arithmetic::div_mod::lemma_fundamental_div_mod_converse(i, 8, i / 8, i % 8);
            }
            assert(bs.push(b)[i / 8] == bs[i / 8]);
        } else {
            assert(i / 8 == bs.len() && i % 8 == i - 8 * bs.len()) by {
                vstd::arithmetic::div_mod::lemma_fundamental_div_mod_converse(
                    i,
                    8,
                    bs.len() as int,
                    i - 8 * bs.len(),
                );
            }
            assert(bs.push(b)[bs.len() as int] == b);
        }
    }
    assert(bits_of_bytes(bs.push(b)) =~= bits_of_bytes(bs) + bits_of_byte(b));
}

/// Appending a byte to a whitened byte string appends its eight whitened
/// bits.
proof fn lemma_whitened_bits_push(bs: Seq<u8>, b: u8, seed: u8)
    ensures
        whitened_bits(bs.push(b), seed) == whitened_bits(bs, seed) + white8(
            bits_of_byte(b),
            lfsr_iter(seed, 8 * bs.len() as int),
        ),
{
    let tail = white8(bits_of_byte(b), lfsr_iter(seed, 8 * bs.len() as int));
    assert forall|i: int| 0 <= i < 8 * (bs.len() + 1) implies whitened_bits(bs.push(b), seed)[i]
        == (whitened_bits(bs, seed) + tail)[i] by {
        if i < 8 * bs.len() {
            assert(i / 8 < bs.len()) by {
                vstd::arithmetic::div_mod::lemma_fundamental_div_mod_converse(i, 8, i / 8, i % 8);
            }
            assert(bs.push(b)[i / 8] == bs[i / 8]);
        } else {
            let k = i - 8 * bs.len();
            assert(i / 8 == bs.len() && i % 8 == k) by {
                vstd::arithmetic::div_mod::lemma_fundamental_div_mod_converse(
                    i,
                    8,
                    bs.len() as int,
                    k,
                );
            }
            assert(bs.push(b)[bs.len() as int] == b);
            lemma_lfsr_iter_add(seed, 8 * bs.len() as int, k);
            assert(tail[k] == bit_of(b, k) ^ lfsr_bit(seed, i));
        }
    }
    assert(whitened_bits(bs.push(b), seed) =~= whitened_bits(bs, seed) + tail);
}

/// Encode a payload into the bit stream of a BLE link-layer packet: the
/// preamble, two zero padding bits, the raw access address, the whitened
/// header padding, length, payload and zeroed CRC placeholder, and four
/// trailing zero bits.
pub fn packet_to_bits(bytes: &[u8], freq: usize, aa: u32) -> (r: Vec<u8>)
    requires
        2402 <= freq,
        (freq - 2402) / 2 <= 65,
        8 * bytes@.len() + 128 <= usize::MAX,
    ensures
        r@ == spec_encoded(bytes@, freq as int, aa),
        r@.len() == 84 + 8 * bytes@.len(),
        is_bits(r@),
{
    let ghost seed = seed_of_freq(freq as int);
    let ghost body = seq![0u8] + seq![(bytes@.len() % 256) as u8] + bytes@ + seq![0u8, 0u8, 0u8];

    let mut bits: Vec<u8> = Vec::new();

    Preamble::encode(&mut bits);

    // offset = 2
    bits.push(0);
    bits.push(0);

    let ghost head8 = seq![0u8, 1u8, 0u8, 1u8, 0u8, 1u8] + seq![0u8, 0u8];
    proof {
        assert(bits@ =~= head8);
    }

    let aa_bytes = u32_to_le_bytes(aa);
    for j in 0..4usize
        invariant
            aa_bytes@ == spec_u32_to_le_bytes(aa),
            aa_bytes@.len() == 4,
            bits@ == head8 + bits_of_bytes(aa_bytes@.take(j as int)),
    {
        let rb = RawByte { byte: aa_bytes[j] };
        rb.encode(&mut bits);
        proof {
            lemma_bits_of_bytes_push(aa_bytes@.take(j as int), aa_bytes@[j as int]);
            assert(aa_bytes@.take(j as int).push(aa_bytes@[j as int]) =~= aa_bytes@.take(
                j + 1 as int,
            ));
            assert(bits@ =~= head8 + bits_of_bytes(aa_bytes@.take(j + 1 as int)));
        }
    }

    let ghost head40 = head8 + bits_of_bytes(spec_u32_to_le_bytes(aa));
    proof {
        assert(aa_bytes@.take(4) =~= aa_bytes@);
        assert(bits@ =~= head40);
    }

    let mut whitening = LFSR0221::from_freq(freq);
    let ghost mut done: Seq<u8> = Seq::empty();
    proof {
        assert(whitening@ == seed);
        assert(whitened_bits(done, seed) =~= Seq::<u8>::empty());
        assert(bits@ =~= head40 + whitened_bits(done, seed));
    }

    let header_padding: u8 = 0;
    let length: u8 = (bytes.len() % 256) as u8;

    let wb = WhitedByte { byte: header_padding };
    wb.encode(&mut bits, &mut whitening);
    proof {
        lemma_whitened_bits_push(done, header_padding, seed);
        lemma_lfsr_iter_add(seed, 8 * done.len() as int, 8);
        done = done.push(header_padding);
        assert(bits@ =~= head40 + whitened_bits(done, seed));
    }

    let wb = WhitedByte { byte: length };
    wb.encode(&mut bits, &mut whitening);
    proof {
        lemma_whitened_bits_push(done, length, seed);
        lemma_lfsr_iter_add(seed, 8 * done.len() as int, 8);
        done = done.push(length);
        assert(bits@ =~= head40 + whitened_bits(done, seed));
        assert(done =~= seq![0u8, (bytes@.len() % 256) as u8] + bytes@.take(0));
    }

    for i in 0..bytes.len()
        invariant
            2402 <= freq,
            (freq - 2402) / 2 <= 65,
            8 * bytes@.len() + 128 <= usize::MAX,
            seed == seed_of_freq(freq as int),
            done == seq![0u8, (bytes@.len() % 256) as u8] + bytes@.take(i as int),
            whitening@ == lfsr_iter(seed, 8 * done.len() as int),
            bits@ == head40 + whitened_bits(done, seed),
    {
        let wb = WhitedByte { byte: bytes[i] };
        wb.encode(&mut bits, &mut whitening);
        proof {
            lemma_whitened_bits_push(done, bytes@[i as int], seed);
            lemma_lfsr_iter_add(seed, 8 * done.len() as int, 8);
            done = done.push(bytes@[i as int]);
            assert(done =~= seq![0u8, (bytes@.len() % 256) as u8] + bytes@.take(i + 1 as int));
            assert(bits@ =~= head40 + whitened_bits(done, seed));
        }
    }

    // CRC placeholder
    for _i in 0..3usize
        invariant
            2402 <= freq,
            (freq - 2402) / 2 <= 65,
            seed == seed_of_freq(freq as int),
            done == seq![0u8, (bytes@.len() % 256) as u8] + bytes@ + Seq::new(
                _i as nat,
                |t: int| 0u8,
            ),
            whitening@ == lfsr_iter(seed, 8 * done.len() as int),
            bits@ == head40 + whitened_bits(done, seed),
    {
        let wb = WhitedByte { byte: 0 };
        wb.encode(&mut bits, &mut whitening);
        proof {
            lemma_whitened_bits_push(done, 0u8, seed);
            lemma_lfsr_iter_add(seed, 8 * done.len() as int, 8);
            done = done.push(0u8);
            assert(done =~= seq![0u8, (bytes@.len() % 256) as u8] + bytes@ + Seq::new(
                (_i + 1) as nat,
                |t: int| 0u8,
            ));
            assert(bits@ =~= head40 + whitened_bits(done, seed));
        }
    }

    // trailing bits
    bits.push(0);
    bits.push(0);
    bits.push(0);
    bits.push(0);

    proof {
        assert(done =~= body);
        assert(bits@ =~= spec_encoded(bytes@, freq as int, aa));
        assert forall|i: int| 0 <= i < bits@.len() implies #[trigger] bits@[i] <= 1 by {
            lemma_spec_encoded_bit(bytes@, freq as int, aa, i);
        }
    }

    bits
}

/// Every element of an encoded stream is 0 or 1.
proof fn lemma_spec_encoded_bit(payload: Seq<u8>, freq: int, aa: u32, i: int)
    requires
        0 <= i < spec_encoded(payload, freq, aa).len(),
    ensures
        spec_encoded(payload, freq, aa)[i] <= 1,
{
    let seed = seed_of_freq(freq);
    let aab = spec_u32_to_le_bytes(aa);
    let body = seq![0u8] + seq![(payload.len() % 256) as u8] + payload + seq![0u8, 0u8, 0u8];
    let s = spec_encoded(payload, freq, aa);
    vstd::bytes::lemma_auto_spec_u32_to_from_le_bytes();
    assert(aab.len() == 4);
    assert(bits_of_bytes(aab).len() == 32);
    assert(whitened_bits(body, seed).len() == 8 * body.len());
    if i < 8 {
    } else if i < 40 {
        let j = i - 8;
        assert(s[i] == bits_of_bytes(aab)[j]);
        assert(0 <= j % 8 < 8);
        assert(0 <= j / 8 < 4) by (nonlinear_arith)
            requires
                0 <= j < 32,
        ;
        bitparser::lemma_bit_of_le_1(aab[j / 8], j % 8);
    } else if i < 40 + 8 * body.len() {
        let j = i - 40;
        assert(s[i] == whitened_bits(body, seed)[j]);
        assert(0 <= j % 8 < 8);
        assert(0 <= j / 8 < body.len()) by (nonlinear_arith)
            requires
                0 <= j < 8 * body.len(),
        ;
        let a = bit_of(body[j / 8], j % 8);
        let si = lfsr_iter(seed, j);
        let w = lfsr_bit(seed, j);
        bitparser::lemma_bit_of_le_1(body[j / 8], j % 8);
        assert(si & 1 <= 1) by (bit_vector);
        assert(a <= 1 && w <= 1 ==> (a ^ w) <= 1) by (bit_vector);
    } else {
        assert(s[i] == 0);
    }
}

/// The whitening seed for every BLE RF frequency follows the Core
/// specification's channel table: index 37 on 2402 MHz, 38 on 2426 MHz, 39
/// on 2480 MHz, data channels 0..10 on 2404..2424 MHz and 11..36 on
/// 2428..2478 MHz, always with bit 6 set.
pub proof fn lemma_whitening_seed(freq: int)
    requires
        2402 <= freq <= 2480,
        freq % 2 == 0,
    ensures
        freq == 2402 ==> seed_of_freq(freq) == 37 + 64,
        freq == 2426 ==> seed_of_freq(freq) == 38 + 64,
        freq == 2480 ==> seed_of_freq(freq) == 39 + 64,
        2404 <= freq <= 2424 ==> seed_of_freq(freq) == (freq - 2404) / 2 + 64,
        2428 <= freq <= 2478 ==> seed_of_freq(freq) == (freq - 2428) / 2 + 11 + 64,
{
    let phys = (freq - 2402) / 2;
    assert(freq - 2402 == 2 * phys) by {
        vstd::arithmetic::div_mod::lemma_fundamental_div_mod(freq - 2402, 2);
        assert((freq - 2402) % 2 == 0) by (nonlinear_arith)
            requires
                freq % 2 == 0,
        ;
    }
    assert(0 <= phys <= 39) by (nonlinear_arith)
        requires
            freq - 2402 == 2 * phys,
            2402 <= freq <= 2480,
    ;
    if 2404 <= freq <= 2424 {
        assert((freq - 2404) / 2 == phys - 1) by (nonlinear_arith)
            requires
                freq - 2402 == 2 * phys,
        ;
        assert(1 <= phys <= 11) by (nonlinear_arith)
            requires
                freq - 2402 == 2 * phys,
                2404 <= freq <= 2424,
        ;
    }
    if 2428 <= freq <= 2478 {
        assert((freq - 2428) / 2 == phys - 13) by (nonlinear_arith)
            requires
                freq - 2402 == 2 * phys,
        ;
        assert(13 <= phys <= 38) by (nonlinear_arith)
            requires
                freq - 2402 == 2 * phys,
                2428 <= freq <= 2478,
        ;
    }
}

/// Decoding an encoded packet recovers the access address and the payload:
/// for every payload of at most 255 bytes, the decoder applied to
/// `packet_to_bits`' stream keeps offset 2 with four spare bits, reads back
/// the access address, and finds the payload at bytes 6 onward.  The two
/// hypotheses on the earlier trial offsets rule out the streams on which a
/// misaligned trial decodes the same spare-bit count and is kept instead.
pub proof fn lemma_codec_round_trip(payload: Seq<u8>, freq: int, aa: u32)
    requires
        payload.len() <= 255,
        2402 <= freq,
        (freq - 2402) / 2 <= 65,
        stream_bytes(spec_encoded(payload, freq, aa).skip(6), seed_of_freq(freq))[5]
            != payload.len(),
        stream_bytes(spec_encoded(payload, freq, aa).skip(7), seed_of_freq(freq))[5]
            != payload.len(),
    ensures
        ({
            let s = spec_encoded(payload, freq, aa);
            let seed = seed_of_freq(freq);
            &&& preamble_ok(s)
            &&& s.len() == 84 + 8 * payload.len()
            &&& spec_best(s, seed) == Some((2int, 4int))
            &&& stream_bytes(s.skip(8), seed).subrange(0, 4) == spec_u32_to_le_bytes(aa)
            &&& spec_u32_from_le_bytes(stream_bytes(s.skip(8), seed).subrange(0, 4)) == aa
            &&& stream_bytes(s.skip(8), seed).subrange(6, 6 + payload.len() as int) == payload
        }),
{
    let s = spec_encoded(payload, freq, aa);
    let seed = seed_of_freq(freq);
    let aab = spec_u32_to_le_bytes(aa);
    let body = seq![0u8] + seq![(payload.len() % 256) as u8] + payload + seq![0u8, 0u8, 0u8];
    let plen = payload.len() as int;
    let blen = body.len() as int;

    vstd::bytes::lemma_auto_spec_u32_to_from_le_bytes();
    assert(aab.len() == 4);
    assert(blen == plen + 5);
    assert(s.len() == 84 + 8 * plen);

    assert(preamble_ok(s)) by {
        assert(s[0] == 0 && s[1] == 1 && s[2] == 0 && s[3] == 1 && s[4] == 0 && s[5] == 1);
    }

    // The three trial substreams.
    let sub0 = s.skip(6);
    let sub1 = s.skip(7);
    let sub2 = s.skip(8);
    assert(sub0.len() == 78 + 8 * plen);
    assert(sub1.len() == 77 + 8 * plen);
    assert(sub2.len() == 76 + 8 * plen);

    // Offset 2 reads the stream on its byte grid.
    assert forall|j: int, k: int| 0 <= j < 4 && 0 <= k < 8 implies sub2[8 * j + k] == bit_of(
        aab[j],
        k,
    ) by {
        assert(sub2[8 * j + k] == s[8 + 8 * j + k]);
        assert(s[8 + 8 * j + k] == bits_of_bytes(aab)[8 * j + k]);
        vstd::arithmetic::div_mod::lemma_fundamental_div_mod_converse(8 * j + k, 8, j, k);
    }
    assert forall|j: int| 0 <= j < 4 implies raw_byte_at(sub2, j) == aab[j] by {
        assert(sub2.subrange(8 * j, 8 * j + 8) =~= bits_of_byte(aab[j]));
        bitparser::lemma_byte_val_of_bits_of_byte(aab[j]);
    }

    assert forall|j: int, k: int| 0 <= j < blen && 0 <= k < 8 implies sub2[32 + 8 * j + k]
        == bit_of(body[j], k) ^ lfsr_bit(seed, 8 * j + k) by {
        assert(sub2[32 + 8 * j + k] == s[40 + 8 * j + k]);
        assert(s[40 + 8 * j + k] == whitened_bits(body, seed)[8 * j + k]);
        vstd::arithmetic::div_mod::lemma_fundamental_div_mod_converse(8 * j + k, 8, j, k);
    }
    assert forall|j: int| 0 <= j < blen implies white_byte_at(sub2, seed, j) == body[j] by {
        assert forall|k: int| 0 <= k < 8 implies (Seq::new(
            8,
            |kk: int| sub2[32 + 8 * j + kk] ^ lfsr_bit(seed, 8 * j + kk),
        ))[k] == bits_of_byte(body[j])[k] by {
            let a = bit_of(body[j], k);
            let w = lfsr_bit(seed, 8 * j + k);
            let si = lfsr_iter(seed, 8 * j + k);
            assert(si & 1 <= 1) by (bit_vector);
            assert(w <= 1 ==> ((a ^ w) ^ w) == a) by (bit_vector);
            assert(sub2[32 + 8 * j + k] == a ^ w);
        }
        assert(Seq::new(8, |kk: int| sub2[32 + 8 * j + kk] ^ lfsr_bit(seed, 8 * j + kk))
            =~= bits_of_byte(body[j]));
        bitparser::lemma_byte_val_of_bits_of_byte(body[j]);
    }

    assert(n_whited(sub2.len() as int) == blen) by {
        vstd::arithmetic::div_mod::lemma_fundamental_div_mod_converse(
            sub2.len() - 32,
            8,
            blen,
            4,
        );
    }

    let bytes2 = stream_bytes(sub2, seed);
    assert(bytes2.len() == 4 + blen);
    assert(bytes2.subrange(0, 4) =~= aab);
    assert(bytes2[5] == body[1]);
    assert(body[1] == (payload.len() % 256) as u8);
    assert(body[1] == plen);
    assert(bytes2.subrange(6, 6 + plen) =~= payload) by {
        assert forall|t: int| 0 <= t < plen implies bytes2[6 + t] == payload[t] by {
            assert(bytes2[6 + t] == white_byte_at(sub2, seed, 2 + t));
            assert(body[2 + t] == payload[t]);
        }
    }

    let d2 = stream_delta(s.len() as int, sub2, seed);
    assert(d2 == 4);

    // The earlier offsets hold at least the address, header and length.
    let n0 = n_whited(sub0.len() as int);
    let n1 = n_whited(sub1.len() as int);
    assert(n0 == plen + 5) by {
        vstd::arithmetic::div_mod::lemma_fundamental_div_mod_converse(
            sub0.len() - 32,
            8,
            plen + 5,
            6,
        );
    }
    assert(n1 == plen + 5) by {
        vstd::arithmetic::div_mod::lemma_fundamental_div_mod_converse(
            sub1.len() - 32,
            8,
            plen + 5,
            5,
        );
    }

    let b50 = stream_bytes(sub0, seed)[5];
    let b51 = stream_bytes(sub1, seed)[5];
    let d0 = stream_delta(s.len() as int, sub0, seed);
    let d1 = stream_delta(s.len() as int, sub1, seed);
    assert(d0 == 4 + 8 * (plen - b50));
    assert(d1 == 4 + 8 * (plen - b51));
    assert(b50 != plen && b51 != plen);
    assert(d0 > 0 ==> d0 >= 12);
    assert(d1 > 0 ==> d1 >= 12);

    assert(offset_ok(s, seed, 2));
    assert(spec_best(s, seed) == Some((2int, 4int)));
}

} // verus!
