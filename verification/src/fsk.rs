use vstd::prelude::*;

verus! {

/// Number of symbols the offset estimator needs before it trusts its median.
pub const MEDIAN_SYMBOLS: usize = 64;

/// Why the FSK estimator rejected a burst.
#[derive(Debug, Clone, Copy, PartialEq, Eq, Structural)]
pub enum DemodError {
    /// Fewer samples than the discriminator warm-up and estimator window.
    TooShort,
    /// The frequency trace was off-centre or one-sided.
    Skew,
}

/// An FSK-demodulated packet: the hard-decision bit stream recovered from a
/// burst.  The soft values behind it stay with the demodulator front end.
#[derive(Debug, Clone)]
pub struct Packet {
    /// demodulated bits
    pub bits: Vec<u8>,
}

/// Samples per symbol for a stream of `sample_rate` Hz split into
/// `num_channels` channels of 1 MHz symbol rate, oversampled by two.
pub open spec fn spec_samples_per_symbol(sample_rate: int, num_channels: int) -> int {
    sample_rate / num_channels / 1000000 * 2
}

/// Samples per symbol of one channel: sample_rate / num_channels / 1 MHz * 2.
pub fn samples_per_symbol(sample_rate: u64, num_channels: u64) -> (r: u64)
    requires
        num_channels >= 1,
    ensures
        r == spec_samples_per_symbol(sample_rate as int, num_channels as int),
{
    sample_rate / num_channels / 1000000 * 2
}

/// Bits carried by one symbol: the base-two logarithm of the samples per
/// symbol, read off as the number of trailing zero bits.
pub fn bits_per_symbol(sample_per_symbol: u32) -> (r: u32)
    ensures
        r == vstd::std_specs::bits::u32_trailing_zeros(sample_per_symbol),
        sample_per_symbol == 2 ==> r == 1,
{
    let r = sample_per_symbol.trailing_zeros();
    proof {
        vstd::std_specs::bits::axiom_u32_trailing_zeros(sample_per_symbol);
        if sample_per_symbol == 2 {
            let tz = vstd::std_specs::bits::u32_trailing_zeros(2u32);
            assert((2u32 >> 0u32) & 1u32 == 0u32 && (2u32 >> 1u32) & 1u32 == 1u32) by (bit_vector);
            if tz == 0 {
                assert((2u32 >> tz) & 1u32 == 1u32);
            }
            if tz > 1 {
                assert((2u32 >> 1u32) & 1u32 == 0u32);
            }
        }
    }
    r
}

/// The frequency-symbol value of one bit: a set bit drives the modulator
/// low, a clear bit high.
pub open spec fn spec_symbol_of_bit(b: u8) -> i8 {
    if b & 1 == 1 {
        -1i8
    } else {
        1i8
    }
}

/// Expand a bit stream into modulator symbols: each bit becomes
/// `bits_per_symbol + 1` copies of its frequency value.  The phase
/// integration that turns these into complex samples is float work and sits
/// outside the library.
pub fn modulation_symbols(data: &[u8], bits_per_symbol: u32) -> (r: Vec<i8>)
    requires
        bits_per_symbol <= 32,
        data@.len() * (bits_per_symbol + 1) <= usize::MAX,
    ensures
        r@.len() == data@.len() * (bits_per_symbol + 1),
        forall|k: int|
            0 <= k < r@.len() ==> #[trigger] r@[k] == spec_symbol_of_bit(
                data@[k / (bits_per_symbol + 1)],
            ),
{
    let reps = bits_per_symbol as usize + 1;
    let mut out: Vec<i8> = Vec::new();

    proof {
        assert(0int * (reps as int) == 0) by (nonlinear_arith);
    }

    for i in 0..data.len()
        invariant
            reps == bits_per_symbol + 1,
            data@.len() * reps <= usize::MAX,
            out@.len() == i * reps,
            forall|k: int|
                0 <= k < out@.len() ==> #[trigger] out@[k] == spec_symbol_of_bit(
                    data@[k / (reps as int)],
                ),
    {
        proof {
            assert((i + 1) * reps <= data@.len() * reps) by (nonlinear_arith)
                requires
                    0 <= i < data@.len(),
                    1 <= reps,
            ;
            assert(i * reps + reps == (i + 1) * reps) by (nonlinear_arith);
        }
        let b = data[i];
        let v: i8 = if b & 1 != 0 {
            -1
        } else {
            1
        };
        proof {
            assert(b & 1 == 0 || b & 1 == 1) by (bit_vector);
            assert(v == spec_symbol_of_bit(data@[i as int]));
        }
        for j in 0..reps
            invariant
                reps >= 1,
                i < data@.len(),
                v == spec_symbol_of_bit(data@[i as int]),
                out@.len() == i * reps + j,
                (i + 1) * reps <= data@.len() * reps,
                i * reps + reps == (i + 1) * reps,
                data@.len() * reps <= usize::MAX,
                forall|k: int|
                    0 <= k < out@.len() ==> #[trigger] out@[k] == spec_symbol_of_bit(
                        data@[k / (reps as int)],
                    ),
        {
            out.push(v);
            proof {
                let k = out@.len() - 1;
                assert(k == i * reps + j);
                vstd::arithmetic::div_mod::lemma_fundamental_div_mod_converse(
                    k,
                    reps as int,
                    i as int,
                    j as int,
                );
                assert(k / (reps as int) == i);
            }
        }
    }

    proof {
        assert(out@.len() == data@.len() * reps);
    }

    out
}

/// The number of samples the offset estimator reads: `need_symbol` symbols
/// of `sample_per_symbol` samples each.
pub fn median_size(sample_per_symbol: usize, need_symbol: usize) -> (r: usize)
    requires
        sample_per_symbol * need_symbol <= usize::MAX,
    ensures
        r == sample_per_symbol * need_symbol,
{
    sample_per_symbol * need_symbol
}

/// A burst is too short to demodulate when it cannot cover the eight-sample
/// discriminator warm-up plus the estimator window.
pub fn too_short_to_demodulate(data_len: usize, sample_per_symbol: usize, need_symbol: usize) -> (r:
    bool)
    requires
        sample_per_symbol * need_symbol <= usize::MAX - 8,
    ensures
        r <==> data_len < 8 + sample_per_symbol * need_symbol,
{
    data_len < 8 + sample_per_symbol * need_symbol
}

} // verus!
