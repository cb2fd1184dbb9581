use vstd::prelude::*;

verus! {

/// One step of the 7-bit BLE whitening LFSR, g(D) = D^7 + D^4 + 1 (221 in octal):
/// shift the state right and feed the output bit back into taps 2 and 6.
pub open spec fn lfsr_step(s: u8) -> u8 {
    if s & 1 == 1 {
        (s >> 1) ^ 0x44u8
    } else {
        s >> 1
    }
}

/// The LFSR state after `n` steps from state `s`.
pub open spec fn lfsr_iter(s: u8, n: int) -> u8
    decreases n,
{
    if n <= 0 {
        s
    } else {
        lfsr_step(lfsr_iter(s, n - 1))
    }
}

/// The `k`-th output bit of the whitening sequence started from state `s`.
pub open spec fn lfsr_bit(s: u8, k: int) -> u8 {
    lfsr_iter(s, k) & 1
}

/// The BLE whitening index for an RF frequency in MHz: physical channel
/// (freq - 2402) / 2, with the three advertising channels mapped to 37..39
/// and the data channels to 0..36.
pub open spec fn spec_freq_channel(freq: int) -> int {
    let phys = (freq - 2402) / 2;
    if phys == 0 {
        37
    } else if phys == 12 {
        38
    } else if phys == 39 {
        39
    } else if phys < 12 {
        phys - 1
    } else {
        phys - 2
    }
}

/// Running the LFSR `a` steps and then `b` steps is running it `a + b` steps.
pub proof fn lemma_lfsr_iter_add(s: u8, a: int, b: int)
    requires
        0 <= a,
        0 <= b,
    ensures
        lfsr_iter(lfsr_iter(s, a), b) == lfsr_iter(s, a + b),
    decreases b,
{
    if b > 0 {
        lemma_lfsr_iter_add(s, a, b - 1);
    }
}

/// BLE data whitening LFSR with polynomial g(D) = D^7 + D^4 + 1.
#[derive(Debug)]
pub struct LFSR0221 {
    state: u8,
}

impl View for LFSR0221 {
    type V = u8;

    closed spec fn view(&self) -> u8 {
        self.state
    }
}

impl LFSR0221 {
    pub fn from_freq(freq: usize) -> (r: Self)
        requires
            2402 <= freq,
            (freq - 2402) / 2 <= 65,
        ensures
            r@ == spec_freq_channel(freq as int) + 64,
    {
        let phys_channel = (freq - 2402) / 2;

        let channel: u8 = if phys_channel == 0 {
            37
        } else if phys_channel == 12 {
            38
        } else if phys_channel == 39 {
            39
        } else if phys_channel < 12 {
            (phys_channel - 1) as u8
        } else {
            (phys_channel - 2) as u8
        };

        Self::from_ch(channel)
    }

    pub fn from_ch(channel: u8) -> (r: Self)
        requires
            channel <= 0b111111,
        ensures
            r@ == channel + 64,
    {
        proof {
            assert(channel <= 63 ==> (channel | 0b1000000u8) == channel + 64) by (bit_vector);
        }
        Self { state: channel | 0b1000000 }
    }

    pub fn next_white(&mut self) -> (bit: u8)
        ensures
            bit == old(self)@ & 1,
            bit <= 1,
            final(self)@ == lfsr_step(old(self)@),
    {
        let bit = self.state & 1;

        self.state >>= 1;
        self.state ^= if bit == 1 { 0b1000100 } else { 0 };

        proof {
            let s = old(self)@;
            assert(s & 1 <= 1 && (s >> 1) ^ 0u8 == s >> 1) by (bit_vector);
        }

        bit
    }
}

} // verus!
