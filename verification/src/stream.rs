use vstd::prelude::*;

verus! {

/// Why one burst was dropped on its way to a decoded packet, by stage.
#[derive(Debug)]
pub enum ProcessFailKind {
    /// The burst catcher had nothing to emit for this sample.
    Catcher,
    /// The burst was shorter than the smallest decodable packet.
    TooShort,
    /// The FSK estimator rejected the burst.
    Demod(crate::fsk::DemodError),
    /// The bit layer could not recover a byte packet.
    Bitops,
    /// The byte packet did not parse as a Bluetooth packet.
    Bluetooth,
}

/// What a receive stream yields: a decoded packet, a terminal error, or a
/// per-burst failure.
pub enum StreamResult {
    Packet(Box<crate::bluetooth::Bluetooth>),
    Error(String),
    ProcessFail(ProcessFailKind),
}

/// A BLE physical channel, counted in 2 MHz steps from 2402 MHz.
#[derive(Debug, Copy, Clone, Eq, PartialEq, Hash, Structural)]
pub struct BluetoothChannel {
    blch: u32,
}

impl View for BluetoothChannel {
    type V = u32;

    closed spec fn view(&self) -> u32 {
        self.blch
    }
}

impl BluetoothChannel {
    pub fn from_freq(freq: u32) -> (r: Self)
        requires
            2402 <= freq,
        ensures
            r@ == (freq - 2402) / 2,
    {
        BluetoothChannel { blch: (freq - 2402) / 2 }
    }

    pub fn to_freq(self) -> (r: u32)
        requires
            self@ <= (u32::MAX - 2402) / 2,
        ensures
            r == 2402 + 2 * self@,
    {
        2402 + 2 * self.blch
    }
}

/// The RF frequency in MHz of channelizer output `k`, for a centre
/// frequency `freq_mhz` and `num_channels` 1 MHz bins: the lower half of
/// the bins sits above the centre, the upper half below it.
pub open spec fn spec_channel_freq(freq_mhz: int, num_channels: int, k: int) -> int {
    if k < num_channels / 2 {
        freq_mhz + k
    } else {
        freq_mhz + k - num_channels
    }
}

/// The BLE channel served by channelizer output `sdr_idx`, if any: only
/// outputs whose RF frequency is an even MHz count in [2402, 2480] carry a
/// BLE physical channel.
pub fn channel_for_sdr_idx(freq_mhz: u32, num_channels: usize, sdr_idx: usize) -> (r: Option<
    BluetoothChannel,
>)
    requires
        sdr_idx < num_channels,
        num_channels <= 65536,
        freq_mhz <= 1000000,
    ensures
        ({
            let f = spec_channel_freq(freq_mhz as int, num_channels as int, sdr_idx as int);
            &&& (r is Some <==> (f % 2 == 0 && 2402 <= f <= 2480))
            &&& (r matches Some(c) ==> c@ == (f - 2402) / 2)
        }),
{
    let channel_half = (num_channels / 2) as i64;
    let sdr_idx_i = sdr_idx as i64;

    let freq_offset = if sdr_idx_i < channel_half {
        sdr_idx_i
    } else {
        sdr_idx_i - num_channels as i64
    };

    let freq = freq_mhz as i64 + freq_offset;

    if 2402 <= freq && freq <= 2480 && freq % 2 == 0 {
        Some(BluetoothChannel::from_freq(freq as u32))
    } else {
        None
    }
}

/// Bursts shorter than this cannot hold a BLE preamble, access address and
/// header, and are dropped.
pub const MIN_BURST_SAMPLES: usize = 132;

/// Whether a burst is dropped as too short before demodulation.
pub fn burst_too_short(len: usize) -> (r: bool)
    ensures
        r <==> len < 132,
{
    len < MIN_BURST_SAMPLES
}

} // verus!
