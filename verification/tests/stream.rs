use hydro_strike::stream::{burst_too_short, channel_for_sdr_idx, BluetoothChannel};

// A burst of 131 samples is rejected as too short; 132 samples may proceed.
#[test]
fn burst_length_boundary() {
    assert!(burst_too_short(131));
    assert!(!burst_too_short(132));
    assert!(burst_too_short(0));
}

#[test]
fn channel_round_trip() {
    for freq in [2402u32, 2426, 2480] {
        let ch = BluetoothChannel::from_freq(freq);
        assert_eq!(ch.to_freq(), freq);
    }
}

#[test]
fn fan_out_keeps_even_in_band_channels() {
    // 16 channels centred on 2427 MHz: outputs 0..8 sit at 2427..2434 MHz,
    // outputs 8..16 at 2419..2426 MHz; only even frequencies are kept.
    let centre = 2427;
    let n = 16;

    let expect_some: Vec<usize> = (0..n).filter(|k| (*k % 2) == 1).collect();

    for k in 0..n {
        let r = channel_for_sdr_idx(centre, n, k);
        if expect_some.contains(&k) {
            let freq = if k < n / 2 {
                centre + k as u32
            } else {
                centre + k as u32 - n as u32
            };
            let ch = r.expect("even in-band output dropped");
            assert_eq!(ch.to_freq(), freq);
        } else {
            assert!(r.is_none());
        }
    }
}

#[test]
fn fan_out_drops_out_of_band() {
    // 16 channels centred on 2402 MHz: the upper outputs fall below
    // 2402 MHz and are discarded.
    for k in 8..16 {
        assert!(channel_for_sdr_idx(2402, 16, k).is_none());
    }
    // output 0 is the centre itself
    let ch = channel_for_sdr_idx(2402, 16, 0).expect("centre channel dropped");
    assert_eq!(ch.to_freq(), 2402);
}
