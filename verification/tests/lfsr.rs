use hydro_strike::bitops::lfsr::LFSR0221;

#[test]
fn ch_zero() {
    let mut lfsr = LFSR0221::from_ch(0);

    let take = 20;

    let mut white = vec![];

    for _ in 0..take {
        white.push(lfsr.next_white());
    }

    let expect: Vec<u8> = vec![
        0, 0, 0, 0, 0, 0, 1, 0, 0, 1, 0, 0, 1, 1, 0, 1, 0, 0, 1, 1, 1, 1, 0, 1, 1, 1, 0, 0, 0,
        0, 1, 1, 1, 1, 1, 1, 1, 0, 0, 0, 1, 1, 1, 0, 1, 1, 0, 0, 0, 1, 0, 1, 0, 0, 1, 0, 1,
    ]
    .into_iter()
    .take(take)
    .collect();

    assert_eq!(white, expect);
}

#[test]
fn uptest_lsfr() {
    let raw_bits = vec![0, 1, 1, 0, 1, 0, 1, 1, 1, 0, 0, 1, 0, 0, 0, 1]; // random bits

    let mut lfsr = LFSR0221::from_ch(0);
    let mut whited_bits = vec![];

    for b in raw_bits.iter() {
        whited_bits.push(b ^ lfsr.next_white());
    }

    let mut lfsr = LFSR0221::from_ch(0);
    let mut dewhited_bits = vec![];

    for b in whited_bits.iter() {
        dewhited_bits.push(b ^ lfsr.next_white());
    }

    assert_eq!(raw_bits, dewhited_bits);
}

// The advertising channels and the edge data channels seed the whitening
// register from the Core specification's channel indices.
#[test]
fn seeds_follow_channel_table() {
    let pairs: [(usize, u8); 6] = [
        (2402, 37),
        (2426, 38),
        (2480, 39),
        (2404, 0),
        (2424, 10),
        (2428, 11),
    ];

    for (freq, ch) in pairs {
        let mut from_freq = LFSR0221::from_freq(freq);
        let mut from_ch = LFSR0221::from_ch(ch);
        for _ in 0..64 {
            assert_eq!(from_freq.next_white(), from_ch.next_white());
        }
    }
}
