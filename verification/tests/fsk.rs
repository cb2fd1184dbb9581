use hydro_strike::fsk;

// For the canonical 20 MHz, 20-channel configuration each symbol spans two
// samples and carries one bit.
#[test]
fn canonical_symbol_rates() {
    let sps = fsk::samples_per_symbol(20_000_000, 20);
    assert_eq!(sps, 2);
    assert_eq!(fsk::bits_per_symbol(2), 1);
}

#[test]
fn demod_length_gate() {
    // 8 warm-up samples plus 64 symbols of 2 samples each
    assert!(fsk::too_short_to_demodulate(135, 2, 64));
    assert!(!fsk::too_short_to_demodulate(136, 2, 64));
    assert_eq!(fsk::median_size(2, 64), 128);
}

#[test]
fn modulation_symbol_expansion() {
    // one bit per symbol: each bit yields two symbol samples
    let symbols = fsk::modulation_symbols(&[1, 0, 1, 3], 1);
    assert_eq!(symbols, vec![-1, -1, 1, 1, -1, -1, -1, -1]);

    let symbols = fsk::modulation_symbols(&[0, 1], 3);
    assert_eq!(symbols, vec![1, 1, 1, 1, -1, -1, -1, -1]);
}
