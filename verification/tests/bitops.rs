use hydro_strike::bitops;

#[test]
fn bits_to_packet() {
    let bits = vec![
        0, 1, 0, 1, 0, 1, 0, 1, 0, 1, 1, 0, 1, 0, 1, 1, 0, 1, 1, 1, 1, 1, 0, 1, 1, 0, 0, 1, 0,
        0, 0, 1, 0, 1, 1, 1, 0, 0, 0, 1, 0, 1, 1, 0, 1, 0, 0, 1, 1, 0, 0, 0, 0, 1, 1, 1, 0, 1,
        1, 0, 0, 0, 1, 1, 1, 1, 0, 1, 0, 1, 1, 0, 1, 1, 0, 1, 0, 1, 1, 1, 1, 1, 0, 1, 0, 0, 0,
        1, 1, 0, 1, 1, 1, 0, 0, 1, 1, 0, 1, 1, 0, 1, 1, 1, 1, 0, 0, 1, 1, 0, 0, 0, 0, 0, 1, 0,
        0, 1, 0, 1, 1, 0, 0, 1, 0, 1, 0, 1, 0, 0, 0, 1, 1, 0, 1, 0, 0, 1, 0, 0, 1, 1, 1, 0, 1,
        1, 1, 1, 0, 0, 0, 0, 1, 0, 1, 1, 1, 1, 0, 1, 0, 0, 0, 0, 1, 0, 0, 0, 1, 1, 1, 0, 0, 0,
        0, 1, 1, 1, 1, 0, 0, 0, 0, 0, 0, 1, 0, 0, 0, 0, 0, 0, 0, 0, 0, 0, 0, 0, 1, 1, 1, 0, 0,
        1, 0, 0, 1, 0, 1, 0, 0, 0, 0, 0, 0, 1, 1, 1, 0, 0, 1, 0, 0, 1, 0, 1, 1, 1, 0, 1, 0, 1,
        1, 0, 0, 0, 0, 1, 1, 1, 0, 1, 0, 0, 1, 0, 1, 1, 1, 1, 1, 0, 1, 0, 1, 0, 1, 0, 0, 0, 0,
        1, 0, 1, 1, 0, 1, 1, 1, 1, 0, 0, 1, 1, 1, 0, 0, 1, 0, 1, 0, 1, 1, 0, 0, 1, 1, 0, 0, 0,
        0, 0, 1, 1, 0, 1, 1, 0, 1, 0, 1, 1, 1, 0, 1, 0, 0, 0, 1, 1, 0, 0, 1, 0, 0, 0, 1, 0, 0,
        0, 0, 0, 0, 1, 0, 0, 1, 0, 0, 1, 1, 0, 1, 0, 0, 1, 1, 1, 1, 0, 1, 1, 1, 0, 0, 0, 1, 0,
        0, 0, 0, 0, 0, 0, 1, 1, 0, 0, 1, 0, 1, 1, 0, 0, 0, 1, 0, 0, 0, 0, 0, 0, 0, 1,
    ];

    let byte_packet = bitops::bits_to_packet(&bits, 2426).unwrap();

    assert_eq!(byte_packet.aa, 0x8e89bed6);
    assert_eq!(byte_packet.offset, 2);
    assert_eq!(byte_packet.delta, 6);

    assert_eq!(byte_packet.remain_bits.len(), byte_packet.delta as usize);
}

#[test]
fn uptest_bytes() {
    let bytes = b"hello world!";

    let bits = bitops::packet_to_bits(bytes, 2426, 0x8e89bed6);

    let byte_packet = bitops::bits_to_packet(&bits, 2426).unwrap();

    assert_eq!(byte_packet.aa, 0x8e89bed6);
    assert_eq!(byte_packet.offset, 2);

    assert_eq!(byte_packet.delta, 4);
    assert_eq!(byte_packet.remain_bits.len(), 4);
}

#[test]
fn uptest_bytes_other_channel() {
    let bytes = b"abc";

    let bits = bitops::packet_to_bits(bytes, 2480, 0x12345678);

    let byte_packet = bitops::bits_to_packet(&bits, 2480).unwrap();

    assert_eq!(byte_packet.aa, 0x12345678);
    assert_eq!(byte_packet.offset, 2);
    assert_eq!(byte_packet.delta, 4);
    assert_eq!(&byte_packet.bytes[6..9], b"abc");
    assert_eq!(byte_packet.bytes[5], 3);
}

#[test]
fn fsk_to_packet_keeps_raw() {
    let bytes = b"payload";
    let bits = bitops::packet_to_bits(bytes, 2426, 0x8e89bed6);

    let packet = hydro_strike::fsk::Packet { bits };
    let byte_packet = bitops::fsk_to_packet(packet.clone(), 2426).unwrap();

    assert_eq!(byte_packet.aa, 0x8e89bed6);
    let raw = byte_packet.raw.unwrap();
    assert_eq!(raw.bits, packet.bits);
}

// The first whitened byte that a trial offset reads from an all-zero stream
// is the second whitening byte itself, the same for every offset.
fn zero_stream_length_byte(freq: usize) -> usize {
    let mut lfsr = bitops::lfsr::LFSR0221::from_freq(freq);
    for _ in 0..8 {
        lfsr.next_white();
    }
    let mut byte: usize = 0;
    for i in 0..8 {
        byte |= (lfsr.next_white() as usize) << i;
    }
    byte
}

#[test]
fn delta_zero_rejected() {
    // An all-zero stream passes the preamble check and decodes the same
    // length byte W at every offset; sizing it to exactly 80 + 8 * W bits
    // makes every spare-bit count zero.
    let w = zero_stream_length_byte(2402);
    let len = 80 + 8 * w;
    assert!(len >= 56);

    let bits = vec![0u8; len];
    let err = bitops::bits_to_packet(&bits, 2402).unwrap_err();
    assert_eq!(err, bitops::BitopsError::LengthNotFound);
}

#[test]
fn delta_one_accepted() {
    let w = zero_stream_length_byte(2402);
    let len = 81 + 8 * w;

    let bits = vec![0u8; len];
    let byte_packet = bitops::bits_to_packet(&bits, 2402).unwrap();
    assert_eq!(byte_packet.delta, 1);
    assert_eq!(byte_packet.offset, 0);
}

#[test]
fn delta_twenty_rejected() {
    // Sixteen bits appended to a good stream raise its spare-bit count
    // from 4 to 20.
    let mut bits = bitops::packet_to_bits(b"hello world!", 2426, 0x8e89bed6);
    bits.push(0);
    bits.push(0);
    bits.push(0);
    bits.push(0);
    bits.push(0);
    bits.push(0);
    bits.push(0);
    bits.push(0);
    bits.push(0);
    bits.push(0);
    bits.push(0);
    bits.push(0);
    bits.push(0);
    bits.push(0);
    bits.push(0);
    bits.push(0);
    let err = bitops::bits_to_packet(&bits, 2426).unwrap_err();
    assert_eq!(err, bitops::BitopsError::DeltaTooLarge);
}

#[test]
fn delta_nineteen_accepted() {
    // Fifteen extra bits raise the spare-bit count from 4 to 19: one whole
    // extra byte joins the parsed bytes, the rest joins the spare bits.
    let mut bits = bitops::packet_to_bits(b"hello world!", 2426, 0x8e89bed6);
    for _ in 0..15 {
        bits.push(0);
    }
    let byte_packet = bitops::bits_to_packet(&bits, 2426).unwrap();
    assert_eq!(byte_packet.delta, 19);
    assert_eq!(byte_packet.offset, 2);
    assert_eq!(byte_packet.remain_bits.len(), 3);
}

#[test]
fn preamble_mismatch_rejected() {
    let mut bits = bitops::packet_to_bits(b"x", 2426, 0x8e89bed6);
    bits[0] = 1;  // breaks the alternating pattern: bits 0 and 2 differ
    let err = bitops::bits_to_packet(&bits, 2426).unwrap_err();
    assert_eq!(err, bitops::BitopsError::PreambleMismatch);
}

#[test]
fn short_stream_starves() {
    // Ten alternating bits pass the preamble but cannot hold the access
    // address.
    let bits = vec![0, 1, 0, 1, 0, 1, 0, 1, 0, 1];
    let err = bitops::bits_to_packet(&bits, 2426).unwrap_err();
    assert_eq!(err, bitops::BitopsError::BitStarvation);
}
