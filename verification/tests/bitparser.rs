use hydro_strike::bitops::bitparser::{Lap, Preamble, RawByte, WhitedByte};
use hydro_strike::bitops::lfsr;

#[test]
fn preamble_ok() {
    let input = [0, 1, 0, 1, 0, 1];
    let (remain, _) = Preamble::parse(&input).expect("parse failed");

    assert_eq!(remain.len(), 0);
}

#[test]
fn preamble_fail() {
    let input = [0, 1, 0, 1, 0, 0];
    assert!(Preamble::parse(&input).is_none(), "parse ok");
}

#[test]
fn raw_byte() {
    let input = [0, 1, 0, 1, 0, 1, 0, 1];
    let (remain, raw_byte) = RawByte::parse(&input).expect("parse failed");

    assert_eq!(remain.len(), 0);
    assert_eq!(raw_byte.byte, 0b10101010);
}

#[test]
fn uptest_raw_byte() {
    let raw_byte = RawByte { byte: 0b10101010 };
    let mut encoded = vec![];

    raw_byte.encode(&mut encoded);
    let (remain, decoded) = RawByte::parse(&encoded).expect("parse failed");

    assert_eq!(decoded.byte, raw_byte.byte);
    assert_eq!(remain.len(), 0);
}

#[test]
fn uptest_whited_byte() {
    let whited = WhitedByte { byte: 0b10101010 };
    let mut lfsr = lfsr::LFSR0221::from_ch(0);

    let mut encoded = vec![];
    whited.encode(&mut encoded, &mut lfsr);

    let mut lfsr = lfsr::LFSR0221::from_ch(0);
    let (remain, decoded) = WhitedByte::parse(&encoded, &mut lfsr).expect("parse failed");

    assert_eq!(decoded.byte, whited.byte);
    assert_eq!(remain.len(), 0);
}

#[test]
fn uptest_preamble() {
    let mut encoded = vec![];

    Preamble::encode(&mut encoded);

    let (remain, _) = Preamble::parse(&encoded).expect("parse failed");

    assert_eq!(remain.len(), 0);
}

#[test]
fn lap_gate() {
    // No Classic access code found: the stream may be BLE.
    let none = Lap { lap: None };
    assert!(none.is_valid_as_ble());

    // The all-ones sentinel also passes.
    let sentinel = Lap { lap: Some(0xffffffff) };
    assert!(sentinel.is_valid_as_ble());

    // Any other match marks the stream as Classic.
    let classic = Lap { lap: Some(0x9e8b33) };
    assert!(!classic.is_valid_as_ble());
}
