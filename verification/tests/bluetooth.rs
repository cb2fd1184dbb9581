use hydro_strike::bitops::BytePacket;
use hydro_strike::bluetooth::{Bluetooth, PDUHeader, PDUType, PacketInner};

fn byte_packet(bytes: Vec<u8>) -> BytePacket {
    BytePacket {
        raw: None,
        aa: u32::from_le_bytes([bytes[0], bytes[1], bytes[2], bytes[3]]),
        freq: 2426,
        delta: 4,
        offset: 2,
        remain_bits: vec![],
        bytes,
    }
}

#[test]
fn parse_advertisement() {
    let mut bytes: Vec<u8> = vec![0xd6, 0xbe, 0x89, 0x8e]; // advertising AA
    bytes.push(0x00); // PDU header: ADV_IND, no flags
    bytes.push(0x0c); // declared length
    bytes.extend_from_slice(&[0xf6, 0x48, 0x98, 0x9a, 0x6e, 0x1f]); // address
    bytes.extend_from_slice(&[2, 0x01, 0x06]); // one ad structure
    bytes.extend_from_slice(&[0xaa, 0xbb, 0xcc]); // CRC

    let bt = Bluetooth::from_bytes(byte_packet(bytes), 2426).ok().unwrap();

    assert_eq!(bt.packet.crc, [0xaa, 0xbb, 0xcc]);
    assert_eq!(bt.freq, 2426);
    assert!(bt.remain.is_empty());

    match bt.packet.inner {
        PacketInner::Advertisement(adv) => {
            assert_eq!(adv.pdu_header.pdu_type, PDUType::AdvInd);
            assert!(!adv.pdu_header.rfu);
            assert_eq!(adv.length, 0x0c);
            assert_eq!(adv.address.address, [0xf6, 0x48, 0x98, 0x9a, 0x6e, 0x1f]);
            assert_eq!(adv.data.len(), 1);
            assert_eq!(adv.data[0].len, 2);
            assert_eq!(adv.data[0].data, vec![0x01, 0x06]);
        },
        PacketInner::Unimplemented(_) => panic!("advertising AA not recognised"),
    }
}

#[test]
fn parse_truncated_ad_structure() {
    let mut bytes: Vec<u8> = vec![0xd6, 0xbe, 0x89, 0x8e];
    bytes.push(0x00);
    bytes.push(0x0c);
    bytes.extend_from_slice(&[1, 2, 3, 4, 5, 6]);
    // a length byte that promises more data than remains
    bytes.extend_from_slice(&[9, 0x01]);
    bytes.extend_from_slice(&[0, 0, 0]); // CRC

    let bt = Bluetooth::from_bytes(byte_packet(bytes), 2426).ok().unwrap();

    match bt.packet.inner {
        PacketInner::Advertisement(adv) => {
            assert!(adv.data.is_empty());
            assert_eq!(bt.remain, vec![9, 0x01]);
        },
        PacketInner::Unimplemented(_) => panic!("advertising AA not recognised"),
    }
}

#[test]
fn parse_other_access_address() {
    let mut bytes: Vec<u8> = vec![0x78, 0x56, 0x34, 0x12];
    bytes.extend_from_slice(&[1, 2, 3]);
    bytes.extend_from_slice(&[0xaa, 0xbb, 0xcc]); // CRC

    let bt = Bluetooth::from_bytes(byte_packet(bytes), 2426).ok().unwrap();

    match bt.packet.inner {
        PacketInner::Advertisement(_) => panic!("foreign AA parsed as advertising"),
        PacketInner::Unimplemented(aa) => {
            assert_eq!(aa, 0x12345678);
        },
    }
    assert_eq!(bt.remain, vec![1, 2, 3]);
    assert_eq!(bt.bytes_packet.bytes.len(), 7);
}

#[test]
fn pdu_header_bits() {
    let h = PDUHeader::from_byte(0x25).unwrap();
    assert_eq!(h.pdu_type, PDUType::ConnectReq);
    assert!(!h.rfu);
    assert!(h.ch_sel);
    assert!(!h.tx_add);
    assert!(!h.rx_add);

    let h = PDUHeader::from_byte(0xf7).unwrap();
    assert_eq!(h.pdu_type, PDUType::Unknown(7));
    assert!(h.rfu);
    assert!(h.ch_sel);
    assert!(h.tx_add);
    assert!(h.rx_add);

    let h = PDUHeader::from_byte(0x02).unwrap();
    assert_eq!(h.pdu_type, PDUType::AdvNonconnInd);
}

// The end of the whitened path and the start of the parser agree: an
// encoded advertising payload decodes into an advertisement whose fields
// sit where the parser expects them.  The encoder's zero header-padding
// byte lands where the parser reads the PDU header, and its length byte
// where the parser reads the declared length.
#[test]
fn codec_to_parser_round_trip() {
    let mut payload: Vec<u8> = vec![0x65, 0xb8, 0x4e, 0x41, 0xb0, 0x5e]; // address
    payload.extend_from_slice(&[3, 0x02, 0x01, 0x06]); // ad structure

    let bits = hydro_strike::bitops::packet_to_bits(&payload, 2426, 0x8e89bed6);
    let byte_packet = hydro_strike::bitops::bits_to_packet(&bits, 2426).unwrap();
    assert_eq!(byte_packet.aa, 0x8e89bed6);

    let bt = Bluetooth::from_bytes(byte_packet, 2426).ok().unwrap();
    match bt.packet.inner {
        PacketInner::Advertisement(adv) => {
            assert_eq!(adv.pdu_header.pdu_type, PDUType::AdvInd);
            assert_eq!(adv.length, 10);
            assert_eq!(adv.address.address, [0x65, 0xb8, 0x4e, 0x41, 0xb0, 0x5e]);
            assert_eq!(adv.data.len(), 1);
            assert_eq!(adv.data[0].data, vec![0x02, 0x01, 0x06]);
        },
        PacketInner::Unimplemented(_) => panic!("advertising AA not recognised"),
    }
}
