use hydro_strike::bluetooth::{MacAddress, PDUHeader, PDUType};

#[test]
fn mac_renders_msb_first() {
    let mac = MacAddress { address: [0xf6, 0x48, 0x98, 0x9a, 0x6e, 0x1f] };
    assert_eq!(mac.to_string(), "1f:6e:9a:98:48:f6");

    let mac = MacAddress { address: [0, 1, 2, 3, 4, 5] };
    assert_eq!(mac.to_string(), "05:04:03:02:01:00");
}

#[test]
fn pdu_header_renders_flags() {
    assert_eq!(PDUHeader::from_byte(0x00).unwrap().to_string(), "ADV_IND[]");
    assert_eq!(PDUHeader::from_byte(0x25).unwrap().to_string(), "CONNECT_REQ[CH_SEL]");
    assert_eq!(
        PDUHeader::from_byte(0xf7).unwrap().to_string(),
        "Unknown(0x7)[RFU|CH_SEL|TX_ADD|RX_ADD]"
    );

    let h = PDUHeader {
        pdu_type: PDUType::Unknown(0xab),
        rfu: false,
        ch_sel: false,
        tx_add: true,
        rx_add: false,
    };
    assert_eq!(h.to_string(), "Unknown(0xab)[TX_ADD]");
}
