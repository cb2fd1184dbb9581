use vstd::prelude::*;
use vstd::bytes::{spec_u32_from_le_bytes, u32_from_le_bytes};
use vstd::slice::{slice_subrange, slice_to_vec};

use crate::bitops::BytePacket;

verus! {

/// The fixed access address of BLE advertising packets.
pub const ADVERTISING_AA: u32 = 0x8E89BED6;

/// A fully decoded packet: the byte packet it came from, the parsed
/// structure, the bytes the parser did not consume, and the RF frequency in
/// MHz.
#[derive(Clone)]
pub struct Bluetooth {
    pub bytes_packet: BytePacket,
    pub packet: BluetoothPacket,
    pub remain: Vec<u8>,
    pub freq: usize,
}

pub enum DecodeError {
    FoundClassic(u32),
    PacketNotFound,
}

/// The parsed structure and the trailing three CRC bytes, kept unverified.
#[derive(Clone)]
pub struct BluetoothPacket {
    pub inner: PacketInner,
    pub crc: [u8; 3],
}

#[derive(Clone)]
pub enum PacketInner {
    Advertisement(Advertisement),
    Unimplemented(u32),
}

/// An advertising PDU: header, declared length, advertiser address and the
/// ad structures that follow it.
#[derive(Clone)]
pub struct Advertisement {
    pub pdu_header: PDUHeader,
    pub length: u8,
    pub address: MacAddress,
    pub data: Vec<AdvData>,
}

/// Six address bytes, stored least-significant byte first.
#[derive(Clone, Debug, PartialEq, Eq)]
pub struct MacAddress {
    pub address: [u8; 6],
}

#[derive(Clone, Copy, Debug, PartialEq, Eq, Structural)]
pub enum PDUType {
    AdvInd,
    AdvDirectInd,
    AdvNonconnInd,
    ScanReq,
    ScanRsp,
    ConnectReq,
    AdvScanInd,
    Unknown(u8),
}

/// The advertising PDU header byte: type in the low four bits, then the
/// RFU, ChSel, TxAdd and RxAdd flags.
#[derive(Clone, Copy, Debug, PartialEq, Eq, Structural)]
pub struct PDUHeader {
    pub pdu_type: PDUType,
    pub rfu: bool,
    pub ch_sel: bool,
    pub tx_add: bool,
    pub rx_add: bool,
}

/// One TLV-style ad structure: a length byte and that many data bytes.
#[derive(Clone)]
pub struct AdvData {
    pub len: u8,
    pub data: Vec<u8>,
}

/// The PDU type encoded by the low four bits of the header byte.
pub open spec fn spec_pdu_type(n: u8) -> PDUType {
    if n == 0 {
        PDUType::AdvInd
    } else if n == 1 {
        PDUType::AdvDirectInd
    } else if n == 2 {
        PDUType::AdvNonconnInd
    } else if n == 3 {
        PDUType::ScanReq
    } else if n == 4 {
        PDUType::ScanRsp
    } else if n == 5 {
        PDUType::ConnectReq
    } else if n == 6 {
        PDUType::AdvScanInd
    } else {
        PDUType::Unknown(n)
    }
}

/// The header a byte decodes to: type from the low nibble, one flag per
/// remaining bit.
pub open spec fn spec_pdu_header(b: u8) -> PDUHeader {
    PDUHeader {
        pdu_type: spec_pdu_type(b & 0xf),
        rfu: (b >> 4) & 1 == 1,
        ch_sel: (b >> 5) & 1 == 1,
        tx_add: (b >> 6) & 1 == 1,
        rx_add: (b >> 7) & 1 == 1,
    }
}

/// The ad structures at the head of `s`: TLVs taken while a length byte and
/// its declared data fit in the remaining bytes.
pub open spec fn spec_ads(s: Seq<u8>) -> Seq<(u8, Seq<u8>)>
    decreases s.len(),
{
    if s.len() >= 1 && 1 + s[0] <= s.len() {
        seq![(s[0], s.subrange(1, 1 + s[0]))] + spec_ads(s.skip(1 + s[0]))
    } else {
        Seq::empty()
    }
}

/// What is left of `s` after every whole ad structure is taken.
pub open spec fn spec_ads_rest(s: Seq<u8>) -> Seq<u8>
    decreases s.len(),
{
    if s.len() >= 1 && 1 + s[0] <= s.len() {
        spec_ads_rest(s.skip(1 + s[0]))
    } else {
        s
    }
}

/// The model of a parsed ad-structure list: each element as its length byte
/// and data bytes.
pub open spec fn ads_model(s: Seq<AdvData>) -> Seq<(u8, Seq<u8>)> {
    s.map_values(|a: AdvData| (a.len, a.data@))
}

impl Bluetooth {
    /// Split the CRC off a byte packet and parse what remains.  The byte
    /// packet keeps its fields, its bytes shortened by the three CRC bytes.
    pub fn from_bytes(byte_packet: BytePacket, freq: usize) -> (r: Result<Self, DecodeError>)
        requires
            byte_packet.bytes@.len() >= 7,
            spec_u32_from_le_bytes(byte_packet.bytes@.subrange(0, 4)) == 0x8E89BED6
                ==> byte_packet.bytes@.len() >= 15,
        ensures
            r is Ok,
            ({
                let bytes0 = byte_packet.bytes@;
                let body = bytes0.take(bytes0.len() - 3);
                let aa = spec_u32_from_le_bytes(bytes0.subrange(0, 4));
                match r {
                    Ok(b) => {
                        &&& b.freq == freq
                        &&& b.packet.crc@ == bytes0.skip(bytes0.len() - 3)
                        &&& b.bytes_packet.bytes@ == body
                        &&& b.bytes_packet.raw == byte_packet.raw
                        &&& b.bytes_packet.aa == byte_packet.aa
                        &&& b.bytes_packet.freq == byte_packet.freq
                        &&& b.bytes_packet.delta == byte_packet.delta
                        &&& b.bytes_packet.offset == byte_packet.offset
                        &&& b.bytes_packet.remain_bits == byte_packet.remain_bits
                        &&& match b.packet.inner {
                            PacketInner::Advertisement(adv) => {
                                &&& aa == 0x8E89BED6
                                &&& adv.pdu_header == spec_pdu_header(body[4])
                                &&& adv.length == body[5]
                                &&& adv.address.address@ == body.subrange(6, 12)
                                &&& ads_model(adv.data@) == spec_ads(body.skip(12))
                                &&& b.remain@ == spec_ads_rest(body.skip(12))
                            },
                            PacketInner::Unimplemented(x) => {
                                &&& aa != 0x8E89BED6
                                &&& x == aa
                                &&& b.remain@ == body.skip(4)
                            },
                        }
                    },
                    Err(_) => false,
                }
            }),
    {
        let mut byte_packet = byte_packet;
        let ghost bytes0 = byte_packet.bytes@;

        let c2 = byte_packet.bytes.pop().unwrap();
        let c1 = byte_packet.bytes.pop().unwrap();
        let c0 = byte_packet.bytes.pop().unwrap();
        let crc: [u8; 3] = [c0, c1, c2];

        proof {
            assert(byte_packet.bytes@ =~= bytes0.take(bytes0.len() - 3));
            assert(crc@ =~= bytes0.skip(bytes0.len() - 3));
            assert(bytes0.take(bytes0.len() - 3).subrange(0, 4) =~= bytes0.subrange(0, 4));
        }

        let parsed = PacketInner::from_bytes(byte_packet.bytes.as_slice());
        let (remain, packet_inner) = match parsed {
            Some(p) => p,
            None => {
                proof {
                    assert(false);
                }
                return Err(DecodeError::PacketNotFound);
            },
        };

        let remain_vec = slice_to_vec(remain);

        Ok(
            Self {
                bytes_packet: byte_packet,
                packet: BluetoothPacket { inner: packet_inner, crc },
                remain: remain_vec,
                freq,
            },
        )
    }
}

impl PDUHeader {
    /// Decode the advertising PDU header byte; every byte decodes.
    pub fn from_byte(byte: u8) -> (r: Option<Self>)
        ensures
            r == Some(spec_pdu_header(byte)),
    {
        let mut b = byte;
        let pdu_type = match b & 0b1111 {
            0b0000 => Some(PDUType::AdvInd),
            0b0001 => Some(PDUType::AdvDirectInd),
            0b0010 => Some(PDUType::AdvNonconnInd),
            0b0011 => Some(PDUType::ScanReq),
            0b0100 => Some(PDUType::ScanRsp),
            0b0101 => Some(PDUType::ConnectReq),
            0b0110 => Some(PDUType::AdvScanInd),
            x => Some(PDUType::Unknown(x)),
        };

        b >>= 4;
        let rfu = b & 0b1 == 1;

        b >>= 1;
        let ch_sel = b & 0b1 == 1;

        b >>= 1;
        let tx_add = b & 0b1 == 1;

        b >>= 1;
        let rx_add = b & 0b1 == 1;

        proof {
            assert(((byte >> 4u8) >> 1u8) == (byte >> 5u8) && (((byte >> 4u8) >> 1u8) >> 1u8) == (
            byte >> 6u8) && ((((byte >> 4u8) >> 1u8) >> 1u8) >> 1u8) == (byte >> 7u8) && byte
                & 0b1111 < 16) by (bit_vector);
        }

        let pdu_type = match pdu_type {
            Some(t) => t,
            None => {
                return None;
            },
        };

        Some(PDUHeader { pdu_type, rfu, ch_sel, tx_add, rx_add })
    }
}

impl PacketInner {
    /// Read the access address; advertising packets get their PDU parsed,
    /// any other address is reported as unimplemented.
    fn from_bytes(input: &[u8]) -> (r: Option<(&[u8], Self)>)
        ensures
            ({
                let aa = spec_u32_from_le_bytes(input@.subrange(0, 4));
                &&& (r is Some <==> (input@.len() >= 4 && (aa == 0x8E89BED6 ==> input@.len()
                    >= 12)))
                &&& (r matches Some(x) ==> match x.1 {
                    PacketInner::Advertisement(adv) => {
                        &&& aa == 0x8E89BED6
                        &&& adv.pdu_header == spec_pdu_header(input@[4])
                        &&& adv.length == input@[5]
                        &&& adv.address.address@ == input@.subrange(6, 12)
                        &&& ads_model(adv.data@) == spec_ads(input@.skip(12))
                        &&& x.0@ == spec_ads_rest(input@.skip(12))
                    },
                    PacketInner::Unimplemented(v) => {
                        &&& aa != 0x8E89BED6
                        &&& v == aa
                        &&& x.0@ == input@.skip(4)
                    },
                })
            }),
    {
        if input.len() < 4 {
            return None;
        }

        let access_address = u32_from_le_bytes(slice_subrange(input, 0, 4));
        let rest = slice_subrange(input, 4, input.len());
        proof {
            assert(rest@ =~= input@.skip(4));
        }

        if access_address == 0x8E89BED6 {
            match Advertisement::from_bytes(rest) {
                Some(parsed) => {
                    proof {
                        assert(rest@.skip(8) =~= input@.skip(12));
                        assert(rest@[0] == input@[4] && rest@[1] == input@[5]);
                        assert(rest@.subrange(2, 8) =~= input@.subrange(6, 12));
                    }
                    Some((parsed.0, PacketInner::Advertisement(parsed.1)))
                },
                None => None,
            }
        } else {
            Some((rest, PacketInner::Unimplemented(access_address)))
        }
    }
}

impl Advertisement {
    /// Parse header, length and address, then every whole ad structure.
    fn from_bytes(input: &[u8]) -> (r: Option<(&[u8], Self)>)
        ensures
            r is Some <==> input@.len() >= 8,
            r matches Some(x) ==> {
                &&& x.1.pdu_header == spec_pdu_header(input@[0])
                &&& x.1.length == input@[1]
                &&& x.1.address.address@ == input@.subrange(2, 8)
                &&& ads_model(x.1.data@) == spec_ads(input@.skip(8))
                &&& x.0@ == spec_ads_rest(input@.skip(8))
            },
    {
        if input.len() < 2 {
            return None;
        }

        let pdu_type = match PDUHeader::from_byte(input[0]) {
            Some(h) => h,
            None => {
                return None;
            },
        };

        let length = input[1];

        let after_len = slice_subrange(input, 2, input.len());
        let (rest, address) = match MacAddress::from_bytes(after_len) {
            Some(p) => p,
            None => {
                return None;
            },
        };
        proof {
            assert(after_len@.subrange(0, 6) =~= input@.subrange(2, 8));
            assert(after_len@.skip(6) =~= input@.skip(8));
        }

        let mut data: Vec<AdvData> = Vec::new();
        let mut input_cur = rest;
        let ghost start = rest@;

        proof {
            assert(ads_model(data@) =~= Seq::<(u8, Seq<u8>)>::empty());
            assert(Seq::<(u8, Seq<u8>)>::empty() + spec_ads(start) =~= spec_ads(start));
        }

        loop
            invariant
                ads_model(data@) + spec_ads(input_cur@) == spec_ads(start),
                spec_ads_rest(input_cur@) == spec_ads_rest(start),
            ensures
                ads_model(data@) == spec_ads(start),
                input_cur@ == spec_ads_rest(start),
            decreases input_cur@.len(),
        {
            match AdvData::from_bytes(input_cur) {
                Some(parsed) => {
                    proof {
                        let c = input_cur@;
                        assert(spec_ads(c) == seq![(c[0], c.subrange(1, 1 + c[0]))] + spec_ads(
                            c.skip(1 + c[0]),
                        ));
                        assert(ads_model(data@.push(parsed.1)) =~= ads_model(data@).push(
                            (parsed.1.len, parsed.1.data@),
                        ));
                        assert(ads_model(data@).push((c[0], c.subrange(1, 1 + c[0]))) + spec_ads(
                            parsed.0@,
                        ) =~= ads_model(data@) + spec_ads(c));
                    }
                    data.push(parsed.1);
                    input_cur = parsed.0;
                },
                None => {
                    proof {
                        assert(spec_ads(input_cur@) =~= Seq::<(u8, Seq<u8>)>::empty());
                        assert(ads_model(data@) + spec_ads(input_cur@) =~= ads_model(data@));
                    }
                    break ;
                },
            }
        }

        Some((input_cur, Advertisement { pdu_header: pdu_type, length, address, data }))
    }
}

impl MacAddress {
    /// Read six address bytes as they stand in the stream.
    fn from_bytes(input: &[u8]) -> (r: Option<(&[u8], Self)>)
        ensures
            r is Some <==> input@.len() >= 6,
            r matches Some(x) ==> {
                &&& x.1.address@ == input@.subrange(0, 6)
                &&& x.0@ == input@.skip(6)
            },
    {
        if input.len() < 6 {
            return None;
        }

        let address: [u8; 6] = [input[0], input[1], input[2], input[3], input[4], input[5]];
        proof {
            assert(address@ =~= input@.subrange(0, 6));
        }

        Some((slice_subrange(input, 6, input.len()), MacAddress { address }))
    }
}

impl AdvData {
    /// Read one TLV: a length byte and that many data bytes.
    fn from_bytes(input: &[u8]) -> (r: Option<(&[u8], Self)>)
        ensures
            r is Some <==> (input@.len() >= 1 && 1 + input@[0] <= input@.len()),
            r matches Some(x) ==> {
                &&& x.1.len == input@[0]
                &&& x.1.data@ == input@.subrange(1, 1 + input@[0])
                &&& x.0@ == input@.skip(1 + input@[0])
            },
    {
        if input.len() < 1 {
            return None;
        }

        let len = input[0];
        if input.len() - 1 < len as usize {
            return None;
        }

        let data = slice_to_vec(slice_subrange(input, 1, 1 + len as usize));
        Some((slice_subrange(input, 1 + len as usize, input.len()), AdvData { len, data }))
    }
}

/// The lower-case hex digit of a nibble.
pub open spec fn spec_hex_digit(n: u8) -> char {
    if n == 0 {
        '0'
    } else if n == 1 {
        '1'
    } else if n == 2 {
        '2'
    } else if n == 3 {
        '3'
    } else if n == 4 {
        '4'
    } else if n == 5 {
        '5'
    } else if n == 6 {
        '6'
    } else if n == 7 {
        '7'
    } else if n == 8 {
        '8'
    } else if n == 9 {
        '9'
    } else if n == 10 {
        'a'
    } else if n == 11 {
        'b'
    } else if n == 12 {
        'c'
    } else if n == 13 {
        'd'
    } else if n == 14 {
        'e'
    } else {
        'f'
    }
}

/// Two lower-case hex digits of a byte.
pub open spec fn spec_byte_hex(b: u8) -> Seq<char> {
    seq![spec_hex_digit(b >> 4), spec_hex_digit(b & 0xf)]
}

/// The rendering of an address: bytes most significant first, separated by
/// colons.
pub open spec fn spec_mac_string(m: MacAddress) -> Seq<char> {
    spec_byte_hex(m.address[5]) + seq![':'] + spec_byte_hex(m.address[4]) + seq![':']
        + spec_byte_hex(m.address[3]) + seq![':'] + spec_byte_hex(m.address[2]) + seq![':']
        + spec_byte_hex(m.address[1]) + seq![':'] + spec_byte_hex(m.address[0])
}

/// The lower-case hex digit of a nibble, as a one-character string.
fn hex_digit_str(n: u8) -> (r: &'static str)
    requires
        n < 16,
    ensures
        r@ == seq![spec_hex_digit(n)],
{
    proof {
        reveal_strlit("0");
        reveal_strlit("1");
        reveal_strlit("2");
        reveal_strlit("3");
        reveal_strlit("4");
        reveal_strlit("5");
        reveal_strlit("6");
        reveal_strlit("7");
        reveal_strlit("8");
        reveal_strlit("9");
        reveal_strlit("a");
        reveal_strlit("b");
        reveal_strlit("c");
        reveal_strlit("d");
        reveal_strlit("e");
        reveal_strlit("f");
    }
    match n {
        0 => "0",
        1 => "1",
        2 => "2",
        3 => "3",
        4 => "4",
        5 => "5",
        6 => "6",
        7 => "7",
        8 => "8",
        9 => "9",
        10 => "a",
        11 => "b",
        12 => "c",
        13 => "d",
        14 => "e",
        _ => "f",
    }
}

/// One byte as two lower-case hex digits appended to `dest`.
fn append_byte_hex(dest: &mut String, b: u8)
    ensures
        final(dest)@ == old(dest)@ + spec_byte_hex(b),
{
    proof {
        assert(b >> 4 < 16 && b & 0xf < 16) by (bit_vector);
    }
    dest.append(hex_digit_str(b >> 4));
    dest.append(hex_digit_str(b & 0xf));
    proof {
        assert(dest@ =~= old(dest)@ + spec_byte_hex(b));
    }
}

impl MacAddress {
    /// The colon-separated rendering, most significant byte first.
    pub fn to_string(&self) -> (r: String)
        ensures
            r@ == spec_mac_string(*self),
    {
        let mut s = String::new();
        append_byte_hex(&mut s, self.address[5]);
        s.append(":");
        append_byte_hex(&mut s, self.address[4]);
        s.append(":");
        append_byte_hex(&mut s, self.address[3]);
        s.append(":");
        append_byte_hex(&mut s, self.address[2]);
        s.append(":");
        append_byte_hex(&mut s, self.address[1]);
        s.append(":");
        append_byte_hex(&mut s, self.address[0]);
        proof {
            reveal_strlit(":");
            assert(s@ =~= spec_mac_string(*self));
        }
        s
    }
}

/// The rendering of a PDU type: its specification name, or the unknown
/// nibble in hex.
pub open spec fn spec_pdu_type_name(t: PDUType) -> Seq<char> {
    match t {
        PDUType::AdvInd => "ADV_IND"@,
        PDUType::AdvDirectInd => "ADV_DIRECT_IND"@,
        PDUType::AdvNonconnInd => "ADV_NONCONN_IND"@,
        PDUType::ScanReq => "SCAN_REQ"@,
        PDUType::ScanRsp => "SCAN_RSP"@,
        PDUType::ConnectReq => "CONNECT_REQ"@,
        PDUType::AdvScanInd => "ADV_SCAN_IND"@,
        PDUType::Unknown(x) => "Unknown(0x"@ + (if x < 16 {
            seq![spec_hex_digit(x)]
        } else {
            seq![spec_hex_digit(x >> 4), spec_hex_digit(x & 0xf)]
        }) + ")"@,
    }
}

/// The rendering of a header: the type name, then the set flags between
/// brackets, separated by bars.
pub open spec fn spec_pdu_header_string(h: PDUHeader) -> Seq<char> {
    let f1 = if h.rfu {
        "RFU"@
    } else {
        Seq::<char>::empty()
    };
    let f2 = if h.ch_sel {
        (if h.rfu {
            "|"@
        } else {
            Seq::<char>::empty()
        }) + "CH_SEL"@
    } else {
        Seq::<char>::empty()
    };
    let f3 = if h.tx_add {
        (if h.rfu || h.ch_sel {
            "|"@
        } else {
            Seq::<char>::empty()
        }) + "TX_ADD"@
    } else {
        Seq::<char>::empty()
    };
    let f4 = if h.rx_add {
        (if h.rfu || h.ch_sel || h.tx_add {
            "|"@
        } else {
            Seq::<char>::empty()
        }) + "RX_ADD"@
    } else {
        Seq::<char>::empty()
    };
    spec_pdu_type_name(h.pdu_type) + "["@ + f1 + f2 + f3 + f4 + "]"@
}

impl PDUHeader {
    /// The rendering the log lines use: type name and set flags.
    #[verifier::rlimit(50)]
    pub fn to_string(&self) -> (r: String)
        ensures
            r@ == spec_pdu_header_string(*self),
    {
        let mut s = String::new();

        match self.pdu_type {
            PDUType::AdvInd => s.append("ADV_IND"),
            PDUType::AdvDirectInd => s.append("ADV_DIRECT_IND"),
            PDUType::AdvNonconnInd => s.append("ADV_NONCONN_IND"),
            PDUType::ScanReq => s.append("SCAN_REQ"),
            PDUType::ScanRsp => s.append("SCAN_RSP"),
            PDUType::ConnectReq => s.append("CONNECT_REQ"),
            PDUType::AdvScanInd => s.append("ADV_SCAN_IND"),
            PDUType::Unknown(x) => {
                s.append("Unknown(0x");
                if x < 16 {
                    s.append(hex_digit_str(x));
                } else {
                    proof {
                        assert(x >> 4 < 16 && x & 0xf < 16) by (bit_vector);
                    }
                    s.append(hex_digit_str(x >> 4));
                    s.append(hex_digit_str(x & 0xf));
                }
                s.append(")");
            },
        }

        proof {
            reveal_strlit("[");
            reveal_strlit("]");
            reveal_strlit("|");
            assert(s@ =~= spec_pdu_type_name(self.pdu_type));
        }

        s.append("[");

        let mut is_first = true;

        if self.rfu {
            if !is_first {
                s.append("|");
            }
            s.append("RFU");
            is_first = false;
        }

        if self.ch_sel {
            if !is_first {
                s.append("|");
            }
            s.append("CH_SEL");
            is_first = false;
        }

        if self.tx_add {
            if !is_first {
                s.append("|");
            }
            s.append("TX_ADD");
            is_first = false;
        }

        if self.rx_add {
            if !is_first {
                s.append("|");
            }
            s.append("RX_ADD");
        }

        s.append("]");

        proof {
            assert(s@ =~= spec_pdu_header_string(*self));
        }

        s
    }
}

} // verus!
