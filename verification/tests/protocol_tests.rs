use bytes::BytesMut;
use gaming_tunnel::protocol::{
    Flags, InnerHeader, OuterHeader, PktType, FLAG_FEC_ON, FLAG_OBFUSCATED, FLAG_REVERSE,
    INNER_HDR_LEN, OUTER_HDR_LEN,
};

fn sample() -> OuterHeader {
    let mut flags = Flags::empty();
    flags.insert(Flags::fec_on());
    flags.insert(Flags::obfuscated());
    OuterHeader {
        version: 1,
        ptype: PktType::Parity,
        flags,
        block_id: 0x1234,
        shard_index: 11,
        k: 10,
        n: 13,
        payload_len: 0x0578,
    }
}

#[test]
fn outer_header_exact_bytes() {
    let mut buf = BytesMut::new();
    sample().encode(&mut buf);
    assert_eq!(buf.len(), OUTER_HDR_LEN);
    assert_eq!(&buf[..], &[0b0101_0011, 0x12, 0x34, 11, 10, 13, 0x05, 0x78]);
}

#[test]
fn outer_header_appends() {
    let mut buf = BytesMut::new();
    buf.extend_from_slice(&[9, 9]);
    sample().encode(&mut buf);
    assert_eq!(buf.len(), 2 + OUTER_HDR_LEN);
    assert_eq!(&buf[..3], &[9, 9, 0b0101_0011]);
}

#[test]
fn outer_header_roundtrip() {
    let mut buf = BytesMut::new();
    let h = sample();
    h.encode(&mut buf);
    assert_eq!(OuterHeader::decode(&buf[..]), Some(h));
}

#[test]
fn outer_header_decode_fields() {
    let bytes = [0b1110_0101u8, 0xff, 0x01, 3, 4, 5, 0x00, 0x10, 0xaa];
    let h = OuterHeader::decode(&bytes).unwrap();
    assert_eq!(h.version, 3);
    assert_eq!(h.ptype, PktType::Control);
    assert_eq!(h.flags.bits(), FLAG_OBFUSCATED | FLAG_REVERSE);
    assert_eq!(h.block_id, 0xff01);
    assert_eq!((h.shard_index, h.k, h.n), (3, 4, 5));
    assert_eq!(h.payload_len, 0x10);
}

#[test]
fn outer_header_decode_drops_unknown_flag_bit() {
    let bytes = [0b0000_1111u8, 0, 0, 0, 0, 0, 0, 0];
    let h = OuterHeader::decode(&bytes).unwrap();
    assert_eq!(h.flags.bits(), 0b0111);
    assert_eq!(h.ptype, PktType::Data);
}

#[test]
fn outer_header_type_code_three_reads_as_control() {
    let bytes = [0b0011_0000u8, 0, 0, 0, 0, 0, 0, 0];
    assert_eq!(OuterHeader::decode(&bytes).unwrap().ptype, PktType::Control);
}

#[test]
fn outer_header_too_short() {
    assert_eq!(OuterHeader::decode(&[1, 2, 3, 4, 5, 6, 7]), None);
    assert_eq!(OuterHeader::decode(&[]), None);
}

#[test]
fn outer_header_version_masked_on_encode() {
    let mut h = sample();
    h.version = 5;
    let mut buf = BytesMut::new();
    h.encode(&mut buf);
    assert_eq!(OuterHeader::decode(&buf[..]).unwrap().version, 1);
}

#[test]
fn inner_header_roundtrip_and_bytes() {
    let h = InnerHeader { stream_id: 0xabcd, seq: 0x0102 };
    let mut buf = BytesMut::new();
    h.encode(&mut buf);
    assert_eq!(&buf[..], &[0xab, 0xcd, 0x01, 0x02]);
    assert_eq!(buf.len(), INNER_HDR_LEN);
    assert_eq!(InnerHeader::decode(&buf[..]), Some(h));
}

#[test]
fn inner_header_too_short() {
    assert_eq!(InnerHeader::decode(&[1, 2, 3]), None);
}

#[test]
fn flags_operations() {
    let mut f = Flags::empty();
    assert_eq!(f.bits(), 0);
    assert!(!f.contains(Flags::reverse()));
    f.insert(Flags::reverse());
    assert!(f.contains(Flags::reverse()));
    assert!(!f.contains(Flags::fec_on()));
    assert_eq!(f.bits(), FLAG_REVERSE);
    assert_eq!(Flags::from_bits_truncate(0xff).bits(), FLAG_OBFUSCATED | FLAG_FEC_ON | FLAG_REVERSE);
    assert!(f.contains(Flags::empty()));
}

#[test]
fn pkt_type_codes() {
    assert_eq!(PktType::Data.code(), 0);
    assert_eq!(PktType::Parity.code(), 1);
    assert_eq!(PktType::Control.code(), 2);
}

#[test]
fn outer_header_bytes_reencode() {
    let bytes = [0b1001_0110u8, 0xbe, 0xef, 200, 17, 30, 0xff, 0x00];
    let h = OuterHeader::decode(&bytes).unwrap();
    let mut buf = BytesMut::new();
    h.encode(&mut buf);
    assert_eq!(&buf[..], &bytes[..]);
}

#[test]
fn inner_header_bytes_reencode() {
    let bytes = [0x00u8, 0x2a, 0xff, 0xfe, 0x77];
    let h = InnerHeader::decode(&bytes).unwrap();
    assert_eq!((h.stream_id, h.seq), (42, 0xfffe));
    let mut buf = BytesMut::new();
    h.encode(&mut buf);
    assert_eq!(&buf[..], &bytes[..4]);
}
