use gaming_tunnel::config::{FecRatio, RunArgs};
use gaming_tunnel::crypto::Obfuscator;
use gaming_tunnel::fec::RsError;
use gaming_tunnel::pipeline::{delivers_shard, Pipeline, TxState};
use gaming_tunnel::protocol::{
    OuterHeader, PktType, FLAG_FEC_ON, FLAG_OBFUSCATED, FLAG_REVERSE, OUTER_HDR_LEN,
};
use gaming_tunnel::session::Session;

fn args(mtu: u16, obfs: bool, reverse: bool) -> RunArgs {
    RunArgs {
        listen: "0.0.0.0:0".to_string(),
        remote: Some("127.0.0.1:9000".to_string()),
        tun_name: "gtun0".to_string(),
        tun_addr: "10.10.0.1/24".to_string(),
        mtu,
        fec: "2:1".to_string(),
        obfs,
        key: "changeme".to_string(),
        mux: 1,
        jitter: 8,
        jitter_ms: 5000,
        pace_mbps: 0,
        workers: 2,
        reverse,
        reconnect_ms: 2000,
    }
}

#[test]
fn fec_off_single_frame_becomes_one_datagram() {
    let p = Pipeline::new(&args(1400, false, false), FecRatio { data: 0, parity: 0 }).unwrap();
    let mut st = TxState::new();
    let out = p.tx_frame(&mut st, 7, &[0xde, 0xad]).unwrap().unwrap();
    assert_eq!(out.len(), 1);
    assert_eq!(
        out[0],
        vec![0b0101_0000, 0, 0, 0, 0, 1, 0, 6, 0, 7, 0, 0, 0xde, 0xad]
    );
    let out = p.tx_frame(&mut st, 7, &[0xbe]).unwrap().unwrap();
    assert_eq!(out[0][1..3], [0, 1]);
    assert_eq!(out[0][10..12], [0, 1]);
}

#[test]
fn fec_batch_fills_then_emits_block() {
    let p = Pipeline::new(&args(8, false, true), FecRatio { data: 2, parity: 1 }).unwrap();
    let mut st = TxState::new();
    assert!(p.tx_frame(&mut st, 1, &[1, 2, 3]).unwrap().is_none());
    let out = p.tx_frame(&mut st, 1, &[4]).unwrap().unwrap();
    assert_eq!(out.len(), 3);
    for (i, d) in out.iter().enumerate() {
        let h = OuterHeader::decode(d).unwrap();
        assert_eq!(h.version, 1);
        assert_eq!(h.block_id, 0);
        assert_eq!(h.shard_index as usize, i);
        assert_eq!((h.k, h.n), (2, 3));
        assert_eq!(h.payload_len, 12);
        assert_eq!(h.flags.bits(), FLAG_FEC_ON | FLAG_REVERSE);
        assert_eq!(h.ptype, if i < 2 { PktType::Data } else { PktType::Parity });
        assert_eq!(d.len(), OUTER_HDR_LEN + 12);
    }
    assert_eq!(&out[0][8..], &[0, 1, 0, 0, 1, 2, 3, 0, 0, 0, 0, 0]);
    assert_eq!(&out[1][8..], &[0, 1, 0, 1, 4, 0, 0, 0, 0, 0, 0, 0]);
    assert!(p.tx_frame(&mut st, 1, &[5]).unwrap().is_none());
    let out = p.tx_frame(&mut st, 1, &[6]).unwrap().unwrap();
    assert_eq!(OuterHeader::decode(&out[0]).unwrap().block_id, 1);
}

#[test]
fn frames_are_cut_to_shard_size() {
    let p = Pipeline::new(&args(0, false, false), FecRatio { data: 1, parity: 1 }).unwrap();
    let mut st = TxState::new();
    let out = p.tx_frame(&mut st, 1, &[9]).unwrap().unwrap();
    assert_eq!(out.len(), 2);
    assert_eq!(out[0][8..], [0, 1, 0, 0]);
}

#[test]
fn pipeline_refuses_bad_ratio() {
    assert_eq!(
        Pipeline::new(&args(100, false, false), FecRatio { data: 250, parity: 10 }).err(),
        Some(RsError::TooManyShards)
    );
}

#[test]
fn datagrams_open_to_their_shards() {
    let p = Pipeline::new(&args(16, true, false), FecRatio { data: 2, parity: 2 }).unwrap();
    let shards = vec![vec![1u8; 20], vec![2u8; 20], vec![3u8; 20], vec![4u8; 20]];
    let out = p.emit_block(77, &shards);
    assert_eq!(out.len(), 4);
    for (i, d) in out.iter().enumerate() {
        assert_ne!(&d[8..], &shards[i][..]);
        let (h, payload) = p.rx_datagram(d).unwrap();
        assert_eq!(payload, shards[i]);
        assert_eq!(h.block_id, 77);
        assert_eq!(h.shard_index as usize, i);
        assert_eq!(h.flags.bits() & FLAG_OBFUSCATED, FLAG_OBFUSCATED);
    }
}

#[test]
fn obfuscated_payload_uses_block_keystream() {
    let p = Pipeline::new(&args(16, true, false), FecRatio { data: 0, parity: 0 }).unwrap();
    let shards = vec![vec![0u8; 5]];
    let out = p.emit_block(3, &shards);
    let mut expected = vec![0u8; 5];
    Obfuscator::new("changeme").apply(&mut expected, 3);
    assert_eq!(&out[0][8..], &expected[..]);
    assert_eq!(out[0][7], 5);
    assert_eq!(out[0][5], 1);
}

#[test]
fn rx_datagram_too_short() {
    let p = Pipeline::new(&args(16, true, false), FecRatio { data: 0, parity: 0 }).unwrap();
    assert!(p.rx_datagram(&[1, 2, 3]).is_none());
}

#[test]
fn rx_datagram_without_flag_is_not_deobfuscated() {
    let p = Pipeline::new(&args(16, true, false), FecRatio { data: 0, parity: 0 }).unwrap();
    let d = [0b0100_0000u8, 0, 0, 0, 0, 1, 0, 2, 9, 9];
    let (h, payload) = p.rx_datagram(&d).unwrap();
    assert_eq!(h.flags.bits(), 0);
    assert_eq!(payload, vec![9, 9]);
}

#[test]
fn rx_frame_reorders_inner_frames() {
    let p = Pipeline::new(&args(16, false, false), FecRatio { data: 0, parity: 0 }).unwrap();
    let mut j = p.new_jitter();
    assert!(p.rx_frame(&mut j, &[0, 1, 0, 1, 0xbb]).is_empty());
    assert_eq!(p.rx_frame(&mut j, &[0, 1, 0, 0, 0xaa]), vec![vec![0xaa], vec![0xbb]]);
    assert!(p.rx_frame(&mut j, &[0, 1, 0]).is_empty());
}

#[test]
fn tx_then_rx_delivers_frames() {
    let p = Pipeline::new(&args(16, true, false), FecRatio { data: 0, parity: 0 }).unwrap();
    let mut st = TxState::new();
    let mut j = p.new_jitter();
    let mut delivered = Vec::new();
    for frame in [vec![1u8, 2], vec![3u8], vec![4u8, 5, 6]] {
        let dgrams = p.tx_frame(&mut st, 0, &frame).unwrap().unwrap();
        for d in dgrams {
            let (_, inner) = p.rx_datagram(&d).unwrap();
            delivered.extend(p.rx_frame(&mut j, &inner));
        }
    }
    assert_eq!(delivered, vec![vec![1, 2], vec![3], vec![4, 5, 6]]);
}

#[test]
fn fec_off_stream_stays_in_order_across_sequence_wrap() {
    let p = Pipeline::new(&args(16, true, false), FecRatio { data: 0, parity: 0 }).unwrap();
    let mut st = TxState::new();
    let mut j = p.new_jitter();
    let mut delivered: Vec<Vec<u8>> = Vec::new();
    let count: usize = 70_000;
    for i in 0..count {
        let frame = vec![(i % 251) as u8, (i / 251 % 256) as u8, (i / 64_256) as u8];
        let dgrams = p.tx_frame(&mut st, 0, &frame).unwrap().unwrap();
        assert_eq!(dgrams.len(), 1);
        for d in dgrams {
            let (h, inner) = p.rx_datagram(&d).unwrap();
            assert!(delivers_shard(&h));
            delivered.extend(p.rx_frame(&mut j, &inner));
        }
    }
    assert_eq!(delivered.len(), count);
    for (i, f) in delivered.iter().enumerate() {
        assert_eq!(f, &vec![(i % 251) as u8, (i / 251 % 256) as u8, (i / 64_256) as u8]);
    }
}

#[test]
fn session_parses_ratio() {
    let s = Session::new(args(16, false, false), true).unwrap();
    assert!(s.is_server());
    assert_eq!((s.fec().data, s.fec().parity), (2, 1));
    assert_eq!(s.args().mtu, 16);
    let mut bad = args(16, false, false);
    bad.fec = "2-1".to_string();
    assert!(Session::new(bad, false).is_err());
}

#[test]
fn full_batches_send_data_plus_parity_datagrams() {
    let mut a = args(1400, false, false);
    a.jitter_ms = 30;
    let p = Pipeline::new(&a, FecRatio { data: 2, parity: 1 }).unwrap();
    let mut st = TxState::new();
    let mut sent: Vec<Vec<u8>> = Vec::new();
    for f in 1u8..=5 {
        if let Some(d) = p.tx_frame(&mut st, 0, &[f]).unwrap() {
            sent.extend(d);
        }
    }
    assert_eq!(sent.len(), 6);
    assert!(sent.iter().all(|d| d.len() == 1412));
    assert_eq!(sent[0][..8], [0x42, 0, 0, 0, 2, 3, 0x05, 0x7C]);
    assert_eq!(sent[5][..8], [0x52, 0, 1, 2, 2, 3, 0x05, 0x7C]);
    assert_eq!(sent[0][10..13], [0, 0, 1]);
    assert!(sent[0][13..].iter().all(|&b| b == 0));
}

#[test]
fn lost_shard_of_sent_block_is_recovered() {
    let p = Pipeline::new(&args(8, true, false), FecRatio { data: 2, parity: 1 }).unwrap();
    let codec = gaming_tunnel::fec::FecCodec::new(2, 1, 12).unwrap();
    let mut st = TxState::new();
    assert!(p.tx_frame(&mut st, 3, &[7, 7]).unwrap().is_none());
    let dgrams = p.tx_frame(&mut st, 3, &[8]).unwrap().unwrap();
    let mut received: Vec<Option<Vec<u8>>> =
        dgrams.iter().map(|d| Some(p.rx_datagram(d).unwrap().1)).collect();
    let whole: Vec<Vec<u8>> = received.iter().map(|s| s.clone().unwrap()).collect();
    received[0] = None;
    codec.decode_block(&mut received).unwrap();
    assert_eq!(received[0].as_ref().unwrap(), &whole[0]);
    let mut j = p.new_jitter();
    assert_eq!(p.rx_frame(&mut j, received[0].as_ref().unwrap())[0][..2], [7, 7]);
}

#[test]
fn delivers_data_shards_only() {
    let d = [0b0100_0010u8, 0, 0, 1, 2, 3, 0, 0];
    let h = OuterHeader::decode(&d).unwrap();
    assert!(delivers_shard(&h));
    let parity = [0b0101_0010u8, 0, 0, 2, 2, 3, 0, 0];
    assert!(!delivers_shard(&OuterHeader::decode(&parity).unwrap()));
    let off = [0b0101_0000u8, 0, 0, 0, 0, 1, 0, 0];
    assert!(delivers_shard(&OuterHeader::decode(&off).unwrap()));
}
