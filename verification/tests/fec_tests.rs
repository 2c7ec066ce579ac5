use gaming_tunnel::fec::{FecCodec, RsError};

fn shards(count: usize, len: usize) -> Vec<Vec<u8>> {
    (0..count).map(|i| (0..len).map(|j| (i * 31 + j * 7 + 1) as u8).collect()).collect()
}

#[test]
fn new_disabled_codec() {
    let c = FecCodec::new(0, 0, 100).unwrap();
    assert!(!c.enabled());
    assert_eq!(c.total(), 0);
    let c = FecCodec::new(5, 0, 100).unwrap();
    assert!(!c.enabled());
}

#[test]
fn new_refuses_too_many_shards() {
    assert_eq!(FecCodec::new(200, 100, 16).err(), Some(RsError::TooManyShards));
    assert!(FecCodec::new(200, 56, 16).is_ok());
}

#[test]
fn encode_disabled_passes_shards_through() {
    let c = FecCodec::new(0, 0, 8).unwrap();
    let input = vec![vec![1, 2, 3], vec![4]];
    assert_eq!(c.encode_block(input.clone()).unwrap(), input);
}

#[test]
fn encode_pads_and_appends_parity() {
    let c = FecCodec::new(3, 2, 6).unwrap();
    let input = vec![vec![1, 2, 3], vec![4, 5, 6, 7, 8, 9, 10], vec![11]];
    let block = c.encode_block(input).unwrap();
    assert_eq!(block.len(), 5);
    assert_eq!(block[0], vec![1, 2, 3, 0, 0, 0]);
    assert_eq!(block[1], vec![4, 5, 6, 7, 8, 9]);
    assert_eq!(block[2], vec![11, 0, 0, 0, 0, 0]);
    assert!(block.iter().all(|s| s.len() == 6));
    assert!(block[3] != vec![0u8; 6] || block[4] != vec![0u8; 6]);
}

#[test]
fn encode_wrong_shard_count() {
    let c = FecCodec::new(3, 2, 6).unwrap();
    assert_eq!(c.encode_block(shards(2, 6)).err(), Some(RsError::TooFewShards));
    assert_eq!(c.encode_block(shards(4, 6)).err(), Some(RsError::TooManyShards));
}

#[test]
fn encode_zero_shard_size() {
    let c = FecCodec::new(2, 1, 0).unwrap();
    assert_eq!(c.encode_block(shards(2, 3)).err(), Some(RsError::EmptyShard));
}

#[test]
fn decode_recovers_lost_data_shards() {
    let c = FecCodec::new(4, 2, 10).unwrap();
    let block = c.encode_block(shards(4, 10)).unwrap();
    let mut received: Vec<Option<Vec<u8>>> = block.iter().cloned().map(Some).collect();
    received[1] = None;
    received[3] = None;
    c.decode_block(&mut received).unwrap();
    assert_eq!(received[1].as_ref().unwrap(), &block[1]);
    assert_eq!(received[3].as_ref().unwrap(), &block[3]);
    assert_eq!(received[0].as_ref().unwrap(), &block[0]);
}

#[test]
fn decode_reconstructs_missing_parity() {
    let c = FecCodec::new(2, 2, 4).unwrap();
    let block = c.encode_block(shards(2, 4)).unwrap();
    let mut received: Vec<Option<Vec<u8>>> = block.iter().cloned().map(Some).collect();
    received[0] = None;
    received[3] = None;
    c.decode_block(&mut received).unwrap();
    assert_eq!(received[0].as_ref().unwrap(), &block[0]);
    assert_eq!(received[3].as_ref().unwrap(), &block[3]);
}

#[test]
fn block_has_data_plus_parity_shards() {
    for (d, p) in [(1usize, 1usize), (2, 1), (10, 3), (3, 5)] {
        let c = FecCodec::new(d, p, 7).unwrap();
        let block = c.encode_block(shards(d, 3)).unwrap();
        assert_eq!(block.len(), d + p);
        assert!(block.iter().all(|s| s.len() == 7));
    }
}

#[test]
fn losing_up_to_parity_shards_decodes_whole_block() {
    let c = FecCodec::new(3, 2, 5).unwrap();
    let block = c.encode_block(shards(3, 5)).unwrap();
    for lost in [[0usize, 1], [1, 4], [2, 3], [3, 4], [0, 2]] {
        let mut received: Vec<Option<Vec<u8>>> = block.iter().cloned().map(Some).collect();
        for &i in &lost {
            received[i] = None;
        }
        c.decode_block(&mut received).unwrap();
        let whole: Vec<Vec<u8>> = received.into_iter().map(|s| s.unwrap()).collect();
        assert_eq!(whole, block);
    }
}

#[test]
fn decode_too_few_present() {
    let c = FecCodec::new(3, 1, 4).unwrap();
    let block = c.encode_block(shards(3, 4)).unwrap();
    let mut received: Vec<Option<Vec<u8>>> = block.iter().cloned().map(Some).collect();
    received[0] = None;
    received[1] = None;
    let before = received.clone();
    assert_eq!(c.decode_block(&mut received).err(), Some(RsError::TooFewShardsPresent));
    assert_eq!(received, before);
}

#[test]
fn decode_wrong_count_and_sizes() {
    let c = FecCodec::new(2, 1, 4).unwrap();
    let mut short = vec![Some(vec![1u8, 2]), None];
    assert_eq!(c.decode_block(&mut short).err(), Some(RsError::TooFewShards));
    let mut mismatched = vec![Some(vec![1u8, 2]), Some(vec![1u8]), None];
    assert_eq!(c.decode_block(&mut mismatched).err(), Some(RsError::IncorrectShardSize));
    let mut empty = vec![Some(Vec::new()), Some(vec![1u8]), None];
    assert_eq!(c.decode_block(&mut empty).err(), Some(RsError::EmptyShard));
}

#[test]
fn decode_disabled_is_noop() {
    let c = FecCodec::new(0, 0, 4).unwrap();
    let mut received = vec![None, Some(vec![1u8])];
    c.decode_block(&mut received).unwrap();
    assert_eq!(received, vec![None, Some(vec![1u8])]);
}
