use gaming_tunnel::crypto::Obfuscator;

#[test]
fn apply_twice_restores() {
    let o = Obfuscator::new("changeme");
    let original: Vec<u8> = (0..300u32).map(|i| (i * 7 % 256) as u8).collect();
    let mut buf = original.clone();
    o.apply(&mut buf, 42);
    assert_ne!(buf, original);
    o.apply(&mut buf, 42);
    assert_eq!(buf, original);
}

#[test]
fn apply_exact_keystream() {
    let o = Obfuscator::new("ab");
    let mut buf = vec![0u8; 4];
    o.apply(&mut buf, 1);
    // key[(i + 1) % 2] ^ (i * 31 mod 256)
    assert_eq!(buf, vec![b'b', b'a' ^ 31, b'b' ^ 62, b'a' ^ 93]);
}

#[test]
fn apply_keystream_wraps_index_byte() {
    let o = Obfuscator::new("k");
    let mut buf = vec![0u8; 258];
    o.apply(&mut buf, 0);
    assert_eq!(buf[256], b'k');
    assert_eq!(buf[257], b'k' ^ 31);
    assert_eq!(buf[9], b'k' ^ ((9u32 * 31) % 256) as u8);
}

#[test]
fn block_id_changes_keystream() {
    let o = Obfuscator::new("xyz");
    let mut a = vec![0u8; 6];
    let mut b = vec![0u8; 6];
    o.apply(&mut a, 0);
    o.apply(&mut b, 1);
    assert_ne!(a, b);
}

#[test]
fn key_is_utf8_bytes() {
    let o = Obfuscator::new("é");
    let mut buf = vec![0u8; 2];
    o.apply(&mut buf, 0);
    assert_eq!(buf, vec![0xC3, 0xA9 ^ 31]);
}

#[test]
fn empty_buffer_with_empty_key() {
    let o = Obfuscator::new("");
    let mut buf: Vec<u8> = Vec::new();
    o.apply(&mut buf, 7);
    assert!(buf.is_empty());
}
