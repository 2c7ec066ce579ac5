//! Lightweight XOR keystream obfuscation keyed by a pre-shared key and a
//! block id. It is not cryptographically secure: its purpose is to remove
//! recognisable fingerprints from datagrams.

use vstd::prelude::*;
use vstd::string::StringSliceAdditionalSpecFns;

verus! {

/// Keystream byte that position `i` of a buffer is XORed with.
pub open spec fn keystream_byte(key: Seq<u8>, i: int, block_id: u16) -> u8 {
    key[(i + block_id as int) % key.len() as int] ^ (i as u8).wrapping_mul(31u8)
}

/// The buffer `data` after obfuscation under `key` for block `block_id`.
pub open spec fn obfuscate(key: Seq<u8>, data: Seq<u8>, block_id: u16) -> Seq<u8> {
    Seq::new(data.len(), |i: int| data[i] ^ keystream_byte(key, i, block_id))
}

/// Obfuscating twice with the same key and block id gives the data back:
/// the transformation is its own inverse.
pub proof fn lemma_obfuscate_involution(key: Seq<u8>, data: Seq<u8>, block_id: u16)
    ensures
        obfuscate(key, obfuscate(key, data, block_id), block_id) == data,
{
    let once = obfuscate(key, data, block_id);
    let twice = obfuscate(key, once, block_id);
    assert forall|i: int| 0 <= i < data.len() implies twice[i] == data[i] by {
        let x = data[i];
        let k = keystream_byte(key, i, block_id);
        assert((x ^ k) ^ k == x) by (bit_vector);
    }
    assert(twice =~= data);
}

/// The keystream of a block depends on its id only through the id modulo
/// the key length: blocks whose ids agree modulo `|key|` are obfuscated
/// alike, whatever their high bytes.
pub proof fn lemma_obfuscate_block_period(key: Seq<u8>, data: Seq<u8>, b1: u16, b2: u16)
    requires
        key.len() > 0,
        b1 as int % (key.len() as int) == b2 as int % (key.len() as int),
    ensures
        obfuscate(key, data, b1) == obfuscate(key, data, b2),
{
    let l = key.len() as int;
    assert forall|i: int| 0 <= i < data.len() implies keystream_byte(key, i, b1) == keystream_byte(key, i, b2) by {
        let x1 = b1 as int;
        let x2 = b2 as int;
        vstd::arithmetic::div_mod::lemma_add_mod_noop_right(i, x1, l);
        vstd::arithmetic::div_mod::lemma_add_mod_noop_right(i, x2, l);
    }
    assert(obfuscate(key, data, b1) =~= obfuscate(key, data, b2));
}

/// The first byte of a block's keystream is key byte `block_id mod |key|`.
pub proof fn lemma_obfuscate_first_byte(key: Seq<u8>, data: Seq<u8>, block_id: u16)
    requires
        key.len() > 0,
        data.len() > 0,
    ensures
        obfuscate(key, data, block_id)[0] == data[0] ^ key[block_id as int % (key.len() as int)],
{
    let c = (0u8).wrapping_mul(31u8);
    assert(c == 0);
    let x = data[0];
    let k = key[block_id as int % (key.len() as int)];
    assert(x ^ (k ^ 0u8) == x ^ k) by (bit_vector);
}

/// Keystream obfuscator holding the pre-shared key bytes.
pub struct Obfuscator {
    key: Vec<u8>,
}

impl View for Obfuscator {
    type V = Seq<u8>;

    closed spec fn view(&self) -> Seq<u8> {
        self.key@
    }
}

impl Obfuscator {
    /// Builds an obfuscator whose key is the UTF-8 bytes of `psk`.
    pub fn new(psk: &str) -> (r: Self)
        ensures
            r@ == psk.spec_bytes(),
    {
        Obfuscator { key: vstd::slice::slice_to_vec(psk.as_bytes()) }
    }

    /// XORs `buf` in place with the keystream for `block_id`; applying it a
    /// second time restores the bytes it was given.
    pub fn apply(&self, buf: &mut [u8], block_id: u16)
        requires
            self@.len() > 0 || old(buf)@.len() == 0,
            old(buf)@.len() <= isize::MAX,
        ensures
            final(buf)@ == obfuscate(self@, old(buf)@, block_id),
    {
        let seed = block_id as usize;
        let n = buf.len();
        let klen = self.key.len();
        let mut i: usize = 0;
        while i < n
            invariant
                n == buf@.len(),
                n == old(buf)@.len(),
                n <= isize::MAX,
                i <= n,
                klen == self@.len(),
                klen > 0 || n == 0,
                seed == block_id as usize,
                forall|j: int|
                    0 <= j < i ==> buf@[j] == old(buf)@[j] ^ keystream_byte(self@, j, block_id),
                forall|j: int| i <= j < n ==> buf@[j] == old(buf)@[j],
            decreases n - i,
        {
            let k = self.key[(i + seed) % klen];
            let mask = (i as u8).wrapping_mul(31);
            buf[i] = buf[i] ^ (k ^ mask);
            i = i + 1;
        }
        assert(buf@ =~= obfuscate(self@, old(buf)@, block_id));
    }
}

} // verus!
