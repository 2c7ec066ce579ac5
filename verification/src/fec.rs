//! Forward error correction over blocks of equally sized shards, built on
//! the GF(2^8) Reed-Solomon codec of `reed_solomon_erasure`.

use reed_solomon_erasure::galois_8::ReedSolomon;
use vstd::prelude::*;

verus! {

/// Errors of the Reed-Solomon codec, one for each of its error kinds.
#[derive(Clone, Copy, Debug, PartialEq, Eq, Structural)]
pub enum RsError {
    TooFewShards,
    TooManyShards,
    TooFewDataShards,
    TooManyDataShards,
    TooFewParityShards,
    TooManyParityShards,
    TooFewBufferShards,
    TooManyBufferShards,
    IncorrectShardSize,
    TooFewShardsPresent,
    EmptyShard,
    InvalidShardFlags,
    InvalidIndex,
}

/// Largest number of shards, data and parity, that a GF(2^8) codec takes.
pub const MAX_SHARDS: usize = 256;

/// Outcome of building a codec for the given shard counts.
pub open spec fn rs_counts_check(data: nat, parity: nat) -> Result<(), RsError> {
    if data == 0 {
        Err(RsError::TooFewDataShards)
    } else if parity == 0 {
        Err(RsError::TooFewParityShards)
    } else if data + parity > MAX_SHARDS {
        Err(RsError::TooManyShards)
    } else {
        Ok(())
    }
}

/// Whether all shards have the length of the first one.
pub open spec fn same_lengths(shards: Seq<Seq<u8>>) -> bool {
    forall|i: int| 0 <= i < shards.len() ==> (#[trigger] shards[i]).len() == shards[0].len()
}

/// Outcome of encoding `shards` (data shards followed by parity slots)
/// with a codec for the given counts.
pub open spec fn rs_encode_check(data: nat, parity: nat, shards: Seq<Seq<u8>>) -> Result<
    (),
    RsError,
> {
    match rs_counts_check(data, parity) {
        Err(e) => Err(e),
        Ok(_) => if shards.len() < data + parity {
            Err(RsError::TooFewShards)
        } else if shards.len() > data + parity {
            Err(RsError::TooManyShards)
        } else if shards[0].len() == 0 {
            Err(RsError::EmptyShard)
        } else if !same_lengths(shards) {
            Err(RsError::IncorrectShardSize)
        } else {
            Ok(())
        },
    }
}

/// The parity shards that the Reed-Solomon code over GF(2^8) computes
/// from the data shards `data` with `parity_shards` parity shards.
pub uninterp spec fn rs_parity_shards(data_shards: nat, parity_shards: nat, data: Seq<Seq<u8>>) -> Seq<Seq<u8>>;

/// The data shards that the Reed-Solomon code recovers from the shards
/// present in `shards` (missing shards are `None`).
pub uninterp spec fn rs_recovered_data(data_shards: nat, parity_shards: nat, shards: Seq<Option<Seq<u8>>>) -> Seq<Seq<u8>>;

/// Whether every shard present in `received` is the shard at its position
/// in the block that encoding the data shards `data` gives: the data
/// shards (one or more, equally long, not empty) followed by their parity
/// shards.
pub open spec fn shards_agree(data_shards: nat, parity_shards: nat, data: Seq<Seq<u8>>, received: Seq<Option<Seq<u8>>>) -> bool {
    &&& data.len() == data_shards
    &&& data_shards > 0
    &&& data[0].len() > 0
    &&& same_lengths(data)
    &&& received.len() == (data + rs_parity_shards(data_shards, parity_shards, data)).len()
    &&& forall|i: int| 0 <= i < received.len() && (#[trigger] received[i]) is Some ==>
        received[i]->0 == (data + rs_parity_shards(data_shards, parity_shards, data))[i]
}

/// The first `data_shards` entries of `shards`, present or not.
pub open spec fn shard_data(shards: Seq<Option<Seq<u8>>>, data_shards: nat) -> Seq<Seq<u8>> {
    Seq::new(data_shards, |j: int| shards[j]->0)
}

/// Number of shards present.
pub open spec fn count_present(shards: Seq<Option<Seq<u8>>>) -> nat
    decreases shards.len(),
{
    if shards.len() == 0 {
        0
    } else {
        count_present(shards.drop_last()) + if shards.last() is Some {
            1nat
        } else {
            0nat
        }
    }
}

/// The first shape error met scanning the present shards from index `i`
/// on, where `expected` is the length of the present shards seen so far:
/// an empty shard, or one whose length differs.
pub open spec fn shard_scan_error(shards: Seq<Option<Seq<u8>>>, i: int, expected: Option<nat>) -> Option<RsError>
    decreases shards.len() - i,
{
    if i < 0 || i >= shards.len() {
        None
    } else {
        match shards[i] {
            None => shard_scan_error(shards, i + 1, expected),
            Some(x) => if x.len() == 0 {
                Some(RsError::EmptyShard)
            } else if expected is Some && expected->0 != x.len() {
                Some(RsError::IncorrectShardSize)
            } else {
                shard_scan_error(shards, i + 1, Some(x.len()))
            },
        }
    }
}

/// Outcome of recovering the data shards of `shards` with a codec for the
/// given counts.
pub open spec fn rs_reconstruct_check(data: nat, parity: nat, shards: Seq<Option<Seq<u8>>>) -> Result<
    (),
    RsError,
> {
    match rs_counts_check(data, parity) {
        Err(e) => Err(e),
        Ok(_) => if shards.len() < data + parity {
            Err(RsError::TooFewShards)
        } else if shards.len() > data + parity {
            Err(RsError::TooManyShards)
        } else if shard_scan_error(shards, 0, None) is Some {
            Err(shard_scan_error(shards, 0, None)->0)
        } else if count_present(shards) == data + parity {
            Ok(())
        } else if count_present(shards) < data {
            Err(RsError::TooFewShardsPresent)
        } else {
            Ok(())
        },
    }
}

/// Position of an error kind in the codec's list of error kinds.
pub open spec fn rs_error_code(e: RsError) -> u8 {
    match e {
        RsError::TooFewShards => 0,
        RsError::TooManyShards => 1,
        RsError::TooFewDataShards => 2,
        RsError::TooManyDataShards => 3,
        RsError::TooFewParityShards => 4,
        RsError::TooManyParityShards => 5,
        RsError::TooFewBufferShards => 6,
        RsError::TooManyBufferShards => 7,
        RsError::IncorrectShardSize => 8,
        RsError::TooFewShardsPresent => 9,
        RsError::EmptyShard => 10,
        RsError::InvalidShardFlags => 11,
        RsError::InvalidIndex => 12,
    }
}

/// An outcome of the codec with its error given by position.
pub open spec fn rs_coded(r: Result<(), RsError>) -> Result<(), u8> {
    match r {
        Ok(()) => Ok(()),
        Err(e) => Err(rs_error_code(e)),
    }
}

/// The error kind at position `c` of the codec's list of error kinds.
fn rs_error_from_code(c: u8) -> (r: RsError)
    requires
        c <= 12,
    ensures
        rs_error_code(r) == c,
{
    match c {
        0 => RsError::TooFewShards,
        1 => RsError::TooManyShards,
        2 => RsError::TooFewDataShards,
        3 => RsError::TooManyDataShards,
        4 => RsError::TooFewParityShards,
        5 => RsError::TooManyParityShards,
        6 => RsError::TooFewBufferShards,
        7 => RsError::TooManyBufferShards,
        8 => RsError::IncorrectShardSize,
        9 => RsError::TooFewShardsPresent,
        10 => RsError::EmptyShard,
        11 => RsError::InvalidShardFlags,
        _ => RsError::InvalidIndex,
    }
}

/// Maps a codec outcome with its error given by position back to the
/// error kind.
fn rs_decode_outcome(r: Result<(), u8>, Ghost(expected): Ghost<Result<(), RsError>>) -> (out: Result<(), RsError>)
    requires
        r == rs_coded(expected),
    ensures
        out == expected,
{
    match r {
        Ok(()) => {
            proof {
                match expected {
                    Ok(u) => {
                        assert(u == ());
                    },
                    Err(_) => {},
                }
            }
            Ok(())
        },
        Err(c) => {
            let e = rs_error_from_code(c);
            proof {
                let x = expected->Err_0;
                assert(rs_error_code(x) == c);
                assert(e == x) by {
                    assert(rs_error_code(e) == rs_error_code(x));
                }
            }
            Err(e)
        },
    }
}

/// `ReedSolomon::new` of `galois_8`: refuses zero data or parity shards
/// and more than 256 shards in all, in that order; it panics if the sum
/// overflows, which `requires` rules out.
#[verifier::external_body]
fn rs_check_counts(data_shards: usize, parity_shards: usize) -> (r: Result<(), u8>)
    requires
        data_shards + parity_shards <= usize::MAX,
    ensures
        r == rs_coded(rs_counts_check(data_shards as nat, parity_shards as nat)),
{
    match ReedSolomon::new(data_shards, parity_shards) {
        Ok(_) => Ok(()),
        Err(e) => Err(e as u8),
    }
}

/// `ReedSolomon::encode` with a codec built by `ReedSolomon::new` for the
/// given counts. The codec checks the counts, then that `shards` holds
/// exactly the total number of shards, that the first is not empty and
/// that all have its length; on success the data shards are untouched and
/// the parity slots hold the parity shards. On error nothing is written.
#[verifier::external_body]
fn rs_encode(data_shards: usize, parity_shards: usize, shards: &mut Vec<Vec<u8>>) -> (r: Result<(), u8>)
    requires
        data_shards + parity_shards <= usize::MAX,
    ensures
        r == rs_coded(rs_encode_check(data_shards as nat, parity_shards as nat, old(shards).deep_view())),
        r is Err ==> final(shards).deep_view() == old(shards).deep_view(),
        r is Ok ==> final(shards)@.len() == old(shards)@.len(),
        r is Ok ==> final(shards).deep_view() == old(shards).deep_view().subrange(0, data_shards as int)
            + rs_parity_shards(data_shards as nat, parity_shards as nat,
                old(shards).deep_view().subrange(0, data_shards as int)),
        r is Ok ==> forall|i: int| 0 <= i < final(shards)@.len() ==>
            (#[trigger] final(shards).deep_view()[i]).len() == old(shards).deep_view()[0].len(),
{
    let r = match ReedSolomon::new(data_shards, parity_shards) {
        Ok(rs) => rs.encode(shards),
        Err(e) => Err(e),
    };
    match r {
        Ok(()) => Ok(()),
        Err(e) => Err(e as u8),
    }
}

/// `ReedSolomon::reconstruct` with a codec built by `ReedSolomon::new` for
/// the given counts. The codec checks the counts and the number of shards,
/// then scans the present shards for an empty one or a length mismatch,
/// then needs at least as many present shards as data shards. On success
/// present shards are untouched, missing data shards are filled with the
/// recovered data, and missing parity shards with the parity of the data
/// shards as they now stand, computed as `encode` computes it. The code is
/// an erasure code: when the shards present are those of a block encoded
/// from some data shards, the data shards recovered are those. On error
/// nothing is touched.
#[verifier::external_body]
fn rs_reconstruct(data_shards: usize, parity_shards: usize, shards: &mut [Option<Vec<u8>>]) -> (r: Result<(), u8>)
    requires
        data_shards + parity_shards <= usize::MAX,
    ensures
        r == rs_coded(rs_reconstruct_check(data_shards as nat, parity_shards as nat, old(shards).deep_view())),
        r is Err ==> final(shards).deep_view() == old(shards).deep_view(),
        r is Ok ==> final(shards)@.len() == old(shards)@.len(),
        r is Ok ==> forall|i: int| 0 <= i < old(shards)@.len() && old(shards)@[i] is Some ==>
            #[trigger] final(shards).deep_view()[i] == old(shards).deep_view()[i],
        r is Ok ==> forall|i: int| data_shards <= i < old(shards)@.len() && old(shards)@[i] is None ==>
            #[trigger] final(shards).deep_view()[i] == Some(rs_parity_shards(data_shards as nat,
                parity_shards as nat, shard_data(final(shards).deep_view(), data_shards as nat))[i - data_shards]),
        r is Ok ==> forall|i: int| 0 <= i < data_shards && old(shards)@[i] is None ==>
            #[trigger] final(shards).deep_view()[i] == Some(rs_recovered_data(data_shards as nat,
                parity_shards as nat, old(shards).deep_view())[i]),
        r is Ok ==> forall|data: Seq<Seq<u8>>| #[trigger] shards_agree(data_shards as nat, parity_shards as nat,
            data, old(shards).deep_view()) ==> forall|i: int| 0 <= i < data_shards ==>
                #[trigger] final(shards).deep_view()[i] == Some(data[i]),
{
    let r = match ReedSolomon::new(data_shards, parity_shards) {
        Ok(rs) => rs.reconstruct(shards),
        Err(e) => Err(e),
    };
    match r {
        Ok(()) => Ok(()),
        Err(e) => Err(e as u8),
    }
}

/// `s` cut or padded with zero bytes to exactly `size` bytes.
pub open spec fn padded(s: Seq<u8>, size: nat) -> Seq<u8> {
    if size <= s.len() {
        s.subrange(0, size as int)
    } else {
        s + Seq::new((size - s.len()) as nat, |i: int| 0u8)
    }
}

/// Every shard of `shards` cut or padded to `size` bytes.
pub open spec fn padded_shards(shards: Seq<Seq<u8>>, size: nat) -> Seq<Seq<u8>> {
    Seq::new(shards.len(), |i: int| padded(shards[i], size))
}

/// Why encoding `n_shards` data shards of `shard_size` bytes into a block
/// fails, if it does, when FEC is on.
pub open spec fn encode_block_error(data: nat, parity: nat, n_shards: nat, shard_size: nat) -> Option<RsError> {
    if rs_counts_check(data, parity) is Err {
        Some(rs_counts_check(data, parity)->Err_0)
    } else if n_shards < data {
        Some(RsError::TooFewShards)
    } else if n_shards > data {
        Some(RsError::TooManyShards)
    } else if shard_size == 0 {
        Some(RsError::EmptyShard)
    } else {
        None
    }
}

/// The block that encoding the data shards `shards` gives: with FEC off
/// the shards themselves; with FEC on the shards cut or padded to
/// `shard_size` followed by their parity shards, or the codec's error.
pub open spec fn encode_block_result(data: nat, parity: nat, shard_size: nat, shards: Seq<Seq<u8>>) -> Result<Seq<Seq<u8>>, RsError> {
    if !(data > 0 && parity > 0) {
        Ok(shards)
    } else {
        match encode_block_error(data, parity, shards.len(), shard_size) {
            Some(e) => Err(e),
            None => Ok(padded_shards(shards, shard_size) + rs_parity_shards(data, parity, padded_shards(shards, shard_size))),
        }
    }
}

/// Whether `block` is the block that encoding the data shards `shards`
/// gives with FEC on: the shards cut or padded to `shard_size`, followed
/// by their parity shards, `data + parity` shards of `shard_size` bytes in
/// all.
pub open spec fn is_encoded_block(
    data: nat,
    parity: nat,
    shard_size: nat,
    shards: Seq<Seq<u8>>,
    block: Seq<Seq<u8>>,
) -> bool {
    &&& encode_block_result(data, parity, shard_size, shards) == Ok::<Seq<Seq<u8>>, RsError>(block)
    &&& block.len() == data + parity
    &&& forall|i: int| 0 <= i < block.len() ==> (#[trigger] block[i]).len() == shard_size
}

proof fn lemma_scan_uniform(s: Seq<Option<Seq<u8>>>, i: int, expected: Option<nat>, len: nat)
    requires
        0 <= i,
        len > 0,
        expected is None || expected == Some(len),
        forall|j: int| i <= j < s.len() && (#[trigger] s[j]) is Some ==> s[j]->0.len() == len,
    ensures
        shard_scan_error(s, i, expected) is None,
    decreases s.len() - i,
{
    if i < s.len() {
        match s[i] {
            None => lemma_scan_uniform(s, i + 1, expected, len),
            Some(x) => lemma_scan_uniform(s, i + 1, Some(len), len),
        }
    }
}

/// An encoded block survives the loss of up to `parity` shards: a
/// received copy with at least `data` shards present, each as it was
/// sent, is accepted by the decoder and agrees with the block's padded
/// data shards, so that decoding gives back the whole block.
pub proof fn lemma_encoded_block_decodes(
    data: nat,
    parity: nat,
    shard_size: nat,
    shards: Seq<Seq<u8>>,
    block: Seq<Seq<u8>>,
    received: Seq<Option<Seq<u8>>>,
)
    requires
        data > 0,
        parity > 0,
        is_encoded_block(data, parity, shard_size, shards, block),
        received.len() == block.len(),
        forall|i: int| 0 <= i < received.len() && (#[trigger] received[i]) is Some ==>
            received[i]->0 == block[i],
        count_present(received) >= data,
    ensures
        rs_reconstruct_check(data, parity, received) == Ok::<(), RsError>(()),
        shards_agree(data, parity, padded_shards(shards, shard_size), received),
        padded_shards(shards, shard_size) + rs_parity_shards(data, parity, padded_shards(shards, shard_size)) == block,
{
    let p = padded_shards(shards, shard_size);
    assert(encode_block_error(data, parity, shards.len(), shard_size) is None);
    assert(p.len() == data);
    assert(rs_counts_check(data, parity) is Ok);
    assert(p[0].len() == shard_size);
    assert(same_lengths(p));
    assert forall|j: int| 0 <= j < received.len() && (#[trigger] received[j]) is Some implies received[j]->0.len() == shard_size by {
        assert(block[j].len() == shard_size);
    }
    lemma_scan_uniform(received, 0, None, shard_size);
}

/// FEC codec with `data` data shards and `parity` parity shards per block,
/// every shard `shard_size` bytes long. FEC is off unless both counts are
/// positive.
pub struct FecCodec {
    pub data: usize,
    pub parity: usize,
    pub shard_size: usize,
}

impl FecCodec {
    /// Whether FEC is on for these counts.
    pub open spec fn spec_enabled(&self) -> bool {
        self.data > 0 && self.parity > 0
    }

    /// Builds a codec; when both counts are positive it fails exactly when
    /// the Reed-Solomon codec refuses them (more than 256 shards).
    pub fn new(data: usize, parity: usize, shard_size: usize) -> (r: Result<FecCodec, RsError>)
        requires
            data + parity <= usize::MAX,
        ensures
            match r {
                Ok(c) => c.data == data && c.parity == parity && c.shard_size == shard_size
                    && (data > 0 && parity > 0 ==> rs_counts_check(data as nat, parity as nat) is Ok),
                Err(e) => data > 0 && parity > 0 && rs_counts_check(data as nat, parity as nat) == Err::<(), RsError>(e),
            },
    {
        if data > 0 && parity > 0 {
            let coded = rs_check_counts(data, parity);
            rs_decode_outcome(coded, Ghost(rs_counts_check(data as nat, parity as nat)))?;
        }
        Ok(FecCodec { data, parity, shard_size })
    }

    /// Whether FEC is on.
    pub fn enabled(&self) -> (r: bool)
        ensures
            r == self.spec_enabled(),
    {
        self.data > 0 && self.parity > 0
    }

    /// Number of shards per block, data and parity.
    pub fn total(&self) -> (r: usize)
        requires
            self.data + self.parity <= usize::MAX,
        ensures
            r == self.data + self.parity,
    {
        self.data + self.parity
    }

    /// Encodes data shards into a full block: every data shard is cut or
    /// padded with zeros to `shard_size`, and the parity shards follow.
    /// With FEC off the shards come back unchanged.
    pub fn encode_block(&self, shards: Vec<Vec<u8>>) -> (r: Result<Vec<Vec<u8>>, RsError>)
        requires
            self.data + self.parity <= usize::MAX,
        ensures
            match encode_block_result(self.data as nat, self.parity as nat, self.shard_size as nat, shards.deep_view()) {
                Ok(v) => (r matches Ok(b) && b.deep_view() == v),
                Err(e) => r == Err::<Vec<Vec<u8>>, RsError>(e),
            },
            self.spec_enabled() ==> (r matches Ok(b) ==> forall|i: int| 0 <= i < b@.len() ==> (#[trigger] b@[i])@.len() == self.shard_size),
            self.spec_enabled() ==> (r matches Ok(b) ==> b@.len() == self.data + self.parity),
            self.spec_enabled() ==> (r matches Ok(b) ==> is_encoded_block(self.data as nat, self.parity as nat,
                self.shard_size as nat, shards.deep_view(), b.deep_view())),
    {
        if !(self.data > 0 && self.parity > 0) {
            return Ok(shards);
        }
        let n = shards.len();
        let size = self.shard_size;
        let mut block: Vec<Vec<u8>> = Vec::new();
        let mut i: usize = 0;
        while i < n
            invariant
                n == shards@.len(),
                i <= n,
                size == self.shard_size,
                block@.len() == i,
                forall|j: int| 0 <= j < i ==> (#[trigger] block.deep_view()[j]) == padded(shards.deep_view()[j], size as nat),
            decreases n - i,
        {
            let ghost before = block.deep_view();
            let mut s = vstd::slice::slice_to_vec(shards[i].as_slice());
            s.resize(size, 0u8);
            proof {
                let src = shards.deep_view()[i as int];
                assert(src == shards@[i as int]@);
                assert(s@ =~= padded(src, size as nat));
            }
            assert(s.deep_view() =~= s@);
            block.push(s);
            assert(block.deep_view() =~= before.push(padded(shards.deep_view()[i as int], size as nat)));
            i = i + 1;
        }
        let ghost padded_data = block.deep_view();
        assert(padded_data =~= padded_shards(shards.deep_view(), size as nat));
        let mut j: usize = 0;
        while j < self.parity
            invariant
                n == shards@.len(),
                block@.len() == n + j,
                j <= self.parity,
                size == self.shard_size,
                block.deep_view().subrange(0, n as int) == padded_data,
                forall|k: int| n <= k < n + j ==> (#[trigger] block.deep_view()[k]).len() == size,
            decreases self.parity - j,
        {
            let ghost before = block.deep_view();
            let z = vec![0u8; size];
            assert(z@.len() == size);
            assert(z.deep_view() =~= z@);
            block.push(z);
            assert(block.deep_view() =~= before.push(z@));
            proof {
                assert(block.deep_view().subrange(0, n as int) =~= before.subrange(0, n as int));
            }
            j = j + 1;
        }
        proof {
            let all = block.deep_view();
            assert forall|k: int| 0 <= k < all.len() implies (#[trigger] all[k]).len() == size by {
                if k < n {
                    assert(all[k] == all.subrange(0, n as int)[k]);
                    assert(padded_data[k] == padded(shards.deep_view()[k], size as nat));
                }
            }
            if all.len() > 0 {
                assert(same_lengths(all));
            }
            if n == self.data {
                assert(all.subrange(0, self.data as int) =~= padded_data);
            }
        }
        let ghost all = block.deep_view();
        let coded = rs_encode(self.data, self.parity, &mut block);
        match rs_decode_outcome(coded, Ghost(rs_encode_check(self.data as nat, self.parity as nat, all))) {
            Ok(()) => {
                assert forall|i: int|
                    #![trigger block@[i]]
                    #![trigger block.deep_view()[i]]
                    0 <= i < block@.len() implies block.deep_view()[i].len() == self.shard_size
                        && block@[i]@.len() == self.shard_size by {
                    assert(block.deep_view()[i].len() == all[0].len());
                }
                Ok(block)
            },
            Err(e) => Err(e),
        }
    }

    /// Reconstructs the missing shards of a block in place (`None` marks a
    /// lost shard): data shards are recovered and parity shards recomputed
    /// from them. With FEC off nothing changes.
    pub fn decode_block(&self, shards: &mut [Option<Vec<u8>>]) -> (r: Result<(), RsError>)
        requires
            self.data + self.parity <= usize::MAX,
        ensures
            !self.spec_enabled() ==> r is Ok && final(shards).deep_view() == old(shards).deep_view(),
            self.spec_enabled() ==> r == rs_reconstruct_check(self.data as nat, self.parity as nat, old(shards).deep_view()),
            r is Err ==> final(shards).deep_view() == old(shards).deep_view(),
            self.spec_enabled() && r is Ok ==> {
                &&& final(shards)@.len() == old(shards)@.len()
                &&& forall|i: int| 0 <= i < old(shards)@.len() && old(shards)@[i] is Some ==>
                    #[trigger] final(shards).deep_view()[i] == old(shards).deep_view()[i]
                &&& forall|i: int| 0 <= i < self.data && old(shards)@[i] is None ==>
                    #[trigger] final(shards).deep_view()[i] == Some(rs_recovered_data(self.data as nat,
                        self.parity as nat, old(shards).deep_view())[i])
                &&& forall|i: int| self.data <= i < old(shards)@.len() && old(shards)@[i] is None ==>
                    #[trigger] final(shards).deep_view()[i] == Some(rs_parity_shards(self.data as nat,
                        self.parity as nat, shard_data(final(shards).deep_view(), self.data as nat))[i - self.data])
                &&& forall|data: Seq<Seq<u8>>| #[trigger] shards_agree(self.data as nat, self.parity as nat,
                    data, old(shards).deep_view()) ==> forall|i: int| 0 <= i < old(shards)@.len() ==>
                        #[trigger] final(shards).deep_view()[i] == Some((data + rs_parity_shards(self.data as nat,
                            self.parity as nat, data))[i])
            },
    {
        if !(self.data > 0 && self.parity > 0) {
            return Ok(());
        }
        let ghost before = shards.deep_view();
        let coded = rs_reconstruct(self.data, self.parity, shards);
        let r = rs_decode_outcome(coded, Ghost(rs_reconstruct_check(self.data as nat, self.parity as nat, before)));
        proof {
            if r is Ok {
                let d = self.data as nat;
                let p = self.parity as nat;
                let after = shards.deep_view();
                assert forall|data: Seq<Seq<u8>>| #[trigger] shards_agree(d, p, data, before) implies
                    forall|i: int| 0 <= i < before.len() ==> #[trigger] after[i] == Some((data + rs_parity_shards(d, p, data))[i]) by {
                    assert forall|j: int| 0 <= j < d implies #[trigger] after[j] == Some(data[j]) by {
                    }
                    assert(shard_data(after, d) =~= data);
                    assert forall|i: int| 0 <= i < before.len() implies #[trigger] after[i] == Some((data + rs_parity_shards(d, p, data))[i]) by {
                        if i < d {
                            assert(after[i] == Some(data[i]));
                        } else if before[i] is Some {
                            assert(after[i] == before[i]);
                        } else {
                            assert(after[i] == Some(rs_parity_shards(d, p, shard_data(after, d))[i - d]));
                        }
                    }
                }
            }
        }
        r
    }
}

} // verus!
