//! Per-packet decisions of the tunnel pipeline.
//!
//! Transmit: each IP frame read from the TUN device is tagged with an inner
//! header (stream id and sequence number) and batched; once a batch holds
//! as many frames as a block has data shards, the batch is FEC-encoded and
//! every shard becomes a datagram: an outer header, then the shard,
//! obfuscated when obfuscation is on. Pacing and sending stay with the
//! caller.
//!
//! Receive: each datagram's outer header is read and its payload
//! deobfuscated; a shard handed on as it arrives (every shard with FEC
//! off, the data shards with FEC on) is an inner frame, which goes through
//! the reorder buffer, and the buffer yields the frames ready to be
//! written to the TUN device. The pipeline itself does not rebuild lost
//! shards: `FecCodec::decode_block` does that for a collected block.

use crate::buffer::{bytes_mut_extend_from_slice, bytes_mut_into_vec, bytes_mut_with_capacity};
use crate::config::{FecRatio, RunArgs};
use crate::crypto::{lemma_obfuscate_involution, obfuscate, Obfuscator};
use crate::fec::{encode_block_result, FecCodec, RsError};
use crate::jitter::{release, JitterBuffer};
use crate::protocol::{
    inner_header_bytes, inner_header_from_bytes, lemma_outer_header_roundtrip, outer_header_bytes,
    outer_header_fits, outer_header_from_bytes, Flags, InnerHeader, OuterHeader, PktType, FLAG_ALL,
    FLAG_FEC_ON, FLAG_OBFUSCATED, FLAG_REVERSE, INNER_HDR_LEN, OUTER_HDR_LEN,
};
use vstd::prelude::*;

verus! {

/// Largest length of a frame or shard that the pipeline takes, so that a
/// datagram built from it stays within what a buffer can hold.
pub const MAX_PAYLOAD: usize = 0x7fff_0000;

/// Flag bits of every datagram of a pipeline.
pub open spec fn pipeline_flag_bits(fec_on: bool, obfs: bool, reverse: bool) -> u8 {
    let b0: u8 = 0;
    let b1: u8 = if fec_on { b0 | FLAG_FEC_ON } else { b0 };
    let b2: u8 = if obfs { b1 | FLAG_OBFUSCATED } else { b1 };
    let b3: u8 = if reverse { b2 | FLAG_REVERSE } else { b2 };
    b3
}

/// Outer header of shard `idx` (holding `payload_len` bytes) of block
/// `block_id`, for a pipeline with `data` data and `parity` parity shards.
pub open spec fn block_header(
    data: usize,
    parity: usize,
    obfs: bool,
    reverse: bool,
    block_id: u16,
    idx: int,
    payload_len: nat,
) -> OuterHeader {
    OuterHeader {
        version: 1,
        ptype: if idx < data {
            PktType::Data
        } else {
            PktType::Parity
        },
        flags: Flags { bits: pipeline_flag_bits(data > 0, obfs, reverse) },
        block_id,
        shard_index: idx as u8,
        k: data as u8,
        n: (if data + parity >= 1 {
            data + parity
        } else {
            1
        }) as u8,
        payload_len: payload_len as u16,
    }
}

/// `payload` as it travels: obfuscated for block `block_id` when a key is
/// given, unchanged otherwise.
pub open spec fn sealed(key: Option<Seq<u8>>, block_id: u16, payload: Seq<u8>) -> Seq<u8> {
    match key {
        Some(k) => obfuscate(k, payload, block_id),
        None => payload,
    }
}

/// A datagram: the outer header followed by the sealed payload.
pub open spec fn datagram_bytes(hdr: OuterHeader, key: Option<Seq<u8>>, payload: Seq<u8>) -> Seq<u8> {
    outer_header_bytes(hdr) + sealed(key, hdr.block_id, payload)
}

/// The datagrams that carry the shards of block `block_id`, in order.
pub open spec fn block_datagrams(
    data: usize,
    parity: usize,
    key: Option<Seq<u8>>,
    reverse: bool,
    block_id: u16,
    shards: Seq<Seq<u8>>,
) -> Seq<Seq<u8>> {
    Seq::new(
        shards.len(),
        |i: int|
            datagram_bytes(
                block_header(data, parity, key is Some, reverse, block_id, i, shards[i].len()),
                key,
                shards[i],
            ),
    )
}

/// What a receiver with obfuscation key `key` reads from datagram `d`:
/// its outer header and its payload, deobfuscated when the header says so
/// and a key is configured; `None` when `d` is too short for a header.
pub open spec fn opened(key: Option<Seq<u8>>, d: Seq<u8>) -> Option<(OuterHeader, Seq<u8>)> {
    match outer_header_from_bytes(d) {
        None => None,
        Some(h) => {
            let payload = d.subrange(OUTER_HDR_LEN as int, d.len() as int);
            if h.flags.bits & FLAG_OBFUSCATED == FLAG_OBFUSCATED && key is Some {
                Some((h, obfuscate(key->0, payload, h.block_id)))
            } else {
                Some((h, payload))
            }
        },
    }
}

/// The inner frame that tags `frame` with `stream_id` and `seq`.
pub open spec fn tagged_frame(stream_id: u16, seq: u16, frame: Seq<u8>) -> Seq<u8> {
    inner_header_bytes(InnerHeader { stream_id, seq }) + frame
}

/// Number of frames a transmit batch collects before it is encoded.
pub open spec fn batch_target(data: usize) -> nat {
    if data == 0 {
        1
    } else {
        data as nat
    }
}

/// With FEC on and a ratio the codec accepts, a transmit batch is encoded
/// exactly when it holds as many frames as a block has data shards, and a
/// batch of that size always encodes: the block is the frames padded to the
/// shard size followed by their parity shards, never a codec error.
pub proof fn lemma_fec_on_batches(data: usize, parity: usize, shard_size: usize, batch: Seq<Seq<u8>>)
    requires
        data > 0,
        parity > 0,
        crate::fec::rs_counts_check(data as nat, parity as nat) is Ok,
        shard_size > 0,
    ensures
        batch_target(data) == data,
        batch.len() == data ==> encode_block_result(data as nat, parity as nat, shard_size as nat, batch)
            == Ok::<Seq<Seq<u8>>, RsError>(crate::fec::padded_shards(batch, shard_size as nat)
                + crate::fec::rs_parity_shards(data as nat, parity as nat, crate::fec::padded_shards(batch, shard_size as nat))),
{
}

/// With FEC off (no data shards) every frame is a batch of its own.
pub proof fn lemma_fec_off_batches(data: usize)
    requires
        data == 0,
    ensures
        batch_target(data) == 1,
{
}

/// The flag bits of a pipeline fit the wire and carry the obfuscation bit
/// exactly when obfuscation is on.
pub proof fn lemma_pipeline_flags(fec_on: bool, obfs: bool, reverse: bool)
    ensures
        pipeline_flag_bits(fec_on, obfs, reverse) & FLAG_ALL == pipeline_flag_bits(fec_on, obfs, reverse),
        (pipeline_flag_bits(fec_on, obfs, reverse) & FLAG_OBFUSCATED == FLAG_OBFUSCATED) == obfs,
        (pipeline_flag_bits(fec_on, obfs, reverse) & FLAG_FEC_ON == FLAG_FEC_ON) == fec_on,
        (pipeline_flag_bits(fec_on, obfs, reverse) & FLAG_REVERSE == FLAG_REVERSE) == reverse,
{
    let b0: u8 = 0;
    assert(0u8 | 2u8 == 2u8) by (bit_vector);
    let b1: u8 = if fec_on { b0 | 2u8 } else { b0 };
    assert(b1 == 0 || b1 == 2);
    assert((b1 == 0u8 || b1 == 2u8) ==> {
        &&& ((b1 & 2u8 == 2u8) == (b1 == 2u8))
        &&& (((b1 | 1u8) & 2u8 == 2u8) == (b1 == 2u8))
        &&& (((b1 | 4u8) & 2u8 == 2u8) == (b1 == 2u8))
        &&& ((((b1 | 1u8) | 4u8) & 2u8 == 2u8) == (b1 == 2u8))
        &&& (b1 & 4u8 == 0u8)
        &&& ((b1 | 1u8) & 4u8 == 0u8)
        &&& ((b1 | 4u8) & 4u8 == 4u8)
        &&& (((b1 | 1u8) | 4u8) & 4u8 == 4u8)
        &&& (b1 | 1u8) & 7u8 == b1 | 1u8
        &&& (b1 | 1u8) & 1u8 == 1u8
        &&& b1 & 1u8 == 0u8
        &&& b1 & 7u8 == b1
        &&& ((b1 | 1u8) | 4u8) & 7u8 == (b1 | 1u8) | 4u8
        &&& ((b1 | 1u8) | 4u8) & 1u8 == 1u8
        &&& (b1 | 4u8) & 7u8 == b1 | 4u8
        &&& (b1 | 4u8) & 1u8 == 0u8
    }) by (bit_vector);
}

/// The outer header of every datagram of a block names the shard's kind by
/// its position (data before parity) and carries the FEC flag exactly when
/// the pipeline has data shards, the obfuscation flag exactly when
/// obfuscation is on and the reverse flag exactly in reverse mode, each
/// independently of the others, and no other flag.
pub proof fn lemma_block_header_flags(
    data: usize,
    parity: usize,
    obfs: bool,
    reverse: bool,
    block_id: u16,
    idx: int,
    payload_len: nat,
)
    ensures
        ({
            let h = block_header(data, parity, obfs, reverse, block_id, idx, payload_len);
            &&& h.version == 1
            &&& h.block_id == block_id
            &&& (h.ptype == PktType::Data) == (idx < data)
            &&& (h.ptype == PktType::Parity) == (idx >= data)
            &&& (h.flags.bits & FLAG_FEC_ON == FLAG_FEC_ON) == (data > 0)
            &&& (h.flags.bits & FLAG_OBFUSCATED == FLAG_OBFUSCATED) == obfs
            &&& (h.flags.bits & FLAG_REVERSE == FLAG_REVERSE) == reverse
            &&& h.flags.bits & FLAG_ALL == h.flags.bits
        }),
{
    lemma_pipeline_flags(data > 0, obfs, reverse);
}

/// A receiver configured like the sender reads back from each datagram the
/// header it was sent with and the shard it carries.
pub proof fn lemma_datagram_roundtrip(hdr: OuterHeader, key: Option<Seq<u8>>, payload: Seq<u8>)
    requires
        outer_header_fits(hdr),
        (hdr.flags.bits & FLAG_OBFUSCATED == FLAG_OBFUSCATED) == (key is Some),
    ensures
        opened(key, datagram_bytes(hdr, key, payload)) == Some((hdr, payload)),
{
    let d = datagram_bytes(hdr, key, payload);
    let hb = outer_header_bytes(hdr);
    let body = sealed(key, hdr.block_id, payload);
    lemma_outer_header_roundtrip(hdr);
    assert(d.subrange(0, 8) =~= hb);
    assert(outer_header_from_bytes(d) == outer_header_from_bytes(hb));
    assert(d.subrange(OUTER_HDR_LEN as int, d.len() as int) =~= body);
    if let Some(k) = key {
        lemma_obfuscate_involution(k, payload, hdr.block_id);
    }
}

/// Every datagram of a block opens, at a receiver configured like the
/// sender, to its shard and a header naming the block, the shard's
/// position, its kind and the block's shape.
pub proof fn lemma_block_roundtrip(
    data: usize,
    parity: usize,
    key: Option<Seq<u8>>,
    reverse: bool,
    block_id: u16,
    shards: Seq<Seq<u8>>,
    i: int,
)
    requires
        0 <= i < shards.len(),
    ensures
        opened(key, block_datagrams(data, parity, key, reverse, block_id, shards)[i]) == Some((
            block_header(data, parity, key is Some, reverse, block_id, i, shards[i].len()),
            shards[i],
        )),
{
    let h = block_header(data, parity, key is Some, reverse, block_id, i, shards[i].len());
    lemma_pipeline_flags(data > 0, key is Some, reverse);
    lemma_datagram_roundtrip(h, key, shards[i]);
}

/// Each datagram of a block is the shard's header followed by the shard,
/// obfuscated for the block when a key is given: deobfuscating the bytes
/// after the header gives the shard back, and the header bytes themselves
/// are never obfuscated.
pub proof fn lemma_datagram_payload(
    data: usize,
    parity: usize,
    key: Option<Seq<u8>>,
    reverse: bool,
    block_id: u16,
    shards: Seq<Seq<u8>>,
    i: int,
)
    requires
        0 <= i < shards.len(),
    ensures
        ({
            let d = block_datagrams(data, parity, key, reverse, block_id, shards)[i];
            let body = d.subrange(OUTER_HDR_LEN as int, d.len() as int);
            &&& d.subrange(0, OUTER_HDR_LEN as int) == outer_header_bytes(
                block_header(data, parity, key is Some, reverse, block_id, i, shards[i].len()))
            &&& match key {
                Some(k) => obfuscate(k, body, block_id) == shards[i],
                None => body == shards[i],
            }
        }),
{
    let h = block_header(data, parity, key is Some, reverse, block_id, i, shards[i].len());
    let d = block_datagrams(data, parity, key, reverse, block_id, shards)[i];
    let sealed_body = sealed(key, block_id, shards[i]);
    assert(d == outer_header_bytes(h) + sealed_body);
    assert(d.subrange(0, OUTER_HDR_LEN as int) =~= outer_header_bytes(h));
    assert(d.subrange(OUTER_HDR_LEN as int, d.len() as int) =~= sealed_body);
    if let Some(k) = key {
        lemma_obfuscate_involution(k, shards[i], block_id);
    }
}

/// A frame that arrives with the sequence number the reorder buffer
/// expects, when nothing else is held, is released at once, alone, and the
/// buffer then expects the following sequence number: frames sent in order
/// come out in order.
pub proof fn lemma_in_order_release(seq: u16, frame: Seq<u8>, stamp: u64, depth: nat, hold_ms: u64, now: u64)
    ensures
        release(Map::<u16, (Seq<u8>, u64)>::empty().insert(seq, (frame, stamp)), seq, depth, hold_ms, now)
            == (seq![frame], Map::<u16, (Seq<u8>, u64)>::empty(), seq.wrapping_add(1)),
{
    let m = Map::<u16, (Seq<u8>, u64)>::empty().insert(seq, (frame, stamp));
    let rest = m.remove(seq);
    assert(rest =~= Map::<u16, (Seq<u8>, u64)>::empty());
    assert(m.dom() =~= Set::<u16>::empty().insert(seq));
    assert(m.dom().finite());
    assert(rest.dom() =~= Set::<u16>::empty());
    assert(!crate::jitter::forces_skip(rest, depth, hold_ms, now));
    let r = release(rest, seq.wrapping_add(1), depth, hold_ms, now);
    assert(r == (Seq::<Seq<u8>>::empty(), rest, seq.wrapping_add(1)));
    assert(seq![frame] + r.0 =~= seq![frame]);
}

/// With FEC off, a frame sent through `tx_frame` and `emit_block` comes
/// out of `rx_datagram` and `rx_frame` unchanged: its block is the batch
/// itself, the receiver (configured like the sender) opens the frame's
/// datagram to the tagged frame, reads back its stream id and sequence
/// number, and a reorder buffer expecting that sequence number releases
/// the frame first.
pub proof fn lemma_frame_end_to_end(
    data: usize,
    parity: usize,
    shard_size: usize,
    key: Option<Seq<u8>>,
    reverse: bool,
    block_id: u16,
    stream_id: u16,
    seq: u16,
    pending: Seq<Seq<u8>>,
    frame: Seq<u8>,
    entries: Map<u16, (Seq<u8>, u64)>,
    stamp: u64,
    depth: nat,
    hold_ms: u64,
    now: u64,
)
    requires
        !(data > 0 && parity > 0),
        entries.dom().finite(),
    ensures
        ({
            let batch = pending.push(tagged_frame(stream_id, seq, frame));
            let d = block_datagrams(data, parity, key, reverse, block_id, batch)[pending.len() as int];
            &&& encode_block_result(data as nat, parity as nat, shard_size as nat, batch) == Ok::<Seq<Seq<u8>>, RsError>(batch)
            &&& opened(key, d) matches Some((h, payload))
            &&& inner_header_from_bytes(payload) == Some(InnerHeader { stream_id, seq })
            &&& release(entries.insert(seq, (payload.subrange(INNER_HDR_LEN as int, payload.len() as int), stamp)),
                seq, depth, hold_ms, now).0[0] == frame
        }),
{
    let batch = pending.push(tagged_frame(stream_id, seq, frame));
    let i = pending.len() as int;
    let t = tagged_frame(stream_id, seq, frame);
    assert(batch[i] == t);
    lemma_block_roundtrip(data, parity, key, reverse, block_id, batch, i);
    lemma_tagged_frame_roundtrip(stream_id, seq, frame);
    let m = entries.insert(seq, (frame, stamp));
    assert(m.dom().finite());
    assert(m.contains_key(seq));
    let r = release(m.remove(seq), seq.wrapping_add(1), depth, hold_ms, now);
    assert(release(m, seq, depth, hold_ms, now).0 == seq![frame] + r.0);
}

/// Whether a received shard is handed on as it arrives, without block
/// recovery: every shard when FEC is off (no data shards), otherwise the
/// data shards only.
pub open spec fn delivered_as_received(h: OuterHeader) -> bool {
    h.k == 0 || h.shard_index < h.k
}

/// Which received shards are handed on as they arrive: with FEC off (a
/// header naming no data shards) every shard; with FEC on every data
/// shard, the first one included, and no parity shard.
pub proof fn lemma_delivered_shards(h: OuterHeader)
    ensures
        h.k == 0 ==> delivered_as_received(h),
        h.k > 0 && h.shard_index < h.k ==> delivered_as_received(h),
        h.k > 0 && h.shard_index >= h.k ==> !delivered_as_received(h),
{
}

/// Of the datagrams of a block (at most 255 data shards, and at most 256
/// shards so that positions fit the header), a receiver hands on every
/// data shard as it arrives, and every shard when FEC is off; it holds back
/// exactly the parity shards of a block with data shards.
pub proof fn lemma_emitted_shards_delivered(
    data: usize,
    parity: usize,
    obfs: bool,
    reverse: bool,
    block_id: u16,
    idx: int,
    payload_len: nat,
)
    requires
        data <= 255,
        0 <= idx < 256,
    ensures
        delivered_as_received(block_header(data, parity, obfs, reverse, block_id, idx, payload_len))
            == (data == 0 || idx < data),
{
    let h = block_header(data, parity, obfs, reverse, block_id, idx, payload_len);
    assert(h.k as int == data as int);
    assert(h.shard_index as int == idx);
    lemma_delivered_shards(h);
}

/// Whether a received shard is handed on as it arrives: every shard when
/// the header names no data shards (FEC off), otherwise the data shards
/// only; parity shards serve recovery alone.
pub fn delivers_shard(hdr: &OuterHeader) -> (r: bool)
    ensures
        r == delivered_as_received(*hdr),
{
    hdr.k == 0 || hdr.shard_index < hdr.k
}

/// The receiver reads back from a tagged frame the stream id and sequence
/// number it was tagged with, and the frame itself after the header.
pub proof fn lemma_tagged_frame_roundtrip(stream_id: u16, seq: u16, frame: Seq<u8>)
    ensures
        inner_header_from_bytes(tagged_frame(stream_id, seq, frame)) == Some(InnerHeader { stream_id, seq }),
        tagged_frame(stream_id, seq, frame).subrange(INNER_HDR_LEN as int, tagged_frame(stream_id, seq, frame).len() as int) == frame,
{
    let t = tagged_frame(stream_id, seq, frame);
    let h = InnerHeader { stream_id, seq };
    crate::protocol::lemma_inner_header_roundtrip(h);
    assert(t.subrange(0, 4) =~= inner_header_bytes(h));
    assert(inner_header_from_bytes(t) == inner_header_from_bytes(inner_header_bytes(h)));
    assert(t.subrange(4, t.len() as int) =~= frame);
}

/// The datagrams that a pipeline with FEC off (no data shards) sends for
/// `frames`, in order, tagged on stream `stream_id` with sequence numbers
/// from `seq` on: each frame is a block of its own, the blocks numbered
/// from `block_id` on.
pub open spec fn fec_off_datagrams(
    parity: usize,
    shard_size: usize,
    key: Option<Seq<u8>>,
    reverse: bool,
    block_id: u16,
    stream_id: u16,
    seq: u16,
    frames: Seq<Seq<u8>>,
) -> Seq<Seq<u8>>
    decreases frames.len(),
{
    if frames.len() == 0 {
        Seq::empty()
    } else {
        let batch = seq![tagged_frame(stream_id, seq, frames[0])];
        let sent = match encode_block_result(0, parity as nat, shard_size as nat, batch) {
            Ok(v) => block_datagrams(0, parity, key, reverse, block_id, v),
            Err(_) => Seq::empty(),
        };
        sent + fec_off_datagrams(parity, shard_size, key, reverse, block_id.wrapping_add(1),
            stream_id, seq.wrapping_add(1), frames.drop_first())
    }
}

/// The frames that a receiver with obfuscation key `key` writes to the TUN
/// device for the datagrams `dgrams`, received in that order, when its
/// reorder buffer holds `entries` and expects `next`: each datagram is
/// opened, a shard handed on as it arrives has its inner header read, and
/// the frame goes into the reorder buffer, stamped and popped at the times
/// that `clock` gives for it (stamp, then the time of the pop).
pub open spec fn received_frames(
    key: Option<Seq<u8>>,
    dgrams: Seq<Seq<u8>>,
    entries: Map<u16, (Seq<u8>, u64)>,
    next: u16,
    depth: nat,
    hold_ms: u64,
    clock: Seq<(u64, u64)>,
) -> Seq<Seq<u8>>
    decreases dgrams.len(),
{
    if dgrams.len() == 0 {
        Seq::empty()
    } else {
        let rest = dgrams.drop_first();
        let later = clock.drop_first();
        match opened(key, dgrams[0]) {
            Some((h, payload)) => {
                if delivered_as_received(h) {
                    match inner_header_from_bytes(payload) {
                        Some(ih) => {
                            let frame = payload.subrange(INNER_HDR_LEN as int, payload.len() as int);
                            let (out, left, nx) = release(entries.insert(ih.seq, (frame, clock[0].0)), next,
                                depth, hold_ms, clock[0].1);
                            out + received_frames(key, rest, left, nx, depth, hold_ms, later)
                        },
                        None => received_frames(key, rest, entries, next, depth, hold_ms, later),
                    }
                } else {
                    received_frames(key, rest, entries, next, depth, hold_ms, later)
                }
            },
            None => received_frames(key, rest, entries, next, depth, hold_ms, later),
        }
    }
}

/// With FEC off, the frames sent through `tx_frame` come out of
/// `rx_datagram`, `delivers_shard` and `rx_frame`, at a receiver configured
/// like the sender whose empty reorder buffer expects the sender's first
/// sequence number, exactly as they were sent and in the same order, when
/// every datagram arrives once and in order, whatever the clock reads.
pub proof fn lemma_stream_end_to_end(
    parity: usize,
    shard_size: usize,
    key: Option<Seq<u8>>,
    reverse: bool,
    block_id: u16,
    stream_id: u16,
    seq: u16,
    frames: Seq<Seq<u8>>,
    depth: nat,
    hold_ms: u64,
    clock: Seq<(u64, u64)>,
)
    ensures
        received_frames(key, fec_off_datagrams(parity, shard_size, key, reverse, block_id, stream_id, seq, frames),
            Map::<u16, (Seq<u8>, u64)>::empty(), seq, depth, hold_ms, clock) == frames,
    decreases frames.len(),
{
    let sent_all = fec_off_datagrams(parity, shard_size, key, reverse, block_id, stream_id, seq, frames);
    if frames.len() == 0 {
        assert(sent_all.len() == 0);
        assert(frames =~= Seq::<Seq<u8>>::empty());
    } else {
        let f = frames[0];
        let t = tagged_frame(stream_id, seq, f);
        let batch = seq![t];
        assert(encode_block_result(0, parity as nat, shard_size as nat, batch) == Ok::<Seq<Seq<u8>>, RsError>(batch));
        let sent = block_datagrams(0, parity, key, reverse, block_id, batch);
        let later = fec_off_datagrams(parity, shard_size, key, reverse, block_id.wrapping_add(1), stream_id,
            seq.wrapping_add(1), frames.drop_first());
        assert(sent_all == sent + later);
        assert(sent.len() == 1);
        assert(sent_all[0] == sent[0]);
        assert(sent_all.drop_first() =~= later);
        lemma_block_roundtrip(0, parity, key, reverse, block_id, batch, 0);
        let h = block_header(0, parity, key is Some, reverse, block_id, 0, t.len());
        assert(opened(key, sent_all[0]) == Some((h, t)));
        assert(delivered_as_received(h));
        lemma_tagged_frame_roundtrip(stream_id, seq, f);
        lemma_in_order_release(seq, f, clock[0].0, depth, hold_ms, clock[0].1);
        lemma_stream_end_to_end(parity, shard_size, key, reverse, block_id.wrapping_add(1), stream_id,
            seq.wrapping_add(1), frames.drop_first(), depth, hold_ms, clock.drop_first());
        assert(seq![f] + frames.drop_first() =~= frames);
    }
}

/// Transmit state: next block id, next sequence number and the frames
/// waiting for their block.
pub struct TxState {
    block_id: u16,
    seq: u16,
    batch: Vec<Vec<u8>>,
}

impl TxState {
    /// Every waiting frame fits the pipeline's payload limit.
    pub closed spec fn wf(&self) -> bool {
        forall|i: int| 0 <= i < self.batch@.len() ==> (#[trigger] self.batch@[i])@.len() <= MAX_PAYLOAD + INNER_HDR_LEN
    }

    /// Block id of the next block.
    pub closed spec fn next_block(&self) -> u16 {
        self.block_id
    }

    /// Sequence number of the next frame.
    pub closed spec fn next_seq(&self) -> u16 {
        self.seq
    }

    /// Tagged frames waiting for their block.
    pub closed spec fn pending(&self) -> Seq<Seq<u8>> {
        self.batch.deep_view()
    }

    /// Transmit state at the start of a session.
    pub fn new() -> (r: TxState)
        ensures
            r.next_block() == 0,
            r.next_seq() == 0,
            r.pending() == Seq::<Seq<u8>>::empty(),
            r.wf(),
    {
        let r = TxState { block_id: 0, seq: 0, batch: Vec::new() };
        assert(r.pending() =~= Seq::<Seq<u8>>::empty());
        r
    }
}

/// Wiring of codec, obfuscator and reorder settings for one session.
pub struct Pipeline {
    fec: FecCodec,
    obfs: Option<Obfuscator>,
    mtu: usize,
    mux_streams: u16,
    jitter_depth: usize,
    jitter_ms: u64,
    reverse: bool,
}

/// A non-empty text has a non-empty UTF-8 encoding.
proof fn lemma_nonempty_utf8(chars: Seq<char>)
    requires
        chars.len() > 0,
    ensures
        vstd::utf8::encode_utf8(chars).len() > 0,
{
    assert(vstd::utf8::encode_utf8(chars) == vstd::utf8::encode_scalar(chars[0] as u32)
        + vstd::utf8::encode_utf8(chars.drop_first()));
    assert(vstd::utf8::encode_scalar(chars[0] as u32).len() > 0);
}

impl Pipeline {
    #[verifier::type_invariant]
    spec fn inv(self) -> bool {
        &&& self.fec.data + self.fec.parity <= usize::MAX
        &&& self.fec.shard_size == self.mtu + INNER_HDR_LEN
        &&& self.mtu <= u16::MAX
        &&& (self.obfs matches Some(o) ==> o@.len() > 0)
    }

    /// Number of data shards per block.
    pub closed spec fn data_shards(&self) -> usize {
        self.fec.data
    }

    /// Number of parity shards per block.
    pub closed spec fn parity_shards(&self) -> usize {
        self.fec.parity
    }

    /// Length every shard is padded to when FEC is on.
    pub closed spec fn shard_size(&self) -> usize {
        self.fec.shard_size
    }

    /// The obfuscation key, when obfuscation is on.
    pub closed spec fn obfs_key(&self) -> Option<Seq<u8>> {
        match self.obfs {
            Some(o) => Some(o@),
            None => None,
        }
    }

    /// Whether datagrams carry the reverse-tunnel flag.
    pub closed spec fn reverse_flag(&self) -> bool {
        self.reverse
    }

    /// MTU of the TUN device.
    pub closed spec fn mtu_size(&self) -> usize {
        self.mtu
    }

    /// Number of multiplexed streams.
    pub closed spec fn streams(&self) -> u16 {
        self.mux_streams
    }

    /// Depth of the reorder buffer.
    pub closed spec fn reorder_depth(&self) -> usize {
        self.jitter_depth
    }

    /// Hold time of the reorder buffer in ms.
    pub closed spec fn reorder_hold_ms(&self) -> u64 {
        self.jitter_ms
    }

    /// Builds the pipeline of a session: shards are `mtu` plus the inner
    /// header long, and obfuscation uses the pre-shared key when it is on.
    /// Fails exactly when the codec refuses the FEC ratio.
    pub fn new(args: &RunArgs, fec: FecRatio) -> (r: Result<Pipeline, RsError>)
        requires
            fec.data + fec.parity <= usize::MAX,
            args.obfs ==> args.key@.len() > 0,
        ensures
            match r {
                Ok(p) => {
                    &&& p.data_shards() == fec.data
                    &&& p.parity_shards() == fec.parity
                    &&& p.shard_size() == args.mtu + INNER_HDR_LEN
                    &&& p.mtu_size() == args.mtu
                    &&& p.obfs_key() == (if args.obfs {
                        Some(vstd::utf8::encode_utf8(args.key@))
                    } else {
                        None::<Seq<u8>>
                    })
                    &&& p.reverse_flag() == args.reverse
                    &&& p.streams() == args.mux
                    &&& p.reorder_depth() == args.jitter
                    &&& p.reorder_hold_ms() == args.jitter_ms
                    &&& (fec.data > 0 && fec.parity > 0 ==> crate::fec::rs_counts_check(fec.data as nat, fec.parity as nat) is Ok)
                },
                Err(e) => fec.data > 0 && fec.parity > 0 && crate::fec::rs_counts_check(fec.data as nat, fec.parity as nat)
                    == Err::<(), RsError>(e),
            },
    {
        let shard_size = args.mtu as usize + INNER_HDR_LEN;
        let codec = FecCodec::new(fec.data, fec.parity, shard_size)?;
        let obfs = if args.obfs {
            let o = Obfuscator::new(args.key.as_str());
            proof {
                lemma_nonempty_utf8(args.key@);
            }
            Some(o)
        } else {
            None
        };
        Ok(
            Pipeline {
                fec: codec,
                obfs,
                mtu: args.mtu as usize,
                mux_streams: args.mux,
                jitter_depth: args.jitter,
                jitter_ms: args.jitter_ms,
                reverse: args.reverse,
            },
        )
    }

    /// A reorder buffer with this pipeline's depth and hold time.
    pub fn new_jitter(&self) -> (r: JitterBuffer)
        ensures
            r.entries() == Map::<u16, (Seq<u8>, u64)>::empty(),
            r.next_expected() == 0,
            r.depth_limit() == self.reorder_depth(),
            r.hold_limit() == self.reorder_hold_ms(),
    {
        JitterBuffer::new(self.jitter_depth, self.jitter_ms)
    }

    /// Turns the shards of block `block_id` into the datagrams that carry
    /// them, in order: each is an outer header (version 1, data or parity
    /// kind by position, the pipeline's flags, the block's shape and the
    /// shard's length) followed by the shard, obfuscated for the block when
    /// obfuscation is on.
    pub fn emit_block(&self, block_id: u16, shards: &Vec<Vec<u8>>) -> (r: Vec<Vec<u8>>)
        requires
            forall|i: int| 0 <= i < shards@.len() ==> (#[trigger] shards@[i])@.len() <= MAX_PAYLOAD + INNER_HDR_LEN,
        ensures
            r.deep_view() == block_datagrams(self.data_shards(), self.parity_shards(), self.obfs_key(),
                self.reverse_flag(), block_id, shards.deep_view()),
    {
        proof {
            use_type_invariant(self);
        }
        let data = self.fec.data;
        let k = data as u8;
        let total = self.fec.total();
        let n = if total >= 1 { total } else { 1 };
        let n = n as u8;
        let mut flags = Flags::empty();
        if data > 0 {
            flags.insert(Flags::fec_on());
        }
        if self.obfs.is_some() {
            flags.insert(Flags::obfuscated());
        }
        if self.reverse {
            flags.insert(Flags::reverse());
        }
        assert(flags.bits == pipeline_flag_bits(data > 0, self.obfs is Some, self.reverse));
        let ghost want = block_datagrams(self.data_shards(), self.parity_shards(), self.obfs_key(),
            self.reverse_flag(), block_id, shards.deep_view());
        let mut out: Vec<Vec<u8>> = Vec::new();
        let count = shards.len();
        let mut i: usize = 0;
        while i < count
            invariant
                count == shards@.len(),
                i <= count,
                out@.len() == i,
                forall|j: int| 0 <= j < i ==> (#[trigger] out.deep_view()[j]) == want[j],
                want == block_datagrams(self.data_shards(), self.parity_shards(), self.obfs_key(),
                    self.reverse_flag(), block_id, shards.deep_view()),
                forall|j: int| 0 <= j < shards@.len() ==> (#[trigger] shards@[j])@.len() <= MAX_PAYLOAD + INNER_HDR_LEN,
                flags.bits == pipeline_flag_bits(data > 0, self.obfs is Some, self.reverse),
                data == self.fec.data,
                k == data as u8,
                n == (if data + self.fec.parity >= 1 { data + self.fec.parity } else { 1 }) as u8,
                self.obfs matches Some(o) ==> o@.len() > 0,
            decreases count - i,
        {
            let shard = &shards[i];
            let ptype = if i < data { PktType::Data } else { PktType::Parity };
            let hdr = OuterHeader {
                version: 1,
                ptype,
                flags,
                block_id,
                shard_index: i as u8,
                k,
                n,
                payload_len: shard.len() as u16,
            };
            let ghost h = block_header(self.data_shards(), self.parity_shards(), self.obfs_key() is Some,
                self.reverse_flag(), block_id, i as int, shard@.len());
            assert(hdr == h);
            let mut payload = vstd::slice::slice_to_vec(shard.as_slice());
            match &self.obfs {
                Some(o) => {
                    o.apply(payload.as_mut_slice(), block_id);
                },
                None => {},
            }
            assert(payload@ == sealed(self.obfs_key(), block_id, shard@));
            let mut pkt = bytes_mut_with_capacity(OUTER_HDR_LEN + shard.len());
            hdr.encode(&mut pkt);
            bytes_mut_extend_from_slice(&mut pkt, payload.as_slice());
            let d = bytes_mut_into_vec(pkt);
            assert(d@ == datagram_bytes(h, self.obfs_key(), shard@));
            let ghost before = out.deep_view();
            assert(d.deep_view() =~= d@);
            out.push(d);
            assert(out.deep_view() =~= before.push(d@));
            assert(shards.deep_view()[i as int] == shard@);
            i = i + 1;
        }
        assert(out.deep_view() =~= want);
        out
    }

    /// Reads a received datagram: its outer header and its payload,
    /// deobfuscated when the header carries the obfuscation flag and this
    /// pipeline has a key; `None` when the datagram is shorter than a
    /// header.
    pub fn rx_datagram(&self, datagram: &[u8]) -> (r: Option<(OuterHeader, Vec<u8>)>)
        requires
            datagram@.len() <= isize::MAX,
        ensures
            match opened(self.obfs_key(), datagram@) {
                None => r is None,
                Some((h, p)) => (r matches Some((h2, v)) && h2 == h && v@ == p),
            },
    {
        proof {
            use_type_invariant(self);
        }
        let hdr = match OuterHeader::decode(datagram) {
            Some(h) => h,
            None => {
                return None;
            },
        };
        let body = vstd::slice::slice_subrange(datagram, OUTER_HDR_LEN, datagram.len());
        let mut payload = vstd::slice::slice_to_vec(body);
        if hdr.flags.contains(Flags::obfuscated()) {
            match &self.obfs {
                Some(o) => {
                    o.apply(payload.as_mut_slice(), hdr.block_id);
                },
                None => {},
            }
        }
        Some((hdr, payload))
    }

    /// Tags an IP frame read from the TUN device with `stream_id` and the
    /// next sequence number and adds it to the batch; once the batch holds
    /// as many frames as a block has data shards (one with FEC off), it is
    /// encoded and the block's datagrams are returned, and the next block
    /// id is taken. A codec error empties the batch and is returned.
    pub fn tx_frame(&self, st: &mut TxState, stream_id: u16, ip_frame: &[u8]) -> (r: Result<Option<Vec<Vec<u8>>>, RsError>)
        requires
            old(st).wf(),
            ip_frame@.len() <= MAX_PAYLOAD,
        ensures
            final(st).wf(),
            final(st).next_seq() == old(st).next_seq().wrapping_add(1),
            ({
                let batch = old(st).pending().push(tagged_frame(stream_id, old(st).next_seq(), ip_frame@));
                if batch.len() < batch_target(self.data_shards()) {
                    &&& r matches Ok(None)
                    &&& final(st).pending() == batch
                    &&& final(st).next_block() == old(st).next_block()
                } else {
                    &&& final(st).pending() == Seq::<Seq<u8>>::empty()
                    &&& match encode_block_result(self.data_shards() as nat, self.parity_shards() as nat,
                        self.shard_size() as nat, batch) {
                        Err(e) => r == Err::<Option<Vec<Vec<u8>>>, RsError>(e)
                            && final(st).next_block() == old(st).next_block(),
                        Ok(v) => (r matches Ok(Some(d)) && d.deep_view() == block_datagrams(self.data_shards(),
                            self.parity_shards(), self.obfs_key(), self.reverse_flag(), old(st).next_block(), v))
                            && final(st).next_block() == old(st).next_block().wrapping_add(1),
                    }
                }
            }),
            self.data_shards() > 0 && self.parity_shards() > 0
                && crate::fec::rs_counts_check(self.data_shards() as nat, self.parity_shards() as nat) is Ok
                && old(st).pending().len() < self.data_shards() ==> {
                &&& (old(st).pending().len() + 1 < self.data_shards() ==> r matches Ok(None))
                &&& (old(st).pending().len() + 1 == self.data_shards() ==> (r matches Ok(Some(d))
                    && d@.len() == self.data_shards() + self.parity_shards()))
            },
            self.data_shards() > 0 && self.parity_shards() > 0 ==> (r matches Ok(Some(d)) ==> {
                &&& d@.len() == self.data_shards() + self.parity_shards()
                &&& forall|i: int| 0 <= i < d@.len() ==> (#[trigger] d@[i])@.len() == OUTER_HDR_LEN + self.shard_size()
            }),
    {
        proof {
            use_type_invariant(self);
        }
        let ghost batch = old(st).pending().push(tagged_frame(stream_id, old(st).next_seq(), ip_frame@));
        let mut inner = bytes_mut_with_capacity(INNER_HDR_LEN + ip_frame.len());
        let ih = InnerHeader { stream_id, seq: st.seq };
        ih.encode(&mut inner);
        bytes_mut_extend_from_slice(&mut inner, ip_frame);
        let tagged = bytes_mut_into_vec(inner);
        assert(tagged@ == tagged_frame(stream_id, old(st).next_seq(), ip_frame@));
        st.seq = st.seq.wrapping_add(1);
        let ghost before = st.batch.deep_view();
        assert(tagged.deep_view() =~= tagged@);
        st.batch.push(tagged);
        assert(st.batch.deep_view() =~= batch);
        let need = if self.fec.data == 0 { 1 } else { self.fec.data };
        if st.batch.len() >= need {
            let mut pending: Vec<Vec<u8>> = Vec::new();
            std::mem::swap(&mut pending, &mut st.batch);
            assert(st.batch.deep_view() =~= Seq::<Seq<u8>>::empty());
            let ghost pend = pending.deep_view();
            let shards = match self.fec.encode_block(pending) {
                Ok(b) => b,
                Err(e) => {
                    return Err(e);
                },
            };
            proof {
                assert forall|i: int| 0 <= i < shards@.len() implies (#[trigger] shards@[i])@.len() <= MAX_PAYLOAD + INNER_HDR_LEN by {
                    if !self.fec.spec_enabled() {
                        assert(shards.deep_view() == pend);
                        assert(shards.deep_view()[i] == shards@[i]@);
                        assert(pend[i] == batch[i]);
                    }
                }
            }
            let dgrams = self.emit_block(st.block_id, &shards);
            proof {
                if self.fec.spec_enabled() {
                    let w = shards.deep_view();
                    assert(dgrams.deep_view().len() == w.len());
                    assert(dgrams@.len() == self.fec.data + self.fec.parity);
                    assert forall|i: int| 0 <= i < dgrams@.len() implies (#[trigger] dgrams@[i])@.len() == OUTER_HDR_LEN + self.shard_size() by {
                        assert(dgrams.deep_view().len() == w.len());
                        assert(i < shards@.len());
                        assert(dgrams@[i]@ == dgrams.deep_view()[i]);
                        assert(w[i] =~= shards@[i]@);
                        assert(shards@[i]@.len() == self.fec.shard_size);
                    }
                }
            }
            st.block_id = st.block_id.wrapping_add(1);
            Ok(Some(dgrams))
        } else {
            Ok(None)
        }
    }

    /// Takes one inner frame recovered from a block: when it holds an
    /// inner header, the rest of the frame goes into the reorder buffer
    /// under the header's sequence number and the frames then ready are
    /// returned; a frame too short for a header is dropped.
    pub fn rx_frame(&self, jitter: &mut JitterBuffer, inner_frame: &[u8]) -> (r: Vec<Vec<u8>>)
        ensures
            match inner_header_from_bytes(inner_frame@) {
                None => r@.len() == 0 && *final(jitter) == *old(jitter),
                Some(ih) => exists|t: u64, now: u64|
                    #![trigger release(old(jitter).entries().insert(ih.seq, (inner_frame@.subrange(4, inner_frame@.len() as int), t)),
                        old(jitter).next_expected(), old(jitter).depth_limit(), old(jitter).hold_limit(), now)]
                    release(old(jitter).entries().insert(ih.seq, (inner_frame@.subrange(4, inner_frame@.len() as int), t)),
                        old(jitter).next_expected(), old(jitter).depth_limit(), old(jitter).hold_limit(), now)
                        == (r.deep_view(), final(jitter).entries(), final(jitter).next_expected()),
            },
            final(jitter).depth_limit() == old(jitter).depth_limit(),
            final(jitter).hold_limit() == old(jitter).hold_limit(),
            match inner_header_from_bytes(inner_frame@) {
                None => true,
                Some(ih) => {
                    let n = old(jitter).clock_readings().len() as int;
                    let readings = final(jitter).clock_readings();
                    &&& readings.len() == n + 2
                    &&& readings.subrange(0, n) == old(jitter).clock_readings()
                    &&& release(old(jitter).entries().insert(ih.seq, (inner_frame@.subrange(4, inner_frame@.len() as int), readings[n])),
                        old(jitter).next_expected(), old(jitter).depth_limit(), old(jitter).hold_limit(), readings[n + 1])
                        == (r.deep_view(), final(jitter).entries(), final(jitter).next_expected())
                },
            },
    {
        match InnerHeader::decode(inner_frame) {
            Some(ih) => {
                let rest = vstd::slice::slice_to_vec(vstd::slice::slice_subrange(inner_frame, INNER_HDR_LEN, inner_frame.len()));
                jitter.push(ih.seq, rest);
                let ghost mid = *jitter;
                let out = jitter.pop_ready();
                proof {
                    let n = old(jitter).clock_readings().len() as int;
                    let rd = jitter.clock_readings();
                    assert(rd.drop_last() == mid.clock_readings());
                    assert(mid.clock_readings().drop_last() == old(jitter).clock_readings());
                    assert(rd[n] == mid.clock_readings().last());
                    assert(rd[n + 1] == rd.last());
                    assert(rd.subrange(0, n) =~= old(jitter).clock_readings());
                    assert(inner_frame@.subrange(4, inner_frame@.len() as int) == rest@);
                }
                proof {
                    let t = choose|t: u64| mid.entries() == old(jitter).entries().insert(ih.seq, (rest@, t));
                    let now = choose|now: u64|
                        #![trigger release(mid.entries(), mid.next_expected(), mid.depth_limit(), mid.hold_limit(), now)]
                        {
                            let (o, rs, nx) = release(mid.entries(), mid.next_expected(), mid.depth_limit(), mid.hold_limit(), now);
                            &&& out.deep_view() == o
                            &&& jitter.entries() == rs
                            &&& jitter.next_expected() == nx
                            &&& !crate::jitter::forces_skip(rs, mid.depth_limit(), mid.hold_limit(), now)
                        };
                    assert(release(old(jitter).entries().insert(ih.seq, (inner_frame@.subrange(4, inner_frame@.len() as int), t)),
                        old(jitter).next_expected(), old(jitter).depth_limit(), old(jitter).hold_limit(), now)
                        == (out.deep_view(), jitter.entries(), jitter.next_expected()));
                }
                out
            },
            None => Vec::new(),
        }
    }
}

} // verus!
