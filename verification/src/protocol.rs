//! Wire format of the tunnel: the outer header that every datagram starts
//! with and the inner header that tags each tunnelled IP frame.
//!
//! Outer header (8 bytes, multi-byte fields big-endian):
//! `b0 = version(2 bits) | type(2 bits) | flags(4 bits)`, block id (2),
//! shard index (1), data shard count k (1), total shard count n (1),
//! payload length (2).
//!
//! Inner header (4 bytes, big-endian): stream id (2), sequence number (2).

use crate::buffer::{bytes_mut_contents, bytes_mut_put_u16, bytes_mut_put_u8};
use bytes::BytesMut;
use vstd::prelude::*;

verus! {

/// Length in bytes of an encoded outer header.
pub const OUTER_HDR_LEN: usize = 8;

/// Length in bytes of an encoded inner header.
pub const INNER_HDR_LEN: usize = 4;

/// Kind of payload a datagram carries.
#[derive(Clone, Copy, PartialEq, Eq, Debug, Structural)]
pub enum PktType {
    Data,
    Parity,
    Control,
}

/// The 2-bit code of a packet type on the wire.
pub open spec fn pkt_type_code(t: PktType) -> u8 {
    match t {
        PktType::Data => 0,
        PktType::Parity => 1,
        PktType::Control => 2,
    }
}

/// The packet type a 2-bit wire code stands for; codes 2 and 3 both read
/// as `Control`.
pub open spec fn pkt_type_from_code(c: u8) -> PktType {
    if c == 0 {
        PktType::Data
    } else if c == 1 {
        PktType::Parity
    } else {
        PktType::Control
    }
}

impl PktType {
    /// The wire code of this packet type.
    pub fn code(self) -> (r: u8)
        ensures
            r == pkt_type_code(self),
    {
        match self {
            PktType::Data => 0,
            PktType::Parity => 1,
            PktType::Control => 2,
        }
    }
}

/// Bit set of datagram flags. Only the three low bits have a meaning.
#[derive(Clone, Copy, PartialEq, Eq, Debug, Structural)]
pub struct Flags {
    pub bits: u8,
}

/// Bit of `Flags` marking an obfuscated payload.
pub const FLAG_OBFUSCATED: u8 = 0b0001;

/// Bit of `Flags` marking that forward error correction is on.
pub const FLAG_FEC_ON: u8 = 0b0010;

/// Bit of `Flags` marking reverse tunnelling.
pub const FLAG_REVERSE: u8 = 0b0100;

/// All bits that `Flags` defines.
pub const FLAG_ALL: u8 = 0b0111;

impl Flags {
    /// The empty flag set.
    pub fn empty() -> (r: Flags)
        ensures
            r.bits == 0,
    {
        Flags { bits: 0 }
    }

    /// The set holding only the obfuscation flag.
    pub fn obfuscated() -> (r: Flags)
        ensures
            r.bits == FLAG_OBFUSCATED,
    {
        Flags { bits: FLAG_OBFUSCATED }
    }

    /// The set holding only the FEC flag.
    pub fn fec_on() -> (r: Flags)
        ensures
            r.bits == FLAG_FEC_ON,
    {
        Flags { bits: FLAG_FEC_ON }
    }

    /// The set holding only the reverse-tunnel flag.
    pub fn reverse() -> (r: Flags)
        ensures
            r.bits == FLAG_REVERSE,
    {
        Flags { bits: FLAG_REVERSE }
    }

    /// The raw bits of the set.
    pub fn bits(&self) -> (r: u8)
        ensures
            r == self.bits,
    {
        self.bits
    }

    /// The set of the defined flags among `bits`; unknown bits are dropped.
    pub fn from_bits_truncate(bits: u8) -> (r: Flags)
        ensures
            r.bits == bits & FLAG_ALL,
    {
        Flags { bits: bits & FLAG_ALL }
    }

    /// Whether every flag of `other` is in `self`.
    pub fn contains(&self, other: Flags) -> (r: bool)
        ensures
            r == (self.bits & other.bits == other.bits),
    {
        self.bits & other.bits == other.bits
    }

    /// Adds every flag of `other` to `self`.
    pub fn insert(&mut self, other: Flags)
        ensures
            final(self).bits == old(self).bits | other.bits,
    {
        self.bits = self.bits | other.bits;
    }
}

/// Header at the front of every datagram.
#[derive(Clone, Copy, PartialEq, Eq, Debug, Structural)]
pub struct OuterHeader {
    /// Protocol version (2 bits on the wire).
    pub version: u8,
    /// Payload kind (2 bits on the wire).
    pub ptype: PktType,
    /// Flags (4 bits on the wire).
    pub flags: Flags,
    /// FEC block the payload belongs to.
    pub block_id: u16,
    /// Position of the payload's shard in its block.
    pub shard_index: u8,
    /// Number of data shards in the block.
    pub k: u8,
    /// Number of shards, data and parity, in the block.
    pub n: u8,
    /// Length of the payload in bytes.
    pub payload_len: u16,
}

/// The first byte of an encoded outer header.
pub open spec fn outer_first_byte(h: OuterHeader) -> u8 {
    (((h.version & 3u8) << 6u8) | ((pkt_type_code(h.ptype) & 3u8) << 4u8) | (h.flags.bits
        & 0x0Fu8)) as u8
}

/// The high byte of a 16-bit value.
pub open spec fn hi_byte(v: u16) -> u8 {
    (v >> 8u16) as u8
}

/// The low byte of a 16-bit value.
pub open spec fn lo_byte(v: u16) -> u8 {
    v as u8
}

/// The 16-bit value of two bytes in big-endian order.
pub open spec fn be_u16(hi: u8, lo: u8) -> u16 {
    (((hi as u16) << 8u16) | (lo as u16)) as u16
}

/// The eight bytes that encode an outer header.
pub open spec fn outer_header_bytes(h: OuterHeader) -> Seq<u8> {
    seq![
        outer_first_byte(h),
        hi_byte(h.block_id),
        lo_byte(h.block_id),
        h.shard_index,
        h.k,
        h.n,
        hi_byte(h.payload_len),
        lo_byte(h.payload_len),
    ]
}

/// The outer header read from the front of `s`, if `s` is long enough.
pub open spec fn outer_header_from_bytes(s: Seq<u8>) -> Option<OuterHeader> {
    if s.len() < OUTER_HDR_LEN {
        None
    } else {
        Some(
            OuterHeader {
                version: (s[0] >> 6u8) & 3u8,
                ptype: pkt_type_from_code((s[0] >> 4u8) & 3u8),
                flags: Flags { bits: (s[0] & 0x0Fu8) & FLAG_ALL },
                block_id: be_u16(s[1], s[2]),
                shard_index: s[3],
                k: s[4],
                n: s[5],
                payload_len: be_u16(s[6], s[7]),
            },
        )
    }
}

/// An outer header whose fields fit their wire widths.
pub open spec fn outer_header_fits(h: OuterHeader) -> bool {
    h.version <= 3 && h.flags.bits & FLAG_ALL == h.flags.bits
}

impl OuterHeader {
    /// Appends the eight header bytes to `buf`.
    pub fn encode(&self, buf: &mut BytesMut)
        requires
            bytes_mut_contents(*old(buf)).len() + OUTER_HDR_LEN <= isize::MAX,
        ensures
            bytes_mut_contents(*final(buf)) == bytes_mut_contents(*old(buf)) + outer_header_bytes(
                *self,
            ),
    {
        let b0: u8 = ((self.version & 0x03) << 6) | ((self.ptype.code() & 0x03) << 4) | (
        self.flags.bits() & 0x0F);
        bytes_mut_put_u8(buf, b0);
        bytes_mut_put_u16(buf, self.block_id);
        bytes_mut_put_u8(buf, self.shard_index);
        bytes_mut_put_u8(buf, self.k);
        bytes_mut_put_u8(buf, self.n);
        bytes_mut_put_u16(buf, self.payload_len);
        assert(bytes_mut_contents(*buf) =~= bytes_mut_contents(*old(buf)) + outer_header_bytes(
            *self,
        ));
    }

    /// Reads an outer header from the front of `buf`; `None` when fewer
    /// than eight bytes are given. A header always takes exactly
    /// `OUTER_HDR_LEN` bytes.
    pub fn decode(buf: &[u8]) -> (r: Option<OuterHeader>)
        ensures
            r == outer_header_from_bytes(buf@),
    {
        if buf.len() < OUTER_HDR_LEN {
            return None;
        }
        let b0 = buf[0];
        let ptype = match (b0 >> 4) & 0x03 {
            0 => PktType::Data,
            1 => PktType::Parity,
            _ => PktType::Control,
        };
        Some(
            OuterHeader {
                version: (b0 >> 6) & 0x03,
                ptype,
                flags: Flags::from_bits_truncate(b0 & 0x0F),
                block_id: ((buf[1] as u16) << 8) | (buf[2] as u16),
                shard_index: buf[3],
                k: buf[4],
                n: buf[5],
                payload_len: ((buf[6] as u16) << 8) | (buf[7] as u16),
            },
        )
    }
}

/// Header in front of each tunnelled frame.
#[derive(Clone, Copy, PartialEq, Eq, Debug, Structural)]
pub struct InnerHeader {
    pub stream_id: u16,
    pub seq: u16,
}

/// The four bytes that encode an inner header.
pub open spec fn inner_header_bytes(h: InnerHeader) -> Seq<u8> {
    seq![hi_byte(h.stream_id), lo_byte(h.stream_id), hi_byte(h.seq), lo_byte(h.seq)]
}

/// The inner header read from the front of `s`, if `s` is long enough.
pub open spec fn inner_header_from_bytes(s: Seq<u8>) -> Option<InnerHeader> {
    if s.len() < INNER_HDR_LEN {
        None
    } else {
        Some(InnerHeader { stream_id: be_u16(s[0], s[1]), seq: be_u16(s[2], s[3]) })
    }
}

impl InnerHeader {
    /// Appends the four header bytes to `buf`.
    pub fn encode(&self, buf: &mut BytesMut)
        requires
            bytes_mut_contents(*old(buf)).len() + INNER_HDR_LEN <= isize::MAX,
        ensures
            bytes_mut_contents(*final(buf)) == bytes_mut_contents(*old(buf)) + inner_header_bytes(
                *self,
            ),
    {
        bytes_mut_put_u16(buf, self.stream_id);
        bytes_mut_put_u16(buf, self.seq);
        assert(bytes_mut_contents(*buf) =~= bytes_mut_contents(*old(buf)) + inner_header_bytes(
            *self,
        ));
    }

    /// Reads an inner header from the front of `buf`; `None` when fewer
    /// than four bytes are given. A header always takes exactly
    /// `INNER_HDR_LEN` bytes.
    pub fn decode(buf: &[u8]) -> (r: Option<InnerHeader>)
        ensures
            r == inner_header_from_bytes(buf@),
    {
        if buf.len() < INNER_HDR_LEN {
            return None;
        }
        Some(
            InnerHeader {
                stream_id: ((buf[0] as u16) << 8) | (buf[1] as u16),
                seq: ((buf[2] as u16) << 8) | (buf[3] as u16),
            },
        )
    }
}

proof fn lemma_u16_bytes_roundtrip(v: u16)
    ensures
        be_u16(hi_byte(v), lo_byte(v)) == v,
{
    assert((((((v >> 8u16) as u8) as u16) << 8u16) | ((v as u8) as u16)) as u16 == v)
        by (bit_vector);
}

proof fn lemma_bytes_u16_roundtrip(hi: u8, lo: u8)
    ensures
        hi_byte(be_u16(hi, lo)) == hi,
        lo_byte(be_u16(hi, lo)) == lo,
{
    assert(((((((hi as u16) << 8u16) | (lo as u16)) as u16) >> 8u16) as u8) == hi)
        by (bit_vector);
    assert((((((hi as u16) << 8u16) | (lo as u16)) as u16) as u8) == lo) by (bit_vector);
}

/// Reading back an encoded outer header gives the header that was written,
/// for every header whose fields fit their wire widths.
pub proof fn lemma_outer_header_roundtrip(h: OuterHeader)
    requires
        outer_header_fits(h),
    ensures
        outer_header_from_bytes(outer_header_bytes(h)) == Some(h),
{
    let s = outer_header_bytes(h);
    let b0 = outer_first_byte(h);
    let v = h.version;
    let c = pkt_type_code(h.ptype);
    let f = h.flags.bits;
    assert(c <= 2);
    assert(v <= 3 && c <= 2 && f & 7u8 == f ==> {
        let b = (((v & 3u8) << 6u8) | ((c & 3u8) << 4u8) | (f & 0x0Fu8)) as u8;
        &&& (b >> 6u8) & 3u8 == v
        &&& (b >> 4u8) & 3u8 == c
        &&& (b & 0x0Fu8) & 7u8 == f
    }) by (bit_vector);
    assert(pkt_type_from_code(c) == h.ptype);
    lemma_u16_bytes_roundtrip(h.block_id);
    lemma_u16_bytes_roundtrip(h.payload_len);
}

/// Re-encoding a decoded outer header reproduces the eight bytes it was
/// read from, whenever those bytes use no reserved code: the type field is
/// not 3 and the unused fourth flag bit is clear.
pub proof fn lemma_outer_header_bytes_roundtrip(s: Seq<u8>)
    requires
        s.len() >= OUTER_HDR_LEN,
        (s[0] >> 4u8) & 3u8 != 3,
        s[0] & 0x08u8 == 0,
    ensures
        outer_header_from_bytes(s) matches Some(h) && outer_header_bytes(h) == s.subrange(0, 8),
{
    let h = outer_header_from_bytes(s).unwrap();
    let b = s[0];
    assert((b >> 4u8) & 3u8 != 3 && b & 0x08u8 == 0 ==> ((((b >> 6u8) & 3u8) & 3u8) << 6u8) | ((
    ((b >> 4u8) & 3u8) & 3u8) << 4u8) | (((b & 0x0Fu8) & 7u8) & 0x0Fu8) == b) by (bit_vector);
    assert((b >> 4u8) & 3u8 <= 3) by (bit_vector);
    assert(pkt_type_code(pkt_type_from_code((b >> 4u8) & 3u8)) == (b >> 4u8) & 3u8);
    lemma_bytes_u16_roundtrip(s[1], s[2]);
    lemma_bytes_u16_roundtrip(s[6], s[7]);
    assert(outer_header_bytes(h) =~= s.subrange(0, 8));
}

/// Reading back an encoded inner header gives the header that was written.
pub proof fn lemma_inner_header_roundtrip(h: InnerHeader)
    ensures
        inner_header_from_bytes(inner_header_bytes(h)) == Some(h),
{
    lemma_u16_bytes_roundtrip(h.stream_id);
    lemma_u16_bytes_roundtrip(h.seq);
}

/// Re-encoding a decoded inner header reproduces the four bytes it was
/// read from.
pub proof fn lemma_inner_header_bytes_roundtrip(s: Seq<u8>)
    requires
        s.len() >= INNER_HDR_LEN,
    ensures
        inner_header_from_bytes(s) matches Some(h) && inner_header_bytes(h) == s.subrange(0, 4),
{
    let h = inner_header_from_bytes(s).unwrap();
    lemma_bytes_u16_roundtrip(s[0], s[1]);
    lemma_bytes_u16_roundtrip(s[2], s[3]);
    assert(inner_header_bytes(h) =~= s.subrange(0, 4));
}

} // verus!
