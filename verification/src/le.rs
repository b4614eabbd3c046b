//! Little-endian packing of 64-bit words into byte buffers.
//!
//! Every multi-byte value of the cipher is serialized least significant
//! byte first.  The loads and stores here are proved against the byte
//! specifications used by the bulk-mode contracts.

use vstd::prelude::*;

verus! {

/// Byte `j` (0 = least significant) of the little-endian encoding of a
/// 64-bit word.
pub open spec fn le_byte(v: u64, j: int) -> u8
    recommends
        0 <= j < 8,
{
    (v >> (8 * j) as u64) as u8
}

/// The eight little-endian bytes of a 64-bit word, least significant
/// first.
pub open spec fn le_bytes_of_u64(v: u64) -> Seq<u8> {
    Seq::new(8, |j: int| le_byte(v, j))
}

/// The 64-bit word encoded by eight little-endian bytes.
pub open spec fn u64_of_le_bytes(s: Seq<u8>) -> u64
    recommends
        s.len() == 8,
{
    (s[0] as u64) | (s[1] as u64) << 8u64 | (s[2] as u64) << 16u64 | (s[3] as u64) << 24u64 | (
    s[4] as u64) << 32u64 | (s[5] as u64) << 40u64 | (s[6] as u64) << 48u64 | (s[7] as u64)
        << 56u64
}

/// Reassembling a word from its little-endian bytes restores the word.
proof fn lemma_le_reassemble(v: u64, b0: u8, b1: u8, b2: u8, b3: u8, b4: u8, b5: u8, b6: u8, b7: u8)
    by (bit_vector)
    requires
        b0 == v as u8,
        b1 == (v >> 8u64) as u8,
        b2 == (v >> 16u64) as u8,
        b3 == (v >> 24u64) as u8,
        b4 == (v >> 32u64) as u8,
        b5 == (v >> 40u64) as u8,
        b6 == (v >> 48u64) as u8,
        b7 == (v >> 56u64) as u8,
    ensures
        (b0 as u64) | (b1 as u64) << 8u64 | (b2 as u64) << 16u64 | (b3 as u64) << 24u64 | (
        b4 as u64) << 32u64 | (b5 as u64) << 40u64 | (b6 as u64) << 48u64 | (b7 as u64) << 56u64
            == v,
{
}

/// Reading back the written bytes restores the word.
pub proof fn lemma_le_round_trip(v: u64)
    ensures
        u64_of_le_bytes(le_bytes_of_u64(v)) == v,
{
    let s = le_bytes_of_u64(v);
    assert(v >> 0u64 == v) by (bit_vector);
    lemma_le_reassemble(v, s[0], s[1], s[2], s[3], s[4], s[5], s[6], s[7]);
}

/// Each byte of a word assembled from eight bytes is the byte it was
/// assembled from.
proof fn lemma_byte_extract(v: u64, b0: u8, b1: u8, b2: u8, b3: u8, b4: u8, b5: u8, b6: u8, b7: u8)
    by (bit_vector)
    requires
        v == (b0 as u64) | (b1 as u64) << 8u64 | (b2 as u64) << 16u64 | (b3 as u64) << 24u64 | (
        b4 as u64) << 32u64 | (b5 as u64) << 40u64 | (b6 as u64) << 48u64 | (b7 as u64) << 56u64,
    ensures
        v as u8 == b0,
        (v >> 8u64) as u8 == b1,
        (v >> 16u64) as u8 == b2,
        (v >> 24u64) as u8 == b3,
        (v >> 32u64) as u8 == b4,
        (v >> 40u64) as u8 == b5,
        (v >> 48u64) as u8 == b6,
        (v >> 56u64) as u8 == b7,
{
}

/// Encoding the word assembled from eight bytes gives back those bytes.
pub proof fn lemma_le_bytes_round_trip(s: Seq<u8>)
    requires
        s.len() == 8,
    ensures
        le_bytes_of_u64(u64_of_le_bytes(s)) == s,
{
    let v = u64_of_le_bytes(s);
    lemma_byte_extract(v, s[0], s[1], s[2], s[3], s[4], s[5], s[6], s[7]);
    assert(v >> 0u64 == v) by (bit_vector);
    assert(le_bytes_of_u64(v) =~= s);
}

/// Loads the 64-bit word stored little-endian at `off`.
pub(crate) fn load_le_u64(src: &Vec<u8>, off: usize) -> (v: u64)
    requires
        off + 8 <= src@.len(),
    ensures
        v == u64_of_le_bytes(src@.subrange(off as int, off as int + 8)),
{
    let n = src.len();
    proof {
        assert(off + 8 <= n);
    }
    (src[off] as u64) | (src[off + 1] as u64) << 8u64 | (src[off + 2] as u64) << 16u64 | (src[off
        + 3] as u64) << 24u64 | (src[off + 4] as u64) << 32u64 | (src[off + 5] as u64) << 40u64 | (
    src[off + 6] as u64) << 48u64 | (src[off + 7] as u64) << 56u64
}

/// Stores `v` little-endian into the 8 bytes at `off`, leaving the rest
/// of the buffer unchanged.
pub(crate) fn store_le_u64(dst: &mut Vec<u8>, off: usize, v: u64)
    requires
        off + 8 <= old(dst)@.len(),
    ensures
        final(dst)@.len() == old(dst)@.len(),
        final(dst)@.subrange(off as int, off as int + 8) == le_bytes_of_u64(v),
        forall|j: int|
            0 <= j < old(dst)@.len() && !(off <= j < off + 8) ==> final(dst)@[j] == old(dst)@[j],
{
    let n = dst.len();
    dst.set(off, v as u8);
    dst.set(off + 1, (v >> 8u64) as u8);
    dst.set(off + 2, (v >> 16u64) as u8);
    dst.set(off + 3, (v >> 24u64) as u8);
    dst.set(off + 4, (v >> 32u64) as u8);
    dst.set(off + 5, (v >> 40u64) as u8);
    dst.set(off + 6, (v >> 48u64) as u8);
    dst.set(off + 7, (v >> 56u64) as u8);
    proof {
        assert(v >> 0u64 == v) by (bit_vector);
        assert(dst@.subrange(off as int, off as int + 8) =~= le_bytes_of_u64(v));
    }
}

} // verus!
