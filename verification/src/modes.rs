//! Bulk modes over byte buffers: electronic codebook and the counter
//! ("gamma") keystream mode.
//!
//! Electronic codebook requires the source length to be a multiple of 8
//! and transforms each 8-byte chunk independently.  Counter mode places
//! the IV in the high 32 bits of a 64-bit counter, encrypts successive
//! counter values to produce a keystream, and XORs it with the data; a
//! trailing chunk shorter than 8 bytes uses just the first bytes of one
//! more keystream block.  Both modes validate the buffer lengths before
//! writing a single byte.

use vstd::prelude::*;
use crate::{GostKey, GostError};
use crate::cipher::{spec_encrypt_block, spec_decrypt_block, magma_encrypt_block,
magma_decrypt_block, lemma_block_round_trip};
use crate::le::{le_byte, le_bytes_of_u64, u64_of_le_bytes, load_le_u64, store_le_u64,
lemma_le_round_trip, lemma_le_bytes_round_trip};

verus! {

/// The 8-byte chunk of `s` at block index `bi`.
pub open spec fn chunk(s: Seq<u8>, bi: int) -> Seq<u8>
    recommends
        0 <= bi,
        8 * bi + 8 <= s.len(),
{
    s.subrange(8 * bi, 8 * bi + 8)
}

/// Byte `j` of the electronic-codebook encryption of `s`: byte `j % 8`
/// of the encryption of the chunk holding position `j`.
pub open spec fn ecb_encrypt_byte(s: Seq<u8>, key: Seq<u32>, j: int) -> u8 {
    le_byte(spec_encrypt_block(u64_of_le_bytes(chunk(s, j / 8)), key), j % 8)
}

/// Byte `j` of the electronic-codebook decryption of `s`.
pub open spec fn ecb_decrypt_byte(s: Seq<u8>, key: Seq<u32>, j: int) -> u8 {
    le_byte(spec_decrypt_block(u64_of_le_bytes(chunk(s, j / 8)), key), j % 8)
}

/// Electronic-codebook encryption of a whole buffer, chunk by chunk.
pub open spec fn spec_ecb_encrypt(s: Seq<u8>, key: Seq<u32>) -> Seq<u8>
    recommends
        s.len() % 8 == 0,
{
    Seq::new(s.len(), |j: int| ecb_encrypt_byte(s, key, j))
}

/// Electronic-codebook decryption of a whole buffer, chunk by chunk.
pub open spec fn spec_ecb_decrypt(s: Seq<u8>, key: Seq<u32>) -> Seq<u8>
    recommends
        s.len() % 8 == 0,
{
    Seq::new(s.len(), |j: int| ecb_decrypt_byte(s, key, j))
}

/// Electronic-codebook round trip: decrypting an encrypted buffer of
/// any block-aligned length restores it, for every key.
pub proof fn lemma_ecb_round_trip(s: Seq<u8>, key: Seq<u32>)
    requires
        key.len() == 8,
        s.len() % 8 == 0,
    ensures
        spec_ecb_decrypt(spec_ecb_encrypt(s, key), key) == s,
{
    let c = spec_ecb_encrypt(s, key);
    assert forall|j: int| 0 <= j < s.len() implies spec_ecb_decrypt(c, key)[j] == s[j] by {
        let bi = j / 8;
        assert(8 * bi <= j < 8 * bi + 8);
        assert(8 * bi + 8 <= s.len());
        let b = u64_of_le_bytes(chunk(s, bi));
        let e = spec_encrypt_block(b, key);
        assert forall|t: int| 0 <= t < 8 implies chunk(c, bi)[t] == le_bytes_of_u64(e)[t] by {
            assert((8 * bi + t) / 8 == bi && (8 * bi + t) % 8 == t);
        }
        assert(chunk(c, bi) =~= le_bytes_of_u64(e));
        lemma_le_round_trip(e);
        lemma_block_round_trip(b, key);
        lemma_le_bytes_round_trip(chunk(s, bi));
        assert(spec_ecb_decrypt(c, key)[j] == le_byte(b, j % 8));
        assert(le_byte(b, j % 8) == chunk(s, bi)[j % 8]);
    }
    assert(spec_ecb_decrypt(c, key) =~= s);
}

/// The counter value used for block `bi`: the IV in the high 32 bits,
/// incremented by one per block with 64-bit wraparound.
pub open spec fn spec_counter(iv: u32, bi: int) -> u64
    decreases bi,
{
    if bi <= 0 {
        (iv as u64) << 32u64
    } else {
        vstd::wrapping::u64_specs::wrapping_add(spec_counter(iv, bi - 1), 1)
    }
}

/// Byte `j` of the keystream: byte `j % 8` of the encrypted counter for
/// the block holding position `j`.
pub open spec fn gamma_byte(key: Seq<u32>, iv: u32, j: int) -> u8 {
    le_byte(spec_encrypt_block(spec_counter(iv, j / 8), key), j % 8)
}

/// Counter-mode transformation of a buffer: each byte XORed with its
/// keystream byte.  Applying it twice with the same key and IV is the
/// identity, so this is both encryption and decryption.
pub open spec fn spec_gamma(s: Seq<u8>, key: Seq<u32>, iv: u32) -> Seq<u8> {
    Seq::new(s.len(), |j: int| s[j] ^ gamma_byte(key, iv, j))
}

/// Counter-mode round trip: transforming a buffer twice with the same
/// key and IV restores it, whatever its length.
pub proof fn lemma_gamma_round_trip(s: Seq<u8>, key: Seq<u32>, iv: u32)
    ensures
        spec_gamma(spec_gamma(s, key, iv), key, iv) == s,
{
    let c = spec_gamma(s, key, iv);
    assert forall|j: int| 0 <= j < s.len() implies spec_gamma(c, key, iv)[j] == s[j] by {
        let b = s[j];
        let g = gamma_byte(key, iv, j);
        assert((b ^ g) ^ g == b) by (bit_vector);
    }
    assert(spec_gamma(c, key, iv) =~= s);
}

/// The pointwise XOR of two equally long byte sequences.
pub open spec fn xor_bytes(a: Seq<u8>, b: Seq<u8>) -> Seq<u8>
    recommends
        a.len() == b.len(),
{
    Seq::new(a.len(), |j: int| a[j] ^ b[j])
}

/// Keystream reuse: two buffers transformed with the same key and IV
/// have ciphertexts whose XOR equals the XOR of the plaintexts.  The
/// keystream cancels, which is why a (key, IV) pair must never cover
/// two different plaintexts.
pub proof fn lemma_gamma_keystream_reuse(p1: Seq<u8>, p2: Seq<u8>, key: Seq<u32>, iv: u32)
    requires
        p1.len() == p2.len(),
    ensures
        xor_bytes(spec_gamma(p1, key, iv), spec_gamma(p2, key, iv)) == xor_bytes(p1, p2),
{
    let c1 = spec_gamma(p1, key, iv);
    let c2 = spec_gamma(p2, key, iv);
    assert forall|j: int| 0 <= j < p1.len() implies xor_bytes(c1, c2)[j] == xor_bytes(p1, p2)[j] by {
        let a = p1[j];
        let b = p2[j];
        let g = gamma_byte(key, iv, j);
        assert((a ^ g) ^ (b ^ g) == a ^ b) by (bit_vector);
    }
    assert(xor_bytes(c1, c2) =~= xor_bytes(p1, p2));
}

/// Encrypts `src` into `dst` in electronic-codebook mode: the source
/// length must be a multiple of 8 and equal to the destination length,
/// and on a rejected call the destination is untouched.
pub fn magma_encrypt_ecb(src: &Vec<u8>, dst: &mut Vec<u8>, key: &GostKey) -> (res: Result<
    (),
    GostError,
>)
    ensures
        src@.len() % 8 != 0 ==> res == Err::<(), GostError>(GostError::NotDivisorOf8)
            && final(dst)@ == old(dst)@,
        src@.len() % 8 == 0 && src@.len() != old(dst)@.len() ==> res == Err::<(), GostError>(
            GostError::DifferentLength,
        ) && final(dst)@ == old(dst)@,
        src@.len() % 8 == 0 && src@.len() == old(dst)@.len() ==> res == Ok::<(), GostError>(())
            && final(dst)@ == spec_ecb_encrypt(src@, key.0@),
{
    if src.len() % 8 != 0 {
        return Err(GostError::NotDivisorOf8);
    }
    if src.len() != dst.len() {
        return Err(GostError::DifferentLength);
    }
    let n = src.len();
    let nb = n / 8;
    let mut bi: usize = 0;
    while bi < nb
        invariant
            bi <= nb,
            nb == n / 8,
            n % 8 == 0,
            n == src@.len(),
            dst@.len() == n,
            forall|j: int| 0 <= j < 8 * bi ==> dst@[j] == ecb_encrypt_byte(src@, key.0@, j),
        decreases nb - bi,
    {
        let b = load_le_u64(src, 8 * bi);
        let e = magma_encrypt_block(b, key);
        store_le_u64(dst, 8 * bi, e);
        proof {
            assert forall|j: int| 8 * bi <= j < 8 * bi + 8 implies dst@[j] == ecb_encrypt_byte(
                src@,
                key.0@,
                j,
            ) by {
                assert(j / 8 == bi && j % 8 == j - 8 * bi);
                assert(dst@[j] == dst@.subrange(8 * bi, 8 * bi + 8)[j - 8 * bi]);
            }
        }
        bi = bi + 1;
    }
    proof {
        assert(dst@ =~= spec_ecb_encrypt(src@, key.0@));
    }
    Ok(())
}

/// Decrypts `src` into `dst` in electronic-codebook mode, with the same
/// length validation as encryption.
pub fn magma_decrypt_ecb(src: &Vec<u8>, dst: &mut Vec<u8>, key: &GostKey) -> (res: Result<
    (),
    GostError,
>)
    ensures
        src@.len() % 8 != 0 ==> res == Err::<(), GostError>(GostError::NotDivisorOf8)
            && final(dst)@ == old(dst)@,
        src@.len() % 8 == 0 && src@.len() != old(dst)@.len() ==> res == Err::<(), GostError>(
            GostError::DifferentLength,
        ) && final(dst)@ == old(dst)@,
        src@.len() % 8 == 0 && src@.len() == old(dst)@.len() ==> res == Ok::<(), GostError>(())
            && final(dst)@ == spec_ecb_decrypt(src@, key.0@),
{
    if src.len() % 8 != 0 {
        return Err(GostError::NotDivisorOf8);
    }
    if src.len() != dst.len() {
        return Err(GostError::DifferentLength);
    }
    let n = src.len();
    let nb = n / 8;
    let mut bi: usize = 0;
    while bi < nb
        invariant
            bi <= nb,
            nb == n / 8,
            n % 8 == 0,
            n == src@.len(),
            dst@.len() == n,
            forall|j: int| 0 <= j < 8 * bi ==> dst@[j] == ecb_decrypt_byte(src@, key.0@, j),
        decreases nb - bi,
    {
        let b = load_le_u64(src, 8 * bi);
        let e = magma_decrypt_block(b, key);
        store_le_u64(dst, 8 * bi, e);
        proof {
            assert forall|j: int| 8 * bi <= j < 8 * bi + 8 implies dst@[j] == ecb_decrypt_byte(
                src@,
                key.0@,
                j,
            ) by {
                assert(j / 8 == bi && j % 8 == j - 8 * bi);
                assert(dst@[j] == dst@.subrange(8 * bi, 8 * bi + 8)[j - 8 * bi]);
            }
        }
        bi = bi + 1;
    }
    proof {
        assert(dst@ =~= spec_ecb_decrypt(src@, key.0@));
    }
    Ok(())
}

/// XORs `cnt` bytes of `src` at `off` with the low bytes of the
/// keystream block `g`, writing into `dst` and leaving every other byte
/// unchanged.
fn xor_with_gamma(src: &Vec<u8>, dst: &mut Vec<u8>, off: usize, cnt: usize, g: u64)
    requires
        old(dst)@.len() == src@.len(),
        off + cnt <= src@.len(),
        cnt <= 8,
    ensures
        final(dst)@.len() == old(dst)@.len(),
        forall|t: int| off <= t < off + cnt ==> final(dst)@[t] == (src@[t] ^ le_byte(g, t - off)),
        forall|t: int|
            0 <= t < old(dst)@.len() && !(off <= t < off + cnt) ==> final(dst)@[t] == old(dst)@[t],
{
    let n = dst.len();
    let mut j: usize = 0;
    while j < cnt
        invariant
            j <= cnt,
            cnt <= 8,
            n == src@.len(),
            off + cnt <= src@.len(),
            dst@.len() == src@.len(),
            old(dst)@.len() == src@.len(),
            forall|t: int| off <= t < off + j ==> dst@[t] == (src@[t] ^ le_byte(g, t - off)),
            forall|t: int|
                0 <= t < dst@.len() && !(off <= t < off + j) ==> dst@[t] == old(dst)@[t],
        decreases cnt - j,
    {
        let sh: u64 = (8 * j) as u64;
        let b = src[off + j] ^ (g >> sh) as u8;
        dst.set(off + j, b);
        j = j + 1;
    }
}

/// Transforms `src` into `dst` in counter mode with the given IV.  Only
/// the lengths must match; a trailing chunk shorter than 8 bytes is
/// covered by the first bytes of one more keystream block.  On a
/// rejected call the destination is untouched.
pub fn magma_encrypt_gamma(src: &Vec<u8>, dst: &mut Vec<u8>, key: &GostKey, iv: u32) -> (res:
    Result<(), GostError>)
    ensures
        src@.len() != old(dst)@.len() ==> res == Err::<(), GostError>(GostError::DifferentLength)
            && final(dst)@ == old(dst)@,
        src@.len() == old(dst)@.len() ==> res == Ok::<(), GostError>(()) && final(dst)@
            == spec_gamma(src@, key.0@, iv),
{
    if src.len() != dst.len() {
        return Err(GostError::DifferentLength);
    }
    let n = src.len();
    let nb = n / 8;
    let mut ctr: u64 = (iv as u64) << 32u64;
    let mut bi: usize = 0;
    while bi < nb
        invariant
            bi <= nb,
            nb == n / 8,
            n == src@.len(),
            dst@.len() == n,
            ctr == spec_counter(iv, bi as int),
            forall|j: int| 0 <= j < 8 * bi ==> dst@[j] == spec_gamma(src@, key.0@, iv)[j],
        decreases nb - bi,
    {
        let g = magma_encrypt_block(ctr, key);
        xor_with_gamma(src, dst, 8 * bi, 8, g);
        ctr = ctr.wrapping_add(1);
        proof {
            assert forall|j: int| 8 * bi <= j < 8 * bi + 8 implies dst@[j] == spec_gamma(
                src@,
                key.0@,
                iv,
            )[j] by {
                assert(j / 8 == bi && j % 8 == j - 8 * bi);
            }
        }
        bi = bi + 1;
    }
    let rest = n % 8;
    if rest > 0 {
        let g = magma_encrypt_block(ctr, key);
        xor_with_gamma(src, dst, 8 * nb, rest, g);
        proof {
            assert forall|j: int| 8 * nb <= j < 8 * nb + rest implies dst@[j] == spec_gamma(
                src@,
                key.0@,
                iv,
            )[j] by {
                assert(j / 8 == nb && j % 8 == j - 8 * nb);
            }
        }
    }
    proof {
        assert(dst@ =~= spec_gamma(src@, key.0@, iv));
    }
    Ok(())
}

/// Counter-mode decryption: the keystream XOR is its own inverse, so
/// this is the same transformation as encryption, with the same
/// contract.
pub fn magma_decrypt_gamma(src: &Vec<u8>, dst: &mut Vec<u8>, key: &GostKey, iv: u32) -> (res:
    Result<(), GostError>)
    ensures
        src@.len() != old(dst)@.len() ==> res == Err::<(), GostError>(GostError::DifferentLength)
            && final(dst)@ == old(dst)@,
        src@.len() == old(dst)@.len() ==> res == Ok::<(), GostError>(()) && final(dst)@
            == spec_gamma(src@, key.0@, iv),
{
    magma_encrypt_gamma(src, dst, key, iv)
}

} // verus!
