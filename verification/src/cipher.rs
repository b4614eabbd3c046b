//! The full block cipher: 32 rounds over a 64-bit block.
//!
//! The 256-bit key is eight 32-bit words `K0..K7`.  Encryption runs the
//! eight words forward three times and then once reversed; decryption
//! runs them once forward and then three times reversed, which is the
//! encryption schedule read backwards.  A block is split little-endian
//! into a low and a high 32-bit half, the rounds run over the pair, and
//! the halves are reassembled swapped.

use vstd::prelude::*;
use crate::GostKey;
use crate::round::{
    spec_rounds, magma_round, lemma_rounds_push, lemma_rounds_concat, lemma_rounds_invert,
};

verus! {

/// The 32 round keys for encryption: the key words three times forward,
/// then once in reverse order.
pub open spec fn enc_schedule(key: Seq<u32>) -> Seq<u32> {
    key + key + key + key.reverse()
}

/// The 32 round keys for decryption: the key words once forward, then
/// three times in reverse order.
pub open spec fn dec_schedule(key: Seq<u32>) -> Seq<u32> {
    key + key.reverse() + key.reverse() + key.reverse()
}

/// The decryption schedule is the encryption schedule read backwards.
pub proof fn lemma_dec_schedule_is_reversed(key: Seq<u32>)
    requires
        key.len() == 8,
    ensures
        dec_schedule(key) == enc_schedule(key).reverse(),
{
    assert(dec_schedule(key) =~= enc_schedule(key).reverse());
}

/// The low 32 bits of a block.
pub open spec fn block_lo(b: u64) -> u32 {
    (b & 0xffff_ffff) as u32
}

/// The high 32 bits of a block.
pub open spec fn block_hi(b: u64) -> u32 {
    (b >> 32u64) as u32
}

/// A block assembled from a low and a high 32-bit half.
pub open spec fn block_join(lo: u32, hi: u32) -> u64 {
    (lo as u64) | ((hi as u64) << 32u64)
}

/// Single-block encryption: split the block into halves, run the
/// encryption schedule, reassemble with the halves swapped.
pub open spec fn spec_encrypt_block(b: u64, key: Seq<u32>) -> u64 {
    let p = spec_rounds(block_lo(b), block_hi(b), enc_schedule(key));
    block_join(p.1, p.0)
}

/// Single-block decryption: the same split and reassembly with the
/// decryption schedule.
pub open spec fn spec_decrypt_block(b: u64, key: Seq<u32>) -> u64 {
    let p = spec_rounds(block_lo(b), block_hi(b), dec_schedule(key));
    block_join(p.1, p.0)
}

/// Decrypting an encrypted block restores the block, for every key and
/// block value.
pub proof fn lemma_block_round_trip(b: u64, key: Seq<u32>)
    requires
        key.len() == 8,
    ensures
        spec_decrypt_block(spec_encrypt_block(b, key), key) == b,
{
    let l0 = block_lo(b);
    let r0 = block_hi(b);
    let p = spec_rounds(l0, r0, enc_schedule(key));
    let c = spec_encrypt_block(b, key);
    let x = p.1;
    let y = p.0;
    assert(block_lo(block_join(x, y)) == x && block_hi(block_join(x, y)) == y) by (bit_vector);
    lemma_dec_schedule_is_reversed(key);
    lemma_rounds_invert(l0, r0, enc_schedule(key));
    assert(spec_rounds(block_lo(c), block_hi(c), dec_schedule(key)) == (r0, l0));
    assert(block_join(block_lo(b), block_hi(b)) == b) by (bit_vector);
}

/// Encryption keeps no hidden state: it is a function of the block and
/// the key alone, so two encryptions of the same block under the same
/// key give the same ciphertext.
pub proof fn lemma_encrypt_block_deterministic(b: u64, key: Seq<u32>, c1: u64, c2: u64)
    requires
        c1 == spec_encrypt_block(b, key),
        c2 == spec_encrypt_block(b, key),
    ensures
        c1 == c2,
{
}

/// One forward cycle: eight rounds with the key words in order.
fn forward_cycle(l: &mut u32, r: &mut u32, key: &GostKey)
    ensures
        (*final(l), *final(r)) == spec_rounds(*old(l), *old(r), key.0@),
{
    let mut i: usize = 0;
    while i < 8
        invariant
            i <= 8,
            (*l, *r) == spec_rounds(*old(l), *old(r), key.0@.take(i as int)),
        decreases 8 - i,
    {
        magma_round(l, r, key.0[i]);
        proof {
            lemma_rounds_push(*old(l), *old(r), key.0@.take(i as int), key.0@[i as int]);
            assert(key.0@.take(i as int + 1) =~= key.0@.take(i as int).push(key.0@[i as int]));
        }
        i = i + 1;
    }
    assert(key.0@.take(8) =~= key.0@);
}

/// One backward cycle: eight rounds with the key words in reverse order.
fn backward_cycle(l: &mut u32, r: &mut u32, key: &GostKey)
    ensures
        (*final(l), *final(r)) == spec_rounds(*old(l), *old(r), key.0@.reverse()),
{
    let rev = Ghost(key.0@.reverse());
    let mut i: usize = 0;
    while i < 8
        invariant
            i <= 8,
            rev@ == key.0@.reverse(),
            (*l, *r) == spec_rounds(*old(l), *old(r), rev@.take(i as int)),
        decreases 8 - i,
    {
        assert(rev@[i as int] == key.0@[7 - i as int]);
        magma_round(l, r, key.0[7 - i]);
        proof {
            lemma_rounds_push(*old(l), *old(r), rev@.take(i as int), rev@[i as int]);
            assert(rev@.take(i as int + 1) =~= rev@.take(i as int).push(rev@[i as int]));
        }
        i = i + 1;
    }
    assert(rev@.take(8) =~= rev@);
}

/// Runs the 32-round encryption schedule over the halves in place.
fn encrypt_halves(l: &mut u32, r: &mut u32, key: &GostKey)
    ensures
        (*final(l), *final(r)) == spec_rounds(*old(l), *old(r), enc_schedule(key.0@)),
{
    forward_cycle(l, r, key);
    forward_cycle(l, r, key);
    forward_cycle(l, r, key);
    backward_cycle(l, r, key);
    proof {
        let k = key.0@;
        lemma_rounds_concat(*old(l), *old(r), k, k);
        lemma_rounds_concat(*old(l), *old(r), k + k, k);
        lemma_rounds_concat(*old(l), *old(r), k + k + k, k.reverse());
    }
}

/// Runs the 32-round decryption schedule over the halves in place.
fn decrypt_halves(l: &mut u32, r: &mut u32, key: &GostKey)
    ensures
        (*final(l), *final(r)) == spec_rounds(*old(l), *old(r), dec_schedule(key.0@)),
{
    forward_cycle(l, r, key);
    backward_cycle(l, r, key);
    backward_cycle(l, r, key);
    backward_cycle(l, r, key);
    proof {
        let k = key.0@;
        lemma_rounds_concat(*old(l), *old(r), k, k.reverse());
        lemma_rounds_concat(*old(l), *old(r), k + k.reverse(), k.reverse());
        lemma_rounds_concat(*old(l), *old(r), k + k.reverse() + k.reverse(), k.reverse());
    }
}

/// Encrypts one 64-bit block.
pub fn magma_encrypt_block(block: u64, key: &GostKey) -> (c: u64)
    ensures
        c == spec_encrypt_block(block, key.0@),
{
    let mut l: u32 = (block & 0xffff_ffff) as u32;
    let mut r: u32 = (block >> 32u64) as u32;
    encrypt_halves(&mut l, &mut r, key);
    (r as u64) | ((l as u64) << 32u64)
}

/// Decrypts one 64-bit block.
pub fn magma_decrypt_block(block: u64, key: &GostKey) -> (p: u64)
    ensures
        p == spec_decrypt_block(block, key.0@),
{
    let mut l: u32 = (block & 0xffff_ffff) as u32;
    let mut r: u32 = (block >> 32u64) as u32;
    decrypt_halves(&mut l, &mut r, key);
    (r as u64) | ((l as u64) << 32u64)
}

} // verus!
