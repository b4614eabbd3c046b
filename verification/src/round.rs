//! One Feistel round and sequences of rounds.
//!
//! A round adds the round key to the left half modulo 2^32, substitutes
//! the sum through the tables, rotates left by 11, XORs the result into
//! the right half, and swaps the halves.  `spec_rounds` folds the round
//! over a sequence of round keys; the key lemma `lemma_rounds_invert`
//! shows that replaying the reversed key sequence undoes the rounds,
//! which is what makes decryption the exact inverse of encryption.

use vstd::prelude::*;
use crate::sbox::{spec_expand, expand};

verus! {

/// Rotation of a 32-bit word left by 11 bits.
pub open spec fn spec_rotl11(x: u32) -> u32 {
    (x << 11u32) | (x >> 21u32)
}

/// The round mixing function: add the key modulo 2^32, substitute,
/// rotate left by 11.
pub open spec fn spec_mix(l: u32, key: u32) -> u32 {
    spec_rotl11(spec_expand(vstd::wrapping::u32_specs::wrapping_add(l, key)))
}

/// One Feistel round with the halves swapped afterwards: the new left
/// half is the old right half XOR the mixed old left half, and the new
/// right half is the old left half.
pub open spec fn spec_round(l: u32, r: u32, key: u32) -> (u32, u32) {
    (r ^ spec_mix(l, key), l)
}

/// `spec_round` folded over a sequence of round keys, first key first.
pub open spec fn spec_rounds(l: u32, r: u32, keys: Seq<u32>) -> (u32, u32)
    decreases keys.len(),
{
    if keys.len() == 0 {
        (l, r)
    } else {
        let p = spec_round(l, r, keys[0]);
        spec_rounds(p.0, p.1, keys.drop_first())
    }
}

/// Appending one key to a round sequence runs one more round at the end.
pub proof fn lemma_rounds_push(l: u32, r: u32, keys: Seq<u32>, k: u32)
    ensures
        spec_rounds(l, r, keys.push(k)) == ({
            let p = spec_rounds(l, r, keys);
            spec_round(p.0, p.1, k)
        }),
    decreases keys.len(),
{
    reveal_with_fuel(spec_rounds, 2);
    if keys.len() == 0 {
        assert(keys.push(k)[0] == k);
        assert(keys.push(k).drop_first() =~= keys);
    } else {
        assert(keys.push(k)[0] == keys[0]);
        assert(keys.push(k).drop_first() =~= keys.drop_first().push(k));
        let p = spec_round(l, r, keys[0]);
        lemma_rounds_push(p.0, p.1, keys.drop_first(), k);
    }
}

/// Running the rounds of a concatenated key sequence equals running the
/// two parts one after the other.
pub proof fn lemma_rounds_concat(l: u32, r: u32, a: Seq<u32>, b: Seq<u32>)
    ensures
        spec_rounds(l, r, a + b) == ({
            let p = spec_rounds(l, r, a);
            spec_rounds(p.0, p.1, b)
        }),
    decreases a.len(),
{
    if a.len() == 0 {
        assert(a + b =~= b);
    } else {
        assert((a + b).drop_first() =~= a.drop_first() + b);
        assert((a + b)[0] == a[0]);
        let p = spec_round(l, r, a[0]);
        lemma_rounds_concat(p.0, p.1, a.drop_first(), b);
    }
}

/// Replaying the reversed key sequence on the swapped result of the
/// rounds restores the swapped starting state.  This is the Feistel
/// inversion law: one round, one swap, and the same round again cancel
/// out, and the cancellations telescope over the whole sequence.
pub proof fn lemma_rounds_invert(l: u32, r: u32, keys: Seq<u32>)
    ensures
        ({
            let p = spec_rounds(l, r, keys);
            spec_rounds(p.1, p.0, keys.reverse())
        }) == (r, l),
    decreases keys.len(),
{
    let p = spec_rounds(l, r, keys);
    if keys.len() == 0 {
        assert(keys.reverse() =~= keys);
    } else {
        let k = keys[0];
        let q = spec_round(l, r, k);
        lemma_rounds_invert(q.0, q.1, keys.drop_first());
        assert(keys.reverse() =~= keys.drop_first().reverse().push(k));
        lemma_rounds_push(p.1, p.0, keys.drop_first().reverse(), k);
        let m = spec_mix(l, k);
        assert((r ^ m) ^ m == r) by (bit_vector);
    }
}

/// Rotates a 32-bit word left by 11 bits.
pub(crate) fn rotl11(x: u32) -> (r: u32)
    ensures
        r == spec_rotl11(x),
{
    (x << 11u32) | (x >> 21u32)
}

/// One Feistel round over the halves `l` and `r`, in place, with the
/// half-swap folded in.
pub fn magma_round(l: &mut u32, r: &mut u32, key: u32)
    ensures
        (*final(l), *final(r)) == spec_round(*old(l), *old(r), key),
{
    let m = rotl11(expand((*l).wrapping_add(key)));
    let t = *r ^ m;
    *r = *l;
    *l = t;
}

} // verus!
