//! The cipher's non-linear layer: eight fixed 4-bit substitution tables
//! and the `expand` operation that applies table `i` to nibble `i` of a
//! 32-bit word.

use vstd::prelude::*;

verus! {

/// Substitution table `i` (0 to 7), packed into one 64-bit word: entry
/// `n` of the table occupies bits `4*n .. 4*n + 4` of the word.  The
/// entries are the fixed cipher parameters; changing any nibble would
/// silently produce a different, incompatible cipher.
pub open spec fn sbox_row(i: int) -> u64 {
    if i == 0 {
        0x1f307d8e9b5a264c
    } else if i == 1 {
        0xf0db74e1c5a93286
    } else if i == 2 {
        0x069c471edaf2853b
    } else if i == 3 {
        0xb9e35a076f4d128c
    } else if i == 4 {
        0xc24be390d618a5f7
    } else if i == 5 {
        0x0e34187bac296fd5
    } else if i == 6 {
        0x73ad0b4fc19652e8
    } else {
        0x2bc96af43850de71
    }
}

/// Nibble `n` (0 to 15) substituted through table `i`.
pub open spec fn sbox(i: int, n: u32) -> u32
    recommends
        0 <= i < 8,
        n < 16,
{
    ((sbox_row(i) >> ((4 * n) as u64)) & 0xf) as u32
}

/// Nibble `i` of `t` (0 = least significant).
pub open spec fn nibble(t: u32, i: int) -> u32
    recommends
        0 <= i < 8,
{
    (t >> ((4 * i) as u32)) & 0xf
}

/// The substitution layer restricted to the low `k` nibble positions:
/// for `i < k`, nibble `i` of the result is table `i` applied to nibble
/// `i` of `t`; the remaining nibbles are zero.
pub open spec fn expand_upto(t: u32, k: int) -> u32
    recommends
        0 <= k <= 8,
    decreases k,
{
    if k <= 0 {
        0
    } else {
        expand_upto(t, k - 1) | (sbox(k - 1, nibble(t, k - 1)) << ((4 * (k - 1)) as u32))
    }
}

/// The full substitution layer: every nibble of `t` replaced through its
/// table.
pub open spec fn spec_expand(t: u32) -> u32 {
    expand_upto(t, 8)
}

/// The packed form of substitution table `i`.
fn sbox_row_word(i: usize) -> (w: u64)
    requires
        i < 8,
    ensures
        w == sbox_row(i as int),
{
    match i {
        0 => 0x1f307d8e9b5a264c,
        1 => 0xf0db74e1c5a93286,
        2 => 0x069c471edaf2853b,
        3 => 0xb9e35a076f4d128c,
        4 => 0xc24be390d618a5f7,
        5 => 0x0e34187bac296fd5,
        6 => 0x73ad0b4fc19652e8,
        _ => 0x2bc96af43850de71,
    }
}

/// Looks nibble `n` up in substitution table `i`.
pub(crate) fn sbox_lookup(i: usize, n: u32) -> (r: u32)
    requires
        i < 8,
        n < 16,
    ensures
        r == sbox(i as int, n),
        r < 16,
{
    let w = sbox_row_word(i);
    let sh: u64 = (4 * n) as u64;
    let r64: u64 = (w >> sh) & 0xf;
    assert(r64 < 16) by (bit_vector)
        requires
            r64 == (w >> sh) & 0xf,
    ;
    r64 as u32
}

/// Applies the substitution layer to `t`, one table per nibble.
pub fn expand(t: u32) -> (x: u32)
    ensures
        x == spec_expand(t),
{
    let mut x: u32 = 0;
    let mut i: usize = 0;
    while i < 8
        invariant
            i <= 8,
            x == expand_upto(t, i as int),
        decreases 8 - i,
    {
        let sh: u32 = (4 * i) as u32;
        let n = (t >> sh) & 0xf;
        assert(n < 16) by (bit_vector)
            requires
                n == (t >> sh) & 0xf,
        ;
        let s = sbox_lookup(i, n);
        x = x | (s << sh);
        i = i + 1;
    }
    x
}

} // verus!
