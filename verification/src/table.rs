//! The precomputed wide form of the substitution layer.
//!
//! Instead of eight 4-bit lookups per round, a round can use four
//! 256-entry tables, one per byte of the keyed sum: the entry for byte
//! value `b` at byte position `i` holds `b`'s two substituted nibbles
//! shifted into place, with the rotation by 11 already applied.  The
//! rotation distributes over XOR, so XORing the four entries for the
//! four bytes of a word equals substituting and rotating the word
//! directly; that equivalence is proved here for every input.  The
//! table is derived once from the canonical substitution tables and is
//! read-only afterwards.

use vstd::prelude::*;
use crate::sbox::{sbox, spec_expand, sbox_lookup};
use crate::round::{spec_rotl11, spec_round, rotl11};

verus! {

/// The wide-table entry for byte value `b` at byte position `i`: the
/// substitutions of `b`'s two nibbles, shifted to nibble positions
/// `2 * i` and `2 * i + 1`, rotated left by 11.
pub open spec fn wide_entry(i: int, b: u32) -> u32
    recommends
        0 <= i < 4,
        b < 256,
{
    spec_rotl11((sbox(2 * i, b & 0xf) | sbox(2 * i + 1, b >> 4u32) << 4u32) << ((8 * i) as u32))
}

/// XORing the four wide entries for the four bytes of `t` equals the
/// substitution layer followed by the rotation: the wide tables are a
/// faithful precomputation of the direct nibble lookups.
pub proof fn lemma_wide_equiv(t: u32)
    ensures
        wide_entry(0, t & 0xff) ^ wide_entry(1, (t >> 8u32) & 0xff) ^ wide_entry(
            2,
            (t >> 16u32) & 0xff,
        ) ^ wide_entry(3, (t >> 24u32) & 0xff) == spec_rotl11(spec_expand(t)),
{
    assert(wide_entry(0, t & 0xff) ^ wide_entry(1, (t >> 8u32) & 0xff) ^ wide_entry(
        2,
        (t >> 16u32) & 0xff,
    ) ^ wide_entry(3, (t >> 24u32) & 0xff) == spec_rotl11(spec_expand(t))) by (bit_vector);
}

/// The four wide tables, stored back to back: the entry for byte value
/// `b` at byte position `i` sits at index `256 * i + b`.
pub struct WideTable {
    entries: Vec<u32>,
}

impl WideTable {
    /// The table holds exactly its defining entries.
    pub closed spec fn wf(self) -> bool {
        self.entries@.len() == 1024 && forall|i: int, b: int|
            0 <= i < 4 && 0 <= b < 256 ==> self.entries@[256 * i + b] == #[trigger] wide_entry(
                i,
                b as u32,
            )
    }

    /// Derives the wide table from the canonical substitution tables.
    pub fn new() -> (t: WideTable)
        ensures
            t.wf(),
    {
        let mut entries: Vec<u32> = Vec::new();
        let mut i: usize = 0;
        while i < 4
            invariant
                i <= 4,
                entries@.len() == 256 * i,
                forall|ii: int, b: int|
                    0 <= ii < i && 0 <= b < 256 ==> entries@[256 * ii + b] == #[trigger] wide_entry(
                        ii,
                        b as u32,
                    ),
            decreases 4 - i,
        {
            let mut b: usize = 0;
            while b < 256
                invariant
                    i < 4,
                    b <= 256,
                    entries@.len() == 256 * i + b,
                    forall|ii: int, bb: int|
                        0 <= ii < i && 0 <= bb < 256 ==> entries@[256 * ii + bb]
                            == #[trigger] wide_entry(ii, bb as u32),
                    forall|bb: int|
                        0 <= bb < b ==> entries@[256 * i + bb] == #[trigger] wide_entry(
                            i as int,
                            bb as u32,
                        ),
                decreases 256 - b,
            {
                proof {
                    assert(b & 0xf < 16 && b >> 4 < 16) by (bit_vector)
                        requires
                            b < 256,
                    ;
                }
                let lo = sbox_lookup(2 * i, (b & 0xf) as u32);
                let hi = sbox_lookup(2 * i + 1, (b >> 4) as u32);
                let sh: u32 = (8 * i) as u32;
                let e = rotl11((lo | hi << 4u32) << sh);
                entries.push(e);
                proof {
                    let bu = b as u32;
                    assert((b & 0xf) as u32 == bu & 0xf && (b >> 4) as u32 == bu >> 4u32)
                        by (bit_vector)
                        requires
                            b < 256,
                            bu == b as u32,
                    ;
                    assert(entries@[256 * (i as int) + b] == wide_entry(i as int, bu));
                }
                b = b + 1;
            }
            i = i + 1;
        }
        WideTable { entries }
    }

    /// One Feistel round computed through the wide table, in place,
    /// with the half-swap folded in; it agrees with `magma_round` on
    /// every input.
    pub fn round(&self, l: &mut u32, r: &mut u32, key: u32)
        requires
            self.wf(),
        ensures
            (*final(l), *final(r)) == spec_round(*old(l), *old(r), key),
    {
        let t = (*l).wrapping_add(key);
        let b0 = (t & 0xff) as usize;
        let b1 = ((t >> 8u32) & 0xff) as usize;
        let b2 = ((t >> 16u32) & 0xff) as usize;
        let b3 = ((t >> 24u32) & 0xff) as usize;
        proof {
            assert(t & 0xff < 256 && (t >> 8u32) & 0xff < 256 && (t >> 16u32) & 0xff < 256 && (t
                >> 24u32) & 0xff < 256) by (bit_vector);
        }
        let x = self.entries[b0] ^ self.entries[256 + b1] ^ self.entries[512 + b2]
            ^ self.entries[768 + b3];
        proof {
            lemma_wide_equiv(t);
        }
        let m = *r ^ x;
        *r = *l;
        *l = m;
    }
}

} // verus!
