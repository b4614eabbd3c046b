//! The GOST 28147-89 ("Magma") 64-bit block cipher.
//!
//! The cipher splits a 64-bit block into two 32-bit halves and runs 32
//! Feistel rounds over them; a round adds a key word modulo 2^32, passes
//! the sum through eight 4-bit substitution tables, rotates left by 11,
//! and mixes the result into the other half.  On top of the block cipher
//! sit two bulk modes: electronic codebook, which transforms each 8-byte
//! chunk of a buffer independently, and a counter ("gamma") mode, which
//! XORs the data with a keystream of encrypted counter values and so also
//! handles buffers whose length is not a multiple of 8.
//!
//! All multi-byte values are serialized little-endian.  Every operation
//! carries a contract relating it to the specification-level cipher, and
//! the round-trip laws (decryption inverts encryption, for single blocks
//! and for the counter mode) are proved as lemmas.

use vstd::prelude::*;

pub mod sbox;
pub mod round;
pub mod cipher;
pub mod le;
pub mod modes;
pub mod table;

pub use round::magma_round;
pub use table::WideTable;
pub use cipher::magma_encrypt_block;
pub use cipher::magma_decrypt_block;
pub use modes::magma_encrypt_ecb;
pub use modes::magma_decrypt_ecb;
pub use modes::magma_encrypt_gamma;
pub use modes::magma_decrypt_gamma;

verus! {

/// A cipher key: exactly eight 32-bit words, fixed for the whole call.
pub struct GostKey(pub [u32; 8]);

/// The ways a bulk-mode call can reject its buffers before writing
/// anything.
#[derive(Debug, PartialEq, Eq)]
pub enum GostError {
    /// The source length is not a multiple of the 8-byte block size
    /// (electronic-codebook mode only).
    NotDivisorOf8,
    /// Source and destination have different lengths.
    DifferentLength,
}

impl GostError {
    /// A human-readable description of the error.
    pub fn description(&self) -> (s: &'static str)
        ensures
            *self == GostError::NotDivisorOf8 ==> s@ == "source data length must be divisor of 8"@,
            *self == GostError::DifferentLength ==> s@ == "source and destination have different lengths"@,
    {
        match *self {
            GostError::NotDivisorOf8 => "source data length must be divisor of 8",
            GostError::DifferentLength => "source and destination have different lengths",
        }
    }
}

} // verus!
