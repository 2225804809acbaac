//! Order-revealing encryption (ORE) with an AES-128 backend.
//!
//! The scheme encrypts 64-bit plaintexts block by block (one block per byte,
//! most significant first) so that two ciphertexts reveal the order of their
//! plaintexts — and nothing more — without being decrypted.  Encoders map
//! floats, booleans and short text onto the 64-bit plaintext space in an
//! order-preserving way.

use vstd::prelude::*;

pub mod prim;
pub mod perm;
pub mod encode;
pub mod ciphertext;
pub mod compare;
pub mod scheme;
pub mod laws;

verus! {

/// Length in bytes of each of the two symmetric keys.
pub const KEY_LEN: usize = 16;

/// Length in bytes of the random nonce stored with every ciphertext.
pub const NONCE_LEN: usize = 16;

/// Number of blocks in a ciphertext: one per byte of the 64-bit plaintext.
pub const NUM_BLOCKS: usize = 8;

/// Length in bytes of a block's left part (a pseudorandom function output).
pub const LEFT_LEN: usize = 16;

/// Number of entries in a block's right part: one per candidate byte value.
pub const RIGHT_LEN: usize = 256;

/// Serialized length of one block: slot index, left part, right part.
pub const BLOCK_LEN: usize = 1 + LEFT_LEN + RIGHT_LEN;

/// Serialized length of a whole ciphertext: nonce, blocks, checksum byte.
pub const CT_LEN: usize = NONCE_LEN + NUM_BLOCKS * BLOCK_LEN + 1;

/// Every failure the library can report.
#[derive(Clone, Copy, Debug, PartialEq, Eq, Structural)]
pub enum OreError {
    /// A key handed to construction was not exactly [`KEY_LEN`] bytes.
    InvalidKeyLength,
    /// An internal cryptographic primitive failed.  With keys that passed
    /// validation no operation of this library produces it; it is kept so
    /// that callers can match the full taxonomy.
    EncryptionError,
    /// Serialized bytes of the wrong length, or with a corrupted indicator.
    DeserializationError,
    /// Comparison was handed structurally invalid or corrupted ciphertexts.
    ComparisonError,
}

} // verus!
