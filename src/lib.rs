use vstd::prelude::*;

pub mod curve;
pub mod proving_key;
pub mod utils;
pub mod verification_key;

verus! {

/// Ways in which building, encoding or decoding proving material fails.
#[derive(Debug, Clone, Copy, PartialEq, Eq, Structural)]
pub enum HonkProofError {
    /// A verifying-key buffer has neither of the two legal lengths.
    InvalidKeyLength,
    /// A verifying-key buffer has a legal length but inconsistent content.
    CorruptedKey,
    /// The commitment basis is shorter than the polynomial to commit.
    CrsTooSmall,
    /// A slot flagged as public input holds a secret share.
    ExpectedPublicWitness,
    /// The witness shares do not cover the four wires at the circuit size.
    ShareLengthMismatch,
    /// A field element given in hexadecimal does not parse.
    InvalidHexString,
}

} // verus!
