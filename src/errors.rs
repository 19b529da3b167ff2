//! The errors that proofs, encodings and the validator report.
use vstd::prelude::*;

verus! {

/// What went wrong in a cryptographic operation.
#[derive(Clone, Copy, Debug, PartialEq, Eq, Structural)]
pub enum ProofError {
    /// A point or a scalar failed canonical decoding.
    InvalidEncoding,
    /// The batched proof's cardinalities disagree.
    ShapeMismatch,
    /// An equation of the ciphertext-refreshment verification failed.
    CiphertextRefreshmentFinalResponseVerificationError { check: u16 },
    /// The key does not decrypt the ciphertext to a value in the window.
    DecryptionFailure,
}

} // verus!
