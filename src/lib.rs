//! Sigma-protocol proofs over ElGamal ciphertexts on the Ristretto group, and
//! the validator that applies them to a ledger of confidential accounts.
pub mod errors;
pub mod group;
pub mod transcript;
pub mod elgamal;
pub mod ciphertext_refreshment_proof;
pub mod encryption_proofs;
pub mod validate;
