use mercat_proofs::ciphertext_refreshment_proof::{
    CipherTextRefreshmentFinalResponse, CipherTextRefreshmentInitialMessage,
    CipherTextRefreshmentProverAwaitingChallenge, CipherTextRefreshmentVerifier,
    CIPHERTEXT_REFRESHMENT_FINAL_RESPONSE_LABEL, CIPHERTEXT_REFRESHMENT_PROOF_CHALLENGE_LABEL,
};
use mercat_proofs::elgamal::{CipherText, CommitmentWitness, ElgamalPublicKey, ElgamalSecretKey};
use mercat_proofs::encryption_proofs::{
    single_property_prover, single_property_verifier, AssetProofProver,
    AssetProofProverAwaitingChallenge, AssetProofVerifier,
};
use mercat_proofs::errors::ProofError;
use mercat_proofs::group::{PedersenGens, Scalar};
use mercat_proofs::transcript::{ProofTranscript, UpdateTranscript};
use rand::rngs::StdRng;
use rand::{RngCore, SeedableRng};

const SEED_1: [u8; 32] = [17u8; 32];
const SEED_2: [u8; 32] = [19u8; 32];

fn random_scalar(rng: &mut StdRng) -> Scalar {
    let mut bytes = [0u8; 64];
    rng.fill_bytes(&mut bytes);
    Scalar::from_bytes_mod_order_wide(&bytes)
}

fn encrypt_value(
    key: &ElgamalPublicKey,
    gens: &PedersenGens,
    value: Scalar,
    rng: &mut StdRng,
) -> CipherText {
    let witness = CommitmentWitness::new(value, random_scalar(rng));
    key.encrypt(gens, &witness)
}

#[test]
fn test_ciphertext_refreshment_proof() {
    let gens = PedersenGens::default();
    let mut rng = StdRng::from_seed(SEED_1);
    let secret_value = Scalar::from_u64(13);

    let elg_secret = ElgamalSecretKey::new(random_scalar(&mut rng));
    let elg_pub = elg_secret.get_public_key(&gens);
    let ciphertext1 = encrypt_value(&elg_pub, &gens, secret_value, &mut rng);
    let ciphertext2 = encrypt_value(&elg_pub, &gens, secret_value, &mut rng);

    let prover =
        CipherTextRefreshmentProverAwaitingChallenge::new(elg_secret, ciphertext1, ciphertext2, &gens);
    let verifier = CipherTextRefreshmentVerifier::new(elg_pub, ciphertext1, ciphertext2, &gens);
    let mut transcript = ProofTranscript::new(CIPHERTEXT_REFRESHMENT_FINAL_RESPONSE_LABEL);

    // Positive tests
    let mut transcript_rng = prover.create_transcript_rng(&mut rng, &transcript);
    let (prover, initial_message) = prover.generate_initial_message(&mut transcript_rng);
    initial_message.update_transcript(&mut transcript).unwrap();
    let challenge = transcript.scalar_challenge(CIPHERTEXT_REFRESHMENT_PROOF_CHALLENGE_LABEL);
    let final_response = prover.apply_challenge(&challenge);

    let result = verifier.verify(&challenge, &initial_message, &final_response);
    assert!(result.is_ok());

    // Negative tests
    let bad_initial_message = CipherTextRefreshmentInitialMessage::default();
    let result = verifier.verify(&challenge, &bad_initial_message, &final_response);
    assert_eq!(
        result,
        Err(ProofError::CiphertextRefreshmentFinalResponseVerificationError { check: 1 })
    );

    let bad_final_response = CipherTextRefreshmentFinalResponse(Scalar::zero());
    assert_eq!(
        verifier.verify(&challenge, &initial_message, &bad_final_response),
        Err(ProofError::CiphertextRefreshmentFinalResponseVerificationError { check: 1 })
    );
}

#[test]
fn verify_ciphertext_refreshment_method() {
    let mut rng = StdRng::from_seed(SEED_2);
    let rand_blind = random_scalar(&mut rng);
    let w = CommitmentWitness::new(Scalar::from_u64(3), rand_blind);
    let gens = PedersenGens::default();
    let elg_secret = ElgamalSecretKey::new(random_scalar(&mut rng));
    let elg_pub = elg_secret.get_public_key(&gens);
    let cipher = elg_pub.encrypt(&gens, &w);

    let new_rand_blind = random_scalar(&mut rng);
    let new_cipher = cipher.refresh(&elg_secret, &gens, new_rand_blind).unwrap();

    let prover =
        CipherTextRefreshmentProverAwaitingChallenge::new(elg_secret, cipher, new_cipher, &gens);
    let verifier = CipherTextRefreshmentVerifier::new(elg_pub, cipher, new_cipher, &gens);

    let (initial_message, final_response) = single_property_prover(prover, &mut rng).unwrap();

    assert!(single_property_verifier(&verifier, initial_message, final_response).is_ok());
}

#[test]
fn serialize_deserialize_proof() {
    let mut rng = StdRng::from_seed(SEED_1);
    let secret_value = Scalar::from_u64(13);
    let gens = PedersenGens::default();
    let elg_secret = ElgamalSecretKey::new(random_scalar(&mut rng));
    let elg_pub = elg_secret.get_public_key(&gens);
    let ciphertext1 = encrypt_value(&elg_pub, &gens, secret_value, &mut rng);
    let ciphertext2 = encrypt_value(&elg_pub, &gens, secret_value, &mut rng);

    let prover =
        CipherTextRefreshmentProverAwaitingChallenge::new(elg_secret, ciphertext1, ciphertext2, &gens);
    let (initial_message0, final_response0) = single_property_prover(prover, &mut rng).unwrap();

    let initial_message_bytes = initial_message0.to_bytes();
    let final_response_bytes = final_response0.to_bytes();
    let recovered_initial_message =
        CipherTextRefreshmentInitialMessage::from_bytes(&initial_message_bytes).unwrap();
    let recovered_final_response =
        CipherTextRefreshmentFinalResponse::from_bytes(final_response_bytes).unwrap();
    assert!(recovered_initial_message == initial_message0);
    assert!(recovered_final_response == final_response0);
}

#[test]
fn refreshment_rejects_a_proof_for_another_plaintext() {
    let gens = PedersenGens::default();
    let mut rng = StdRng::from_seed([5u8; 32]);
    let elg_secret = ElgamalSecretKey::new(random_scalar(&mut rng));
    let elg_pub = elg_secret.get_public_key(&gens);
    let ciphertext1 = encrypt_value(&elg_pub, &gens, Scalar::from_u64(13), &mut rng);
    let ciphertext2 = encrypt_value(&elg_pub, &gens, Scalar::from_u64(14), &mut rng);
    let prover =
        CipherTextRefreshmentProverAwaitingChallenge::new(elg_secret, ciphertext1, ciphertext2, &gens);
    let verifier = CipherTextRefreshmentVerifier::new(elg_pub, ciphertext1, ciphertext2, &gens);
    let (m, z) = single_property_prover(prover, &mut rng).unwrap();
    assert_eq!(
        single_property_verifier(&verifier, m, z),
        Err(ProofError::CiphertextRefreshmentFinalResponseVerificationError { check: 1 })
    );
}

#[test]
fn refreshment_second_check_catches_a_tampered_b() {
    let gens = PedersenGens::default();
    let mut rng = StdRng::from_seed([6u8; 32]);
    let elg_secret = ElgamalSecretKey::new(random_scalar(&mut rng));
    let elg_pub = elg_secret.get_public_key(&gens);
    let ciphertext1 = encrypt_value(&elg_pub, &gens, Scalar::from_u64(13), &mut rng);
    let ciphertext2 = encrypt_value(&elg_pub, &gens, Scalar::from_u64(13), &mut rng);
    let prover =
        CipherTextRefreshmentProverAwaitingChallenge::new(elg_secret, ciphertext1, ciphertext2, &gens);
    let verifier = CipherTextRefreshmentVerifier::new(elg_pub, ciphertext1, ciphertext2, &gens);
    let mut transcript = ProofTranscript::new(CIPHERTEXT_REFRESHMENT_FINAL_RESPONSE_LABEL);
    let mut transcript_rng = prover.create_transcript_rng(&mut rng, &transcript);
    let (prover, m) = prover.generate_initial_message(&mut transcript_rng);
    m.update_transcript(&mut transcript).unwrap();
    let challenge = transcript.scalar_challenge(CIPHERTEXT_REFRESHMENT_PROOF_CHALLENGE_LABEL);
    let z = prover.apply_challenge(&challenge);
    let tampered = CipherTextRefreshmentInitialMessage {
        a: m.a,
        b: CipherTextRefreshmentInitialMessage::default().b,
    };
    assert_eq!(
        verifier.verify(&challenge, &tampered, &z),
        Err(ProofError::CiphertextRefreshmentFinalResponseVerificationError { check: 2 })
    );
}

#[test]
fn non_canonical_response_is_an_invalid_encoding() {
    let gens = PedersenGens::default();
    let mut rng = StdRng::from_seed([12u8; 32]);
    let elg_secret = ElgamalSecretKey::new(random_scalar(&mut rng));
    let elg_pub = elg_secret.get_public_key(&gens);
    let c1 = encrypt_value(&elg_pub, &gens, Scalar::from_u64(2), &mut rng);
    let c2 = encrypt_value(&elg_pub, &gens, Scalar::from_u64(2), &mut rng);
    let prover = CipherTextRefreshmentProverAwaitingChallenge::new(elg_secret, c1, c2, &gens);
    let verifier = CipherTextRefreshmentVerifier::new(elg_pub, c1, c2, &gens);
    let (m, _) = single_property_prover(prover, &mut rng).unwrap();
    let bad = CipherTextRefreshmentFinalResponse(Scalar { bytes: [0xffu8; 32] });
    assert_eq!(single_property_verifier(&verifier, m, bad), Err(ProofError::InvalidEncoding));
}

#[test]
fn decoded_proof_still_verifies() {
    let mut rng = StdRng::from_seed(SEED_1);
    let gens = PedersenGens::default();
    let elg_secret = ElgamalSecretKey::new(random_scalar(&mut rng));
    let elg_pub = elg_secret.get_public_key(&gens);
    let c1 = encrypt_value(&elg_pub, &gens, Scalar::from_u64(13), &mut rng);
    let c2 = c1.refresh(&elg_secret, &gens, random_scalar(&mut rng)).unwrap();
    let prover = CipherTextRefreshmentProverAwaitingChallenge::new(elg_secret, c1, c2, &gens);
    let verifier = CipherTextRefreshmentVerifier::new(elg_pub, c1, c2, &gens);
    let (m, z) = single_property_prover(prover, &mut rng).unwrap();
    let m2 = CipherTextRefreshmentInitialMessage::from_bytes(&m.to_bytes()).unwrap();
    let z2 = CipherTextRefreshmentFinalResponse::from_bytes(z.to_bytes()).unwrap();
    assert!(m2 == m && z2 == z);
    assert_eq!(single_property_verifier(&verifier, m2, z2), Ok(()));
}
