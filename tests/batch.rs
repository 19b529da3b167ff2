use mercat_proofs::ciphertext_refreshment_proof::{
    CipherTextRefreshmentFinalResponse, CipherTextRefreshmentInitialMessage,
    CipherTextRefreshmentProverAwaitingChallenge, CipherTextRefreshmentVerifier,
};
use mercat_proofs::elgamal::{CommitmentWitness, ElgamalSecretKey};
use mercat_proofs::encryption_proofs::{
    prove_multiple_encryption_properties, single_property_prover, single_property_verifier,
    verify_multiple_encryption_properties, ENCRYPTION_PROOFS_CHALLENGE_LABEL,
    ENCRYPTION_PROOFS_LABEL,
};
use mercat_proofs::errors::ProofError;
use mercat_proofs::group::{PedersenGens, Scalar};
use mercat_proofs::transcript::{ProofTranscript, UpdateTranscript};
use rand::rngs::StdRng;
use rand::{RngCore, SeedableRng};

fn draw_scalar(rng: &mut StdRng) -> Scalar {
    let mut bytes = [0u8; 64];
    rng.fill_bytes(&mut bytes);
    Scalar::from_bytes_mod_order_wide(&bytes)
}

fn refreshment_pair(
    value: u64,
    gens: &PedersenGens,
    rng: &mut StdRng,
) -> (CipherTextRefreshmentProverAwaitingChallenge, CipherTextRefreshmentVerifier) {
    let secret = ElgamalSecretKey::new(draw_scalar(rng));
    let public = secret.get_public_key(gens);
    let c1 = public.encrypt(gens, &CommitmentWitness::new(Scalar::from_u64(value), draw_scalar(rng)));
    let c2 = c1.refresh(&secret, gens, draw_scalar(rng)).unwrap();
    (
        CipherTextRefreshmentProverAwaitingChallenge::new(secret, c1, c2, gens),
        CipherTextRefreshmentVerifier::new(public, c1, c2, gens),
    )
}

#[test]
fn batched_refreshment_proofs_verify() {
    let gens = PedersenGens::default();
    let mut rng = StdRng::from_seed([7u8; 32]);
    let (p1, v1) = refreshment_pair(6, &gens, &mut rng);
    let (p2, v2) = refreshment_pair(7, &gens, &mut rng);
    let (ms, zs) = prove_multiple_encryption_properties(&vec![p1, p2], &mut rng).unwrap();
    assert_eq!(ms.len(), 2);
    assert_eq!(zs.len(), 2);
    assert_eq!(verify_multiple_encryption_properties(&[&v1, &v2], (&ms, &zs)), Ok(()));
}

#[test]
fn test_single_proof() {
    let gens = PedersenGens::default();
    let mut rng = StdRng::from_seed([42u8; 32]);
    let (prover, verifier) = refreshment_pair(42, &gens, &mut rng);
    let (initial_message, final_response) = single_property_prover(prover, &mut rng).unwrap();

    // Positive test
    assert_eq!(single_property_verifier(&verifier, initial_message, final_response), Ok(()));

    // Negative tests
    let bad_initial_message = CipherTextRefreshmentInitialMessage::default();
    assert_eq!(
        single_property_verifier(&verifier, bad_initial_message, final_response),
        Err(ProofError::CiphertextRefreshmentFinalResponseVerificationError { check: 1 })
    );

    let bad_final_response = CipherTextRefreshmentFinalResponse(Scalar::one());
    assert_eq!(
        single_property_verifier(&verifier, initial_message, bad_final_response),
        Err(ProofError::CiphertextRefreshmentFinalResponseVerificationError { check: 1 })
    );
}

#[test]
fn multiple_proofs() {
    let gens = PedersenGens::default();
    let mut rng = StdRng::from_seed([7u8; 32]);
    let (p1, v1) = refreshment_pair(6, &gens, &mut rng);
    let (p2, v2) = refreshment_pair(7, &gens, &mut rng);
    let (ms, zs) = prove_multiple_encryption_properties(&vec![p1, p2], &mut rng).unwrap();
    assert_eq!(verify_multiple_encryption_properties(&[&v1, &v2], (&ms, &zs)), Ok(()));
    let mut bad_ms = ms.clone();
    bad_ms.remove(1);
    assert_eq!(
        verify_multiple_encryption_properties(&[&v1, &v2], (&bad_ms, &zs)),
        Err(ProofError::ShapeMismatch)
    );
    assert_eq!(
        verify_multiple_encryption_properties(&[&v1], (&ms, &zs)),
        Err(ProofError::ShapeMismatch)
    );
    bad_ms.push(CipherTextRefreshmentInitialMessage::default());
    assert_eq!(
        verify_multiple_encryption_properties(&[&v1, &v2], (&bad_ms, &zs)),
        Err(ProofError::CiphertextRefreshmentFinalResponseVerificationError { check: 1 })
    );
    let mut bad_zs = zs.clone();
    bad_zs.remove(1);
    bad_zs.push(CipherTextRefreshmentFinalResponse::default());
    assert_eq!(
        verify_multiple_encryption_properties(&[&v1, &v2], (&ms, &bad_zs)),
        Err(ProofError::CiphertextRefreshmentFinalResponseVerificationError { check: 1 })
    );
}

#[test]
fn empty_batch_is_accepted() {
    let mut rng = StdRng::from_seed([8u8; 32]);
    let provers: Vec<CipherTextRefreshmentProverAwaitingChallenge> = Vec::new();
    let (ms, zs) = prove_multiple_encryption_properties(&provers, &mut rng).unwrap();
    assert!(ms.is_empty());
    assert!(zs.is_empty());
    let verifiers: Vec<&CipherTextRefreshmentVerifier> = Vec::new();
    assert_eq!(verify_multiple_encryption_properties(&verifiers, (&ms, &zs)), Ok(()));
}

#[test]
fn swapping_provers_fails_under_the_original_order() {
    let gens = PedersenGens::default();
    let mut rng = StdRng::from_seed([9u8; 32]);
    let (p1, v1) = refreshment_pair(6, &gens, &mut rng);
    let (p2, v2) = refreshment_pair(7, &gens, &mut rng);
    let (ms, zs) = prove_multiple_encryption_properties(&vec![p2, p1], &mut rng).unwrap();
    let reordered_ms = vec![ms[1], ms[0]];
    let reordered_zs = vec![zs[1], zs[0]];
    assert!(verify_multiple_encryption_properties(&[&v1, &v2], (&reordered_ms, &reordered_zs)).is_err());
    assert_eq!(verify_multiple_encryption_properties(&[&v2, &v1], (&ms, &zs)), Ok(()));
}

#[test]
fn tampering_with_any_byte_of_a_proof_fails() {
    let gens = PedersenGens::default();
    let mut rng = StdRng::from_seed([10u8; 32]);
    let (p1, v1) = refreshment_pair(11, &gens, &mut rng);
    let (ms, zs) = prove_multiple_encryption_properties(&vec![p1], &mut rng).unwrap();
    let message_bytes = ms[0].to_bytes();
    for i in 0..64 {
        let mut tampered = message_bytes;
        tampered[i] ^= 1;
        match CipherTextRefreshmentInitialMessage::from_bytes(&tampered) {
            Err(e) => assert_eq!(e, ProofError::InvalidEncoding),
            Ok(m) => assert!(verify_multiple_encryption_properties(&[&v1], (&vec![m], &zs)).is_err()),
        }
    }
    let response_bytes = zs[0].to_bytes();
    for i in 0..32 {
        let mut tampered = response_bytes;
        tampered[i] ^= 1;
        match CipherTextRefreshmentFinalResponse::from_bytes(tampered) {
            Err(e) => assert_eq!(e, ProofError::InvalidEncoding),
            Ok(z) => assert!(verify_multiple_encryption_properties(&[&v1], (&ms, &vec![z])).is_err()),
        }
    }
}

#[test]
fn same_absorbs_give_the_same_challenge() {
    let gens = PedersenGens::default();
    let mut rng = StdRng::from_seed([11u8; 32]);
    let (p1, _) = refreshment_pair(1, &gens, &mut rng);
    let (ms, _) = prove_multiple_encryption_properties(&vec![p1], &mut rng).unwrap();
    let mut t1 = ProofTranscript::new(ENCRYPTION_PROOFS_LABEL);
    let mut t2 = ProofTranscript::new(ENCRYPTION_PROOFS_LABEL);
    ms[0].update_transcript(&mut t1).unwrap();
    ms[0].update_transcript(&mut t2).unwrap();
    let c1 = t1.scalar_challenge(ENCRYPTION_PROOFS_CHALLENGE_LABEL);
    let c2 = t2.scalar_challenge(ENCRYPTION_PROOFS_CHALLENGE_LABEL);
    assert_eq!(c1.x().to_bytes(), c2.x().to_bytes());
    let mut t3 = ProofTranscript::new(ENCRYPTION_PROOFS_LABEL);
    ms[0].update_transcript(&mut t3).unwrap();
    t3.append_scalar("extra", &Scalar::one());
    let c3 = t3.scalar_challenge(ENCRYPTION_PROOFS_CHALLENGE_LABEL);
    assert_ne!(c1.x().to_bytes(), c3.x().to_bytes());
}

#[test]
fn invalid_point_bytes_are_refused_before_the_challenge() {
    let mut t = ProofTranscript::new(ENCRYPTION_PROOFS_LABEL);
    let not_a_point = [0xffu8; 32];
    assert_eq!(t.append_validated_point("A", &not_a_point), Err(ProofError::InvalidEncoding));
    let mut bytes = [0u8; 64];
    bytes[32..].copy_from_slice(&not_a_point);
    assert!(matches!(
        CipherTextRefreshmentInitialMessage::from_bytes(&bytes),
        Err(ProofError::InvalidEncoding)
    ));
}
