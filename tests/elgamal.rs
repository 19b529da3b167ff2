use mercat_proofs::elgamal::{CipherText, CommitmentWitness, ElgamalSecretKey};
use mercat_proofs::errors::ProofError;
use mercat_proofs::group::{PedersenGens, Point, Scalar};
use rand::rngs::StdRng;
use rand::{RngCore, SeedableRng};

fn fresh_scalar(rng: &mut StdRng) -> Scalar {
    let mut bytes = [0u8; 64];
    rng.fill_bytes(&mut bytes);
    Scalar::from_bytes_mod_order_wide(&bytes)
}

#[test]
fn decrypt_recovers_the_encrypted_value() {
    let gens = PedersenGens::default();
    let mut rng = StdRng::from_seed([1u8; 32]);
    let secret = ElgamalSecretKey::new(fresh_scalar(&mut rng));
    let public = secret.get_public_key(&gens);
    for v in [0u64, 1, 13, 255] {
        let ct = public.encrypt(&gens, &CommitmentWitness::new(Scalar::from_u64(v), fresh_scalar(&mut rng)));
        assert_eq!(secret.decrypt(&gens, &ct), Ok(v as u32));
    }
}

#[test]
fn refresh_keeps_the_plaintext_and_changes_the_ciphertext() {
    let gens = PedersenGens::default();
    let mut rng = StdRng::from_seed([2u8; 32]);
    let secret = ElgamalSecretKey::new(fresh_scalar(&mut rng));
    let public = secret.get_public_key(&gens);
    let ct = public.encrypt(&gens, &CommitmentWitness::new(Scalar::from_u64(42), fresh_scalar(&mut rng)));
    let refreshed = ct.refresh(&secret, &gens, fresh_scalar(&mut rng)).unwrap();
    assert_ne!(refreshed.to_bytes().to_vec(), ct.to_bytes().to_vec());
    assert_eq!(secret.decrypt(&gens, &refreshed), Ok(42));
}

#[test]
fn refresh_with_a_zero_blinding_keeps_the_ciphertext() {
    let gens = PedersenGens::default();
    let mut rng = StdRng::from_seed([2u8; 32]);
    let secret = ElgamalSecretKey::new(fresh_scalar(&mut rng));
    let public = secret.get_public_key(&gens);
    let ct = public.encrypt(&gens, &CommitmentWitness::new(Scalar::from_u64(5), fresh_scalar(&mut rng)));
    let same = ct.refresh(&secret, &gens, Scalar::zero()).unwrap();
    assert_eq!(same.to_bytes().to_vec(), ct.to_bytes().to_vec());
}

#[test]
fn sum_of_encryptions_decrypts_to_the_sum() {
    let gens = PedersenGens::default();
    let mut rng = StdRng::from_seed([3u8; 32]);
    let secret = ElgamalSecretKey::new(fresh_scalar(&mut rng));
    let public = secret.get_public_key(&gens);
    let a = public.encrypt(&gens, &CommitmentWitness::new(Scalar::from_u64(6), fresh_scalar(&mut rng)));
    let b = public.encrypt(&gens, &CommitmentWitness::new(Scalar::from_u64(7), fresh_scalar(&mut rng)));
    assert_eq!(secret.decrypt(&gens, &a.add(&b)), Ok(13));
    assert_eq!(secret.decrypt(&gens, &b.sub(&a)), Ok(1));
}

#[test]
fn encryption_with_zero_value_and_blinding_is_the_identity_pair() {
    let gens = PedersenGens::default();
    let secret = ElgamalSecretKey::new(Scalar::from_u64(9));
    let public = secret.get_public_key(&gens);
    let ct = public.encrypt(&gens, &CommitmentWitness::new(Scalar::zero(), Scalar::zero()));
    let identity = Point::identity().to_bytes();
    assert_eq!(ct.x.to_bytes(), identity);
    assert_eq!(ct.y.to_bytes(), identity);
    assert_eq!(identity, [0u8; 32]);
}

#[test]
fn public_key_is_secret_times_blinding_base() {
    let gens = PedersenGens::default();
    let secret = ElgamalSecretKey::new(Scalar::from_u64(2));
    let public = secret.get_public_key(&gens);
    let doubled = gens.b_blinding.add(&gens.b_blinding);
    assert_eq!(public.pub_key.to_bytes(), doubled.to_bytes());
    assert_ne!(gens.b_blinding.to_bytes(), gens.b.to_bytes());
}

#[test]
fn ciphertext_round_trips_through_bytes() {
    let gens = PedersenGens::default();
    let mut rng = StdRng::from_seed([4u8; 32]);
    let secret = ElgamalSecretKey::new(fresh_scalar(&mut rng));
    let public = secret.get_public_key(&gens);
    let ct = public.encrypt(&gens, &CommitmentWitness::new(Scalar::from_u64(77), fresh_scalar(&mut rng)));
    let bytes = ct.to_bytes();
    let back = CipherText::from_bytes(&bytes).unwrap();
    assert_eq!(back.to_bytes().to_vec(), bytes.to_vec());
    assert_eq!(secret.decrypt(&gens, &back), Ok(77));
}

#[test]
fn invalid_ciphertext_bytes_are_refused() {
    let bytes = [0xffu8; 64];
    assert!(matches!(CipherText::from_bytes(&bytes), Err(ProofError::InvalidEncoding)));
    assert!(matches!(Point::from_bytes([0xffu8; 32]), Err(ProofError::InvalidEncoding)));
}

#[test]
fn scalar_arithmetic_and_canonical_decoding() {
    let a = Scalar::from_u64(40);
    let b = Scalar::from_u64(2);
    assert_eq!(a.add(&b).to_bytes(), Scalar::from_u64(42).to_bytes());
    assert_eq!(a.mul(&b).to_bytes(), Scalar::from_u64(80).to_bytes());
    assert_eq!(a.sub(&b).to_bytes(), Scalar::from_u64(38).to_bytes());
    let minus_one = Scalar::zero().sub(&Scalar::one());
    assert_eq!(minus_one.add(&Scalar::one()).to_bytes(), [0u8; 32]);
    assert!(matches!(Scalar::from_bytes([0xffu8; 32]), Err(ProofError::InvalidEncoding)));
    assert!(Scalar::from_bytes(minus_one.to_bytes()).is_ok());
    let mut wide = [0u8; 64];
    wide[0] = 5;
    assert_eq!(Scalar::from_bytes_mod_order_wide(&wide).to_bytes(), Scalar::from_u64(5).to_bytes());
}
