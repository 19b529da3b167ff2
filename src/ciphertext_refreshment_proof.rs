//! The proof that two ciphertexts encrypt the same value under the same
//! public key, which shows that a ciphertext refreshment was done right.
//!
//! With `X = X₁ − X₂` and `Y = Y₁ − Y₂`, the prover shows that it knows `s`
//! with `P = s·H` and `X = s·Y`. It draws `u`, sends `a = u·Y` and `b = u·H`,
//! and answers the challenge `c` with `z = u + c·s`; the verifier checks
//! `z·Y = a + c·X` and then `z·H = b + c·P`.
use vstd::prelude::*;
use vstd::string::StringSliceAdditionalSpecFns;
use vstd::arithmetic::div_mod::{
    lemma_add_mod_noop, lemma_add_mod_noop_right, lemma_mul_mod_noop_left, lemma_mul_mod_noop_right,
};

use crate::elgamal::{CipherText, ElgamalPublicKey, ElgamalSecretKey};
use crate::errors::ProofError;
use crate::group::{
    base_mul_encoding, group_order, is_point_encoding, join_encodings, le_value, lemma_pair_round_trip,
    points_from_bytes, PedersenGens, Point, Scalar,
};
use crate::encryption_proofs::{AssetProofProver, AssetProofProverAwaitingChallenge, AssetProofVerifier};
use crate::transcript::{dom_sep_label, lemma_ascii_label_fits, Entry, ProofTranscript, UpdateTranscript, ZKPChallenge};

verus! {

/// The domain label for the ciphertext refreshment proof.
pub const CIPHERTEXT_REFRESHMENT_FINAL_RESPONSE_LABEL: &'static str =
    "PolymathCipherTextRefreshmentFinalResponse";

/// The domain label for the challenge.
pub const CIPHERTEXT_REFRESHMENT_PROOF_CHALLENGE_LABEL: &'static str =
    "PolymathCipherTextRefreshmentChallenge";

/// The label of the first commitment.
pub const LABEL_A: &'static str = "A";

/// The label of the second commitment.
pub const LABEL_B: &'static str = "B";

/// The label of the witness bytes that key the nonce generator.
pub const LABEL_WITNESS: &'static str = "s";

/// The prover's answer `z = u + c·s`.
#[derive(Clone, Copy, Debug)]
pub struct CipherTextRefreshmentFinalResponse(pub Scalar);

impl CipherTextRefreshmentFinalResponse {
    pub open spec fn wf(&self) -> bool {
        self.0.wf()
    }

    /// The 32 canonical bytes of `z`.
    pub fn to_bytes(&self) -> (r: [u8; 32])
        ensures
            r@ == self.0.bytes_spec(),
    {
        self.0.to_bytes()
    }

    /// Decodes `z`; non-canonical bytes are refused.
    pub fn from_bytes(b: [u8; 32]) -> (r: Result<CipherTextRefreshmentFinalResponse, ProofError>)
        ensures
            r is Ok <==> le_value(b@) < group_order(),
            r is Ok ==> r->Ok_0.wf() && r->Ok_0.0.bytes_spec() == b@,
            r is Err ==> r->Err_0 == ProofError::InvalidEncoding,
    {
        match Scalar::from_bytes(b) {
            Ok(z) => Ok(CipherTextRefreshmentFinalResponse(z)),
            Err(e) => Err(e),
        }
    }
}

impl Default for CipherTextRefreshmentFinalResponse {
    /// The response `0`.
    fn default() -> (r: CipherTextRefreshmentFinalResponse)
        ensures
            r.wf(),
            r.0@ == 0,
    {
        CipherTextRefreshmentFinalResponse(Scalar::zero())
    }
}

impl PartialEq for CipherTextRefreshmentFinalResponse {
    fn eq(&self, o: &CipherTextRefreshmentFinalResponse) -> (r: bool) {
        self.0.equals(&o.0)
    }
}

impl vstd::std_specs::cmp::PartialEqSpecImpl for CipherTextRefreshmentFinalResponse {
    open spec fn obeys_eq_spec() -> bool {
        true
    }

    open spec fn eq_spec(&self, o: &CipherTextRefreshmentFinalResponse) -> bool {
        self.0.bytes_spec() == o.0.bytes_spec()
    }
}

/// The prover's commitments `a = u·Y` and `b = u·H`.
#[derive(Clone, Copy)]
pub struct CipherTextRefreshmentInitialMessage {
    pub a: Point,
    pub b: Point,
}

impl CipherTextRefreshmentInitialMessage {
    pub open spec fn wf(&self) -> bool {
        self.a.wf() && self.b.wf()
    }

    /// What the message absorbs into a transcript.
    pub open spec fn entries(&self) -> Seq<Entry> {
        seq![
            (dom_sep_label(), CIPHERTEXT_REFRESHMENT_PROOF_CHALLENGE_LABEL.spec_bytes()),
            (LABEL_A@, self.a.bytes_spec()),
            (LABEL_B@, self.b.bytes_spec()),
        ]
    }

    /// The two 32-byte compressed commitments, `a` then `b`.
    pub fn to_bytes(&self) -> (r: [u8; 64])
        ensures
            r@ == self.a.bytes_spec() + self.b.bytes_spec(),
    {
        join_encodings(&self.a.to_bytes(), &self.b.to_bytes())
    }

    /// Decodes two compressed commitments; bytes that encode no point are
    /// refused.
    pub fn from_bytes(bytes: &[u8; 64]) -> (r: Result<CipherTextRefreshmentInitialMessage, ProofError>)
        ensures
            r is Ok <==> is_point_encoding(bytes@.subrange(0, 32)) && is_point_encoding(
                bytes@.subrange(32, 64),
            ),
            r is Ok ==> r->Ok_0.wf() && r->Ok_0.a.bytes_spec() == bytes@.subrange(0, 32)
                && r->Ok_0.b.bytes_spec() == bytes@.subrange(32, 64),
            r is Ok ==> forall|m: CipherTextRefreshmentInitialMessage|
                #[trigger] m.wf() && m.a.bytes_spec() + m.b.bytes_spec() == bytes@ ==> m.a@
                    == r->Ok_0.a@ && m.b@ == r->Ok_0.b@,
            r is Err ==> r->Err_0 == ProofError::InvalidEncoding,
    {
        match points_from_bytes(bytes) {
            Ok((a, b)) => {
                assert forall|m: CipherTextRefreshmentInitialMessage|
                    #[trigger] m.wf() && m.a.bytes_spec() + m.b.bytes_spec() == bytes@ implies m.a@
                    == a@ && m.b@ == b@ by {
                    lemma_pair_round_trip(m.a, m.b);
                    assert(m.a.wf() && m.b.wf());
                }
                Ok(CipherTextRefreshmentInitialMessage { a, b })
            },
            Err(e) => Err(e),
        }
    }
}

impl UpdateTranscript for CipherTextRefreshmentInitialMessage {
    open spec fn message_wf(&self) -> bool {
        self.wf()
    }

    open spec fn absorbs(&self) -> Seq<Entry> {
        self.entries()
    }

    /// Absorbs a domain separator and both commitments.
    fn update_transcript(&self, transcript: &mut ProofTranscript) -> (r: Result<(), ProofError>) {
        let ghost t0 = transcript.messages();
        proof {
            reveal_strlit("PolymathCipherTextRefreshmentChallenge");
            assert(vstd::string::is_ascii(CIPHERTEXT_REFRESHMENT_PROOF_CHALLENGE_LABEL));
            lemma_ascii_label_fits(CIPHERTEXT_REFRESHMENT_PROOF_CHALLENGE_LABEL);
        }
        transcript.append_domain_separator(CIPHERTEXT_REFRESHMENT_PROOF_CHALLENGE_LABEL);
        let a = self.a.to_bytes();
        let b = self.b.to_bytes();
        let ra = transcript.append_validated_point(LABEL_A, &a);
        let rb = transcript.append_validated_point(LABEL_B, &b);
        assert(ra is Ok);
        assert(rb is Ok);
        assert(transcript.messages() =~= t0 + self.entries());
        Ok(())
    }
}

impl Default for CipherTextRefreshmentInitialMessage {
    /// Both commitments set to the basepoint.
    fn default() -> (r: CipherTextRefreshmentInitialMessage)
        ensures
            r.wf(),
            r.a@ == 1,
            r.b@ == 1,
    {
        CipherTextRefreshmentInitialMessage { a: Point::basepoint(), b: Point::basepoint() }
    }
}

impl PartialEq for CipherTextRefreshmentInitialMessage {
    fn eq(&self, o: &CipherTextRefreshmentInitialMessage) -> (r: bool) {
        self.a.equals(&o.a) && self.b.equals(&o.b)
    }
}

impl vstd::std_specs::cmp::PartialEqSpecImpl for CipherTextRefreshmentInitialMessage {
    open spec fn obeys_eq_spec() -> bool {
        true
    }

    open spec fn eq_spec(&self, o: &CipherTextRefreshmentInitialMessage) -> bool {
        self.a.bytes_spec() == o.a.bytes_spec() && self.b.bytes_spec() == o.b.bytes_spec()
    }
}

/// The prover before the challenge: the secret key and `Y = Y₁ − Y₂`.
#[derive(Clone, Copy)]
pub struct CipherTextRefreshmentProverAwaitingChallenge {
    pub secret_key: ElgamalSecretKey,
    pub y: Point,
    pub pc_gens: PedersenGens,
}

impl CipherTextRefreshmentProverAwaitingChallenge {
    pub open spec fn wf(&self) -> bool {
        self.secret_key.wf() && self.y.wf() && self.pc_gens.wf()
    }

    pub fn new(
        secret_key: ElgamalSecretKey,
        ciphertext1: CipherText,
        ciphertext2: CipherText,
        gens: &PedersenGens,
    ) -> (r: CipherTextRefreshmentProverAwaitingChallenge)
        requires
            secret_key.wf(),
            ciphertext1.wf(),
            ciphertext2.wf(),
            gens.wf(),
        ensures
            r.wf(),
            r.secret_key == secret_key,
            r.y@ == (ciphertext1.y@ - ciphertext2.y@) % group_order(),
            r.pc_gens == *gens,
    {
        CipherTextRefreshmentProverAwaitingChallenge {
            secret_key,
            y: ciphertext1.y.sub(&ciphertext2.y),
            pc_gens: *gens,
        }
    }
}

impl AssetProofProverAwaitingChallenge for CipherTextRefreshmentProverAwaitingChallenge {
    type ZKInitialMessage = CipherTextRefreshmentInitialMessage;

    type ZKFinalResponse = CipherTextRefreshmentFinalResponse;

    type ZKProver = CipherTextRefreshmentProver;

    open spec fn awaiting_wf(&self) -> bool {
        self.wf()
    }

    /// The prover holds this key and a nonce `u` with `a = u·Y` and `b = u·H`.
    open spec fn commits(
        &self,
        prover: CipherTextRefreshmentProver,
        m: CipherTextRefreshmentInitialMessage,
    ) -> bool {
        &&& prover.wf()
        &&& prover.secret_key == self.secret_key
        &&& m.a@ == (prover.u@ * self.y@) % group_order()
        &&& m.b@ == (prover.u@ * self.pc_gens.h()) % group_order()
    }

    /// The secret key `s`, under its label.
    open spec fn witness_keying(&self) -> (Seq<char>, Seq<u8>) {
        (LABEL_WITNESS@, self.secret_key.secret.bytes_spec())
    }

    /// The nonce generator, keyed with the transcript so far, the bytes of
    /// the secret witness `s` and fresh entropy from `rng`; the copy of the
    /// witness made for it is erased afterwards.
    fn create_transcript_rng(
        &self,
        rng: &mut rand::rngs::StdRng,
        transcript: &ProofTranscript,
    ) -> (r: merlin::TranscriptRng) {
        let mut witness = self.secret_key.secret;
        let r = transcript.build_rng(LABEL_WITNESS, &witness.bytes, rng);
        witness.zeroize();
        r
    }

    /// Draws `u` and commits to it with `a = u·Y` and `b = u·H`.
    fn generate_initial_message(&self, rng: &mut merlin::TranscriptRng) -> (r: (
        CipherTextRefreshmentProver,
        CipherTextRefreshmentInitialMessage,
    )) {
        let u = Scalar::random(rng);
        let initial_message = CipherTextRefreshmentInitialMessage {
            a: self.y.mul(&u),
            b: self.pc_gens.b_blinding.mul(&u),
        };
        let prover = CipherTextRefreshmentProver { secret_key: self.secret_key, u };
        (prover, initial_message)
    }
}

/// The prover after its commitment: the secret key and the nonce `u`.
pub struct CipherTextRefreshmentProver {
    pub secret_key: ElgamalSecretKey,
    pub u: Scalar,
}

impl CipherTextRefreshmentProver {
    pub open spec fn wf(&self) -> bool {
        self.secret_key.wf() && self.u.wf()
    }

    /// Overwrites the secret key and the nonce with zero.
    pub fn zeroize(&mut self)
        ensures
            final(self).secret_key.secret@ == 0,
            final(self).u@ == 0,
        opens_invariants none
        no_unwind
    {
        self.secret_key.zeroize();
        self.u.zeroize();
    }
}

impl Drop for CipherTextRefreshmentProver {
    /// The secret key and the nonce are erased when the prover goes away.
    fn drop(&mut self)
        opens_invariants none
        no_unwind
    {
        self.zeroize();
    }
}

impl AssetProofProver<CipherTextRefreshmentFinalResponse> for CipherTextRefreshmentProver {
    open spec fn prover_wf(&self) -> bool {
        self.wf()
    }

    /// `z = u + c·s`, in canonical form.
    open spec fn answers(&self, c: int, z: CipherTextRefreshmentFinalResponse) -> bool {
        z.wf() && z.0@ == (self.u@ + c * self.secret_key.secret@) % group_order()
    }

    /// `z = u + c·s`.
    fn apply_challenge(&self, c: &ZKPChallenge) -> (r: CipherTextRefreshmentFinalResponse) {
        let cs = c.x().mul(&self.secret_key.secret);
        proof {
            lemma_add_mod_noop_right(self.u@, c.x@ * self.secret_key.secret@, group_order());
        }
        CipherTextRefreshmentFinalResponse(self.u.add(&cs))
    }
}

/// The verifier: the public key, `X = X₁ − X₂` and `Y = Y₁ − Y₂`.
#[derive(Clone, Copy)]
pub struct CipherTextRefreshmentVerifier {
    pub pub_key: ElgamalPublicKey,
    pub x: Point,
    pub y: Point,
    pub pc_gens: PedersenGens,
}

/// The statement `P = s·H` and `X = s·Y`, over logarithms.
pub open spec fn refreshment_statement(s: int, p: int, h: int, x: int, y: int) -> bool {
    p == (s * h) % group_order() && x == (s * y) % group_order()
}

impl CipherTextRefreshmentVerifier {
    pub open spec fn wf(&self) -> bool {
        self.pub_key.wf() && self.x.wf() && self.y.wf() && self.pc_gens.wf()
    }

    pub fn new(
        pub_key: ElgamalPublicKey,
        ciphertext1: CipherText,
        ciphertext2: CipherText,
        gens: &PedersenGens,
    ) -> (r: CipherTextRefreshmentVerifier)
        requires
            pub_key.wf(),
            ciphertext1.wf(),
            ciphertext2.wf(),
            gens.wf(),
        ensures
            r.wf(),
            r.pub_key == pub_key,
            r.x@ == (ciphertext1.x@ - ciphertext2.x@) % group_order(),
            r.y@ == (ciphertext1.y@ - ciphertext2.y@) % group_order(),
            r.pc_gens == *gens,
    {
        CipherTextRefreshmentVerifier {
            pub_key,
            x: ciphertext1.x.sub(&ciphertext2.x),
            y: ciphertext1.y.sub(&ciphertext2.y),
            pc_gens: *gens,
        }
    }

    /// The first equation, `z·Y = a + c·X`, over encodings.
    pub open spec fn check_one(&self, c: int, m: CipherTextRefreshmentInitialMessage, z: int) -> bool {
        base_mul_encoding((z * self.y@) % group_order()) == base_mul_encoding(
            (m.a@ + (c * self.x@) % group_order()) % group_order(),
        )
    }

    /// The second equation, `z·H = b + c·P`, over encodings.
    pub open spec fn check_two(&self, c: int, m: CipherTextRefreshmentInitialMessage, z: int) -> bool {
        base_mul_encoding((z * self.pc_gens.h()) % group_order()) == base_mul_encoding(
            (m.b@ + (c * self.pub_key.pub_key@) % group_order()) % group_order(),
        )
    }
}

impl AssetProofVerifier for CipherTextRefreshmentVerifier {
    type ZKInitialMessage = CipherTextRefreshmentInitialMessage;

    type ZKFinalResponse = CipherTextRefreshmentFinalResponse;

    open spec fn verifier_wf(&self) -> bool {
        self.wf()
    }

    /// A response that is not a canonical scalar is refused; otherwise the
    /// first equation that fails, if any, is reported.
    open spec fn verdict(
        &self,
        c: int,
        m: CipherTextRefreshmentInitialMessage,
        z: CipherTextRefreshmentFinalResponse,
    ) -> Result<(), ProofError> {
        if !z.wf() {
            Err(ProofError::InvalidEncoding)
        } else if !self.check_one(c, m, z.0@) {
            Err(ProofError::CiphertextRefreshmentFinalResponseVerificationError { check: 1 })
        } else if !self.check_two(c, m, z.0@) {
            Err(ProofError::CiphertextRefreshmentFinalResponseVerificationError { check: 2 })
        } else {
            Ok(())
        }
    }

    /// Checks `z·Y = a + c·X`, then `z·H = b + c·P`.
    fn verify(
        &self,
        challenge: &ZKPChallenge,
        initial_message: &CipherTextRefreshmentInitialMessage,
        final_response: &CipherTextRefreshmentFinalResponse,
    ) -> (r: Result<(), ProofError>) {
        let z = match Scalar::from_bytes(final_response.0.to_bytes()) {
            Ok(z) => z,
            Err(e) => {
                return Err(e);
            },
        };
        let c = challenge.x();
        let lhs1 = self.y.mul(&z);
        let rhs1 = initial_message.a.add(&self.x.mul(&c));
        if !lhs1.equals(&rhs1) {
            return Err(ProofError::CiphertextRefreshmentFinalResponseVerificationError { check: 1 });
        }
        let lhs2 = self.pc_gens.b_blinding.mul(&z);
        let rhs2 = initial_message.b.add(&self.pub_key.pub_key.mul(&c));
        if !lhs2.equals(&rhs2) {
            return Err(ProofError::CiphertextRefreshmentFinalResponseVerificationError { check: 2 });
        }
        Ok(())
    }
}

// ------------------------------------------------------------------------
// Laws
// ------------------------------------------------------------------------

/// An honest answer meets both equations: when the statement holds, `a = u·Y`,
/// `b = u·H` and `z = u + c·s`, verification succeeds for every challenge.
pub proof fn lemma_refreshment_completeness(
    verifier: CipherTextRefreshmentVerifier,
    s: int,
    u: int,
    c: int,
    m: CipherTextRefreshmentInitialMessage,
    z: CipherTextRefreshmentFinalResponse,
)
    requires
        verifier.wf(),
        0 <= s < group_order(),
        0 <= u < group_order(),
        0 <= c < group_order(),
        refreshment_statement(
            s,
            verifier.pub_key.pub_key@,
            verifier.pc_gens.h(),
            verifier.x@,
            verifier.y@,
        ),
        m.a@ == (u * verifier.y@) % group_order(),
        m.b@ == (u * verifier.pc_gens.h()) % group_order(),
        z.wf(),
        z.0@ == (u + c * s) % group_order(),
    ensures
        verifier.verdict(c, m, z) is Ok,
{
    lemma_response_equation(s, u, c, verifier.y@);
    lemma_response_equation(s, u, c, verifier.pc_gens.h());
}

/// `(u + c·s)·w = u·w + c·(s·w)`, modulo the group order.
proof fn lemma_response_equation(s: int, u: int, c: int, w: int)
    ensures
        (((u + c * s) % group_order()) * w) % group_order() == ((u * w) % group_order() + (c * ((s
            * w) % group_order())) % group_order()) % group_order(),
{
    let l = group_order();
    lemma_mul_mod_noop_left(u + c * s, w, l);
    lemma_mul_mod_noop_right(c, s * w, l);
    lemma_add_mod_noop(u * w, c * (s * w), l);
    assert((u + c * s) * w == u * w + c * (s * w)) by (nonlinear_arith);
}

/// Encoding and then decoding an initial message gives the same commitments.
pub proof fn lemma_initial_message_round_trip(m: CipherTextRefreshmentInitialMessage)
    requires
        m.wf(),
    ensures
        ({
            let bytes = m.a.bytes_spec() + m.b.bytes_spec();
            &&& is_point_encoding(bytes.subrange(0, 32))
            &&& is_point_encoding(bytes.subrange(32, 64))
            &&& bytes.subrange(0, 32) == m.a.bytes_spec()
            &&& bytes.subrange(32, 64) == m.b.bytes_spec()
        }),
{
    lemma_pair_round_trip(m.a, m.b);
}

/// Encoding and then decoding a final response gives the same scalar.
pub proof fn lemma_final_response_round_trip(z: CipherTextRefreshmentFinalResponse)
    requires
        z.wf(),
    ensures
        le_value(z.0.bytes_spec()) < group_order(),
{
}

} // verus!
