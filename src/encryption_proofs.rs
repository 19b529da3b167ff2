//! Non-interactive Sigma protocols: the prover and verifier roles, and the
//! Fiat–Shamir driver for one statement and for a batch of statements that
//! share a single challenge.
//!
//! A single transcript absorbs every initial message, in the order given,
//! before one challenge is squeezed and answered by every prover. A batch is
//! homogeneous: every statement is of the same kind.
use vstd::prelude::*;
use vstd::string::StringSliceAdditionalSpecFns;
use vstd::arithmetic::div_mod::{lemma_mul_mod_noop_right, lemma_sub_mod_noop_right};

use crate::ciphertext_refreshment_proof::{
    lemma_refreshment_completeness, refreshment_statement, CipherTextRefreshmentFinalResponse,
    CipherTextRefreshmentInitialMessage, CipherTextRefreshmentProver,
    CipherTextRefreshmentProverAwaitingChallenge, CipherTextRefreshmentVerifier,
};
use crate::elgamal::{CipherText, ElgamalSecretKey};
use crate::errors::ProofError;
use crate::group::{group_order, PedersenGens, Scalar};
use crate::transcript::{
    challenge_scalar_of, dom_sep_label, lemma_ascii_label_fits, rng_keying, Entry, ProofTranscript, UpdateTranscript, ZKPChallenge,
};

verus! {

/// The domain label for the encryption proofs.
pub const ENCRYPTION_PROOFS_LABEL: &'static str = "PolymathEncryptionProofs";

/// The domain label for the challenge.
pub const ENCRYPTION_PROOFS_CHALLENGE_LABEL: &'static str = "PolymathEncryptionProofsChallenge";

// ------------------------------------------------------------------------
// Sigma Protocol's Prover and Verifier Interfaces
// ------------------------------------------------------------------------

/// The first round of a Sigma protocol: a prover that holds a statement and
/// its witness, and commits to fresh nonces.
pub trait AssetProofProverAwaitingChallenge: Sized {
    type ZKInitialMessage: UpdateTranscript;

    type ZKFinalResponse;

    type ZKProver: AssetProofProver<Self::ZKFinalResponse>;

    spec fn awaiting_wf(&self) -> bool;

    /// `prover` holds this witness and the nonces that `m` commits to.
    spec fn commits(&self, prover: Self::ZKProver, m: Self::ZKInitialMessage) -> bool;

    /// The label and the bytes of the secret witness that key the nonces.
    spec fn witness_keying(&self) -> (Seq<char>, Seq<u8>);

    /// A nonce generator keyed with the transcript so far, the witness and
    /// fresh entropy from `rng`.
    fn create_transcript_rng(
        &self,
        rng: &mut rand::rngs::StdRng,
        transcript: &ProofTranscript,
    ) -> (r: merlin::TranscriptRng)
        requires
            self.awaiting_wf(),
        ensures
            rng_keying(r) == (
                transcript.messages(),
                self.witness_keying().0,
                self.witness_keying().1,
            ),
    ;

    /// Draws the nonces and commits to them.
    fn generate_initial_message(&self, rng: &mut merlin::TranscriptRng) -> (r: (
        Self::ZKProver,
        Self::ZKInitialMessage,
    ))
        requires
            self.awaiting_wf(),
        ensures
            r.0.prover_wf(),
            r.1.message_wf(),
            self.commits(r.0, r.1),
    ;
}

/// The third round of a Sigma protocol: the prover answers the challenge.
pub trait AssetProofProver<ZKFinalResponse>: Sized {
    spec fn prover_wf(&self) -> bool;

    /// `z` is this prover's answer to the challenge `c`.
    spec fn answers(&self, c: int, z: ZKFinalResponse) -> bool;

    fn apply_challenge(&self, challenge: &ZKPChallenge) -> (r: ZKFinalResponse)
        requires
            self.prover_wf(),
            challenge.wf(),
        ensures
            self.answers(challenge.x@, r),
    ;
}

/// The last round of a Sigma protocol: the verifier checks the answer.
pub trait AssetProofVerifier: Sized {
    type ZKInitialMessage: UpdateTranscript;

    type ZKFinalResponse;

    spec fn verifier_wf(&self) -> bool;

    /// The outcome of checking `m` and `z` under the challenge `c`.
    spec fn verdict(&self, c: int, m: Self::ZKInitialMessage, z: Self::ZKFinalResponse) -> Result<
        (),
        ProofError,
    >;

    fn verify(
        &self,
        challenge: &ZKPChallenge,
        initial_message: &Self::ZKInitialMessage,
        final_response: &Self::ZKFinalResponse,
    ) -> (r: Result<(), ProofError>)
        requires
            self.verifier_wf(),
            challenge.wf(),
            initial_message.message_wf(),
        ensures
            r == self.verdict(challenge.x@, *initial_message, *final_response),
    ;
}

// ------------------------------------------------------------------------
// What a batch absorbs and decides
// ------------------------------------------------------------------------

/// The batch label is short enough for Merlin to absorb.
proof fn lemma_batch_label_fits()
    ensures
        ENCRYPTION_PROOFS_LABEL.spec_bytes().len() <= u32::MAX,
{
    reveal_strlit("PolymathEncryptionProofs");
    assert(vstd::string::is_ascii(ENCRYPTION_PROOFS_LABEL));
    lemma_ascii_label_fits(ENCRYPTION_PROOFS_LABEL);
}

/// What the initial messages absorb, one after the other.
pub open spec fn absorbed<M: UpdateTranscript>(ms: Seq<M>) -> Seq<Entry>
    decreases ms.len(),
{
    if ms.len() == 0 {
        Seq::empty()
    } else {
        absorbed(ms.drop_last()) + ms.last().absorbs()
    }
}

/// The transcript of a batch once it absorbed the initial messages.
pub open spec fn batch_transcript<M: UpdateTranscript>(ms: Seq<M>) -> Seq<Entry> {
    seq![(dom_sep_label(), ENCRYPTION_PROOFS_LABEL.spec_bytes())] + absorbed(ms)
}

/// The challenge that a batch with these initial messages shares.
pub open spec fn batch_challenge<M: UpdateTranscript>(ms: Seq<M>) -> int {
    challenge_scalar_of(batch_transcript(ms), ENCRYPTION_PROOFS_CHALLENGE_LABEL@)
}

/// The first failing verification among the first `n` statements, if any.
pub open spec fn first_failure<V: AssetProofVerifier>(
    vs: Seq<&V>,
    c: int,
    ms: Seq<V::ZKInitialMessage>,
    zs: Seq<V::ZKFinalResponse>,
    n: int,
) -> Result<(), ProofError>
    decreases n,
{
    if n <= 0 {
        Ok(())
    } else {
        match first_failure(vs, c, ms, zs, n - 1) {
            Ok(()) => vs[n - 1].verdict(c, ms[n - 1], zs[n - 1]),
            Err(e) => Err(e),
        }
    }
}

/// Once a statement fails, the batch's outcome is that failure.
proof fn lemma_first_failure_sticks<V: AssetProofVerifier>(
    vs: Seq<&V>,
    c: int,
    ms: Seq<V::ZKInitialMessage>,
    zs: Seq<V::ZKFinalResponse>,
    k: int,
    n: int,
)
    requires
        0 <= k <= n,
        first_failure(vs, c, ms, zs, k) is Err,
    ensures
        first_failure(vs, c, ms, zs, n) == first_failure(vs, c, ms, zs, k),
    decreases n - k,
{
    if k < n {
        lemma_first_failure_sticks(vs, c, ms, zs, k, n - 1);
    }
}

/// The outcome of verifying a batch: a shape mismatch when the counts differ,
/// else the first statement whose verification fails under the shared
/// challenge, else success.
pub open spec fn batch_verdict<V: AssetProofVerifier>(
    vs: Seq<&V>,
    ms: Seq<V::ZKInitialMessage>,
    zs: Seq<V::ZKFinalResponse>,
) -> Result<(), ProofError> {
    if ms.len() != zs.len() || vs.len() != zs.len() {
        Err(ProofError::ShapeMismatch)
    } else {
        first_failure(vs, batch_challenge(ms), ms, zs, vs.len() as int)
    }
}

/// A proof answers its prover's statement honestly under the challenge `c`:
/// some prover holding the witness committed to `m` and answered `z`.
pub open spec fn honest_answer<P: AssetProofProverAwaitingChallenge>(
    p: P,
    c: int,
    m: P::ZKInitialMessage,
    z: P::ZKFinalResponse,
) -> bool {
    m.message_wf() && exists|q: P::ZKProver| #[trigger] p.commits(q, m) && q.answers(c, z)
}

// ------------------------------------------------------------------------
// Non-Interactive Zero Knowledge Proofs API
// ------------------------------------------------------------------------

/// Absorbs the initial messages into the transcript, in order.
fn absorb_all<M: UpdateTranscript>(transcript: &mut ProofTranscript, ms: &[M]) -> (r: Result<
    (),
    ProofError,
>)
    requires
        forall|i: int| 0 <= i < ms@.len() ==> (#[trigger] ms@[i]).message_wf(),
    ensures
        r is Ok,
        final(transcript).messages() == old(transcript).messages() + absorbed(ms@),
{
    let ghost t0 = transcript.messages();
    let mut i: usize = 0;
    while i < ms.len()
        invariant
            0 <= i <= ms@.len(),
            forall|k: int| 0 <= k < ms@.len() ==> (#[trigger] ms@[k]).message_wf(),
            transcript.messages() == t0 + absorbed(ms@.subrange(0, i as int)),
        decreases ms@.len() - i,
    {
        let r = ms[i].update_transcript(transcript);
        assert(ms@.subrange(0, i + 1).drop_last() =~= ms@.subrange(0, i as int));
        assert(transcript.messages() =~= t0 + absorbed(ms@.subrange(0, i + 1)));
        match r {
            Ok(()) => {},
            Err(e) => {
                return Err(e);
            },
        }
        i = i + 1;
    }
    assert(ms@.subrange(0, ms@.len() as int) =~= ms@);
    Ok(())
}

/// Proves every statement of the batch under one challenge, drawn from a
/// transcript that absorbed all the initial messages in the order of the
/// provers.
pub fn prove_multiple_encryption_properties<P: AssetProofProverAwaitingChallenge>(
    provers: &[P],
    rng: &mut rand::rngs::StdRng,
) -> (r: Result<(Vec<P::ZKInitialMessage>, Vec<P::ZKFinalResponse>), ProofError>)
    requires
        forall|i: int| 0 <= i < provers@.len() ==> (#[trigger] provers@[i]).awaiting_wf(),
    ensures
        r is Ok,
        r is Ok ==> ({
            let (ms, zs) = r->Ok_0;
            &&& ms@.len() == provers@.len()
            &&& zs@.len() == provers@.len()
            &&& forall|i: int|
                0 <= i < provers@.len() ==> honest_answer(
                    #[trigger] provers@[i],
                    batch_challenge(ms@),
                    ms@[i],
                    zs@[i],
                )
        }),
{
    proof {
        lemma_batch_label_fits();
    }
    let mut transcript = ProofTranscript::new(ENCRYPTION_PROOFS_LABEL);
    let mut waiting: Vec<P::ZKProver> = Vec::new();
    let mut ms: Vec<P::ZKInitialMessage> = Vec::new();
    let mut i: usize = 0;
    while i < provers.len()
        invariant
            0 <= i <= provers@.len(),
            forall|k: int| 0 <= k < provers@.len() ==> (#[trigger] provers@[k]).awaiting_wf(),
            waiting@.len() == i,
            ms@.len() == i,
            transcript.messages() == seq![(dom_sep_label(), ENCRYPTION_PROOFS_LABEL.spec_bytes())],
            forall|k: int|
                0 <= k < i ==> {
                    &&& (#[trigger] waiting@[k]).prover_wf()
                    &&& ms@[k].message_wf()
                    &&& provers@[k].commits(waiting@[k], ms@[k])
                },
        decreases provers@.len() - i,
    {
        let mut nonce_rng = provers[i].create_transcript_rng(rng, &transcript);
        let (p, m) = provers[i].generate_initial_message(&mut nonce_rng);
        waiting.push(p);
        ms.push(m);
        i = i + 1;
    }
    assert forall|k: int| 0 <= k < ms@.len() implies (#[trigger] ms@[k]).message_wf() by {
        assert(waiting@[k].prover_wf());
    }
    let absorbed_ok = absorb_all(&mut transcript, ms.as_slice());
    match absorbed_ok {
        Ok(()) => {},
        Err(e) => {
            return Err(e);
        },
    }
    let challenge = transcript.scalar_challenge(ENCRYPTION_PROOFS_CHALLENGE_LABEL);
    let mut zs: Vec<P::ZKFinalResponse> = Vec::new();
    let mut j: usize = 0;
    while j < waiting.len()
        invariant
            0 <= j <= waiting@.len(),
            waiting@.len() == provers@.len(),
            ms@.len() == provers@.len(),
            zs@.len() == j,
            challenge.wf(),
            challenge.x@ == batch_challenge(ms@),
            forall|k: int|
                0 <= k < provers@.len() ==> {
                    &&& (#[trigger] waiting@[k]).prover_wf()
                    &&& ms@[k].message_wf()
                    &&& provers@[k].commits(waiting@[k], ms@[k])
                },
            forall|k: int| 0 <= k < j ==> (#[trigger] waiting@[k]).answers(challenge.x@, zs@[k]),
        decreases waiting@.len() - j,
    {
        let z = waiting[j].apply_challenge(&challenge);
        zs.push(z);
        j = j + 1;
    }
    assert forall|k: int| 0 <= k < provers@.len() implies honest_answer(
        #[trigger] provers@[k],
        batch_challenge(ms@),
        ms@[k],
        zs@[k],
    ) by {
        assert(provers@[k].commits(waiting@[k], ms@[k]));
        assert(waiting@[k].answers(batch_challenge(ms@), zs@[k]));
    }
    Ok((ms, zs))
}

/// Verifies every statement of the batch under the challenge that the
/// initial messages, absorbed in order, give.
pub fn verify_multiple_encryption_properties<V: AssetProofVerifier>(
    verifiers: &[&V],
    proofs: (&[V::ZKInitialMessage], &[V::ZKFinalResponse]),
) -> (r: Result<(), ProofError>)
    requires
        forall|i: int| 0 <= i < verifiers@.len() ==> (#[trigger] verifiers@[i]).verifier_wf(),
        forall|i: int| 0 <= i < proofs.0@.len() ==> (#[trigger] proofs.0@[i]).message_wf(),
    ensures
        r == batch_verdict(verifiers@, proofs.0@, proofs.1@),
{
    let (initial_messages, final_responses) = proofs;
    if initial_messages.len() != final_responses.len() || verifiers.len()
        != final_responses.len() {
        return Err(ProofError::ShapeMismatch);
    }
    proof {
        lemma_batch_label_fits();
    }
    let mut transcript = ProofTranscript::new(ENCRYPTION_PROOFS_LABEL);
    let absorbed_ok = absorb_all(&mut transcript, initial_messages);
    match absorbed_ok {
        Ok(()) => {},
        Err(e) => {
            return Err(e);
        },
    }
    let challenge = transcript.scalar_challenge(ENCRYPTION_PROOFS_CHALLENGE_LABEL);
    let ghost c = challenge.x@;
    let n = verifiers.len();
    assert(n == verifiers@.len());
    let mut i: usize = 0;
    while i < n
        invariant
            0 <= i <= verifiers@.len(),
            n == verifiers@.len(),
            initial_messages@ == proofs.0@,
            final_responses@ == proofs.1@,
            verifiers@.len() == initial_messages@.len(),
            verifiers@.len() == final_responses@.len(),
            forall|k: int| 0 <= k < verifiers@.len() ==> (#[trigger] verifiers@[k]).verifier_wf(),
            forall|k: int|
                0 <= k < initial_messages@.len() ==> (#[trigger] initial_messages@[k]).message_wf(),
            challenge.wf(),
            challenge.x@ == c,
            c == batch_challenge(initial_messages@),
            first_failure(verifiers@, c, initial_messages@, final_responses@, i as int) is Ok,
        decreases verifiers@.len() - i,
    {
        let r = verifiers[i].verify(&challenge, &initial_messages[i], &final_responses[i]);
        match r {
            Ok(()) => {},
            Err(e) => {
                proof {
                    lemma_first_failure_sticks(
                        verifiers@,
                        c,
                        initial_messages@,
                        final_responses@,
                        i + 1,
                        verifiers@.len() as int,
                    );
                }
                return Err(e);
            },
        }
        i = i + 1;
    }
    let ghost v = first_failure(verifiers@, c, initial_messages@, final_responses@, n as int);
    assert(v->Ok_0 == ());
    assert(v == Ok::<(), ProofError>(()));
    Ok(())
}

/// Proves one statement.
pub fn single_property_prover<P: AssetProofProverAwaitingChallenge>(
    prover_ac: P,
    rng: &mut rand::rngs::StdRng,
) -> (r: Result<(P::ZKInitialMessage, P::ZKFinalResponse), ProofError>)
    requires
        prover_ac.awaiting_wf(),
    ensures
        r is Ok,
        r is Ok ==> honest_answer(prover_ac, batch_challenge(seq![r->Ok_0.0]), r->Ok_0.0, r->Ok_0.1),
{
    let provers = vec![prover_ac];
    match prove_multiple_encryption_properties(provers.as_slice(), rng) {
        Ok((mut ms, mut zs)) => {
            assert(provers@[0] == prover_ac);
            let ghost ms0 = ms@;
            assert(ms0 =~= seq![ms0[0]]);
            assert(honest_answer(provers@[0], batch_challenge(ms0), ms0[0], zs@[0]));
            let m = ms.remove(0);
            let z = zs.remove(0);
            Ok((m, z))
        },
        Err(e) => Err(e),
    }
}

/// Verifies one statement.
pub fn single_property_verifier<V: AssetProofVerifier>(
    verifier: &V,
    initial_message: V::ZKInitialMessage,
    final_response: V::ZKFinalResponse,
) -> (r: Result<(), ProofError>)
    requires
        verifier.verifier_wf(),
        initial_message.message_wf(),
    ensures
        r == verifier.verdict(batch_challenge(seq![initial_message]), initial_message, final_response),
{
    let verifiers = vec![verifier];
    let ms = vec![initial_message];
    let zs = vec![final_response];
    let r = verify_multiple_encryption_properties(verifiers.as_slice(), (ms.as_slice(), zs.as_slice()));
    assert(ms@ =~= seq![initial_message]);
    assert(first_failure(verifiers@, batch_challenge(ms@), ms@, zs@, 0) is Ok);
    r
}

// ------------------------------------------------------------------------
// Laws of the ciphertext-refreshment batches
// ------------------------------------------------------------------------

/// The order of a batch is bound into its transcript: two initial messages
/// with different commitments, absorbed in the other order, leave a
/// different transcript, from which the challenge is squeezed.
pub proof fn lemma_batch_order_changes_transcript(
    m1: CipherTextRefreshmentInitialMessage,
    m2: CipherTextRefreshmentInitialMessage,
)
    requires
        m1.a.bytes_spec() != m2.a.bytes_spec() || m1.b.bytes_spec() != m2.b.bytes_spec(),
    ensures
        batch_transcript(seq![m1, m2]) != batch_transcript(seq![m2, m1]),
{
    let t12 = batch_transcript(seq![m1, m2]);
    let t21 = batch_transcript(seq![m2, m1]);
    assert(seq![m1, m2].drop_last() =~= seq![m1]);
    assert(seq![m2, m1].drop_last() =~= seq![m2]);
    assert(seq![m1].drop_last() =~= Seq::<CipherTextRefreshmentInitialMessage>::empty());
    assert(seq![m2].drop_last() =~= Seq::<CipherTextRefreshmentInitialMessage>::empty());
    let empty = Seq::<CipherTextRefreshmentInitialMessage>::empty();
    assert(absorbed(empty) =~= Seq::<Entry>::empty());
    assert(seq![m1].last() == m1 && seq![m2].last() == m2);
    assert(seq![m1, m2].last() == m2 && seq![m2, m1].last() == m1);
    assert(m1.absorbs() == m1.entries() && m2.absorbs() == m2.entries());
    assert(absorbed(seq![m1]) =~= m1.entries());
    assert(absorbed(seq![m2]) =~= m2.entries());
    assert(absorbed(seq![m1, m2]) =~= m1.entries() + m2.entries());
    assert(absorbed(seq![m2, m1]) =~= m2.entries() + m1.entries());
    if m1.a.bytes_spec() != m2.a.bytes_spec() {
        assert(t12[2] != t21[2]);
    } else {
        assert(t12[3] != t21[3]);
    }
}

/// A proof read back from its encoding verifies as the original does: when
/// `m2` and `z2` were decoded from the bytes of `m` and `z` (so they carry the
/// same points and scalar), the single-proof challenge and the verdict under
/// it are the same.
pub proof fn lemma_decoded_proof_verifies_alike(
    verifier: CipherTextRefreshmentVerifier,
    m: CipherTextRefreshmentInitialMessage,
    z: CipherTextRefreshmentFinalResponse,
    m2: CipherTextRefreshmentInitialMessage,
    z2: CipherTextRefreshmentFinalResponse,
)
    requires
        m.wf(),
        m2.wf(),
        m2.a.bytes_spec() == m.a.bytes_spec(),
        m2.b.bytes_spec() == m.b.bytes_spec(),
        m2.a@ == m.a@,
        m2.b@ == m.b@,
        z2.0.bytes_spec() == z.0.bytes_spec(),
    ensures
        batch_challenge(seq![m2]) == batch_challenge(seq![m]),
        verifier.verdict(batch_challenge(seq![m2]), m2, z2) == verifier.verdict(
            batch_challenge(seq![m]),
            m,
            z,
        ),
{
    let empty = Seq::<CipherTextRefreshmentInitialMessage>::empty();
    assert(seq![m].drop_last() =~= empty);
    assert(seq![m2].drop_last() =~= empty);
    assert(seq![m].last() == m && seq![m2].last() == m2);
    assert(m.absorbs() =~= m2.absorbs());
    assert(absorbed(seq![m]) =~= absorbed(seq![m2]));
}

/// A refreshment batch reports a shape mismatch exactly when its counts
/// differ: no single verification reports one.
pub proof fn lemma_shape_mismatch_only_for_counts(
    vs: Seq<&CipherTextRefreshmentVerifier>,
    ms: Seq<CipherTextRefreshmentInitialMessage>,
    zs: Seq<CipherTextRefreshmentFinalResponse>,
)
    ensures
        (batch_verdict(vs, ms, zs) == Err::<(), ProofError>(ProofError::ShapeMismatch)) <==> (ms.len()
            != zs.len() || vs.len() != zs.len()),
{
    if ms.len() == zs.len() && vs.len() == zs.len() {
        lemma_no_shape_mismatch_in_prefix(vs, batch_challenge(ms), ms, zs, vs.len() as int);
    }
}

proof fn lemma_no_shape_mismatch_in_prefix(
    vs: Seq<&CipherTextRefreshmentVerifier>,
    c: int,
    ms: Seq<CipherTextRefreshmentInitialMessage>,
    zs: Seq<CipherTextRefreshmentFinalResponse>,
    n: int,
)
    ensures
        first_failure(vs, c, ms, zs, n) != Err::<(), ProofError>(ProofError::ShapeMismatch),
    decreases n,
{
    if n > 0 {
        lemma_no_shape_mismatch_in_prefix(vs, c, ms, zs, n - 1);
    }
}

/// The prover and the verifier speak of the same statement, and it holds:
/// the same `Y` and generators, `P = s·H` and `X = s·Y`.
pub open spec fn matching_statement(
    p: CipherTextRefreshmentProverAwaitingChallenge,
    v: CipherTextRefreshmentVerifier,
) -> bool {
    &&& p.y == v.y
    &&& p.pc_gens == v.pc_gens
    &&& refreshment_statement(
        p.secret_key.secret@,
        v.pub_key.pub_key@,
        v.pc_gens.h(),
        v.x@,
        v.y@,
    )
}

/// Completeness of the batch: when each prover's statement holds and is the
/// one its verifier checks, honestly generated proofs under the shared
/// challenge verify.
pub proof fn lemma_batch_completeness(
    provers: Seq<CipherTextRefreshmentProverAwaitingChallenge>,
    verifiers: Seq<&CipherTextRefreshmentVerifier>,
    ms: Seq<CipherTextRefreshmentInitialMessage>,
    zs: Seq<CipherTextRefreshmentFinalResponse>,
)
    requires
        provers.len() == verifiers.len(),
        ms.len() == verifiers.len(),
        zs.len() == verifiers.len(),
        forall|i: int| 0 <= i < provers.len() ==> (#[trigger] provers[i]).wf(),
        forall|i: int| 0 <= i < verifiers.len() ==> (#[trigger] verifiers[i]).wf(),
        forall|i: int|
            0 <= i < provers.len() ==> matching_statement(#[trigger] provers[i], *verifiers[i]),
        forall|i: int|
            0 <= i < provers.len() ==> honest_answer(
                #[trigger] provers[i],
                batch_challenge(ms),
                ms[i],
                zs[i],
            ),
    ensures
        batch_verdict(verifiers, ms, zs) == Ok::<(), ProofError>(()),
{
    lemma_prefix_completeness(provers, verifiers, ms, zs, verifiers.len() as int);
}

proof fn lemma_prefix_completeness(
    provers: Seq<CipherTextRefreshmentProverAwaitingChallenge>,
    verifiers: Seq<&CipherTextRefreshmentVerifier>,
    ms: Seq<CipherTextRefreshmentInitialMessage>,
    zs: Seq<CipherTextRefreshmentFinalResponse>,
    n: int,
)
    requires
        0 <= n <= verifiers.len(),
        provers.len() == verifiers.len(),
        ms.len() == verifiers.len(),
        zs.len() == verifiers.len(),
        forall|i: int| 0 <= i < provers.len() ==> (#[trigger] provers[i]).wf(),
        forall|i: int| 0 <= i < verifiers.len() ==> (#[trigger] verifiers[i]).wf(),
        forall|i: int|
            0 <= i < provers.len() ==> matching_statement(#[trigger] provers[i], *verifiers[i]),
        forall|i: int|
            0 <= i < provers.len() ==> honest_answer(
                #[trigger] provers[i],
                batch_challenge(ms),
                ms[i],
                zs[i],
            ),
    ensures
        first_failure(verifiers, batch_challenge(ms), ms, zs, n) == Ok::<(), ProofError>(()),
    decreases n,
{
    if n > 0 {
        lemma_prefix_completeness(provers, verifiers, ms, zs, n - 1);
        let k = n - 1;
        let c = batch_challenge(ms);
        assert(matching_statement(provers[k], *verifiers[k]));
        assert(honest_answer(provers[k], c, ms[k], zs[k]));
        let q = choose|q: CipherTextRefreshmentProver|
            #[trigger] provers[k].commits(q, ms[k]) && q.answers(c, zs[k]);
        lemma_refreshment_completeness(
            *verifiers[k],
            provers[k].secret_key.secret@,
            q.u@,
            c,
            ms[k],
            zs[k],
        );
    }
}

/// A ciphertext and its refreshment under `s·H` differ by `(−r'·P, −r'·H)`,
/// so the refreshment statement `X = s·Y` holds of their differences.
pub proof fn lemma_refresh_statement(s: int, h: int, x: int, y: int, r: int)
    requires
        0 <= s < group_order(),
        0 <= h < group_order(),
    ensures
        ({
            let l = group_order();
            let x2 = (x + (r * ((s * h) % l)) % l) % l;
            let y2 = (y + (r * h) % l) % l;
            (x - x2) % l == (s * ((y - y2) % l)) % l
        }),
{
    let l = group_order();
    let p = (s * h) % l;
    let x2 = (x + (r * p) % l) % l;
    let y2 = (y + (r * h) % l) % l;
    lemma_sub_mod_noop_right(x, x + (r * p) % l, l);
    assert(x - (x + (r * p) % l) == 0 - (r * p) % l);
    lemma_sub_mod_noop_right(0, r * p, l);
    lemma_mul_mod_noop_right(r, s * h, l);
    lemma_sub_mod_noop_right(0, r * (s * h), l);
    assert((x - x2) % l == (0 - r * (s * h)) % l);
    lemma_sub_mod_noop_right(y, y + (r * h) % l, l);
    assert(y - (y + (r * h) % l) == 0 - (r * h) % l);
    lemma_sub_mod_noop_right(0, r * h, l);
    assert((y - y2) % l == (0 - r * h) % l);
    lemma_mul_mod_noop_right(s, 0 - r * h, l);
    assert(s * (0 - r * h) == 0 - r * (s * h)) by (nonlinear_arith);
}

/// A refreshment followed by a proof of it: when `refreshed` is `ct`
/// refreshed under the key's public key, an honest proof about the pair
/// verifies.
pub proof fn lemma_refresh_then_prove(
    secret_key: ElgamalSecretKey,
    gens: PedersenGens,
    ct: CipherText,
    refreshed: CipherText,
    blinding: Scalar,
    prover: CipherTextRefreshmentProverAwaitingChallenge,
    verifier: CipherTextRefreshmentVerifier,
    m: CipherTextRefreshmentInitialMessage,
    z: CipherTextRefreshmentFinalResponse,
)
    requires
        secret_key.wf(),
        gens.wf(),
        ct.wf(),
        refreshed.wf(),
        blinding.wf(),
        refreshed.x@ == (ct.x@ + (blinding@ * ((secret_key.secret@ * gens.h()) % group_order()))
            % group_order()) % group_order(),
        refreshed.y@ == (ct.y@ + (blinding@ * gens.h()) % group_order()) % group_order(),
        prover.wf(),
        prover.secret_key == secret_key,
        prover.y == verifier.y,
        prover.pc_gens == gens,
        verifier.wf(),
        verifier.pc_gens == gens,
        verifier.pub_key.pub_key@ == (secret_key.secret@ * gens.h()) % group_order(),
        verifier.x@ == (ct.x@ - refreshed.x@) % group_order(),
        verifier.y@ == (ct.y@ - refreshed.y@) % group_order(),
        honest_answer(prover, batch_challenge(seq![m]), m, z),
    ensures
        verifier.verdict(batch_challenge(seq![m]), m, z) is Ok,
{
    lemma_refresh_statement(secret_key.secret@, gens.h(), ct.x@, ct.y@, blinding@);
    let c = batch_challenge(seq![m]);
    let q = choose|q: CipherTextRefreshmentProver| #[trigger] prover.commits(q, m) && q.answers(c, z);
    lemma_refreshment_completeness(verifier, secret_key.secret@, q.u@, c, m, z);
}

} // verus!
