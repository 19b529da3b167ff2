//! Fiat–Shamir transcripts: a Merlin transcript absorbs labelled messages and
//! squeezes challenge scalars, and seeds the prover's nonce generator.
//!
//! A transcript is modelled by the ordered sequence of the labelled messages
//! it absorbed; the challenge is a function of that sequence and the label.
use vstd::prelude::*;

use vstd::string::StringSliceAdditionalSpecFns;

use crate::errors::ProofError;
use crate::group::{group_order, is_point_encoding, le_value, Scalar};

verus! {

#[verifier::external_type_specification]
#[verifier::external_body]
pub struct ExTranscript(merlin::Transcript);

#[verifier::external_type_specification]
#[verifier::external_body]
pub struct ExTranscriptRng(merlin::TranscriptRng);

#[verifier::external_type_specification]
#[verifier::external_body]
pub struct ExStdRng(rand::rngs::StdRng);

/// A labelled message: its label and its bytes.
pub type Entry = (Seq<char>, Seq<u8>);

/// What a Merlin transcript has absorbed, in order.
pub uninterp spec fn transcript_messages(t: merlin::Transcript) -> Seq<Entry>;

/// The 64 bytes that a transcript which absorbed `messages` squeezes under
/// `label`.
pub uninterp spec fn challenge_bytes_of(messages: Seq<Entry>, label: Seq<char>) -> Seq<u8>;

/// What a nonce generator was keyed with: the messages of the transcript it
/// was built from, the witness label and the witness bytes.
pub uninterp spec fn rng_keying(r: merlin::TranscriptRng) -> (Seq<Entry>, Seq<char>, Seq<u8>);

/// The label under which Merlin absorbs a domain separator.
pub open spec fn dom_sep_label() -> Seq<char> {
    seq!['d', 'o', 'm', '-', 's', 'e', 'p']
}

/// Relies on `Transcript::new`, which absorbs `label` under `dom-sep`; its
/// length must fit the 32 bits that Merlin encodes it in.
#[verifier::external_body]
fn merlin_new(label: &'static str) -> (r: merlin::Transcript)
    requires
        label.spec_bytes().len() <= u32::MAX,
    ensures
        transcript_messages(r) == seq![(dom_sep_label(), label.spec_bytes())],
{
    merlin::Transcript::new(label.as_bytes())
}

/// Relies on `Transcript::append_message`, which absorbs `msg` under `label`;
/// the message's length must fit the 32 bits that Merlin encodes it in.
#[verifier::external_body]
fn merlin_append(t: &mut merlin::Transcript, label: &'static str, msg: &[u8])
    requires
        msg@.len() <= u32::MAX,
    ensures
        transcript_messages(*final(t)) == transcript_messages(*old(t)).push((label@, msg@)),
{
    t.append_message(label.as_bytes(), msg)
}

/// Relies on `Transcript::challenge_bytes`, whose output is determined by
/// what the transcript absorbed and the label.
#[verifier::external_body]
fn merlin_challenge(t: merlin::Transcript, label: &'static str) -> (r: [u8; 64])
    ensures
        r@ == challenge_bytes_of(transcript_messages(t), label@),
{
    let mut t = t;
    let mut buf = [0u8; 64];
    t.challenge_bytes(label.as_bytes(), &mut buf);
    buf
}

/// Relies on `Transcript::build_rng`, `rekey_with_witness_bytes` and
/// `finalize`: a generator bound to the transcript, the witness and fresh
/// entropy; nothing is promised of its output. The witness's length must fit
/// the 32 bits that Merlin encodes it in.
#[verifier::external_body]
fn merlin_rng(
    t: &merlin::Transcript,
    label: &'static str,
    witness: &[u8],
    rng: &mut rand::rngs::StdRng,
) -> (r: merlin::TranscriptRng)
    requires
        witness@.len() <= u32::MAX,
    ensures
        rng_keying(r) == (transcript_messages(*t), label@, witness@),
{
    t.build_rng().rekey_with_witness_bytes(label.as_bytes(), witness).finalize(rng)
}

/// An ASCII label of at most 64 characters takes as many bytes, which fits
/// the 32-bit length that Merlin encodes.
pub proof fn lemma_ascii_label_fits(s: &str)
    requires
        vstd::string::is_ascii(s),
        s@.len() <= 64,
    ensures
        s.spec_bytes().len() <= u32::MAX,
{
    vstd::string::is_ascii_spec_bytes(s);
}

/// A challenge scalar squeezed from a transcript.
#[derive(Clone, Copy, Debug)]
pub struct ZKPChallenge {
    pub x: Scalar,
}

impl ZKPChallenge {
    pub open spec fn wf(&self) -> bool {
        self.x.wf()
    }

    /// The challenge scalar.
    pub fn x(&self) -> (r: Scalar)
        ensures
            r == self.x,
    {
        self.x
    }
}

/// The challenge scalar that a transcript which absorbed `messages` gives
/// under `label`: 64 squeezed bytes reduced modulo the group order.
pub open spec fn challenge_scalar_of(messages: Seq<Entry>, label: Seq<char>) -> int {
    le_value(challenge_bytes_of(messages, label)) % group_order()
}

/// A proof session's transcript.
pub struct ProofTranscript {
    pub inner: merlin::Transcript,
}

impl ProofTranscript {
    /// The labelled messages absorbed so far.
    pub open spec fn messages(&self) -> Seq<Entry> {
        transcript_messages(self.inner)
    }

    /// A fresh transcript seeded with `label`.
    pub fn new(label: &'static str) -> (r: ProofTranscript)
        requires
            label.spec_bytes().len() <= u32::MAX,
        ensures
            r.messages() == seq![(dom_sep_label(), label.spec_bytes())],
    {
        ProofTranscript { inner: merlin_new(label) }
    }

    /// Absorbs a static label.
    pub fn append_domain_separator(&mut self, label: &'static str)
        requires
            label.spec_bytes().len() <= u32::MAX,
        ensures
            final(self).messages() == old(self).messages().push((dom_sep_label(), label.spec_bytes())),
    {
        proof {
            reveal_strlit("dom-sep");
            assert("dom-sep"@ =~= dom_sep_label());
        }
        merlin_append(&mut self.inner, "dom-sep", label.as_bytes());
    }

    /// Absorbs the 32 bytes of a compressed point, once they are known to
    /// encode a point; otherwise absorbs nothing and fails.
    pub fn append_validated_point(&mut self, label: &'static str, p: &[u8; 32]) -> (r: Result<
        (),
        ProofError,
    >)
        ensures
            r is Ok <==> is_point_encoding(p@),
            r is Ok ==> final(self).messages() == old(self).messages().push((label@, p@)),
            r is Err ==> final(self).messages() == old(self).messages() && r->Err_0
                == ProofError::InvalidEncoding,
    {
        match crate::group::Point::from_bytes(*p) {
            Ok(_) => {
                merlin_append(&mut self.inner, label, p);
                Ok(())
            },
            Err(e) => Err(e),
        }
    }

    /// Absorbs the 32 canonical bytes of a scalar.
    pub fn append_scalar(&mut self, label: &'static str, s: &Scalar)
        ensures
            final(self).messages() == old(self).messages().push((label@, s.bytes@)),
    {
        merlin_append(&mut self.inner, label, &s.bytes);
    }

    /// Squeezes the challenge scalar under `label`, ending the session.
    pub fn scalar_challenge(self, label: &'static str) -> (r: ZKPChallenge)
        ensures
            r.wf(),
            r.x@ == challenge_scalar_of(self.messages(), label@),
    {
        let buf = merlin_challenge(self.inner, label);
        ZKPChallenge { x: Scalar::from_bytes_mod_order_wide(&buf) }
    }

    /// A generator for the prover's nonces, bound to the transcript so far,
    /// to the witness bytes and to fresh entropy drawn from `rng`.
    pub fn build_rng(&self, label: &'static str, witness: &[u8], rng: &mut rand::rngs::StdRng) -> (r:
        merlin::TranscriptRng)
        requires
            witness@.len() <= u32::MAX,
        ensures
            rng_keying(r) == (self.messages(), label@, witness@),
    {
        merlin_rng(&self.inner, label, witness, rng)
    }
}

/// A message that a transcript absorbs.
pub trait UpdateTranscript: Sized {
    /// The message is well formed.
    spec fn message_wf(&self) -> bool;

    /// The labelled messages that it absorbs, in order.
    spec fn absorbs(&self) -> Seq<Entry>;

    /// Absorbs the message.
    fn update_transcript(&self, transcript: &mut ProofTranscript) -> (r: Result<(), ProofError>)
        requires
            self.message_wf(),
        ensures
            r is Ok,
            final(transcript).messages() == old(transcript).messages() + self.absorbs(),
    ;
}

/// Two transcripts that absorbed the same labelled messages give the same
/// challenge under the same label.
pub proof fn lemma_transcript_determinism(t1: ProofTranscript, t2: ProofTranscript, label: Seq<char>)
    requires
        t1.messages() == t2.messages(),
    ensures
        challenge_scalar_of(t1.messages(), label) == challenge_scalar_of(t2.messages(), label),
{
}

} // verus!
