//! ElGamal encryption of scalars on the Ristretto group.
//!
//! A secret key is a scalar `s`, its public key is `P = s·H`, and a value `v`
//! encrypted with blinding `r` is the pair `(X, Y) = (r·P + v·G, r·H)`.
use vstd::prelude::*;
use vstd::arithmetic::div_mod::{
    lemma_add_mod_noop, lemma_add_mod_noop_right, lemma_mod_twice, lemma_mul_mod_noop_right, lemma_small_mod, lemma_sub_mod_noop,
    lemma_sub_mod_noop_right,
};
use vstd::arithmetic::mul::{lemma_mul_is_associative, lemma_mul_is_commutative};

use crate::errors::ProofError;
use crate::group::{
    group_order, is_point_encoding, join_encodings, lemma_pair_round_trip, points_from_bytes,
    PedersenGens, Point, Scalar,
};

verus! {

/// The plaintexts that decryption recovers: those below `2^32`.
pub open spec fn decrypt_window() -> int {
    0x1_0000_0000
}

/// The logarithm of `X − s·Y`: the value that `(X, Y)` encrypts under the
/// secret key `s`.
pub open spec fn plaintext_of(s: int, x: int, y: int) -> int {
    (x - s * y) % group_order()
}

/// The logarithms of `(r·P + v·G, r·H)`.
pub open spec fn encryption_of(p: int, h: int, v: int, r: int) -> (int, int) {
    ((r * p + v) % group_order(), (r * h) % group_order())
}

/// A value and the blinding factor that hides it.
#[derive(Clone, Copy, Debug)]
pub struct CommitmentWitness {
    pub value: Scalar,
    pub blinding: Scalar,
}

impl CommitmentWitness {
    pub open spec fn wf(&self) -> bool {
        self.value.wf() && self.blinding.wf()
    }

    pub fn new(value: Scalar, blinding: Scalar) -> (r: CommitmentWitness)
        ensures
            r.value == value,
            r.blinding == blinding,
    {
        CommitmentWitness { value, blinding }
    }
}

/// An ElGamal ciphertext `(X, Y)`.
#[derive(Clone, Copy)]
pub struct CipherText {
    pub x: Point,
    pub y: Point,
}

impl CipherText {
    pub open spec fn wf(&self) -> bool {
        self.x.wf() && self.y.wf()
    }

    /// The ciphertext's logarithms.
    pub open spec fn logs(&self) -> (int, int) {
        (self.x@, self.y@)
    }

    /// The 32-byte compressed `X`, then `Y`.
    pub fn to_bytes(&self) -> (r: [u8; 64])
        ensures
            r@ == self.x.bytes_spec() + self.y.bytes_spec(),
    {
        join_encodings(&self.x.to_bytes(), &self.y.to_bytes())
    }

    /// Decodes a ciphertext; bytes that encode no point are refused.
    pub fn from_bytes(bytes: &[u8; 64]) -> (r: Result<CipherText, ProofError>)
        ensures
            r is Ok <==> is_point_encoding(bytes@.subrange(0, 32)) && is_point_encoding(
                bytes@.subrange(32, 64),
            ),
            r is Ok ==> r->Ok_0.wf() && r->Ok_0.x.bytes_spec() == bytes@.subrange(0, 32)
                && r->Ok_0.y.bytes_spec() == bytes@.subrange(32, 64),
            r is Ok ==> forall|c: CipherText|
                #[trigger] c.wf() && c.x.bytes_spec() + c.y.bytes_spec() == bytes@ ==> c.logs()
                    == r->Ok_0.logs(),
            r is Err ==> r->Err_0 == ProofError::InvalidEncoding,
    {
        match points_from_bytes(bytes) {
            Ok((x, y)) => {
                assert forall|c: CipherText|
                    #[trigger] c.wf() && c.x.bytes_spec() + c.y.bytes_spec() == bytes@ implies c.logs()
                    == (x@, y@) by {
                    lemma_pair_round_trip(c.x, c.y);
                    assert(c.x.wf() && c.y.wf());
                }
                Ok(CipherText { x, y })
            },
            Err(e) => Err(e),
        }
    }

    /// The homomorphic sum `(X₁ + X₂, Y₁ + Y₂)`.
    pub fn add(&self, o: &CipherText) -> (r: CipherText)
        requires
            self.wf(),
            o.wf(),
        ensures
            r.wf(),
            r.x@ == (self.x@ + o.x@) % group_order(),
            r.y@ == (self.y@ + o.y@) % group_order(),
    {
        CipherText { x: self.x.add(&o.x), y: self.y.add(&o.y) }
    }

    /// The homomorphic difference `(X₁ − X₂, Y₁ − Y₂)`.
    pub fn sub(&self, o: &CipherText) -> (r: CipherText)
        requires
            self.wf(),
            o.wf(),
        ensures
            r.wf(),
            r.x@ == (self.x@ - o.x@) % group_order(),
            r.y@ == (self.y@ - o.y@) % group_order(),
    {
        CipherText { x: self.x.sub(&o.x), y: self.y.sub(&o.y) }
    }

    /// Re-randomises the ciphertext with the blinding `r'`, giving
    /// `(X + r'·P, Y + r'·H)`, once the key is seen to decrypt it.
    pub fn refresh(&self, secret_key: &ElgamalSecretKey, gens: &PedersenGens, blinding: Scalar) -> (r:
        Result<CipherText, ProofError>)
        requires
            self.wf(),
            secret_key.wf(),
            gens.wf(),
            blinding.wf(),
        ensures
            r is Ok <==> 0 <= plaintext_of(secret_key.secret@, self.x@, self.y@) < decrypt_window(),
            r is Err ==> r->Err_0 == ProofError::DecryptionFailure,
            r is Ok ==> r->Ok_0.wf() && r->Ok_0.x@ == (self.x@ + (blinding@ * ((secret_key.secret@
                * gens.h()) % group_order())) % group_order()) % group_order() && r->Ok_0.y@ == (
            self.y@ + (blinding@ * gens.h()) % group_order()) % group_order(),
    {
        match secret_key.decrypt(gens, self) {
            Err(e) => Err(e),
            Ok(_) => {
                let pk = secret_key.get_public_key(gens);
                let x = self.x.add(&pk.pub_key.mul(&blinding));
                let y = self.y.add(&gens.b_blinding.mul(&blinding));
                Ok(CipherText { x, y })
            },
        }
    }
}

/// An ElGamal public key `P = s·H`.
#[derive(Clone, Copy)]
pub struct ElgamalPublicKey {
    pub pub_key: Point,
}

impl ElgamalPublicKey {
    pub open spec fn wf(&self) -> bool {
        self.pub_key.wf()
    }

    /// `(r·P + v·G, r·H)` for the witness's value `v` and blinding `r`.
    pub fn encrypt(&self, gens: &PedersenGens, witness: &CommitmentWitness) -> (r: CipherText)
        requires
            self.wf(),
            gens.wf(),
            witness.wf(),
        ensures
            r.wf(),
            r.logs() == encryption_of(self.pub_key@, gens.h(), witness.value@, witness.blinding@),
    {
        let rp = self.pub_key.mul(&witness.blinding);
        let vg = Point::mul_base(&witness.value);
        let x = rp.add(&vg);
        let y = gens.b_blinding.mul(&witness.blinding);
        proof {
            lemma_add_mod_noop(witness.blinding@ * self.pub_key@, witness.value@, group_order());
            lemma_small_mod(witness.value@ as nat, group_order() as nat);
        }
        CipherText { x, y }
    }
}

/// An ElGamal secret key `s`.
#[derive(Clone, Copy)]
pub struct ElgamalSecretKey {
    pub secret: Scalar,
}

impl ElgamalSecretKey {
    pub open spec fn wf(&self) -> bool {
        self.secret.wf()
    }

    pub fn new(secret: Scalar) -> (r: ElgamalSecretKey)
        ensures
            r.secret == secret,
    {
        ElgamalSecretKey { secret }
    }

    /// Overwrites the secret with zero.
    pub fn zeroize(&mut self)
        ensures
            final(self).wf(),
            final(self).secret@ == 0,
        opens_invariants none
        no_unwind
    {
        self.secret.zeroize();
    }

    /// `P = s·H`.
    pub fn get_public_key(&self, gens: &PedersenGens) -> (r: ElgamalPublicKey)
        requires
            self.wf(),
            gens.wf(),
        ensures
            r.wf(),
            r.pub_key@ == (self.secret@ * gens.h()) % group_order(),
    {
        ElgamalPublicKey { pub_key: gens.b_blinding.mul(&self.secret) }
    }

    /// The value `v` below `2^32` with `X − s·Y = v·G`, found by trying each
    /// candidate in turn; fails when there is none.
    pub fn decrypt(&self, gens: &PedersenGens, ct: &CipherText) -> (r: Result<u32, ProofError>)
        requires
            self.wf(),
            gens.wf(),
            ct.wf(),
        ensures
            r is Ok <==> 0 <= plaintext_of(self.secret@, ct.x@, ct.y@) < decrypt_window(),
            r is Ok ==> r->Ok_0 == plaintext_of(self.secret@, ct.x@, ct.y@),
            r is Err ==> r->Err_0 == ProofError::DecryptionFailure,
    {
        let target = ct.x.sub(&ct.y.mul(&self.secret));
        proof {
            lemma_sub_mod_noop_right(ct.x@, self.secret@ * ct.y@, group_order());
        }
        let mut v: u64 = 0;
        while v < 0x1_0000_0000
            invariant
                target.wf(),
                target@ == plaintext_of(self.secret@, ct.x@, ct.y@),
                0 <= v <= 0x1_0000_0000,
                v <= target@,
            decreases 0x1_0000_0000 - v,
        {
            let candidate = Point::mul_base(&Scalar::from_u64(v));
            if candidate.equals(&target) {
                return Ok(v as u32);
            }
            proof {
                if v == target@ {
                    assert(candidate.bytes_spec() == target.bytes_spec());
                }
            }
            v = v + 1;
        }
        Err(ProofError::DecryptionFailure)
    }
}

// ------------------------------------------------------------------------
// Laws
// ------------------------------------------------------------------------

/// Decrypting with `s` what was encrypted under `s·H` gives back the value.
pub proof fn lemma_decrypt_encrypt(s: int, h: int, v: int, r: int)
    requires
        0 <= s < group_order(),
        0 <= h < group_order(),
        0 <= v < group_order(),
        0 <= r < group_order(),
    ensures
        ({
            let (x, y) = encryption_of((s * h) % group_order(), h, v, r);
            plaintext_of(s, x, y) == v
        }),
{
    let l = group_order();
    let p = (s * h) % l;
    let a = r * p + v;
    let b = s * ((r * h) % l);
    let t = r * (s * h) + v;
    let u = s * (r * h);
    lemma_mul_mod_noop_right(r, s * h, l);
    lemma_add_mod_noop(r * p, v, l);
    lemma_add_mod_noop(r * (s * h), v, l);
    assert(a % l == t % l);
    lemma_mul_mod_noop_right(s, r * h, l);
    assert(b % l == u % l);
    lemma_mod_twice(a, l);
    lemma_sub_mod_noop(a % l, b, l);
    lemma_sub_mod_noop(t, u, l);
    lemma_mul_is_associative(r, s, h);
    lemma_mul_is_associative(s, r, h);
    lemma_mul_is_commutative(r, s);
    assert(t - u == v);
    lemma_small_mod(v as nat, l as nat);
}

/// The plaintext depends on the logarithms only modulo the group order.
pub proof fn lemma_plaintext_congruent(s: int, x1: int, y1: int, x2: int, y2: int)
    requires
        x1 % group_order() == x2 % group_order(),
        y1 % group_order() == y2 % group_order(),
    ensures
        plaintext_of(s, x1, y1) == plaintext_of(s, x2, y2),
{
    let l = group_order();
    lemma_sub_mod_noop(x1, s * y1, l);
    lemma_sub_mod_noop(x2, s * y2, l);
    lemma_mul_mod_noop_right(s, y1, l);
    lemma_mul_mod_noop_right(s, y2, l);
}

/// Refreshing a ciphertext under the key's own public key leaves the value
/// it decrypts to unchanged.
pub proof fn lemma_refresh_keeps_plaintext(s: int, h: int, x: int, y: int, r: int)
    requires
        0 <= s < group_order(),
        0 <= h < group_order(),
    ensures
        plaintext_of(
            s,
            (x + (r * ((s * h) % group_order())) % group_order()) % group_order(),
            (y + (r * h) % group_order()) % group_order(),
        ) == plaintext_of(s, x, y),
{
    let l = group_order();
    let x1 = (x + (r * ((s * h) % l)) % l) % l;
    let y1 = (y + (r * h) % l) % l;
    lemma_mod_twice(x + (r * ((s * h) % l)) % l, l);
    lemma_add_mod_noop_right(x, r * ((s * h) % l), l);
    lemma_mul_mod_noop_right(r, s * h, l);
    lemma_add_mod_noop_right(x, r * (s * h), l);
    lemma_add_mod_noop_right(x, (r * (s * h)) % l, l);
    assert(x1 % l == (x + r * (s * h)) % l);
    lemma_mod_twice(y + (r * h) % l, l);
    lemma_add_mod_noop_right(y, r * h, l);
    assert(y1 % l == (y + r * h) % l);
    lemma_plaintext_congruent(s, x1, y1, x + r * (s * h), y + r * h);
    assert((x + r * (s * h)) - s * (y + r * h) == x - s * y) by (nonlinear_arith);
}

/// The homomorphic sum of two encryptions under `s·H` decrypts to the sum of
/// the values.
pub proof fn lemma_sum_of_encryptions(s: int, h: int, v1: int, r1: int, v2: int, r2: int)
    requires
        0 <= s < group_order(),
        0 <= h < group_order(),
    ensures
        ({
            let p = (s * h) % group_order();
            let (x1, y1) = encryption_of(p, h, v1, r1);
            let (x2, y2) = encryption_of(p, h, v2, r2);
            plaintext_of(s, (x1 + x2) % group_order(), (y1 + y2) % group_order()) == (v1 + v2)
                % group_order()
        }),
{
    let l = group_order();
    let p = (s * h) % l;
    let (x1, y1) = encryption_of(p, h, v1, r1);
    let (x2, y2) = encryption_of(p, h, v2, r2);
    let x = (x1 + x2) % l;
    let y = (y1 + y2) % l;
    lemma_mod_twice(x1 + x2, l);
    lemma_add_mod_noop(r1 * p + v1, r2 * p + v2, l);
    lemma_mul_mod_noop_right(r1 + r2, s * h, l);
    assert(r1 * p + v1 + (r2 * p + v2) == (r1 + r2) * p + (v1 + v2)) by (nonlinear_arith);
    lemma_add_mod_noop((r1 + r2) * p, v1 + v2, l);
    lemma_add_mod_noop((r1 + r2) * (s * h), v1 + v2, l);
    assert(x % l == ((r1 + r2) * (s * h) + (v1 + v2)) % l);
    lemma_mod_twice(y1 + y2, l);
    lemma_add_mod_noop(r1 * h, r2 * h, l);
    assert(r1 * h + r2 * h == (r1 + r2) * h) by (nonlinear_arith);
    assert(y % l == ((r1 + r2) * h) % l);
    lemma_plaintext_congruent(s, x, y, (r1 + r2) * (s * h) + (v1 + v2), (r1 + r2) * h);
    assert(((r1 + r2) * (s * h) + (v1 + v2)) - s * ((r1 + r2) * h) == v1 + v2) by (nonlinear_arith);
}

/// Encoding and then decoding a ciphertext gives the same points.
pub proof fn lemma_ciphertext_round_trip(ct: CipherText)
    requires
        ct.wf(),
    ensures
        ({
            let bytes = ct.x.bytes_spec() + ct.y.bytes_spec();
            &&& is_point_encoding(bytes.subrange(0, 32))
            &&& is_point_encoding(bytes.subrange(32, 64))
            &&& bytes.subrange(0, 32) == ct.x.bytes_spec()
            &&& bytes.subrange(32, 64) == ct.y.bytes_spec()
        }),
{
    lemma_pair_round_trip(ct.x, ct.y);
}

} // verus!
