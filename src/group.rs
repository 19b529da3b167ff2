//! Scalars modulo the group order and points of the Ristretto group.
//!
//! A scalar is held as its 32 canonical little-endian bytes. A point is held
//! as its 32-byte canonical compressed encoding, together with its discrete
//! logarithm with respect to the basepoint `G` as a ghost value: the group is
//! cyclic of prime order, so every point is `k·G` for exactly one `k` below
//! the order, and the group operations become arithmetic modulo that order.
use vstd::prelude::*;

use crate::errors::ProofError;

verus! {

/// The order of the Ristretto group, `2^252 + 27742317777372353535851937790883648493`.
pub open spec fn group_order() -> int {
    85070591730234615865843651857942052864int * 85070591730234615865843651857942052864int
        + 27742317777372353535851937790883648493int
}

/// The number that a little-endian byte string denotes.
pub open spec fn le_value(b: Seq<u8>) -> int
    decreases b.len(),
{
    if b.len() == 0 {
        0
    } else {
        b[0] as int + 256 * le_value(b.drop_first())
    }
}

/// A little-endian byte string denotes a non-negative number.
pub proof fn lemma_le_value_nonneg(b: Seq<u8>)
    ensures
        0 <= le_value(b),
    decreases b.len(),
{
    if b.len() > 0 {
        lemma_le_value_nonneg(b.drop_first());
    }
}

/// The canonical compressed encoding of `k·G`, where `G` is the basepoint.
pub uninterp spec fn base_mul_encoding(k: int) -> Seq<u8>;

/// The logarithm of the point that `b` encodes.
pub open spec fn point_log(b: Seq<u8>) -> int {
    choose|k: int| 0 <= k < group_order() && #[trigger] base_mul_encoding(k) == b
}

/// The bytes that encode some point of the group.
pub open spec fn is_point_encoding(b: Seq<u8>) -> bool {
    exists|k: int| 0 <= k < group_order() && #[trigger] base_mul_encoding(k) == b
}

// ------------------------------------------------------------------------
// Calls into curve25519-dalek
// ------------------------------------------------------------------------

/// Relies on `Scalar::from_canonical_bytes`: accepts exactly the encodings of
/// the integers below the group order.
#[verifier::external_body]
fn dalek_scalar_is_canonical(b: [u8; 32]) -> (r: bool)
    ensures
        r == (le_value(b@) < group_order()),
{
    bool::from(curve25519_dalek::scalar::Scalar::from_canonical_bytes(b).is_some())
}

/// Relies on `Scalar::from(u64)`: the scalar whose value is `v`.
#[verifier::external_body]
fn dalek_scalar_from_u64(v: u64) -> (r: [u8; 32])
    ensures
        le_value(r@) == v,
{
    curve25519_dalek::scalar::Scalar::from(v).to_bytes()
}

/// Relies on `Scalar::from_bytes_mod_order_wide`: reduces a 512-bit
/// little-endian integer modulo the group order.
#[verifier::external_body]
fn dalek_scalar_from_wide(b: &[u8; 64]) -> (r: [u8; 32])
    ensures
        le_value(r@) == le_value(b@) % group_order(),
{
    curve25519_dalek::scalar::Scalar::from_bytes_mod_order_wide(b).to_bytes()
}

/// Relies on `Scalar + Scalar`: addition modulo the group order.
#[verifier::external_body]
fn dalek_scalar_add(a: [u8; 32], b: [u8; 32]) -> (r: [u8; 32])
    requires
        le_value(a@) < group_order(),
        le_value(b@) < group_order(),
    ensures
        le_value(r@) == (le_value(a@) + le_value(b@)) % group_order(),
{
    let x = curve25519_dalek::scalar::Scalar::from_canonical_bytes(a).unwrap();
    let y = curve25519_dalek::scalar::Scalar::from_canonical_bytes(b).unwrap();
    (x + y).to_bytes()
}

/// Relies on `Scalar - Scalar`: subtraction modulo the group order.
#[verifier::external_body]
fn dalek_scalar_sub(a: [u8; 32], b: [u8; 32]) -> (r: [u8; 32])
    requires
        le_value(a@) < group_order(),
        le_value(b@) < group_order(),
    ensures
        le_value(r@) == (le_value(a@) - le_value(b@)) % group_order(),
{
    let x = curve25519_dalek::scalar::Scalar::from_canonical_bytes(a).unwrap();
    let y = curve25519_dalek::scalar::Scalar::from_canonical_bytes(b).unwrap();
    (x - y).to_bytes()
}

/// Relies on `Scalar * Scalar`: multiplication modulo the group order.
#[verifier::external_body]
fn dalek_scalar_mul(a: [u8; 32], b: [u8; 32]) -> (r: [u8; 32])
    requires
        le_value(a@) < group_order(),
        le_value(b@) < group_order(),
    ensures
        le_value(r@) == (le_value(a@) * le_value(b@)) % group_order(),
{
    let x = curve25519_dalek::scalar::Scalar::from_canonical_bytes(a).unwrap();
    let y = curve25519_dalek::scalar::Scalar::from_canonical_bytes(b).unwrap();
    (x * y).to_bytes()
}

/// Relies on `Scalar::random`: a uniformly drawn scalar, reduced below the
/// group order.
#[verifier::external_body]
fn dalek_scalar_random(rng: &mut merlin::TranscriptRng) -> (r: [u8; 32])
    ensures
        le_value(r@) < group_order(),
{
    curve25519_dalek::scalar::Scalar::random(rng).to_bytes()
}

/// Relies on `CompressedRistretto::decompress`: it succeeds exactly on the
/// canonical encodings of group elements, and each of them is `k·G` for
/// exactly one `k` below the order, since `G` has prime order.
#[verifier::external_body]
fn dalek_decompresses(b: [u8; 32]) -> (r: bool)
    ensures
        r == is_point_encoding(b@),
        r ==> forall|i: int, j: int|
            0 <= i < group_order() && 0 <= j < group_order() && #[trigger] base_mul_encoding(i)
                == b@ && #[trigger] base_mul_encoding(j) == b@ ==> i == j,
{
    curve25519_dalek::ristretto::CompressedRistretto(b).decompress().is_some()
}

/// Relies on `RistrettoPoint::mul_base` and `compress`: the encoding of
/// `k·G`, which no other scalar below the order shares since `G` has prime
/// order.
#[verifier::external_body]
fn dalek_mul_base(k: [u8; 32]) -> (r: [u8; 32])
    requires
        le_value(k@) < group_order(),
    ensures
        r@ == base_mul_encoding(le_value(k@)),
        forall|j: int|
            0 <= j < group_order() && #[trigger] base_mul_encoding(j) == r@ ==> j == le_value(
                k@,
            ),
{
    let s = curve25519_dalek::scalar::Scalar::from_canonical_bytes(k).unwrap();
    curve25519_dalek::ristretto::RistrettoPoint::mul_base(&s).compress().to_bytes()
}

/// Relies on `RistrettoPoint + RistrettoPoint`: the group operation, under
/// which discrete logarithms add.
#[verifier::external_body]
fn dalek_point_add(a: [u8; 32], b: [u8; 32]) -> (r: [u8; 32])
    requires
        is_point_encoding(a@),
        is_point_encoding(b@),
    ensures
        forall|i: int, j: int|
            0 <= i < group_order() && 0 <= j < group_order() && #[trigger] base_mul_encoding(i)
                == a@ && #[trigger] base_mul_encoding(j) == b@ ==> r@ == base_mul_encoding(
                (i + j) % group_order(),
            ),
{
    let x = curve25519_dalek::ristretto::CompressedRistretto(a).decompress().unwrap();
    let y = curve25519_dalek::ristretto::CompressedRistretto(b).decompress().unwrap();
    (x + y).compress().to_bytes()
}

/// Relies on `RistrettoPoint - RistrettoPoint`: the group operation with the
/// inverse of the right operand, under which discrete logarithms subtract.
#[verifier::external_body]
fn dalek_point_sub(a: [u8; 32], b: [u8; 32]) -> (r: [u8; 32])
    requires
        is_point_encoding(a@),
        is_point_encoding(b@),
    ensures
        forall|i: int, j: int|
            0 <= i < group_order() && 0 <= j < group_order() && #[trigger] base_mul_encoding(i)
                == a@ && #[trigger] base_mul_encoding(j) == b@ ==> r@ == base_mul_encoding(
                (i - j) % group_order(),
            ),
{
    let x = curve25519_dalek::ristretto::CompressedRistretto(a).decompress().unwrap();
    let y = curve25519_dalek::ristretto::CompressedRistretto(b).decompress().unwrap();
    (x - y).compress().to_bytes()
}

/// Relies on `Scalar * RistrettoPoint`: scalar multiplication, under which
/// the discrete logarithm is multiplied by the scalar.
#[verifier::external_body]
fn dalek_point_mul(s: [u8; 32], p: [u8; 32]) -> (r: [u8; 32])
    requires
        le_value(s@) < group_order(),
        is_point_encoding(p@),
    ensures
        forall|j: int|
            0 <= j < group_order() && #[trigger] base_mul_encoding(j) == p@ ==> r@
                == base_mul_encoding((le_value(s@) * j) % group_order()),
{
    let x = curve25519_dalek::scalar::Scalar::from_canonical_bytes(s).unwrap();
    let y = curve25519_dalek::ristretto::CompressedRistretto(p).decompress().unwrap();
    (x * y).compress().to_bytes()
}

/// The compressed encoding of the point that
/// `RistrettoPoint::hash_from_bytes::<Sha3_512>` derives from `input`.
pub uninterp spec fn hash_to_point_encoding(input: Seq<u8>) -> Seq<u8>;

/// Relies on `PedersenGens::default`: its blinding generator `B_blinding` is
/// the point hashed from the compressed basepoint, a point of the group.
#[verifier::external_body]
fn bulletproofs_blinding_base() -> (r: [u8; 32])
    ensures
        r@ == hash_to_point_encoding(base_mul_encoding(1)),
        is_point_encoding(r@),
{
    bulletproofs::PedersenGens::default().B_blinding.compress().to_bytes()
}

/// Relies on `Zeroize::zeroize` for byte arrays: every byte is overwritten
/// with zero.
#[verifier::external_body]
fn zeroize_bytes(b: &mut [u8; 32])
    ensures
        forall|i: int| 0 <= i < 32 ==> final(b)@[i] == 0u8,
    opens_invariants none
    no_unwind
{
    zeroize::Zeroize::zeroize(b)
}

/// A byte string of zeros denotes zero.
proof fn lemma_le_value_zeros(b: Seq<u8>)
    requires
        forall|i: int| 0 <= i < b.len() ==> b[i] == 0u8,
    ensures
        le_value(b) == 0,
    decreases b.len(),
{
    if b.len() > 0 {
        lemma_le_value_zeros(b.drop_first());
    }
}

// ------------------------------------------------------------------------
// Scalars
// ------------------------------------------------------------------------

/// An element of the scalar field, held in canonical form.
#[derive(Clone, Copy, Debug)]
pub struct Scalar {
    pub bytes: [u8; 32],
}

impl View for Scalar {
    type V = int;

    open spec fn view(&self) -> int {
        le_value(self.bytes@)
    }
}

impl Scalar {
    /// The scalar is held in canonical form: its value is below the order.
    pub open spec fn wf(&self) -> bool {
        0 <= self@ < group_order()
    }

    pub open spec fn bytes_spec(&self) -> Seq<u8> {
        self.bytes@
    }

    /// The scalar whose value is `v`.
    pub fn from_u64(v: u64) -> (r: Scalar)
        ensures
            r.wf(),
            r@ == v,
    {
        proof {
            assert(v < group_order());
        }
        Scalar { bytes: dalek_scalar_from_u64(v) }
    }

    /// The scalar `0`.
    pub fn zero() -> (r: Scalar)
        ensures
            r.wf(),
            r@ == 0,
    {
        Scalar::from_u64(0)
    }

    /// The scalar `1`.
    pub fn one() -> (r: Scalar)
        ensures
            r.wf(),
            r@ == 1,
    {
        Scalar::from_u64(1)
    }

    /// Reduces 64 little-endian bytes modulo the group order.
    pub fn from_bytes_mod_order_wide(b: &[u8; 64]) -> (r: Scalar)
        ensures
            r.wf(),
            r@ == le_value(b@) % group_order(),
    {
        let bytes = dalek_scalar_from_wide(b);
        proof {
            lemma_le_value_nonneg(bytes@);
        }
        Scalar { bytes }
    }

    /// Decodes 32 canonical bytes; any other byte string is refused.
    pub fn from_bytes(b: [u8; 32]) -> (r: Result<Scalar, ProofError>)
        ensures
            r is Ok <==> le_value(b@) < group_order(),
            r is Ok ==> r->Ok_0.wf() && r->Ok_0.bytes_spec() == b@,
            r is Err ==> r->Err_0 == ProofError::InvalidEncoding,
    {
        proof {
            lemma_le_value_nonneg(b@);
        }
        if dalek_scalar_is_canonical(b) {
            Ok(Scalar { bytes: b })
        } else {
            Err(ProofError::InvalidEncoding)
        }
    }

    /// The 32 canonical little-endian bytes.
    pub fn to_bytes(&self) -> (r: [u8; 32])
        ensures
            r@ == self.bytes_spec(),
    {
        self.bytes
    }

    pub fn add(&self, o: &Scalar) -> (r: Scalar)
        requires
            self.wf(),
            o.wf(),
        ensures
            r.wf(),
            r@ == (self@ + o@) % group_order(),
    {
        let b = dalek_scalar_add(self.bytes, o.bytes);
        proof {
            lemma_le_value_nonneg(b@);
        }
        Scalar { bytes: b }
    }

    pub fn sub(&self, o: &Scalar) -> (r: Scalar)
        requires
            self.wf(),
            o.wf(),
        ensures
            r.wf(),
            r@ == (self@ - o@) % group_order(),
    {
        let b = dalek_scalar_sub(self.bytes, o.bytes);
        proof {
            lemma_le_value_nonneg(b@);
        }
        Scalar { bytes: b }
    }

    pub fn mul(&self, o: &Scalar) -> (r: Scalar)
        requires
            self.wf(),
            o.wf(),
        ensures
            r.wf(),
            r@ == (self@ * o@) % group_order(),
    {
        let b = dalek_scalar_mul(self.bytes, o.bytes);
        proof {
            lemma_le_value_nonneg(b@);
        }
        Scalar { bytes: b }
    }

    /// Overwrites the scalar with zero, so that no secret is left in memory.
    pub fn zeroize(&mut self)
        ensures
            final(self).wf(),
            final(self)@ == 0,
        opens_invariants none
        no_unwind
    {
        zeroize_bytes(&mut self.bytes);
        proof {
            lemma_le_value_zeros(self.bytes@);
        }
    }

    /// A scalar drawn from a transcript-bound random generator.
    pub fn random(rng: &mut merlin::TranscriptRng) -> (r: Scalar)
        ensures
            r.wf(),
    {
        let b = dalek_scalar_random(rng);
        proof {
            lemma_le_value_nonneg(b@);
        }
        Scalar { bytes: b }
    }

    /// Compares the canonical encodings, which is comparing the values.
    pub fn equals(&self, o: &Scalar) -> (r: bool)
        ensures
            r == (self.bytes_spec() == o.bytes_spec()),
    {
        same_bytes(&self.bytes, &o.bytes)
    }
}

// ------------------------------------------------------------------------
// Points
// ------------------------------------------------------------------------

/// An element of the Ristretto group.
#[derive(Clone, Copy)]
pub struct Point {
    pub bytes: [u8; 32],
    pub log: Ghost<int>,
}

impl View for Point {
    type V = int;

    /// The discrete logarithm of the point with respect to `G`.
    open spec fn view(&self) -> int {
        self.log@
    }
}

/// Two byte arrays hold the same bytes.
fn same_bytes(a: &[u8; 32], b: &[u8; 32]) -> (r: bool)
    ensures
        r == (a@ == b@),
{
    let mut i: usize = 0;
    while i < 32
        invariant
            0 <= i <= 32,
            forall|j: int| 0 <= j < i ==> a@[j] == b@[j],
        decreases 32 - i,
    {
        if a[i] != b[i] {
            return false;
        }
        i = i + 1;
    }
    proof {
        assert(a@ =~= b@);
    }
    true
}

impl Point {
    /// The bytes encode the point whose logarithm is held.
    pub open spec fn wf(&self) -> bool {
        0 <= self@ < group_order() && base_mul_encoding(self@) == self.bytes@
    }

    pub open spec fn bytes_spec(&self) -> Seq<u8> {
        self.bytes@
    }

    /// `k·G`.
    pub fn mul_base(k: &Scalar) -> (r: Point)
        requires
            k.wf(),
        ensures
            r.wf(),
            r@ == k@,
            forall|j: int|
                0 <= j < group_order() && #[trigger] base_mul_encoding(j) == r.bytes_spec() ==> j
                    == k@,
    {
        let b = dalek_mul_base(k.bytes);
        Point { bytes: b, log: Ghost(k@) }
    }

    /// The basepoint `G`.
    pub fn basepoint() -> (r: Point)
        ensures
            r.wf(),
            r@ == 1,
    {
        Point::mul_base(&Scalar::one())
    }

    /// The identity element.
    pub fn identity() -> (r: Point)
        ensures
            r.wf(),
            r@ == 0,
    {
        Point::mul_base(&Scalar::zero())
    }

    /// The blinding generator `H`, derived by hashing so that its logarithm
    /// is unknown.
    pub fn blinding_base() -> (r: Point)
        ensures
            r.wf(),
            r.bytes_spec() == hash_to_point_encoding(base_mul_encoding(1)),
    {
        let b = bulletproofs_blinding_base();
        let ghost k = choose|k: int| 0 <= k < group_order() && #[trigger] base_mul_encoding(k) == b@;
        Point { bytes: b, log: Ghost(k) }
    }

    /// Decodes a compressed point; bytes that encode no point are refused.
    pub fn from_bytes(b: [u8; 32]) -> (r: Result<Point, ProofError>)
        ensures
            r is Ok <==> is_point_encoding(b@),
            r is Ok ==> r->Ok_0.wf() && r->Ok_0.bytes_spec() == b@ && r->Ok_0@ == point_log(b@),
            r is Ok ==> forall|p: Point| #[trigger] p.wf() && p.bytes_spec() == b@ ==> p@ == r->Ok_0@,
            r is Err ==> r->Err_0 == ProofError::InvalidEncoding,
    {
        if dalek_decompresses(b) {
            assert forall|p: Point| #[trigger] p.wf() && p.bytes_spec() == b@ implies p@ == point_log(
                b@,
            ) by {
                assert(base_mul_encoding(p@) == b@);
                assert(base_mul_encoding(point_log(b@)) == b@);
            }
            Ok(Point { bytes: b, log: Ghost(point_log(b@)) })
        } else {
            Err(ProofError::InvalidEncoding)
        }
    }

    /// The 32-byte compressed encoding.
    pub fn to_bytes(&self) -> (r: [u8; 32])
        ensures
            r@ == self.bytes_spec(),
    {
        self.bytes
    }

    pub fn add(&self, o: &Point) -> (r: Point)
        requires
            self.wf(),
            o.wf(),
        ensures
            r.wf(),
            r@ == (self@ + o@) % group_order(),
    {
        let b = dalek_point_add(self.bytes, o.bytes);
        Point { bytes: b, log: Ghost((self@ + o@) % group_order()) }
    }

    pub fn sub(&self, o: &Point) -> (r: Point)
        requires
            self.wf(),
            o.wf(),
        ensures
            r.wf(),
            r@ == (self@ - o@) % group_order(),
    {
        let b = dalek_point_sub(self.bytes, o.bytes);
        Point { bytes: b, log: Ghost((self@ - o@) % group_order()) }
    }

    /// `s·self`.
    pub fn mul(&self, s: &Scalar) -> (r: Point)
        requires
            self.wf(),
            s.wf(),
        ensures
            r.wf(),
            r@ == (s@ * self@) % group_order(),
    {
        let b = dalek_point_mul(s.bytes, self.bytes);
        Point { bytes: b, log: Ghost((s@ * self@) % group_order()) }
    }

    /// Compares the canonical encodings, which is comparing the points.
    pub fn equals(&self, o: &Point) -> (r: bool)
        ensures
            r == (self.bytes_spec() == o.bytes_spec()),
    {
        same_bytes(&self.bytes, &o.bytes)
    }
}

// ------------------------------------------------------------------------
// Pairs of encodings
// ------------------------------------------------------------------------

/// The 64 bytes of two 32-byte encodings, one after the other.
pub fn join_encodings(a: &[u8; 32], b: &[u8; 32]) -> (r: [u8; 64])
    ensures
        r@ == a@ + b@,
{
    let mut out = [0u8; 64];
    let mut i: usize = 0;
    while i < 32
        invariant
            0 <= i <= 32,
            forall|j: int| 0 <= j < i ==> out@[j] == a@[j] && out@[j + 32] == b@[j],
        decreases 32 - i,
    {
        out[i] = a[i];
        out[i + 32] = b[i];
        i = i + 1;
    }
    assert(out@ =~= a@ + b@);
    out
}

/// The two 32-byte halves of 64 bytes.
pub fn split_encodings(bytes: &[u8; 64]) -> (r: ([u8; 32], [u8; 32]))
    ensures
        r.0@ == bytes@.subrange(0, 32),
        r.1@ == bytes@.subrange(32, 64),
{
    let mut a = [0u8; 32];
    let mut b = [0u8; 32];
    let mut i: usize = 0;
    while i < 32
        invariant
            0 <= i <= 32,
            forall|j: int| 0 <= j < i ==> a@[j] == bytes@[j] && b@[j] == bytes@[j + 32],
        decreases 32 - i,
    {
        a[i] = bytes[i];
        b[i] = bytes[i + 32];
        i = i + 1;
    }
    assert(a@ =~= bytes@.subrange(0, 32));
    assert(b@ =~= bytes@.subrange(32, 64));
    (a, b)
}

/// Decodes two points held one after the other.
pub fn points_from_bytes(bytes: &[u8; 64]) -> (r: Result<(Point, Point), ProofError>)
    ensures
        r is Ok <==> is_point_encoding(bytes@.subrange(0, 32)) && is_point_encoding(
            bytes@.subrange(32, 64),
        ),
        r is Ok ==> r->Ok_0.0.wf() && r->Ok_0.1.wf() && r->Ok_0.0.bytes_spec() == bytes@.subrange(0, 32)
            && r->Ok_0.1.bytes_spec() == bytes@.subrange(32, 64),
        r is Ok ==> forall|p: Point|
            #[trigger] p.wf() && p.bytes_spec() == bytes@.subrange(0, 32) ==> p@ == r->Ok_0.0@,
        r is Ok ==> forall|p: Point|
            #[trigger] p.wf() && p.bytes_spec() == bytes@.subrange(32, 64) ==> p@ == r->Ok_0.1@,
        r is Err ==> r->Err_0 == ProofError::InvalidEncoding,
{
    let (a, b) = split_encodings(bytes);
    let pa = match Point::from_bytes(a) {
        Ok(p) => p,
        Err(e) => {
            return Err(e);
        },
    };
    let pb = match Point::from_bytes(b) {
        Ok(p) => p,
        Err(e) => {
            return Err(e);
        },
    };
    Ok((pa, pb))
}

/// The encoding of a point decodes, and splitting the encoding of a pair of
/// points gives back each point's encoding.
pub proof fn lemma_pair_round_trip(a: Point, b: Point)
    requires
        a.wf(),
        b.wf(),
    ensures
        (a.bytes_spec() + b.bytes_spec()).subrange(0, 32) == a.bytes_spec(),
        (a.bytes_spec() + b.bytes_spec()).subrange(32, 64) == b.bytes_spec(),
        is_point_encoding(a.bytes_spec()),
        is_point_encoding(b.bytes_spec()),
{
    assert((a.bytes_spec() + b.bytes_spec()).subrange(0, 32) =~= a.bytes_spec());
    assert((a.bytes_spec() + b.bytes_spec()).subrange(32, 64) =~= b.bytes_spec());
    assert(base_mul_encoding(a@) == a.bytes_spec());
    assert(base_mul_encoding(b@) == b.bytes_spec());
}

// ------------------------------------------------------------------------
// Generators
// ------------------------------------------------------------------------

/// The two generators: `b` is the basepoint `G`, which carries values, and
/// `b_blinding` is `H`, which carries blinding factors.
#[derive(Clone, Copy)]
pub struct PedersenGens {
    pub b: Point,
    pub b_blinding: Point,
}

impl PedersenGens {
    pub open spec fn wf(&self) -> bool {
        self.b.wf() && self.b_blinding.wf() && self.b@ == 1
    }

    /// The logarithm of `H` with respect to `G`.
    pub open spec fn h(&self) -> int {
        self.b_blinding@
    }
}

impl Default for PedersenGens {
    fn default() -> (r: PedersenGens)
        ensures
            r.wf(),
            r.b_blinding.bytes_spec() == hash_to_point_encoding(base_mul_encoding(1)),
    {
        PedersenGens { b: Point::basepoint(), b_blinding: Point::blinding_base() }
    }
}

} // verus!
