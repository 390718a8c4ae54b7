//! Scalar-field and curve-group values, held as their canonical byte
//! encodings. A scalar (`Fe`) is the 32-byte little-endian encoding of an
//! element of the BLS12-381 scalar field; a group element (`Ge`, `G2e`) is
//! the canonical compressed encoding of a point of the prime-order subgroup
//! of the first (48 bytes) or second (96 bytes) pairing group. All arithmetic
//! is delegated to the curve library behind trusted wrappers; the
//! contracts name the results so the logic above can be exact.

use vstd::prelude::*;
use ark_ec::{AffineCurve, ProjectiveCurve};
use ark_ff::PrimeField;
use ark_serialize::{CanonicalDeserialize, CanonicalSerialize};

verus! {

/// The integer a little-endian byte string encodes.
pub open spec fn spec_le_int(b: Seq<u8>) -> int
    decreases b.len(),
{
    if b.len() == 0 {
        0int
    } else {
        b[0] + 256 * spec_le_int(b.skip(1))
    }
}

/// 256 to the power `i`.
pub open spec fn spec_pow256(i: int) -> int
    decreases i,
{
    if i <= 0 {
        1int
    } else {
        256 * spec_pow256(i - 1)
    }
}

/// The order of the BLS12-381 scalar field.
pub open spec fn field_order() -> int {
    0x73eda753299d7d483339d80809a1d80553bda402fffe5bfeffffffff00000001int
}

/// The canonical 32-byte little-endian encoding of a field value.
pub open spec fn spec_fe_enc(n: int) -> Seq<u8> {
    Seq::new(32, |i: int| ((n / spec_pow256(i)) % 256) as u8)
}

/// The scalar whose canonical encoding is `b`: its little-endian value
/// reduced modulo the field order, re-encoded canonically. The trusted
/// wrappers below claim the curve library computes exactly this.
pub closed spec fn fe_of_le(b: Seq<u8>) -> Seq<u8> {
    spec_fe_enc(spec_le_int(b) % field_order())
}

/// Whether `b` is the canonical 32-byte encoding of a scalar: a
/// little-endian value strictly below the field order.
pub closed spec fn fe_canon(b: Seq<u8>) -> bool {
    b.len() == 32 && spec_le_int(b) < field_order()
}

/// Canonical encoding of the field sum of the values `a` and `b` encode.
pub closed spec fn fe_add_of(a: Seq<u8>, b: Seq<u8>) -> Seq<u8> {
    spec_fe_enc((spec_le_int(a) + spec_le_int(b)) % field_order())
}

/// Canonical encoding of the field difference of the values `a` and `b`
/// encode.
pub closed spec fn fe_sub_of(a: Seq<u8>, b: Seq<u8>) -> Seq<u8> {
    spec_fe_enc((spec_le_int(a) - spec_le_int(b)) % field_order())
}

/// Canonical encoding of the field product of the values `a` and `b`
/// encode.
pub closed spec fn fe_mul_of(a: Seq<u8>, b: Seq<u8>) -> Seq<u8> {
    spec_fe_enc((spec_le_int(a) * spec_le_int(b)) % field_order())
}

/// Whether `b` is a compressed encoding of a point of the prime-order
/// subgroup of the first pairing group that checked deserialization
/// accepts (a serializer output, or an infinity-flagged zero encoding).
pub uninterp spec fn ge_valid(b: Seq<u8>) -> bool;

/// Encoding of `g . k`: the subgroup generator multiplied by the scalar
/// encoded by `k`.
pub uninterp spec fn gen_mul(k: Seq<u8>) -> Seq<u8>;

/// Encoding of the point encoded by `p` multiplied by the scalar `k`.
pub uninterp spec fn ge_mul_of(p: Seq<u8>, k: Seq<u8>) -> Seq<u8>;

/// Encoding of the sum of the points encoded by `p` and `q`.
pub uninterp spec fn ge_add_of(p: Seq<u8>, q: Seq<u8>) -> Seq<u8>;

/// Encoding of the difference of the points encoded by `p` and `q`.
pub uninterp spec fn ge_sub_of(p: Seq<u8>, q: Seq<u8>) -> Seq<u8>;

/// Whether `b` is a compressed encoding of a point of the second pairing
/// group that checked deserialization accepts.
pub uninterp spec fn g2_valid(b: Seq<u8>) -> bool;

/// Encoding of the second group's generator multiplied by the scalar `k`.
pub uninterp spec fn g2_gen_mul(k: Seq<u8>) -> Seq<u8>;

/// A scalar field element, as its canonical 32-byte little-endian encoding.
#[derive(Debug, Clone, PartialEq, Eq, Hash)]
pub struct Fe {
    bytes: Vec<u8>,
}

/// A point of the prime-order subgroup of the first pairing group, as its
/// canonical 48-byte compressed encoding.
#[derive(Debug, Clone, PartialEq, Eq, Hash)]
pub struct Ge {
    bytes: Vec<u8>,
}

/// A point of the second pairing group, as its canonical 96-byte compressed
/// encoding.
#[derive(Debug, Clone, PartialEq, Eq, Hash)]
pub struct G2e {
    bytes: Vec<u8>,
}

impl View for Fe {
    type V = Seq<u8>;

    closed spec fn view(&self) -> Seq<u8> {
        self.bytes@
    }
}

impl View for Ge {
    type V = Seq<u8>;

    closed spec fn view(&self) -> Seq<u8> {
        self.bytes@
    }
}

impl View for G2e {
    type V = Seq<u8>;

    closed spec fn view(&self) -> Seq<u8> {
        self.bytes@
    }
}

/// Well-formedness of a scalar encoding.
pub open spec fn fe_wf(b: Seq<u8>) -> bool {
    b.len() == 32 && fe_canon(b)
}

/// Well-formedness of a first-group point encoding.
pub open spec fn ge_wf(b: Seq<u8>) -> bool {
    b.len() == 48 && ge_valid(b)
}

/// Well-formedness of a second-group point encoding.
pub open spec fn g2_wf(b: Seq<u8>) -> bool {
    b.len() == 96 && g2_valid(b)
}

/// Copies a byte vector.
pub fn copy_bytes(v: &Vec<u8>) -> (r: Vec<u8>)
    ensures
        r@ == v@,
{
    let mut r: Vec<u8> = Vec::new();
    r.extend_from_slice(v.as_slice());
    proof {
        assert(r@ =~= v@);
    }
    r
}

/// Compares two byte vectors for equality.
pub fn bytes_eq(a: &Vec<u8>, b: &Vec<u8>) -> (r: bool)
    ensures
        r == (a@ == b@),
{
    if a.len() != b.len() {
        proof {
            assert(a@.len() != b@.len());
        }
        return false;
    }
    let n = a.len();
    let mut i: usize = 0;
    while i < n
        invariant
            n == a@.len() == b@.len(),
            0 <= i <= n,
            forall|j: int| 0 <= j < i ==> a@[j] == b@[j],
        decreases n - i,
    {
        if a[i] != b[i] {
            return false;
        }
        i = i + 1;
    }
    proof {
        assert(a@ =~= b@);
    }
    true
}

impl Fe {
    /// The encoded bytes.
    pub fn as_bytes(&self) -> (r: &Vec<u8>)
        ensures
            r@ == self@,
    {
        &self.bytes
    }

    /// A copy of the encoded bytes.
    pub fn to_bytes(&self) -> (r: Vec<u8>)
        ensures
            r@ == self@,
    {
        copy_bytes(&self.bytes)
    }

    /// A copy of this scalar.
    pub fn duplicate(&self) -> (r: Fe)
        ensures
            r@ == self@,
    {
        Fe { bytes: copy_bytes(&self.bytes) }
    }

    /// Scalar equality (equality of canonical encodings).
    pub fn equals(&self, other: &Fe) -> (r: bool)
        ensures
            r == (self@ == other@),
    {
        bytes_eq(&self.bytes, &other.bytes)
    }

    /// Whether this scalar is zero.
    pub fn is_zero(&self) -> (r: bool)
        requires
            fe_wf(self@),
        ensures
            r == (self@ =~= Seq::new(32, |i: int| 0u8)),
    {
        let mut i: usize = 0;
        while i < 32
            invariant
                self@.len() == 32,
                0 <= i <= 32,
                forall|j: int| 0 <= j < i ==> self@[j] == 0u8,
            decreases 32 - i,
        {
            if *vstd::std_specs::vec::vec_index(&self.bytes, i) != 0u8 {
                proof {
                    assert(self@[i as int] != 0u8);
                }
                return false;
            }
            i = i + 1;
        }
        proof {
            assert(self@ =~= Seq::new(32, |i: int| 0u8));
        }
        true
    }
}

impl Fe {
    /// The zero scalar.
    pub fn zero() -> (r: Fe)
        ensures
            r@ =~= Seq::new(32, |i: int| 0u8),
            fe_wf(r@),
    {
        fe_zero()
    }

    /// The unit scalar.
    pub fn one() -> (r: Fe)
        ensures
            r@ =~= Seq::new(32, |i: int| if i == 0 { 1u8 } else { 0u8 }),
            fe_wf(r@),
    {
        fe_one()
    }

    /// The scalar of a small integer, read little-endian and reduced.
    pub fn from_u64(x: u64) -> (r: Fe)
        ensures
            r@ == fe_of_le(vstd::bytes::spec_u64_to_le_bytes(x)),
            fe_wf(r@),
    {
        let b = vstd::bytes::u64_to_le_bytes(x);
        fe_from_le_bytes(&b)
    }

    /// A freshly drawn scalar.
    pub fn random() -> (r: Fe)
        ensures
            fe_wf(r@),
    {
        fe_rand()
    }
}

impl Ge {
    /// The encoded bytes.
    pub fn as_bytes(&self) -> (r: &Vec<u8>)
        ensures
            r@ == self@,
    {
        &self.bytes
    }

    /// A copy of the encoded bytes.
    pub fn to_bytes(&self) -> (r: Vec<u8>)
        ensures
            r@ == self@,
    {
        copy_bytes(&self.bytes)
    }

    /// A copy of this point.
    pub fn duplicate(&self) -> (r: Ge)
        ensures
            r@ == self@,
    {
        Ge { bytes: copy_bytes(&self.bytes) }
    }

    /// Point equality (equality of canonical encodings).
    pub fn equals(&self, other: &Ge) -> (r: bool)
        ensures
            r == (self@ == other@),
    {
        bytes_eq(&self.bytes, &other.bytes)
    }
}

impl G2e {
    /// The encoded bytes.
    pub fn as_bytes(&self) -> (r: &Vec<u8>)
        ensures
            r@ == self@,
    {
        &self.bytes
    }

    /// A copy of the encoded bytes.
    pub fn to_bytes(&self) -> (r: Vec<u8>)
        ensures
            r@ == self@,
    {
        copy_bytes(&self.bytes)
    }

    /// A copy of this point.
    pub fn duplicate(&self) -> (r: G2e)
        ensures
            r@ == self@,
    {
        G2e { bytes: copy_bytes(&self.bytes) }
    }
}

/// Relies on `ark_ff::PrimeField::from_le_bytes_mod_order` and
/// `ark_serialize::CanonicalSerialize::serialize` on the BLS12-381 scalar
/// field: reads `b` little-endian, reduces modulo the field order, and
/// re-encodes canonically (32 bytes, below the order).
#[verifier::external_body]
pub(crate) fn fe_from_le_bytes(b: &Vec<u8>) -> (r: Fe)
    ensures
        r@ == fe_of_le(b@),
        fe_wf(r@),
{
    let x = ark_bls12_381::Fr::from_le_bytes_mod_order(b);
    let mut out: Vec<u8> = Vec::new();
    x.serialize(&mut out).unwrap();
    Fe { bytes: out }
}

/// Relies on `ark_ff::Zero::zero` for the BLS12-381 scalar field: the zero
/// scalar encodes as 32 zero bytes.
#[verifier::external_body]
pub(crate) fn fe_zero() -> (r: Fe)
    ensures
        r@ =~= Seq::new(32, |i: int| 0u8),
        fe_wf(r@),
{
    let x = ark_bls12_381::Fr::from(0u64);
    let mut out: Vec<u8> = Vec::new();
    x.serialize(&mut out).unwrap();
    Fe { bytes: out }
}

/// Relies on `ark_ff::One::one` for the BLS12-381 scalar field: the unit
/// scalar encodes as the byte 1 followed by 31 zero bytes.
#[verifier::external_body]
pub(crate) fn fe_one() -> (r: Fe)
    ensures
        r@ =~= Seq::new(32, |i: int| if i == 0 { 1u8 } else { 0u8 }),
        fe_wf(r@),
{
    let x = ark_bls12_381::Fr::from(1u64);
    let mut out: Vec<u8> = Vec::new();
    x.serialize(&mut out).unwrap();
    Fe { bytes: out }
}

/// Relies on `ark_ff::UniformRand::rand` with the thread-local generator of
/// the `rand` crate: a uniformly drawn scalar. Nothing is promised of the
/// value beyond well-formedness.
#[verifier::external_body]
pub(crate) fn fe_rand() -> (r: Fe)
    ensures
        fe_wf(r@),
{
    let mut rng = rand::thread_rng();
    let x = <ark_bls12_381::Fr as ark_ff::UniformRand>::rand(&mut rng);
    let mut out: Vec<u8> = Vec::new();
    x.serialize(&mut out).unwrap();
    Fe { bytes: out }
}

/// Relies on `ark_serialize::CanonicalDeserialize::deserialize` for the
/// BLS12-381 scalar field: succeeds exactly on canonical encodings (32
/// bytes, value below the field order), and re-encodes to the same bytes.
#[verifier::external_body]
pub(crate) fn fe_parse(b: &Vec<u8>) -> (r: Option<Fe>)
    requires
        b@.len() == 32,
    ensures
        r is Some <==> fe_canon(b@),
        r matches Some(f) ==> f@ == b@ && fe_wf(f@),
{
    match ark_bls12_381::Fr::deserialize(&b[..]) {
        Ok(_) => Some(Fe { bytes: b.clone() }),
        Err(_) => None,
    }
}

/// Relies on field addition of the BLS12-381 scalar field.
#[verifier::external_body]
pub(crate) fn fe_add(a: &Fe, b: &Fe) -> (r: Fe)
    ensures
        r@ == fe_add_of(a@, b@),
        fe_wf(r@),
{
    let x = ark_bls12_381::Fr::from_le_bytes_mod_order(&a.bytes);
    let y = ark_bls12_381::Fr::from_le_bytes_mod_order(&b.bytes);
    let mut out: Vec<u8> = Vec::new();
    (x + y).serialize(&mut out).unwrap();
    Fe { bytes: out }
}

/// Relies on field subtraction of the BLS12-381 scalar field. The second
/// clause records that scalar multiplication of the generator is a
/// homomorphism from the scalar field to the group:
/// `g . (a - b) = g . a - g . b`.
#[verifier::external_body]
pub(crate) fn fe_sub(a: &Fe, b: &Fe) -> (r: Fe)
    ensures
        r@ == fe_sub_of(a@, b@),
        fe_wf(r@),
        gen_mul(r@) == ge_sub_of(gen_mul(a@), gen_mul(b@)),
{
    let x = ark_bls12_381::Fr::from_le_bytes_mod_order(&a.bytes);
    let y = ark_bls12_381::Fr::from_le_bytes_mod_order(&b.bytes);
    let mut out: Vec<u8> = Vec::new();
    (x - y).serialize(&mut out).unwrap();
    Fe { bytes: out }
}

/// Relies on field multiplication of the BLS12-381 scalar field. The second
/// clause records that scalar multiplications commute through the generator:
/// `g . (a * b) = (g . b) . a`.
#[verifier::external_body]
pub(crate) fn fe_mul(a: &Fe, b: &Fe) -> (r: Fe)
    ensures
        r@ == fe_mul_of(a@, b@),
        fe_wf(r@),
        gen_mul(r@) == ge_mul_of(gen_mul(b@), a@),
{
    let x = ark_bls12_381::Fr::from_le_bytes_mod_order(&a.bytes);
    let y = ark_bls12_381::Fr::from_le_bytes_mod_order(&b.bytes);
    let mut out: Vec<u8> = Vec::new();
    (x * y).serialize(&mut out).unwrap();
    Fe { bytes: out }
}

/// Relies on `ark_ec::ProjectiveCurve::prime_subgroup_generator` and `mul`
/// for BLS12-381 G1: the generator multiplied by the scalar `k`, encoded
/// compressed.
#[verifier::external_body]
pub(crate) fn ge_mul_gen(k: &Fe) -> (r: Ge)
    ensures
        r@ == gen_mul(k@),
        ge_wf(r@),
{
    let s = ark_bls12_381::Fr::from_le_bytes_mod_order(&k.bytes);
    let p = ark_bls12_381::G1Projective::prime_subgroup_generator().mul(s.into_repr());
    let mut out: Vec<u8> = Vec::new();
    p.serialize(&mut out).unwrap();
    Ge { bytes: out }
}

/// Relies on `ark_ec::AffineCurve::mul` for BLS12-381 G1: the point encoded
/// by `p` multiplied by the scalar `k`.
#[verifier::external_body]
pub(crate) fn ge_mul(p: &Ge, k: &Fe) -> (r: Ge)
    requires
        ge_wf(p@),
    ensures
        r@ == ge_mul_of(p@, k@),
        ge_wf(r@),
{
    let aff = ark_bls12_381::G1Affine::deserialize(&p.bytes[..]).unwrap();
    let s = ark_bls12_381::Fr::from_le_bytes_mod_order(&k.bytes);
    let q = aff.mul(s.into_repr());
    let mut out: Vec<u8> = Vec::new();
    q.serialize(&mut out).unwrap();
    Ge { bytes: out }
}

/// Relies on group addition of BLS12-381 G1.
#[verifier::external_body]
pub(crate) fn ge_add(p: &Ge, q: &Ge) -> (r: Ge)
    requires
        ge_wf(p@),
        ge_wf(q@),
    ensures
        r@ == ge_add_of(p@, q@),
        ge_wf(r@),
{
    let a = ark_bls12_381::G1Affine::deserialize(&p.bytes[..]).unwrap();
    let b = ark_bls12_381::G1Affine::deserialize(&q.bytes[..]).unwrap();
    let s = a.into_projective() + b.into_projective();
    let mut out: Vec<u8> = Vec::new();
    s.serialize(&mut out).unwrap();
    Ge { bytes: out }
}

/// Relies on group subtraction of BLS12-381 G1.
#[verifier::external_body]
pub(crate) fn ge_sub(p: &Ge, q: &Ge) -> (r: Ge)
    requires
        ge_wf(p@),
        ge_wf(q@),
    ensures
        r@ == ge_sub_of(p@, q@),
        ge_wf(r@),
{
    let a = ark_bls12_381::G1Affine::deserialize(&p.bytes[..]).unwrap();
    let b = ark_bls12_381::G1Affine::deserialize(&q.bytes[..]).unwrap();
    let s = a.into_projective() - b.into_projective();
    let mut out: Vec<u8> = Vec::new();
    s.serialize(&mut out).unwrap();
    Ge { bytes: out }
}

/// Relies on `ark_serialize::CanonicalDeserialize::deserialize` for
/// BLS12-381 G1: succeeds exactly on the compressed encodings the curve
/// library's checked deserialization accepts — serializer outputs, plus
/// infinity-flagged encodings (any sub-modulus payload under the infinity
/// flag, all decoding to the zero point) — and the returned value keeps
/// the input bytes.
#[verifier::external_body]
pub(crate) fn ge_parse(b: &Vec<u8>) -> (r: Option<Ge>)
    requires
        b@.len() == 48,
    ensures
        r is Some <==> ge_valid(b@),
        r matches Some(p) ==> p@ == b@ && ge_wf(p@),
{
    match ark_bls12_381::G1Affine::deserialize(&b[..]) {
        Ok(_) => Some(Ge { bytes: b.clone() }),
        Err(_) => None,
    }
}

/// Relies on `ark_serialize::CanonicalDeserialize::deserialize` for
/// BLS12-381 G2: succeeds exactly on the compressed encodings the curve
/// library's checked deserialization accepts, and the returned value
/// keeps the input bytes.
#[verifier::external_body]
pub(crate) fn g2_parse(b: &Vec<u8>) -> (r: Option<G2e>)
    requires
        b@.len() == 96,
    ensures
        r is Some <==> g2_valid(b@),
        r matches Some(p) ==> p@ == b@ && g2_wf(p@),
{
    match ark_bls12_381::G2Affine::deserialize(&b[..]) {
        Ok(_) => Some(G2e { bytes: b.clone() }),
        Err(_) => None,
    }
}

/// Relies on `ark_ec::ProjectiveCurve::prime_subgroup_generator` and `mul`
/// for BLS12-381 G2: the second group's generator multiplied by `k`.
#[verifier::external_body]
pub(crate) fn g2_mul_gen(k: &Fe) -> (r: G2e)
    ensures
        r@ == g2_gen_mul(k@),
        r@.len() == 96,
        g2_valid(r@),
{
    let s = ark_bls12_381::Fr::from_le_bytes_mod_order(&k.bytes);
    let p = ark_bls12_381::G2Projective::prime_subgroup_generator().mul(s.into_repr());
    let mut out: Vec<u8> = Vec::new();
    p.serialize(&mut out).unwrap();
    G2e { bytes: out }
}

} // verus!
