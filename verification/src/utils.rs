//! Assorted cryptographic utilities: randomness, hashing to the field,
//! field-element codecs, XOR, Pedersen commitments and a value-range check.

use vstd::prelude::*;
use rand::RngCore;
use crate::errors::CryptoError;
use crate::algebra::{Fe, Ge, fe_of_le, fe_canon, fe_wf, ge_wf, fe_from_le_bytes, fe_parse,
    ge_mul_gen, ge_mul, ge_add, gen_mul, ge_mul_of, ge_add_of};
use crate::hash::{sha3_256_of, sha3_256_bytes, spec_h2f256, mask_top_bit};

verus! {

/// Numeric strict order of two equal-length little-endian byte strings.
pub open spec fn spec_le_bytes_lt(a: Seq<u8>, b: Seq<u8>) -> bool
    decreases a.len(),
{
    if a.len() == 0 || b.len() == 0 {
        false
    } else if a[a.len() - 1] < b[b.len() - 1] {
        true
    } else if a[a.len() - 1] > b[b.len() - 1] {
        false
    } else {
        spec_le_bytes_lt(a.take(a.len() - 1), b.take(b.len() - 1))
    }
}

/// The scalar a Pedersen commitment opens to: `g . value + h . randomness`,
/// with `h = g . 2`.
pub open spec fn spec_commitment(value: Seq<u8>, randomness: Seq<u8>) -> Seq<u8> {
    ge_add_of(gen_mul(value), ge_mul_of(gen_mul(fe_of_le(seq![2u8])), randomness))
}

/// Cryptographic utilities.
pub struct CryptoUtils;

/// Relies on `rand::RngCore::fill_bytes` with the thread-local generator:
/// `length` freshly drawn bytes. Nothing is promised of their values.
#[verifier::external_body]
fn fill_random(length: usize) -> (r: Vec<u8>)
    ensures
        r@.len() == length,
{
    let mut bytes = vec![0u8; length];
    rand::thread_rng().fill_bytes(&mut bytes);
    bytes
}

impl CryptoUtils {
    /// Freshly drawn random bytes of the requested length.
    pub fn random_bytes(length: usize) -> (r: Vec<u8>)
        ensures
            r@.len() == length,
    {
        fill_random(length)
    }

    /// The first 255 bits of the SHA3-256 digest of `data`, reduced into
    /// the scalar field; total and deterministic.
    pub fn hash_to_field(data: &[u8]) -> (r: Result<Fe, CryptoError>)
        ensures
            r matches Ok(f) && f@ == spec_h2f256(data@) && fe_wf(f@),
    {
        let mut h = sha3_256_bytes(data);
        mask_top_bit(&mut h);
        Ok(fe_from_le_bytes(&h))
    }

    /// Canonical encoding of a field element; never fails.
    pub fn serialize_field(field: &Fe) -> (r: Result<Vec<u8>, CryptoError>)
        ensures
            r matches Ok(b) && b@ == field@,
    {
        Ok(field.to_bytes())
    }

    /// Parses a canonical field-element encoding: succeeds exactly on
    /// 32-byte canonical encodings, returning the element with those bytes.
    pub fn deserialize_field(bytes: &Vec<u8>) -> (r: Result<Fe, CryptoError>)
        ensures
            r is Ok <==> bytes@.len() == 32 && fe_canon(bytes@),
            r matches Ok(f) ==> f@ == bytes@ && fe_wf(f@),
    {
        if bytes.len() != 32 {
            return Err(CryptoError::ParameterError("field encoding must be 32 bytes".to_string()));
        }
        match fe_parse(bytes) {
            Some(f) => Ok(f),
            None => Err(CryptoError::ParameterError("non-canonical field encoding".to_string())),
        }
    }

    /// XOR of two byte strings; errors exactly when the lengths differ.
    pub fn xor_bytes(a: &[u8], b: &[u8]) -> (r: Result<Vec<u8>, CryptoError>)
        ensures
            r is Ok <==> a@.len() == b@.len(),
            r matches Ok(v) ==> v@.len() == a@.len() && forall|i: int|
                0 <= i < v@.len() ==> v@[i] == (a@[i] ^ b@[i]),
    {
        if a.len() != b.len() {
            return Err(CryptoError::ParameterError(
                "Byte arrays must have equal length".to_string(),
            ));
        }
        let n = a.len();
        let mut out: Vec<u8> = Vec::new();
        let mut i: usize = 0;
        while i < n
            invariant
                n == a@.len() == b@.len(),
                0 <= i <= n,
                out@.len() == i,
                forall|j: int| 0 <= j < i ==> out@[j] == (a@[j] ^ b@[j]),
            decreases n - i,
        {
            let x = *vstd::slice::slice_index_get(a, i);
            let y = *vstd::slice::slice_index_get(b, i);
            out.push(x ^ y);
            i = i + 1;
        }
        Ok(out)
    }

    /// Pedersen commitment to `value` under `randomness`:
    /// `g . value + h . randomness` with `h = g . 2`.
    pub fn commit_to_field(value: &Fe, randomness: &Fe) -> (r: Ge)
        ensures
            r@ == spec_commitment(value@, randomness@),
            ge_wf(r@),
    {
        let g_v = ge_mul_gen(value);
        let mut two: Vec<u8> = Vec::new();
        two.push(2u8);
        proof {
            assert(two@ =~= seq![2u8]);
        }
        let h = ge_mul_gen(&fe_from_le_bytes(&two));
        let h_r = ge_mul(&h, randomness);
        ge_add(&g_v, &h_r)
    }

    /// Whether `value` is numerically below `max`, comparing canonical
    /// little-endian encodings.
    pub fn verify_field_range(value: &Fe, max: &Fe) -> (r: bool)
        requires
            fe_wf(value@),
            fe_wf(max@),
        ensures
            r == spec_le_bytes_lt(value@, max@),
    {
        le_bytes_lt(value.as_bytes(), max.as_bytes())
    }

    /// A range opening for `value` below `max`: the encodings of value and
    /// randomness, in order. Errors exactly when `value` is not below `max`.
    pub fn generate_range_proof(value: &Fe, max: &Fe, randomness: &Fe) -> (r: Result<
        Vec<u8>,
        CryptoError,
    >)
        requires
            fe_wf(value@),
            fe_wf(max@),
        ensures
            r is Ok <==> spec_le_bytes_lt(value@, max@),
            r matches Ok(p) ==> p@ == value@ + randomness@,
    {
        if !Self::verify_field_range(value, max) {
            return Err(CryptoError::ParameterError("Value out of range".to_string()));
        }
        let mut proof_bytes = value.to_bytes();
        let mut rand_bytes = randomness.to_bytes();
        proof_bytes.append(&mut rand_bytes);
        Ok(proof_bytes)
    }
}

/// Numeric strict order of two equal-length little-endian byte strings,
/// comparing from the most significant byte down.
pub fn le_bytes_lt(a: &Vec<u8>, b: &Vec<u8>) -> (r: bool)
    requires
        a@.len() == b@.len(),
    ensures
        r == spec_le_bytes_lt(a@, b@),
{
    let mut i: usize = a.len();
    proof {
        assert(a@.take(i as int) =~= a@);
        assert(b@.take(i as int) =~= b@);
    }
    while i > 0
        invariant
            a@.len() == b@.len(),
            0 <= i <= a@.len(),
            forall|j: int| i <= j < a@.len() ==> a@[j] == b@[j],
            spec_le_bytes_lt(a@, b@) == spec_le_bytes_lt(a@.take(i as int), b@.take(i as int)),
        decreases i,
    {
        i = i - 1;
        let x = *vstd::std_specs::vec::vec_index(a, i);
        let y = *vstd::std_specs::vec::vec_index(b, i);
        proof {
            assert(a@.take(i + 1)[i as int] == a@[i as int]);
            assert(b@.take(i + 1)[i as int] == b@[i as int]);
            assert(a@.take(i + 1).take(i as int) =~= a@.take(i as int));
            assert(b@.take(i + 1).take(i as int) =~= b@.take(i as int));
        }
        if x < y {
            return true;
        }
        if x > y {
            return false;
        }
    }
    proof {
        assert(a@.take(0) =~= Seq::<u8>::empty());
    }
    false
}

} // verus!
