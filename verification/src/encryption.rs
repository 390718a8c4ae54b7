//! Symmetric encryption of stored and transmitted data: a keystream
//! derived from the key and a fresh initialization vector, an
//! authentication tag over the ciphertext, and an additively homomorphic
//! group encryption. The keystream cipher is a stand-in: consensus never
//! depends on it, and a production node substitutes an authenticated
//! cipher behind the same interface.

use vstd::prelude::*;
use crate::errors::CryptoError;
use crate::algebra::{Fe, Ge, fe_wf, ge_wf, gen_mul, ge_mul_of, ge_add_of, fe_rand, ge_mul_gen,
    ge_mul, ge_add, bytes_eq, copy_bytes};
use crate::hash::{sha3_256_of, sha3_256_bytes};
use crate::utils::CryptoUtils;

verus! {

/// The derived keystream key: the digest of the key followed by the
/// initialization vector.
pub open spec fn spec_derived_key(key: Seq<u8>, iv: Seq<u8>) -> Seq<u8> {
    sha3_256_of(key + iv)
}

/// The keystream transform: each byte is folded with the derived key and
/// the initialization vector, cyclically. Applying it twice with the same
/// key and vector restores the input.
pub open spec fn spec_stream(data: Seq<u8>, dk: Seq<u8>, iv: Seq<u8>) -> Seq<u8>
    recommends
        dk.len() == 32,
        iv.len() == 16,
{
    Seq::new(data.len(), |i: int| (data[i] ^ dk[i % 32]) ^ iv[i % 16])
}

/// The authentication tag: the digest of the derived key followed by the
/// ciphertext.
pub open spec fn spec_tag(dk: Seq<u8>, ciphertext: Seq<u8>) -> Seq<u8> {
    sha3_256_of(dk + ciphertext)
}

/// The keystream transform is its own inverse.
pub proof fn lemma_stream_roundtrip(data: Seq<u8>, dk: Seq<u8>, iv: Seq<u8>)
    requires
        dk.len() == 32,
        iv.len() == 16,
    ensures
        spec_stream(spec_stream(data, dk, iv), dk, iv) == data,
{
    assert(forall|a: u8, k: u8, v: u8| (((a ^ k) ^ v) ^ k) ^ v == a) by (bit_vector);
    assert(spec_stream(spec_stream(data, dk, iv), dk, iv) =~= data);
}

/// Encrypted data: initialization vector, ciphertext, and tag.
#[derive(Clone, Debug, PartialEq, Eq)]
pub struct EncryptedData {
    /// Initialization vector (16 bytes).
    pub iv: Vec<u8>,
    /// Encrypted content.
    pub ciphertext: Vec<u8>,
    /// Authentication tag over the ciphertext.
    pub tag: Vec<u8>,
}

/// The symmetric encryption scheme.
pub struct EncryptionScheme {
    security_level: usize,
    key_size: usize,
}

impl EncryptionScheme {
    pub closed spec fn spec_key_size(&self) -> usize {
        self.key_size
    }

    /// Accepts exactly security levels of at least 128 bits; the key size
    /// is the level in bytes.
    pub fn new(security_level: usize) -> (r: Result<EncryptionScheme, CryptoError>)
        ensures
            r is Ok <==> security_level >= 128,
            r matches Ok(s) ==> s.spec_key_size() == security_level / 8,
    {
        if security_level < 128 {
            return Err(CryptoError::ParameterError(
                "Security level must be at least 128 bits".to_string(),
            ));
        }
        Ok(EncryptionScheme { security_level, key_size: security_level / 8 })
    }

    /// Draws a fresh key of the configured size.
    pub fn generate_key(&self) -> (r: Vec<u8>)
        ensures
            r@.len() == self.spec_key_size(),
    {
        CryptoUtils::random_bytes(self.key_size)
    }

    /// Encrypts under a fresh initialization vector: whatever vector was
    /// drawn, the ciphertext is the keystream transform of the data and
    /// the tag authenticates the ciphertext; never fails.
    pub fn encrypt(&self, data: &[u8], key: &[u8]) -> (r: Result<EncryptedData, CryptoError>)
        ensures
            r matches Ok(e) && ({
                let dk = spec_derived_key(key@, e.iv@);
                &&& e.iv@.len() == 16
                &&& e.ciphertext@ == spec_stream(data@, dk, e.iv@)
                &&& e.tag@ == spec_tag(dk, e.ciphertext@)
            }),
    {
        let iv = CryptoUtils::random_bytes(16);
        let dk = Self::derive_key(key, &iv);
        let ciphertext = Self::stream(data, &dk, &iv);
        let tag = Self::make_tag(&dk, ciphertext.as_slice());
        Ok(EncryptedData { iv, ciphertext, tag })
    }

    /// Decrypts: accepts exactly a 16-byte vector with a tag that
    /// authenticates the ciphertext under the derived key, and then
    /// returns the inverse keystream transform — so decryption restores
    /// what encryption produced under the same key.
    pub fn decrypt(&self, encrypted: &EncryptedData, key: &[u8]) -> (r: Result<Vec<u8>, CryptoError>)
        ensures
            r is Ok <==> (encrypted.iv@.len() == 16 && encrypted.tag@ == spec_tag(
                spec_derived_key(key@, encrypted.iv@),
                encrypted.ciphertext@,
            )),
            r matches Ok(p) ==> p@ == spec_stream(
                encrypted.ciphertext@,
                spec_derived_key(key@, encrypted.iv@),
                encrypted.iv@,
            ),
    {
        if encrypted.iv.len() != 16 {
            return Err(CryptoError::EncryptionError("Invalid initialization vector".to_string()));
        }
        let dk = Self::derive_key(key, &encrypted.iv);
        let computed_tag = Self::make_tag(&dk, encrypted.ciphertext.as_slice());
        if !bytes_eq(&computed_tag, &encrypted.tag) {
            return Err(CryptoError::EncryptionError("Invalid authentication tag".to_string()));
        }
        Ok(Self::stream(encrypted.ciphertext.as_slice(), &dk, &encrypted.iv))
    }

    /// Derives the keystream key from the key and vector.
    fn derive_key(key: &[u8], iv: &Vec<u8>) -> (r: Vec<u8>)
        ensures
            r@ == spec_derived_key(key@, iv@),
            r@.len() == 32,
    {
        let mut buf: Vec<u8> = Vec::new();
        buf.extend_from_slice(key);
        buf.extend_from_slice(iv.as_slice());
        proof {
            assert(buf@ =~= key@ + iv@);
        }
        sha3_256_bytes(buf.as_slice())
    }

    /// Applies the keystream transform.
    fn stream(data: &[u8], dk: &Vec<u8>, iv: &Vec<u8>) -> (r: Vec<u8>)
        requires
            dk@.len() == 32,
            iv@.len() == 16,
        ensures
            r@ == spec_stream(data@, dk@, iv@),
    {
        let n = data.len();
        let mut out: Vec<u8> = Vec::new();
        let mut i: usize = 0;
        while i < n
            invariant
                n == data@.len(),
                dk@.len() == 32,
                iv@.len() == 16,
                0 <= i <= n,
                out@.len() == i,
                forall|j: int| 0 <= j < i ==> out@[j] == ((data@[j] ^ dk@[j % 32]) ^ iv@[j % 16]),
            decreases n - i,
        {
            let b = *vstd::slice::slice_index_get(data, i);
            let k = *vstd::std_specs::vec::vec_index(dk, i % 32);
            let v = *vstd::std_specs::vec::vec_index(iv, i % 16);
            out.push((b ^ k) ^ v);
            i = i + 1;
        }
        proof {
            assert(out@ =~= spec_stream(data@, dk@, iv@));
        }
        out
    }

    /// Computes the authentication tag over the ciphertext.
    fn make_tag(dk: &Vec<u8>, ciphertext: &[u8]) -> (r: Vec<u8>)
        ensures
            r@ == spec_tag(dk@, ciphertext@),
    {
        let mut buf = copy_bytes(dk);
        buf.extend_from_slice(ciphertext);
        proof {
            assert(buf@ =~= dk@ + ciphertext@);
        }
        sha3_256_bytes(buf.as_slice())
    }

    /// Additively homomorphic encryption of a scalar under a group public
    /// key: whatever blinding scalar was drawn, the pair is the blinded
    /// generator and the blinded message commitment.
    pub fn homomorphic_encrypt(&self, value: &Fe, public_key: &Ge) -> (r: Result<
        (Ge, Ge),
        CryptoError,
    >)
        requires
            ge_wf(public_key@),
        ensures
            r matches Ok(c) && (exists|blind: Seq<u8>|
                fe_wf(blind) && c.0@ == gen_mul(blind) && c.1@ == ge_add_of(
                    ge_mul_of(public_key@, blind),
                    gen_mul(value@),
                )),
    {
        let blind = fe_rand();
        let c1 = ge_mul_gen(&blind);
        let shared = ge_mul(public_key, &blind);
        let gm = ge_mul_gen(value);
        let c2 = ge_add(&shared, &gm);
        proof {
            assert(fe_wf(blind@) && c1@ == gen_mul(blind@) && c2@ == ge_add_of(
                ge_mul_of(public_key@, blind@),
                gen_mul(value@),
            ));
        }
        Ok((c1, c2))
    }
}

} // verus!
