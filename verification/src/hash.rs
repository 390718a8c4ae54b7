//! Hashing: byte digests in four variants and hashing to a scalar field
//! element. Hash-to-field interprets the first 255 bits of the digest —
//! the field's bit length — little-endian and reduces them modulo the
//! field order, so it is total, deterministic, and reproducible bit for
//! bit across implementations.

use vstd::prelude::*;
use sha3::Digest;
use crate::errors::CryptoError;
use crate::algebra::{Fe, fe_of_le, fe_wf, fe_from_le_bytes};

verus! {

/// SHA3-256 digest of `data` (32 bytes).
pub uninterp spec fn sha3_256_of(data: Seq<u8>) -> Seq<u8>;

/// SHA3-512 digest of `data` (64 bytes).
pub uninterp spec fn sha3_512_of(data: Seq<u8>) -> Seq<u8>;

/// Blake2b-512 digest of `data` (64 bytes).
pub uninterp spec fn blake2b_of(data: Seq<u8>) -> Seq<u8>;

/// Blake2s-256 digest of `data` (32 bytes).
pub uninterp spec fn blake2s_of(data: Seq<u8>) -> Seq<u8>;

/// Relies on `sha3::Sha3_256` (via `Digest::digest`): the 32-byte SHA3-256
/// digest, a function of the input bytes alone.
#[verifier::external_body]
pub(crate) fn sha3_256_bytes(data: &[u8]) -> (r: Vec<u8>)
    ensures
        r@ == sha3_256_of(data@),
        r@.len() == 32,
{
    sha3::Sha3_256::digest(data).to_vec()
}

/// Relies on `sha3::Sha3_512` (via `Digest::digest`): the 64-byte SHA3-512
/// digest, a function of the input bytes alone.
#[verifier::external_body]
pub(crate) fn sha3_512_bytes(data: &[u8]) -> (r: Vec<u8>)
    ensures
        r@ == sha3_512_of(data@),
        r@.len() == 64,
{
    sha3::Sha3_512::digest(data).to_vec()
}

/// Relies on `blake2::Blake2b512` (via `Digest::digest`): the 64-byte
/// Blake2b digest, a function of the input bytes alone.
#[verifier::external_body]
pub(crate) fn blake2b_bytes(data: &[u8]) -> (r: Vec<u8>)
    ensures
        r@ == blake2b_of(data@),
        r@.len() == 64,
{
    blake2::Blake2b512::digest(data).to_vec()
}

/// Relies on `blake2::Blake2s256` (via `Digest::digest`): the 32-byte
/// Blake2s digest, a function of the input bytes alone.
#[verifier::external_body]
pub(crate) fn blake2s_bytes(data: &[u8]) -> (r: Vec<u8>)
    ensures
        r@ == blake2s_of(data@),
        r@.len() == 32,
{
    blake2::Blake2s256::digest(data).to_vec()
}

/// Hash function variant.
#[derive(Clone, Debug, PartialEq, Eq)]
pub enum HashVariant {
    Sha3_256,
    Sha3_512,
    Blake2b,
    Blake2s,
}

/// The digest the given variant produces.
pub open spec fn spec_digest(v: HashVariant, data: Seq<u8>) -> Seq<u8> {
    match v {
        HashVariant::Sha3_256 => sha3_256_of(data),
        HashVariant::Sha3_512 => sha3_512_of(data),
        HashVariant::Blake2b => blake2b_of(data),
        HashVariant::Blake2s => blake2s_of(data),
    }
}

/// The output size of each variant, in bytes.
pub open spec fn spec_digest_len(v: HashVariant) -> int {
    match v {
        HashVariant::Sha3_256 => 32,
        HashVariant::Sha3_512 => 64,
        HashVariant::Blake2b => 64,
        HashVariant::Blake2s => 32,
    }
}

/// A digest with the top bit of its final byte cleared: the first 255
/// bits of a 32-byte digest, the portion hash-to-field interprets.
pub open spec fn spec_mask255(d: Seq<u8>) -> Seq<u8> {
    if d.len() == 0 {
        d
    } else {
        d.update(d.len() - 1, (d[d.len() - 1] & 0x7f) as u8)
    }
}

/// The field element a byte string hashes to: the first 255 bits of its
/// SHA3-256 digest, read little-endian and reduced modulo the field order.
pub open spec fn spec_h2f256(data: Seq<u8>) -> Seq<u8> {
    fe_of_le(spec_mask255(sha3_256_of(data)))
}

/// Clears the top bit of the final byte, keeping the first 255 bits.
pub fn mask_top_bit(v: &mut Vec<u8>)
    ensures
        final(v)@ == spec_mask255(old(v)@),
{
    let n = v.len();
    if n > 0 {
        let last = *vstd::std_specs::vec::vec_index(v, n - 1);
        v.set(n - 1, last & 0x7f);
        proof {
            assert(v@ =~= spec_mask255(old(v)@));
        }
    }
}

/// Hash function configuration: a security level in bits and the variant it
/// selects.
#[derive(Clone, Debug)]
pub struct HashConfig {
    security_level: usize,
    variant: HashVariant,
}

impl HashConfig {
    pub closed spec fn spec_security_level(&self) -> usize {
        self.security_level
    }

    pub closed spec fn spec_variant(&self) -> HashVariant {
        self.variant
    }

    /// Picks SHA3-512 above 256 bits of security, SHA3-256 otherwise.
    pub fn new(security_level: usize) -> (r: HashConfig)
        ensures
            r.spec_security_level() == security_level,
            r.spec_variant() == (if security_level > 256 { HashVariant::Sha3_512 } else {
                HashVariant::Sha3_256
            }),
    {
        let variant = if security_level > 256 {
            HashVariant::Sha3_512
        } else {
            HashVariant::Sha3_256
        };
        HashConfig { security_level, variant }
    }

    /// The configured variant.
    pub fn variant(&self) -> (r: &HashVariant)
        ensures
            *r == self.spec_variant(),
    {
        &self.variant
    }
}

/// Generic hash interface: a byte digest and a digest reduced into the
/// scalar field. The contracts bind every implementation to its declared
/// variant, so callers holding the trait inherit them.
pub trait HashFunction {
    /// The digest variant this hasher computes.
    spec fn hash_variant(&self) -> HashVariant;

    /// The digest of `data` under the declared variant, at its fixed
    /// output size; never fails.
    fn hash(&self, data: &[u8]) -> (r: Result<Vec<u8>, CryptoError>)
        ensures
            r matches Ok(h) && h@ == spec_digest(self.hash_variant(), data@) && h@.len()
                == spec_digest_len(self.hash_variant());

    /// The first 255 bits of the digest, reduced into the scalar field;
    /// never fails.
    fn hash_to_field(&self, data: &[u8]) -> (r: Result<Fe, CryptoError>)
        ensures
            r matches Ok(f) && f@ == fe_of_le(spec_mask255(spec_digest(self.hash_variant(), data@)))
                && fe_wf(f@);
}

/// A configured hash function.
#[derive(Clone, Debug)]
pub struct CryptoHash {
    config: HashConfig,
}

impl CryptoHash {
    pub closed spec fn spec_variant(&self) -> HashVariant {
        self.config.spec_variant()
    }

    pub fn new(config: HashConfig) -> (r: CryptoHash)
        ensures
            r.spec_variant() == config.spec_variant(),
    {
        CryptoHash { config }
    }

    /// The digest of `data` under the configured variant, at the
    /// variant's fixed output size. Total: every input digests.
    pub fn digest(&self, data: &[u8]) -> (r: Vec<u8>)
        ensures
            r@ == spec_digest(self.spec_variant(), data@),
            r@.len() == spec_digest_len(self.spec_variant()),
    {
        match &self.config.variant {
            HashVariant::Sha3_256 => sha3_256_bytes(data),
            HashVariant::Sha3_512 => sha3_512_bytes(data),
            HashVariant::Blake2b => blake2b_bytes(data),
            HashVariant::Blake2s => blake2s_bytes(data),
        }
    }

    /// The first 255 bits of the digest, reduced into the scalar field:
    /// deterministic and non-failing for every input.
    pub fn field_digest(&self, data: &[u8]) -> (r: Fe)
        ensures
            r@ == fe_of_le(spec_mask255(spec_digest(self.spec_variant(), data@))),
            fe_wf(r@),
    {
        let mut h = self.digest(data);
        mask_top_bit(&mut h);
        fe_from_le_bytes(&h)
    }
}

impl HashFunction for CryptoHash {
    open spec fn hash_variant(&self) -> HashVariant {
        self.spec_variant()
    }

    fn hash(&self, data: &[u8]) -> (r: Result<Vec<u8>, CryptoError>) {
        Ok(self.digest(data))
    }

    fn hash_to_field(&self, data: &[u8]) -> (r: Result<Fe, CryptoError>) {
        Ok(self.field_digest(data))
    }
}

/// Hash of a Merkle leaf: the configured digest of `0x00` followed by the
/// leaf bytes. The prefix separates leaves from internal nodes.
pub open spec fn spec_leaf_digest(v: HashVariant, data: Seq<u8>) -> Seq<u8> {
    spec_digest(v, seq![0u8] + data)
}

/// Hash of an internal Merkle node: the configured digest of the left
/// child's hash followed by the right child's.
pub open spec fn spec_node_digest(v: HashVariant, left: Seq<u8>, right: Seq<u8>) -> Seq<u8> {
    spec_digest(v, left + right)
}

/// Merkle tree hashing on byte strings.
pub struct MerkleHash {
    hasher: CryptoHash,
}

impl MerkleHash {
    pub closed spec fn spec_variant(&self) -> HashVariant {
        self.hasher.spec_variant()
    }

    pub fn new(config: HashConfig) -> (r: MerkleHash)
        ensures
            r.spec_variant() == config.spec_variant(),
    {
        MerkleHash { hasher: CryptoHash::new(config) }
    }

    /// Hashes two child nodes, at the variant's fixed output size; never
    /// fails.
    pub fn hash_nodes(&self, left: &[u8], right: &[u8]) -> (r: Result<Vec<u8>, CryptoError>)
        ensures
            r matches Ok(h) && h@ == spec_node_digest(self.spec_variant(), left@, right@)
                && h@.len() == spec_digest_len(self.spec_variant()),
    {
        let mut combined: Vec<u8> = Vec::new();
        combined.extend_from_slice(left);
        combined.extend_from_slice(right);
        proof {
            assert(combined@ =~= left@ + right@);
        }
        Ok(self.hasher.digest(combined.as_slice()))
    }

    /// Hashes a leaf, prefixed with `0x00` to keep leaves and internal
    /// nodes apart; never fails.
    pub fn hash_leaf(&self, data: &[u8]) -> (r: Result<Vec<u8>, CryptoError>)
        ensures
            r matches Ok(h) && h@ == spec_leaf_digest(self.spec_variant(), data@) && h@.len()
                == spec_digest_len(self.spec_variant()),
    {
        let mut prefixed: Vec<u8> = Vec::new();
        prefixed.push(0u8);
        prefixed.extend_from_slice(data);
        proof {
            assert(prefixed@ =~= seq![0u8] + data@);
        }
        Ok(self.hasher.digest(prefixed.as_slice()))
    }
}

} // verus!
