//! Key pairs and hierarchical derivation. A secret key is a scalar, the
//! public key the generator multiplied by it. A child secret key adds a
//! scalar derived from the parent public key and a 32-bit index, so
//! derivation is non-hardened.

use vstd::prelude::*;
use vstd::bytes::{spec_u32_to_le_bytes, u32_to_le_bytes};
use crate::errors::CryptoError;
use crate::algebra::{Fe, Ge, fe_wf, ge_wf, fe_canon, ge_valid, fe_of_le, fe_add_of, gen_mul,
    fe_from_le_bytes, fe_parse, ge_parse, fe_rand, fe_add, ge_mul_gen};
use crate::hash::{sha3_256_of, sha3_256_bytes, spec_mask255, mask_top_bit};

verus! {

/// The scalar a child key adds to its parent: the field digest (first 255
/// digest bits) of the parent public key's encoding followed by the
/// index, little-endian.
pub open spec fn spec_child_scalar(parent_pk: Seq<u8>, index: u32) -> Seq<u8> {
    fe_of_le(spec_mask255(sha3_256_of(parent_pk + spec_u32_to_le_bytes(index))))
}

/// A signing key pair.
#[derive(Clone, Debug)]
pub struct KeyPair {
    /// Secret scalar.
    pub secret_key: Fe,
    /// Public point `g . secret_key`.
    pub public_key: Ge,
}

impl KeyPair {
    /// Well-formedness: canonical encodings and a matching public key.
    pub open spec fn wf(&self) -> bool {
        &&& fe_wf(self.secret_key@)
        &&& ge_wf(self.public_key@)
        &&& self.public_key@ == gen_mul(self.secret_key@)
    }
}

/// Key generation, derivation, import and export.
pub struct KeyManager {
}

impl KeyManager {
    pub fn new() -> (r: KeyManager) {
        KeyManager {  }
    }

    /// Draws a fresh key pair; whatever the drawn scalar, the public key is
    /// the generator multiplied by it.
    pub fn generate_keypair(&self) -> (r: KeyPair)
        ensures
            r.wf(),
    {
        let secret_key = fe_rand();
        let public_key = ge_mul_gen(&secret_key);
        KeyPair { secret_key, public_key }
    }

    /// The public key of a secret key.
    pub fn derive_public_key(&self, secret_key: &Fe) -> (r: Ge)
        ensures
            r@ == gen_mul(secret_key@),
            ge_wf(r@),
    {
        ge_mul_gen(secret_key)
    }

    /// Imports a key pair from canonical encodings: succeeds exactly when
    /// both encodings are canonical, returning the encoded keys unchanged.
    pub fn import_keypair(&self, secret_bytes: &Vec<u8>, public_bytes: &Vec<u8>) -> (r: Result<
        KeyPair,
        CryptoError,
    >)
        ensures
            r is Ok <==> secret_bytes@.len() == 32 && fe_canon(secret_bytes@) && public_bytes@.len()
                == 48 && ge_valid(public_bytes@),
            r matches Ok(kp) ==> kp.secret_key@ == secret_bytes@ && kp.public_key@
                == public_bytes@,
    {
        if secret_bytes.len() != 32 {
            return Err(CryptoError::KeyError("Invalid secret key bytes".to_string()));
        }
        if public_bytes.len() != 48 {
            return Err(CryptoError::KeyError("Invalid public key bytes".to_string()));
        }
        let secret_key = match fe_parse(secret_bytes) {
            Some(f) => f,
            None => { return Err(CryptoError::KeyError("Invalid secret key bytes".to_string())); },
        };
        let public_key = match ge_parse(public_bytes) {
            Some(p) => p,
            None => { return Err(CryptoError::KeyError("Invalid public key bytes".to_string())); },
        };
        Ok(KeyPair { secret_key, public_key })
    }

    /// Exports a key pair as its canonical encodings.
    pub fn export_keypair(&self, keypair: &KeyPair) -> (r: (Vec<u8>, Vec<u8>))
        ensures
            r.0@ == keypair.secret_key@,
            r.1@ == keypair.public_key@,
    {
        (keypair.secret_key.to_bytes(), keypair.public_key.to_bytes())
    }

    /// Whether the public key matches the secret key: recomputes `g . sk`
    /// and compares.
    pub fn verify_keypair(&self, keypair: &KeyPair) -> (r: bool)
        ensures
            r == (keypair.public_key@ == gen_mul(keypair.secret_key@)),
    {
        let derived = self.derive_public_key(&keypair.secret_key);
        derived.equals(&keypair.public_key)
    }
}

/// Hierarchical (non-hardened) key derivation.
pub struct HDKeyDeriver {
    key_manager: KeyManager,
}

impl HDKeyDeriver {
    pub fn new() -> (r: HDKeyDeriver) {
        HDKeyDeriver { key_manager: KeyManager::new() }
    }

    /// Derives the child key at `index`: the child secret adds the derived
    /// scalar to the parent secret, and the child public key is the
    /// generator multiplied by the child secret, so every derived pair is
    /// valid. Never fails.
    pub fn derive_child_key(&self, parent: &KeyPair, index: u32) -> (r: Result<
        KeyPair,
        CryptoError,
    >)
        ensures
            r matches Ok(kp) ==> kp.secret_key@ == fe_add_of(
                parent.secret_key@,
                spec_child_scalar(parent.public_key@, index),
            ) && kp.public_key@ == gen_mul(kp.secret_key@) && kp.wf(),
            r is Ok,
    {
        let mut data = parent.public_key.to_bytes();
        let mut idx_bytes = u32_to_le_bytes(index);
        data.append(&mut idx_bytes);
        proof {
            assert(data@ =~= parent.public_key@ + spec_u32_to_le_bytes(index));
        }
        let mut scalar_digest = sha3_256_bytes(data.as_slice());
        mask_top_bit(&mut scalar_digest);
        let child_scalar = fe_from_le_bytes(&scalar_digest);
        let child_secret = fe_add(&parent.secret_key, &child_scalar);
        let child_public = self.key_manager.derive_public_key(&child_secret);
        Ok(KeyPair { secret_key: child_secret, public_key: child_public })
    }
}

} // verus!
