//! Schnorr-style signatures over the first pairing group. Signing derives a
//! deterministic nonce `k` from the secret key and message, commits to
//! `R = g.k`, hashes `R` and the message into a challenge `h`, and returns
//! `(R, s)` with `s = k - h.sk`. Verification accepts exactly when
//! `g.s = R - pk.h`. The wire form is the 48-byte compressed `R` followed by
//! the 32-byte scalar `s`; both sizes derive from the curve.

use vstd::prelude::*;
use crate::errors::CryptoError;
use crate::algebra::{Fe, Ge, fe_wf, ge_wf, fe_canon, ge_valid, fe_of_le, fe_sub_of, fe_mul_of,
    gen_mul, ge_mul_of, ge_sub_of, fe_from_le_bytes, fe_parse, ge_parse, fe_sub, fe_mul,
    ge_mul_gen, ge_mul, ge_sub};
use crate::hash::{sha3_256_of, sha3_256_bytes, spec_mask255, mask_top_bit};

verus! {

/// The deterministic nonce: the field digest (first 255 digest bits) of
/// the secret key's encoding followed by the message.
pub open spec fn spec_nonce(sk: Seq<u8>, m: Seq<u8>) -> Seq<u8> {
    fe_of_le(spec_mask255(sha3_256_of(sk + m)))
}

/// The challenge: the field digest (first 255 digest bits) of the
/// commitment's encoding followed by the message.
pub open spec fn spec_challenge(rb: Seq<u8>, m: Seq<u8>) -> Seq<u8> {
    fe_of_le(spec_mask255(sha3_256_of(rb + m)))
}

/// The commitment a signature on `m` under `sk` carries.
pub open spec fn spec_sign_r(sk: Seq<u8>, m: Seq<u8>) -> Seq<u8> {
    gen_mul(spec_nonce(sk, m))
}

/// The response scalar of a signature on `m` under `sk`.
pub open spec fn spec_sign_s(sk: Seq<u8>, m: Seq<u8>) -> Seq<u8> {
    fe_sub_of(spec_nonce(sk, m), fe_mul_of(spec_challenge(spec_sign_r(sk, m), m), sk))
}

/// The verification equation: `g.s = R - pk.h` with `h` the challenge of
/// `R` and `m`.
pub open spec fn spec_verifies(m: Seq<u8>, rb: Seq<u8>, sb: Seq<u8>, pk: Seq<u8>) -> bool {
    gen_mul(sb) == ge_sub_of(rb, ge_mul_of(pk, spec_challenge(rb, m)))
}

/// A signature: commitment point and response scalar.
#[derive(Clone, Debug, PartialEq, Eq)]
pub struct Signature {
    /// Commitment `R = g.k`.
    pub r: Ge,
    /// Response `s = k - h.sk`.
    pub s: Fe,
}

impl Signature {
    /// Well-formedness: canonical encodings of a subgroup point and scalar.
    pub open spec fn wf(&self) -> bool {
        ge_wf(self.r@) && fe_wf(self.s@)
    }

    /// The canonical wire form: `R` (48 bytes) then `s` (32 bytes).
    pub fn to_bytes(&self) -> (out: Result<Vec<u8>, CryptoError>)
        ensures
            out matches Ok(b) && b@ == self.r@ + self.s@,
    {
        let mut b = self.r.to_bytes();
        let mut sb = self.s.to_bytes();
        b.append(&mut sb);
        Ok(b)
    }

    /// Parses the wire form: succeeds exactly on 80 bytes whose halves are
    /// canonical encodings, and returns the encoded signature.
    pub fn from_bytes(bytes: &Vec<u8>) -> (out: Result<Signature, CryptoError>)
        ensures
            out is Ok <==> bytes@.len() == 80 && ge_valid(bytes@.subrange(0, 48)) && fe_canon(
                bytes@.subrange(48, 80),
            ),
            out matches Ok(sig) ==> sig.r@ == bytes@.subrange(0, 48) && sig.s@ == bytes@.subrange(
                48,
                80,
            ) && sig.wf(),
    {
        if bytes.len() != 80 {
            return Err(CryptoError::SignatureError("signature must be 80 bytes".to_string()));
        }
        let r_slice = vstd::slice::slice_subrange(bytes.as_slice(), 0, 48);
        let mut r_bytes: Vec<u8> = Vec::new();
        r_bytes.extend_from_slice(r_slice);
        let s_slice = vstd::slice::slice_subrange(bytes.as_slice(), 48, 80);
        let mut s_bytes: Vec<u8> = Vec::new();
        s_bytes.extend_from_slice(s_slice);
        proof {
            assert(r_bytes@ =~= bytes@.subrange(0, 48));
            assert(s_bytes@ =~= bytes@.subrange(48, 80));
        }
        let r = match ge_parse(&r_bytes) {
            Some(p) => p,
            None => {
                return Err(CryptoError::SignatureError("invalid commitment point".to_string()));
            },
        };
        let s = match fe_parse(&s_bytes) {
            Some(f) => f,
            None => {
                return Err(CryptoError::SignatureError("invalid response scalar".to_string()));
            },
        };
        Ok(Signature { r, s })
    }
}

/// The signature scheme, fixed to at least 128 bits of security.
pub struct SignatureScheme {
    security_level: usize,
}

impl SignatureScheme {
    pub closed spec fn spec_security_level(&self) -> usize {
        self.security_level
    }

    /// Accepts exactly security levels of at least 128 bits.
    pub fn new(security_level: usize) -> (r: Result<SignatureScheme, CryptoError>)
        ensures
            r is Ok <==> security_level >= 128,
            r matches Ok(s) ==> s.spec_security_level() == security_level,
    {
        if security_level < 128 {
            return Err(CryptoError::ParameterError(
                "Security level must be at least 128 bits".to_string(),
            ));
        }
        Ok(SignatureScheme { security_level })
    }

    /// Signs a message; never fails. The returned signature carries the
    /// deterministic commitment and response for `(sk, m)`, and satisfies
    /// the verification equation against the public key `g.sk`: signatures
    /// round-trip through `verify` for every key and message.
    pub fn sign(&self, message: &[u8], private_key: &Fe) -> (out: Result<Signature, CryptoError>)
        ensures
            out matches Ok(sig) ==> sig.r@ == spec_sign_r(private_key@, message@) && sig.s@
                == spec_sign_s(private_key@, message@) && sig.wf() && spec_verifies(
                message@,
                sig.r@,
                sig.s@,
                gen_mul(private_key@),
            ),
            out is Ok,
    {
        let mut nonce_input = private_key.to_bytes();
        nonce_input.extend_from_slice(message);
        proof {
            assert(nonce_input@ =~= private_key@ + message@);
        }
        let mut nonce_digest = sha3_256_bytes(nonce_input.as_slice());
        mask_top_bit(&mut nonce_digest);
        let k = fe_from_le_bytes(&nonce_digest);
        let r_pt = ge_mul_gen(&k);
        let mut chal_input = r_pt.to_bytes();
        chal_input.extend_from_slice(message);
        proof {
            assert(chal_input@ =~= r_pt@ + message@);
        }
        let mut chal_digest = sha3_256_bytes(chal_input.as_slice());
        mask_top_bit(&mut chal_digest);
        let h = fe_from_le_bytes(&chal_digest);
        let hsk = fe_mul(&h, private_key);
        let s = fe_sub(&k, &hsk);
        Ok(Signature { r: r_pt, s })
    }

    /// Verifies a signature; never fails. Accepts exactly when the
    /// verification equation holds for `(m, R, s)` under `pk`.
    pub fn verify(&self, message: &[u8], signature: &Signature, public_key: &Ge) -> (out: Result<
        bool,
        CryptoError,
    >)
        requires
            signature.wf(),
            ge_wf(public_key@),
        ensures
            out matches Ok(b) && b == spec_verifies(
                message@,
                signature.r@,
                signature.s@,
                public_key@,
            ),
    {
        let mut chal_input = signature.r.to_bytes();
        chal_input.extend_from_slice(message);
        proof {
            assert(chal_input@ =~= signature.r@ + message@);
        }
        let mut chal_digest = sha3_256_bytes(chal_input.as_slice());
        mask_top_bit(&mut chal_digest);
        let h = fe_from_le_bytes(&chal_digest);
        let left = ge_mul_gen(&signature.s);
        let pk_h = ge_mul(public_key, &h);
        let right = ge_sub(&signature.r, &pk_h);
        Ok(left.equals(&right))
    }

    /// Signs each message in order; never fails.
    pub fn batch_sign(&self, messages: &Vec<Vec<u8>>, private_key: &Fe) -> (out: Result<
        Vec<Signature>,
        CryptoError,
    >)
        ensures
            out matches Ok(sigs) ==> sigs@.len() == messages@.len() && forall|i: int|
                0 <= i < sigs@.len() ==> (#[trigger] sigs@[i]).r@ == spec_sign_r(
                    private_key@,
                    messages@[i]@,
                ) && sigs@[i].s@ == spec_sign_s(private_key@, messages@[i]@) && sigs@[i].wf(),
            out is Ok,
    {
        let n = messages.len();
        let mut sigs: Vec<Signature> = Vec::new();
        let mut i: usize = 0;
        while i < n
            invariant
                n == messages@.len(),
                0 <= i <= n,
                sigs@.len() == i,
                forall|j: int|
                    0 <= j < i ==> (#[trigger] sigs@[j]).r@ == spec_sign_r(
                        private_key@,
                        messages@[j]@,
                    ) && sigs@[j].s@ == spec_sign_s(private_key@, messages@[j]@) && sigs@[j].wf(),
            decreases n - i,
        {
            let msg = vstd::std_specs::vec::vec_index(messages, i);
            let sig = match self.sign(msg.as_slice(), private_key) {
                Ok(s) => s,
                Err(e) => { return Err(e); },
            };
            sigs.push(sig);
            i = i + 1;
        }
        Ok(sigs)
    }

    /// Verifies a batch: errors exactly on a length mismatch, and otherwise
    /// accepts exactly when every signature verifies for its message.
    pub fn batch_verify(
        &self,
        messages: &Vec<Vec<u8>>,
        signatures: &Vec<Signature>,
        public_key: &Ge,
    ) -> (out: Result<bool, CryptoError>)
        requires
            forall|i: int| 0 <= i < signatures@.len() ==> (#[trigger] signatures@[i]).wf(),
            ge_wf(public_key@),
        ensures
            out is Ok <==> messages@.len() == signatures@.len(),
            out matches Ok(b) ==> b == (forall|i: int|
                0 <= i < messages@.len() ==> spec_verifies(
                    messages@[i]@,
                    (#[trigger] signatures@[i]).r@,
                    signatures@[i].s@,
                    public_key@,
                )),
    {
        if messages.len() != signatures.len() {
            return Err(CryptoError::SignatureError(
                "Number of messages and signatures must match".to_string(),
            ));
        }
        let n = messages.len();
        let mut i: usize = 0;
        while i < n
            invariant
                n == messages@.len() == signatures@.len(),
                0 <= i <= n,
                ge_wf(public_key@),
                forall|j: int| 0 <= j < n ==> (#[trigger] signatures@[j]).wf(),
                forall|j: int|
                    0 <= j < i ==> spec_verifies(
                        messages@[j]@,
                        (#[trigger] signatures@[j]).r@,
                        signatures@[j].s@,
                        public_key@,
                    ),
            decreases n - i,
        {
            let msg = vstd::std_specs::vec::vec_index(messages, i);
            let sig = vstd::std_specs::vec::vec_index(signatures, i);
            let ok = match self.verify(msg.as_slice(), sig, public_key) {
                Ok(b) => b,
                Err(e) => { return Err(e); },
            };
            if !ok {
                return Ok(false);
            }
            i = i + 1;
        }
        Ok(true)
    }
}

} // verus!
