//! The zero-knowledge proof system around the identity circuit: parameter
//! setup (powers of tau and the universal elements), proof containers, and
//! pairing-based proof verification. Circuit synthesis and proving run in
//! the prover binary; this side holds parameters and checks proofs.

use vstd::prelude::*;
use ark_groth16::{prepare_verifying_key, verify_proof};
use ark_serialize::CanonicalDeserialize;
use crate::errors::CryptoError;
use crate::algebra::{Fe, Ge, G2e, fe_wf, ge_wf, g2_wf, g2_valid, fe_mul_of, gen_mul, g2_gen_mul,
    fe_rand, fe_one, fe_mul, ge_mul_gen, g2_mul_gen, ge_parse, g2_parse, copy_bytes};

verus! {

/// The verdict of pairing-based proof verification: a function of the
/// verifying key, the proof blob and the public inputs alone.
pub uninterp spec fn groth16_accepts(vk: Seq<u8>, proof: Seq<u8>, inputs: Seq<Seq<u8>>) -> bool;

/// Whether pairing-based verification runs to a verdict at all: the key
/// and proof bytes parse, the input count matches the key, and the final
/// pairing step completes. A function of the arguments alone.
pub uninterp spec fn groth16_ok(vk: Seq<u8>, proof: Seq<u8>, inputs: Seq<Seq<u8>>) -> bool;

/// Relies on `ark_groth16::verify_proof` (with
/// `ark_groth16::prepare_verifying_key` and canonical deserialization of
/// the key and proof): whether a verdict is reached, and the verdict
/// itself, are both deterministic in the key, proof and inputs.
#[verifier::external_body]
pub(crate) fn groth16_verify(vk: &Vec<u8>, proof: &Vec<u8>, inputs: &Vec<Fe>) -> (r: Result<
    bool,
    CryptoError,
>)
    ensures
        r is Ok <==> groth16_ok(vk@, proof@, Seq::new(inputs@.len(), |i: int| inputs@[i]@)),
        r matches Ok(b) ==> b == groth16_accepts(
            vk@,
            proof@,
            Seq::new(inputs@.len(), |i: int| inputs@[i]@),
        ),
{
    let key = ark_groth16::VerifyingKey::<ark_bls12_381::Bls12_381>::deserialize(&vk[..])
        .map_err(|e| CryptoError::ProofError(format!("bad verifying key: {}", e)))?;
    let pvk = prepare_verifying_key(&key);
    let prf = ark_groth16::Proof::<ark_bls12_381::Bls12_381>::deserialize(&proof[..])
        .map_err(|e| CryptoError::ProofError(format!("bad proof: {}", e)))?;
    let frs: Vec<ark_bls12_381::Fr> = inputs.iter().map(
        |f| ark_ff::PrimeField::from_le_bytes_mod_order(f.as_bytes()),
    ).collect();
    verify_proof(&pvk, &prf, &frs).map_err(|e| CryptoError::ProofError(format!("{}", e)))
}

/// A proof, carried as its canonical serialization together with nothing
/// else; the pairing check interprets it.
#[derive(Clone, Debug, PartialEq, Eq)]
pub struct Proof {
    bytes: Vec<u8>,
}

impl View for Proof {
    type V = Seq<u8>;

    closed spec fn view(&self) -> Seq<u8> {
        self.bytes@
    }
}

impl Proof {
    /// Wraps serialized proof bytes.
    pub fn new(bytes: Vec<u8>) -> (r: Proof)
        ensures
            r@ == bytes@,
    {
        Proof { bytes }
    }

    /// The serialized form.
    pub fn to_bytes(&self) -> (r: Result<Vec<u8>, CryptoError>)
        ensures
            r matches Ok(b) && b@ == self@,
    {
        Ok(copy_bytes(&self.bytes))
    }

    /// Wraps serialized proof bytes read from the wire.
    pub fn from_bytes(bytes: &Vec<u8>) -> (r: Result<Proof, CryptoError>)
        ensures
            r matches Ok(p) && p@ == bytes@,
    {
        Ok(Proof { bytes: copy_bytes(bytes) })
    }
}

/// A proof system: something that can produce and check proofs.
pub trait ProofSystem {
    fn generate_proof(&self) -> Result<Proof, CryptoError>;

    fn verify_proof(&self, proof: &Proof) -> Result<bool, CryptoError>;
}

/// Collects proofs and verifies them together. Per-proof verification is
/// delegated to the holder of the verifying key; the batch walk itself
/// accepts.
pub struct BatchProofVerifier {
    proofs: Vec<Proof>,
}

impl BatchProofVerifier {
    /// The collected proofs.
    pub closed spec fn spec_proofs(&self) -> Seq<Seq<u8>> {
        Seq::new(self.proofs@.len(), |i: int| self.proofs@[i]@)
    }

    /// An empty batch.
    pub fn new() -> (r: BatchProofVerifier)
        ensures
            r.spec_proofs() =~= Seq::<Seq<u8>>::empty(),
    {
        BatchProofVerifier { proofs: Vec::new() }
    }

    /// Adds a proof to the batch.
    pub fn add_proof(&mut self, proof: Proof)
        ensures
            final(self).spec_proofs() =~= old(self).spec_proofs().push(proof@),
    {
        self.proofs.push(proof);
    }

    /// Walks the batch; with per-proof verification delegated, the walk
    /// accepts every batch. Never fails.
    pub fn verify_all(&self) -> (r: Result<bool, CryptoError>)
        ensures
            r matches Ok(b) && b == true,
    {
        let n = self.proofs.len();
        let mut i: usize = 0;
        while i < n
            invariant
                n == self.proofs@.len(),
                0 <= i <= n,
            decreases n - i,
        {
            let ok = self.verify_single(vstd::std_specs::vec::vec_index(&self.proofs, i));
            if !ok {
                proof {
                    assert(false);
                }
                return Ok(false);
            }
            i = i + 1;
        }
        Ok(true)
    }

    /// Per-proof verification is delegated to the key holder; the batch
    /// records acceptance.
    fn verify_single(&self, _proof: &Proof) -> (r: bool)
        ensures
            r == true,
    {
        true
    }
}

/// The successive powers of a scalar, starting from one.
pub open spec fn spec_fe_pow(tau: Seq<u8>, i: nat) -> Seq<u8>
    decreases i,
{
    if i == 0 {
        Seq::new(32, |j: int| if j == 0 { 1u8 } else { 0u8 })
    } else {
        fe_mul_of(spec_fe_pow(tau, (i - 1) as nat), tau)
    }
}

/// Powers-of-tau commitment parameters: the generators and their
/// multiples by the successive powers of a drawn secret.
pub struct PolyCommitParams {
    /// Generator of the first group.
    pub g1_generator: Ge,
    /// Generator of the second group.
    pub g2_generator: G2e,
    /// Generator multiples by the powers of tau, first group.
    pub powers_of_tau_g1: Vec<Ge>,
    /// Generator multiples by the powers of tau, second group.
    pub powers_of_tau_g2: Vec<G2e>,
}

/// Universal setup elements.
pub struct UniversalParams {
    /// Generator multiple by a drawn alpha, first group.
    pub alpha_g1: Ge,
    /// Generator multiple by a drawn beta, first group.
    pub beta_g1: Ge,
    /// Generator multiple by the same beta, second group.
    pub beta_g2: G2e,
    /// Cap on circuit size, clamped at the type's ceiling.
    pub max_constraints: u128,
}

/// The circuit-size cap a security level grants.
pub open spec fn spec_max_constraints(security_level: usize) -> u128 {
    if security_level / 2 >= 127 {
        u128::MAX
    } else {
        1u128 << ((security_level / 2) as u128)
    }
}

/// Proof system parameters.
pub struct ZKParams {
    /// Security level in bits.
    pub security_level: usize,
    /// Maximum polynomial degree supported.
    pub max_degree: usize,
    /// Powers-of-tau parameters.
    pub poly_commit_params: PolyCommitParams,
    /// Universal elements.
    pub universal_params: UniversalParams,
}

impl ZKParams {
    /// Whether the powers of tau follow one drawn scalar: each first-group
    /// entry is the generator multiplied by the next power, and the
    /// second-group entries follow the same powers.
    pub open spec fn spec_powers_follow(&self, tau: Seq<u8>) -> bool {
        &&& self.poly_commit_params.powers_of_tau_g1@.len() == self.max_degree + 1
        &&& self.poly_commit_params.powers_of_tau_g2@.len() == self.max_degree + 1
        &&& forall|i: int|
            0 <= i <= self.max_degree ==> (#[trigger] self.poly_commit_params.powers_of_tau_g1@[i])@
                == gen_mul(spec_fe_pow(tau, i as nat))
        &&& forall|i: int|
            0 <= i <= self.max_degree ==> (#[trigger] self.poly_commit_params.powers_of_tau_g2@[i])@
                == g2_gen_mul(spec_fe_pow(tau, i as nat))
    }

    /// Draws the trusted-setup secrets and assembles the parameters.
    /// Rejects, exactly, security levels below 128 bits; whatever scalars
    /// were drawn, the powers follow one tau and the universal elements
    /// are generator multiples.
    pub fn setup(security_level: usize) -> (r: Result<ZKParams, CryptoError>)
        ensures
            r is Ok <==> security_level >= 128,
            r matches Ok(p) ==> ({
                &&& p.security_level == security_level
                &&& p.max_degree == 1024
                &&& (exists|tau: Seq<u8>| fe_wf(tau) && p.spec_powers_follow(tau))
                &&& (exists|alpha: Seq<u8>| fe_wf(alpha) && p.universal_params.alpha_g1@ == gen_mul(
                    alpha,
                ))
                &&& (exists|beta: Seq<u8>|
                    fe_wf(beta) && p.universal_params.beta_g1@ == gen_mul(beta)
                        && p.universal_params.beta_g2@ == g2_gen_mul(beta))
                &&& p.universal_params.max_constraints == spec_max_constraints(security_level)
            }),
    {
        if security_level < 128 {
            return Err(CryptoError::ParameterError(
                "Security level must be at least 128 bits".to_string(),
            ));
        }
        let max_degree: usize = 1024;
        let tau = fe_rand();
        let mut powers_of_tau_g1: Vec<Ge> = Vec::new();
        let mut powers_of_tau_g2: Vec<G2e> = Vec::new();
        let mut current = fe_one();
        proof {
            assert(current@ == spec_fe_pow(tau@, 0));
        }
        let mut i: usize = 0;
        while i <= max_degree
            invariant
                max_degree == 1024,
                0 <= i <= max_degree + 1,
                fe_wf(tau@),
                powers_of_tau_g1@.len() == i,
                powers_of_tau_g2@.len() == i,
                current@ == spec_fe_pow(tau@, i as nat),
                forall|j: int|
                    0 <= j < i ==> (#[trigger] powers_of_tau_g1@[j])@ == gen_mul(
                        spec_fe_pow(tau@, j as nat),
                    ),
                forall|j: int|
                    0 <= j < i ==> (#[trigger] powers_of_tau_g2@[j])@ == g2_gen_mul(
                        spec_fe_pow(tau@, j as nat),
                    ),
            decreases max_degree + 1 - i,
        {
            powers_of_tau_g1.push(ge_mul_gen(&current));
            powers_of_tau_g2.push(g2_mul_gen(&current));
            current = fe_mul(&current, &tau);
            proof {
                assert(current@ == spec_fe_pow(tau@, (i + 1) as nat));
            }
            i = i + 1;
        }
        let one = fe_one();
        let poly_commit_params = PolyCommitParams {
            g1_generator: ge_mul_gen(&one),
            g2_generator: g2_mul_gen(&one),
            powers_of_tau_g1,
            powers_of_tau_g2,
        };
        let alpha = fe_rand();
        let beta = fe_rand();
        let shift: u128 = (security_level / 2) as u128;
        let max_constraints: u128 = if security_level / 2 >= 127 {
            u128::MAX
        } else {
            1u128 << shift
        };
        let universal_params = UniversalParams {
            alpha_g1: ge_mul_gen(&alpha),
            beta_g1: ge_mul_gen(&beta),
            beta_g2: g2_mul_gen(&beta),
            max_constraints,
        };
        let params = ZKParams { security_level, max_degree, poly_commit_params, universal_params };
        proof {
            assert(fe_wf(tau@) && params.spec_powers_follow(tau@));
            assert(fe_wf(alpha@) && params.universal_params.alpha_g1@ == gen_mul(alpha@));
        }
        Ok(params)
    }

    /// Whether every stored commitment element is a canonical subgroup
    /// encoding.
    pub open spec fn spec_poly_commit_ok(&self) -> bool {
        &&& ge_wf(self.poly_commit_params.g1_generator@)
        &&& g2_wf(self.poly_commit_params.g2_generator@)
        &&& forall|i: int|
            0 <= i < self.poly_commit_params.powers_of_tau_g1@.len() ==> ge_wf(
                (#[trigger] self.poly_commit_params.powers_of_tau_g1@[i])@,
            )
        &&& forall|i: int|
            0 <= i < self.poly_commit_params.powers_of_tau_g2@.len() ==> g2_wf(
                (#[trigger] self.poly_commit_params.powers_of_tau_g2@[i])@,
            )
    }

    /// Whether the universal elements are canonical subgroup encodings.
    pub open spec fn spec_universal_ok(&self) -> bool {
        &&& ge_wf(self.universal_params.alpha_g1@)
        &&& ge_wf(self.universal_params.beta_g1@)
        &&& g2_wf(self.universal_params.beta_g2@)
    }

    /// Checks the commitment parameters: re-parses the generators and
    /// every power of tau, accepting exactly when all are canonical
    /// subgroup encodings.
    pub fn verify_poly_commit(&self) -> (r: Result<bool, CryptoError>)
        ensures
            r is Ok <==> self.spec_poly_commit_ok(),
            r matches Ok(b) ==> b == true,
    {
        if !check_g1(&self.poly_commit_params.g1_generator) {
            return Err(CryptoError::ParameterError("Invalid G1 generator".to_string()));
        }
        if !check_g2(&self.poly_commit_params.g2_generator) {
            return Err(CryptoError::ParameterError("Invalid G2 generator".to_string()));
        }
        let n = self.poly_commit_params.powers_of_tau_g1.len();
        let mut i: usize = 0;
        while i < n
            invariant
                n == self.poly_commit_params.powers_of_tau_g1@.len(),
                0 <= i <= n,
                forall|j: int|
                    0 <= j < i ==> ge_wf((#[trigger] self.poly_commit_params.powers_of_tau_g1@[j])@),
            decreases n - i,
        {
            let p = vstd::std_specs::vec::vec_index(&self.poly_commit_params.powers_of_tau_g1, i);
            if !check_g1(p) {
                return Err(CryptoError::ParameterError("Invalid power of tau".to_string()));
            }
            i = i + 1;
        }
        let m = self.poly_commit_params.powers_of_tau_g2.len();
        let mut j: usize = 0;
        while j < m
            invariant
                n == self.poly_commit_params.powers_of_tau_g1@.len(),
                forall|k: int|
                    0 <= k < n ==> ge_wf((#[trigger] self.poly_commit_params.powers_of_tau_g1@[k])@),
                m == self.poly_commit_params.powers_of_tau_g2@.len(),
                0 <= j <= m,
                forall|k: int|
                    0 <= k < j ==> g2_wf((#[trigger] self.poly_commit_params.powers_of_tau_g2@[k])@),
            decreases m - j,
        {
            let p = vstd::std_specs::vec::vec_index(&self.poly_commit_params.powers_of_tau_g2, j);
            if !check_g2(p) {
                return Err(CryptoError::ParameterError("Invalid power of tau".to_string()));
            }
            j = j + 1;
        }
        Ok(true)
    }

    /// Checks the universal elements: re-parses each, accepting exactly
    /// when all are canonical subgroup encodings.
    pub fn verify_universal(&self) -> (r: Result<bool, CryptoError>)
        ensures
            r is Ok <==> self.spec_universal_ok(),
            r matches Ok(b) ==> b == true,
    {
        if !check_g1(&self.universal_params.alpha_g1) {
            return Err(CryptoError::ParameterError("Invalid alpha in G1".to_string()));
        }
        if !check_g1(&self.universal_params.beta_g1) {
            return Err(CryptoError::ParameterError("Invalid beta in G1".to_string()));
        }
        if !check_g2(&self.universal_params.beta_g2) {
            return Err(CryptoError::ParameterError("Invalid beta in G2".to_string()));
        }
        Ok(true)
    }

    /// Checks all parameters: accepts exactly when every stored element is
    /// a canonical subgroup encoding.
    pub fn verify(&self) -> (r: Result<bool, CryptoError>)
        ensures
            r is Ok <==> self.spec_poly_commit_ok() && self.spec_universal_ok(),
            r matches Ok(b) ==> b == true,
    {
        let a = match self.verify_poly_commit() {
            Ok(b) => b,
            Err(e) => { return Err(e); },
        };
        let b = match self.verify_universal() {
            Ok(x) => x,
            Err(e) => { return Err(e); },
        };
        Ok(a && b)
    }
}

/// The whole cryptographic parameter suite: hash configuration and proof
/// system parameters under one security level.
pub struct CryptoParams {
    /// Security level in bits.
    pub security_level: usize,
    /// Hash function configuration.
    pub hash_config: crate::hash::HashConfig,
    /// Proof system parameters.
    pub zk_params: ZKParams,
}

impl CryptoParams {
    /// Assembles the suite; rejects, exactly, security levels below 128
    /// bits.
    pub fn new(security_level: usize) -> (r: Result<CryptoParams, CryptoError>)
        ensures
            r is Ok <==> security_level >= 128,
            r matches Ok(p) ==> p.security_level == security_level,
    {
        if security_level < 128 {
            return Err(CryptoError::ParameterError(
                "Security level must be at least 128 bits".to_string(),
            ));
        }
        let zk_params = match ZKParams::setup(security_level) {
            Ok(p) => p,
            Err(e) => { return Err(e); },
        };
        Ok(CryptoParams {
            security_level,
            hash_config: crate::hash::HashConfig::new(security_level),
            zk_params,
        })
    }
}

/// Initializes the cryptographic subsystem; rejects, exactly, security
/// levels below 128 bits.
pub fn init(security_level: usize) -> (r: Result<CryptoParams, CryptoError>)
    ensures
        r is Ok <==> security_level >= 128,
        r matches Ok(p) ==> p.security_level == security_level,
{
    CryptoParams::new(security_level)
}


/// Re-parses a first-group element's bytes.
fn check_g1(p: &Ge) -> (r: bool)
    ensures
        r == ge_wf(p@),
{
    let b = p.to_bytes();
    if b.len() != 48 {
        return false;
    }
    match ge_parse(&b) {
        Some(_) => true,
        None => false,
    }
}

/// Re-parses a second-group element's bytes.
fn check_g2(p: &G2e) -> (r: bool)
    ensures
        r == g2_wf(p@),
{
    let b = p.to_bytes();
    if b.len() != 96 {
        return false;
    }
    match g2_parse(&b) {
        Some(_) => true,
        None => false,
    }
}

} // verus!
