//! The identity verifier: checks the zero-knowledge identity proof a
//! block carries and the producer's eligibility — membership in the
//! current validator set, the commitment appearing among the proof's
//! public inputs, and a minimum gap since the producer's last block.

use vstd::prelude::*;
use crate::errors::ConsensusError;
use crate::algebra::Fe;
use crate::block::{Block, IdentityProof};
use crate::config::ConsensusConfig;
use crate::validator::{ValidatorSet, ValidatorV, spec_vals_get};
use crate::zk::{groth16_accepts, groth16_ok, groth16_verify};

verus! {

/// Whether a commitment appears among a proof's public inputs.
pub open spec fn spec_commitment_in_inputs(inputs: Seq<Seq<u8>>, commitment: Seq<u8>) -> bool {
    exists|i: int| 0 <= i < inputs.len() && inputs[i] == commitment
}

/// Producer eligibility: the producer is a current validator, its
/// identity commitment appears among the proof's public inputs, and it
/// has not produced within the last `min_gap` blocks (a fresh producer,
/// with no block yet, is eligible).
pub open spec fn spec_producer_eligible(
    b: crate::block::BlockV,
    vals: Seq<ValidatorV>,
    min_gap: u64,
) -> bool {
    &&& spec_vals_get(vals, b.producer) is Some
    &&& spec_commitment_in_inputs(
        b.public_inputs,
        spec_vals_get(vals, b.producer)->Some_0.identity_commitment,
    )
    &&& ({
        let v = spec_vals_get(vals, b.producer)->Some_0;
        v.last_block == 0 || v.last_block + min_gap < b.height
    })
}

/// Identity verification for block producers.
pub struct IdentityVerifier {
    /// Consensus configuration.
    config: ConsensusConfig,
    /// Serialized verifying key for the identity circuit.
    verifying_key: Vec<u8>,
}

impl IdentityVerifier {
    /// The verifying key.
    pub closed spec fn spec_verifying_key(&self) -> Seq<u8> {
        self.verifying_key@
    }

    /// A verifier with an empty verifying key; the key is installed by
    /// the setup path before proofs arrive.
    pub fn new(config: ConsensusConfig) -> (r: IdentityVerifier)
        ensures
            r.spec_verifying_key() =~= Seq::<u8>::empty(),
    {
        IdentityVerifier { config, verifying_key: Vec::new() }
    }

    /// Installs the verifying key from the trusted setup.
    pub fn set_verifying_key(&mut self, verifying_key: Vec<u8>)
        ensures
            final(self).spec_verifying_key() == verifying_key@,
    {
        self.verifying_key = verifying_key;
    }

    /// Starts the verifier; parameter loading is the setup path's work.
    pub fn start(&self) -> (r: Result<(), ConsensusError>)
        ensures
            r is Ok,
    {
        Ok(())
    }

    /// Checks the attached proof: accepts exactly when the blob is
    /// non-empty, the pairing check runs to a verdict under the installed
    /// key, and that verdict accepts.
    pub fn verify_identity_proof(&self, proof: &IdentityProof) -> (r: Result<(), ConsensusError>)
        ensures
            r is Ok <==> (proof.proof@.len() > 0 && groth16_ok(
                self.spec_verifying_key(),
                proof.proof@,
                proof.spec_inputs(),
            ) && groth16_accepts(
                self.spec_verifying_key(),
                proof.proof@,
                proof.spec_inputs(),
            )),
    {
        proof {
            assert(proof.spec_inputs() =~= Seq::new(
                proof.public_inputs@.len(),
                |i: int| proof.public_inputs@[i]@,
            ));
        }
        if proof.proof.len() == 0 {
            return Err(ConsensusError::InvalidIdentityProof("Empty proof provided".to_string()));
        }
        let accepted = match groth16_verify(&self.verifying_key, &proof.proof, &proof.public_inputs)
            {
            Ok(b) => b,
            Err(_) => {
                return Err(ConsensusError::InvalidIdentityProof(
                    "Malformed proof or key".to_string(),
                ));
            },
        };
        if !accepted {
            return Err(ConsensusError::InvalidIdentityProof("Proof rejected".to_string()));
        }
        Ok(())
    }

    /// Checks producer eligibility against the current validator set;
    /// accepts exactly the eligible producers.
    pub fn verify_producer_eligibility(
        &self,
        block: &Block,
        validators: &ValidatorSet,
        min_gap: u64,
    ) -> (r: Result<(), ConsensusError>)
        ensures
            r is Ok <==> spec_producer_eligible(block@, validators.spec_validators(), min_gap),
    {
        let validator = match validators.get_validator(&block.producer) {
            Some(v) => v,
            None => {
                return Err(ConsensusError::InvalidIdentityProof(
                    "Producer is not a validator".to_string(),
                ));
            },
        };
        let inputs = &block.identity_proof.public_inputs;
        let n = inputs.len();
        let mut found = false;
        let mut i: usize = 0;
        while i < n
            invariant
                n == inputs@.len(),
                block@.public_inputs.len() == n,
                forall|j: int| 0 <= j < n ==> #[trigger] block@.public_inputs[j] == inputs@[j]@,
                0 <= i <= n,
                found ==> spec_commitment_in_inputs(
                    block@.public_inputs,
                    validator@.identity_commitment,
                ),
                !found ==> forall|j: int|
                    0 <= j < i ==> block@.public_inputs[j] != validator@.identity_commitment,
            decreases n - i,
        {
            if !found {
                let hit = vstd::std_specs::vec::vec_index(inputs, i).equals(
                    &validator.identity_commitment,
                );
                if hit {
                    proof {
                        assert(block@.public_inputs[i as int] == validator@.identity_commitment);
                    }
                    found = true;
                }
            }
            i = i + 1;
        }
        if !found {
            proof {
                assert(!spec_commitment_in_inputs(
                    block@.public_inputs,
                    validator@.identity_commitment,
                ));
            }
            return Err(ConsensusError::InvalidIdentityProof(
                "Commitment not among public inputs".to_string(),
            ));
        }
        if validator.last_block != 0 && (validator.last_block as u128) + (min_gap as u128)
            >= (block.height as u128) {
            return Err(ConsensusError::InvalidIdentityProof(
                "Producer within minimum gap".to_string(),
            ));
        }
        Ok(())
    }

    /// Checks a block's producer: accepts exactly when the attached proof
    /// is non-empty and passes the pairing check under the installed key,
    /// and the producer is eligible.
    pub fn verify_block_producer(
        &self,
        block: &Block,
        validators: &ValidatorSet,
        min_gap: u64,
    ) -> (r: Result<(), ConsensusError>)
        ensures
            r is Ok <==> ({
                &&& block@.proof_blob.len() > 0
                &&& groth16_ok(
                    self.spec_verifying_key(),
                    block@.proof_blob,
                    block@.public_inputs,
                )
                &&& groth16_accepts(
                    self.spec_verifying_key(),
                    block@.proof_blob,
                    block@.public_inputs,
                )
                &&& spec_producer_eligible(block@, validators.spec_validators(), min_gap)
            }),
    {
        match self.verify_identity_proof(&block.identity_proof) {
            Ok(()) => {},
            Err(e) => { return Err(e); },
        }
        match self.verify_producer_eligibility(block, validators, min_gap) {
            Ok(()) => {},
            Err(e) => { return Err(e); },
        }
        Ok(())
    }
}

} // verus!
