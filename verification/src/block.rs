//! Blocks, the consensus state, and the block producer. A block's hash is
//! the field digest of its committed contents — height, previous hash,
//! timestamp, producer, identity proof blob and epoch length — and the
//! `hash` field itself is not part of its own preimage.

use vstd::prelude::*;
use vstd::bytes::spec_u64_to_le_bytes;
use crate::errors::ConsensusError;
use crate::algebra::{Fe, fe_wf, fe_of_le, fe_zero, fe_from_le_bytes, copy_bytes};
use crate::config::ConsensusConfig;
use crate::hash::{sha3_256_of, sha3_256_bytes, spec_mask255, mask_top_bit};
use crate::validator::ValidatorId;
use crate::wire::append_u64;

verus! {

/// A zero-knowledge identity proof carried by a block: the proof blob and
/// its public inputs.
#[derive(Clone, Debug)]
pub struct IdentityProof {
    /// Proof blob.
    pub proof: Vec<u8>,
    /// Public inputs, as field elements.
    pub public_inputs: Vec<Fe>,
}

impl IdentityProof {
    /// The views of the public inputs.
    pub open spec fn spec_inputs(&self) -> Seq<Seq<u8>> {
        Seq::new(self.public_inputs@.len(), |i: int| self.public_inputs@[i]@)
    }
}

/// Mathematical model of a block.
pub struct BlockV {
    pub height: u64,
    pub timestamp: u64,
    pub prev_hash: Seq<u8>,
    pub hash: Seq<u8>,
    pub producer: Seq<u8>,
    pub proof_blob: Seq<u8>,
    pub public_inputs: Seq<Seq<u8>>,
    pub epoch_length: u64,
}

/// A block.
#[derive(Clone, Debug)]
pub struct Block {
    /// Height.
    pub height: u64,
    /// Timestamp, seconds since the epoch.
    pub timestamp: u64,
    /// Hash of the previous block.
    pub prev_hash: Fe,
    /// This block's hash over its committed contents.
    pub hash: Fe,
    /// Producing validator.
    pub producer: ValidatorId,
    /// The producer's identity proof.
    pub identity_proof: IdentityProof,
    /// Epoch length at production time.
    pub epoch_length: u64,
}

impl View for Block {
    type V = BlockV;

    open spec fn view(&self) -> BlockV {
        BlockV {
            height: self.height,
            timestamp: self.timestamp,
            prev_hash: self.prev_hash@,
            hash: self.hash@,
            producer: self.producer@,
            proof_blob: self.identity_proof.proof@,
            public_inputs: self.identity_proof.spec_inputs(),
            epoch_length: self.epoch_length,
        }
    }
}

/// The committed contents a block's hash is computed over: height,
/// previous hash, timestamp, producer, proof blob, epoch length, in
/// order, integers little-endian.
pub open spec fn spec_block_preimage(b: BlockV) -> Seq<u8> {
    spec_u64_to_le_bytes(b.height) + b.prev_hash + spec_u64_to_le_bytes(b.timestamp) + b.producer
        + b.proof_blob + spec_u64_to_le_bytes(b.epoch_length)
}

/// The canonical block hash: the field digest (first 255 digest bits) of
/// the committed contents.
pub open spec fn spec_block_hash(b: BlockV) -> Seq<u8> {
    fe_of_le(spec_mask255(sha3_256_of(spec_block_preimage(b))))
}

/// Recomputes a block's canonical hash from its committed contents;
/// deterministic, and independent of the stored `hash` field.
pub fn compute_block_hash(block: &Block) -> (r: Fe)
    ensures
        r@ == spec_block_hash(block@),
        fe_wf(r@),
{
    let mut buf: Vec<u8> = Vec::new();
    append_u64(&mut buf, block.height);
    buf.extend_from_slice(block.prev_hash.as_bytes().as_slice());
    append_u64(&mut buf, block.timestamp);
    buf.extend_from_slice(block.producer.0.as_slice());
    buf.extend_from_slice(block.identity_proof.proof.as_slice());
    append_u64(&mut buf, block.epoch_length);
    proof {
        assert(buf@ =~= spec_block_preimage(block@));
    }
    let mut digest = sha3_256_bytes(buf.as_slice());
    mask_top_bit(&mut digest);
    fe_from_le_bytes(&digest)
}

/// The consensus state: epoch, height, last block hash, validator set
/// commitment, and the epoch's start time. Created at genesis with
/// all-zero values and mutated only by applying blocks.
#[derive(Clone, Debug)]
pub struct ConsensusState {
    /// Current epoch.
    pub epoch: u64,
    /// Current height.
    pub height: u64,
    /// Hash of the last applied block.
    pub last_block_hash: Fe,
    /// Commitment to the current validator set.
    pub validator_set_root: Fe,
    /// Start time of the current epoch.
    pub epoch_start: u64,
}

impl ConsensusState {
    /// The genesis state: all-zero values.
    pub fn new() -> (r: ConsensusState)
        ensures
            r.epoch == 0,
            r.height == 0,
            r.last_block_hash@ =~= Seq::new(32, |i: int| 0u8),
            r.validator_set_root@ =~= Seq::new(32, |i: int| 0u8),
            r.epoch_start == 0,
    {
        ConsensusState {
            epoch: 0,
            height: 0,
            last_block_hash: fe_zero(),
            validator_set_root: fe_zero(),
            epoch_start: 0,
        }
    }

    /// Applies an accepted block: advances the height and last hash, and
    /// rolls the epoch over when the height crosses an epoch boundary (a
    /// zero epoch length never rolls over). Never fails.
    pub fn apply_block(&mut self, block: &Block) -> (r: Result<(), ConsensusError>)
        requires
            old(self).epoch < u64::MAX,
        ensures
            r is Ok,
            final(self).height == block@.height,
            final(self).last_block_hash@ == block@.hash,
            final(self).validator_set_root == old(self).validator_set_root,
            (block@.epoch_length > 0 && block@.height % block@.epoch_length == 0) ==> (final(self).epoch
                == old(self).epoch + 1 && final(self).epoch_start == block@.timestamp),
            !(block@.epoch_length > 0 && block@.height % block@.epoch_length == 0) ==> (final(self).epoch
                == old(self).epoch && final(self).epoch_start == old(self).epoch_start),
    {
        self.height = block.height;
        self.last_block_hash = block.hash.duplicate();
        if block.epoch_length > 0 && block.height % block.epoch_length == 0 {
            self.epoch = self.epoch + 1;
            self.epoch_start = block.timestamp;
        }
        Ok(())
    }
}

/// Block production: assembly under the timing discipline, and block
/// validation.
pub struct BlockProducer {
    /// Consensus configuration.
    config: ConsensusConfig,
    /// Timestamp of the last produced block.
    last_block_time: u64,
}

impl BlockProducer {
    pub closed spec fn spec_block_time(&self) -> u64 {
        self.config.block_time
    }

    pub closed spec fn spec_epoch_length(&self) -> u64 {
        self.config.epoch_length
    }

    pub closed spec fn spec_last_block_time(&self) -> u64 {
        self.last_block_time
    }

    /// A producer that has not yet produced.
    pub fn new(config: ConsensusConfig) -> (r: BlockProducer)
        ensures
            r.spec_block_time() == config.block_time,
            r.spec_epoch_length() == config.epoch_length,
            r.spec_last_block_time() == 0,
    {
        BlockProducer { config, last_block_time: 0 }
    }

    /// The configured block interval.
    pub fn block_time(&self) -> (r: u64)
        ensures
            r == self.spec_block_time(),
    {
        self.config.block_time
    }

    /// The timestamp of the last production.
    pub fn last_block_time(&self) -> (r: u64)
        ensures
            r == self.spec_last_block_time(),
    {
        self.last_block_time
    }

    /// Starts production at the given wall-clock time.
    pub fn start(&mut self, now: u64) -> (r: Result<(), ConsensusError>)
        ensures
            r is Ok,
            final(self).spec_last_block_time() == now,
            final(self).spec_block_time() == old(self).spec_block_time(),
            final(self).spec_epoch_length() == old(self).spec_epoch_length(),
    {
        self.last_block_time = now;
        Ok(())
    }

    /// Assembles the next block at wall-clock time `now`: height advances
    /// by one, the previous hash is the state's last hash, and the hash
    /// is the canonical digest of the committed contents. Rejects, exactly,
    /// production before one block time has passed; on success the last
    /// production time advances to `now`.
    pub fn create_block(
        &mut self,
        state: &ConsensusState,
        producer: ValidatorId,
        identity_proof: Vec<u8>,
        now: u64,
    ) -> (r: Result<Block, ConsensusError>)
        requires
            state.height < u64::MAX,
            old(self).spec_last_block_time() + old(self).spec_block_time() <= u64::MAX,
        ensures
            r is Ok <==> now >= old(self).spec_last_block_time() + old(self).spec_block_time(),
            r matches Ok(b) ==> ({
                &&& b@.height == state.height + 1
                &&& b@.timestamp == now
                &&& b@.prev_hash == state.last_block_hash@
                &&& b@.producer == producer@
                &&& b@.proof_blob == identity_proof@
                &&& b@.public_inputs =~= Seq::<Seq<u8>>::empty()
                &&& b@.epoch_length == old(self).spec_epoch_length()
                &&& b@.hash == spec_block_hash(b@)
                &&& fe_wf(b@.hash)
                &&& final(self).spec_last_block_time() == now
            }),
            r is Err ==> *final(self) == *old(self),
    {
        if now < self.last_block_time + self.config.block_time {
            return Err(ConsensusError::StateTransitionError("Block time too early".to_string()));
        }
        let mut block = Block {
            height: state.height + 1,
            timestamp: now,
            prev_hash: state.last_block_hash.duplicate(),
            hash: fe_zero(),
            producer,
            identity_proof: IdentityProof { proof: identity_proof, public_inputs: Vec::new() },
            epoch_length: self.config.epoch_length,
        };
        let h = compute_block_hash(&block);
        block.hash = h;
        proof {
            assert(spec_block_preimage(block@) == spec_block_preimage(
                BlockV { hash: Seq::new(32, |i: int| 0u8), ..block@ },
            ));
        }
        self.last_block_time = now;
        Ok(block)
    }

    /// Validates a block against the consensus state and the timing
    /// discipline: accepts exactly when the height advances by one, the
    /// previous hash matches, the timestamp lies within one to two block
    /// times after the last production, and the stored hash equals the
    /// recomputed canonical digest.
    pub fn verify_block(&self, state: &ConsensusState, block: &Block) -> (r: Result<
        (),
        ConsensusError,
    >)
        ensures
            r is Ok <==> ({
                &&& block@.height == state.height + 1
                &&& block@.prev_hash == state.last_block_hash@
                &&& self.spec_last_block_time() + self.spec_block_time() <= block@.timestamp
                &&& block@.timestamp <= self.spec_last_block_time() + 2 * self.spec_block_time()
                &&& block@.hash == spec_block_hash(block@)
            }),
    {
        if state.height == u64::MAX || block.height != state.height + 1 {
            return Err(ConsensusError::InvalidBlock("Invalid block height".to_string()));
        }
        if !block.prev_hash.equals(&state.last_block_hash) {
            return Err(ConsensusError::InvalidBlock("Invalid previous hash".to_string()));
        }
        let last = self.last_block_time as u128;
        let bt = self.config.block_time as u128;
        let ts = block.timestamp as u128;
        if ts < last + bt {
            return Err(ConsensusError::InvalidBlock("Block time too early".to_string()));
        }
        if ts > last + 2 * bt {
            return Err(ConsensusError::InvalidBlock("Block time too late".to_string()));
        }
        let expected = compute_block_hash(block);
        if !block.hash.equals(&expected) {
            return Err(ConsensusError::InvalidBlock("Invalid block hash".to_string()));
        }
        Ok(())
    }
}

/// Block hashes are deterministic: an accepted block's stored hash is
/// exactly the canonical digest of its committed contents, so recomputing
/// it always reproduces the stored value.
pub proof fn lemma_block_hash_deterministic(b: BlockV)
    requires
        b.hash == spec_block_hash(b),
    ensures
        spec_block_hash(b) == b.hash,
{
}

} // verus!
