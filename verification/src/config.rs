//! Configuration records. Thresholds are exact rationals: a threshold of
//! two thirds compares as `3 * part >= 2 * whole`, with no rounding.

use vstd::prelude::*;

verus! {

/// An exact rational threshold in (0, 1].
#[derive(Clone, Copy, Debug, PartialEq, Eq, Structural)]
pub struct Ratio {
    /// Numerator.
    pub num: u64,
    /// Denominator.
    pub den: u64,
}

impl Ratio {
    /// Well-formedness: a value in (0, 1].
    pub open spec fn wf(&self) -> bool {
        0 < self.num <= self.den
    }

    /// A new threshold; the caller keeps it in (0, 1].
    pub fn new(num: u64, den: u64) -> (r: Ratio)
        requires
            0 < num <= den,
        ensures
            r.num == num,
            r.den == den,
            r.wf(),
    {
        Ratio { num, den }
    }
}

/// Whether `part / whole` reaches the threshold `num / den`, exactly; a
/// zero whole reaches nothing.
pub open spec fn spec_reaches(part: int, whole: int, num: u64, den: u64) -> bool {
    whole > 0 && part * den >= whole * num
}

/// Consensus configuration, with the recognized options and their
/// defaults.
#[derive(Clone, Debug)]
pub struct ConsensusConfig {
    /// Refuse consensus initialization below this many validators.
    pub min_validators: usize,
    /// Cap on the validator set size.
    pub max_validators: usize,
    /// Minimum stake to register.
    pub min_stake: u64,
    /// Target inter-block interval in seconds.
    pub block_time: u64,
    /// Epoch rollover trigger, in blocks.
    pub epoch_length: u64,
    /// Reject oversized blocks.
    pub max_block_size: usize,
    /// Per-validator selection probability cap (two thirds).
    pub selection_threshold: Ratio,
    /// Weighted quorum for consensus (two thirds).
    pub vote_threshold: Ratio,
    /// Minimum crypto bit-security.
    pub security_level: usize,
}

impl ConsensusConfig {
    /// Well-formed thresholds and a positive block time.
    pub open spec fn wf(&self) -> bool {
        &&& self.selection_threshold.wf()
        &&& self.vote_threshold.wf()
    }
}

impl Default for ConsensusConfig {
    /// The canonical defaults.
    fn default() -> (r: ConsensusConfig)
        ensures
            r.min_validators == 4,
            r.max_validators == 100,
            r.min_stake == 1000,
            r.block_time == 6,
            r.epoch_length == 7200,
            r.max_block_size == 5 * 1024 * 1024,
            r.selection_threshold == (Ratio { num: 2, den: 3 }),
            r.vote_threshold == (Ratio { num: 2, den: 3 }),
            r.security_level == 128,
            r.wf(),
    {
        ConsensusConfig {
            min_validators: 4,
            max_validators: 100,
            min_stake: 1000,
            block_time: 6,
            epoch_length: 7200,
            max_block_size: 5 * 1024 * 1024,
            selection_threshold: Ratio { num: 2, den: 3 },
            vote_threshold: Ratio { num: 2, den: 3 },
            security_level: 128,
        }
    }
}

/// Top-level protocol configuration.
#[derive(Clone, Debug)]
pub struct CoreConfig {
    /// Network identifier.
    pub network_id: u64,
    /// Weighted quorum for consensus.
    pub consensus_threshold: Ratio,
    /// Target inter-block interval in seconds.
    pub block_time: u64,
    /// Cap on the validator set size.
    pub max_validators: usize,
}

} // verus!
