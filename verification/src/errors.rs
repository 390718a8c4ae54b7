//! Error values surfaced at the library boundary. All failures are values,
//! never unwinding.

use vstd::prelude::*;

verus! {

/// Failures of the cryptographic primitives.
#[derive(Debug, Clone)]
pub enum CryptoError {
    HashError(String),
    KeyError(String),
    ProofError(String),
    SignatureError(String),
    EncryptionError(String),
    ParameterError(String),
}

/// Failures of the state model, storage interface and transition rules.
#[derive(Debug, Clone)]
pub enum StateError {
    StorageError(String),
    MerkleError(String),
    TransitionError(String),
    ValidationError(String),
    AccountError(String),
    SerializationError(String),
}

/// Failures of the consensus engine.
#[derive(Debug, Clone)]
pub enum ConsensusError {
    /// ZK proof malformed, fails verification, or the producer is not eligible.
    InvalidIdentityProof(String),
    /// Structural, timing, or hash mismatch in a block.
    InvalidBlock(String),
    /// Registration or update below the minimum stake; carries the offending stake.
    InsufficientStake(u64),
    /// Cap exceeded, validator absent, or a membership invariant broken.
    InvalidValidatorSet(String),
    StateTransitionError(String),
    /// Duplicate vote, unknown block, or missing signature.
    VotingError(String),
    /// Insufficient candidates after retries.
    SelectionError(String),
    InitializationError(String),
}

} // verus!
