//! Validator set accounting, weighted voting, selection, block production
//! and identity checks.

use zkips::algebra::Fe;
use zkips::block::{compute_block_hash, Block, BlockProducer, ConsensusState, IdentityProof};
use zkips::config::{ConsensusConfig, Ratio};
use zkips::errors::ConsensusError;
use zkips::identity::IdentityVerifier;
use zkips::selection::ValidatorSelector;
use zkips::validator::{Validator, ValidatorId, ValidatorManager, ValidatorPerformance,
    ValidatorSet};
use zkips::voting::VotingManager;

fn validator(id: u8, stake: u64) -> Validator {
    Validator {
        id: ValidatorId(vec![id]),
        stake,
        identity_commitment: Fe::from_u64(id as u64 + 1),
        last_block: 0,
        performance: ValidatorPerformance { blocks_produced: 1, blocks_missed: 0 },
    }
}

#[test]
fn config_defaults() {
    let config = ConsensusConfig::default();
    assert_eq!(config.min_validators, 4);
    assert_eq!(config.max_validators, 100);
    assert_eq!(config.min_stake, 1000);
    assert_eq!(config.block_time, 6);
    assert_eq!(config.epoch_length, 7200);
    assert_eq!(config.max_block_size, 5 * 1024 * 1024);
    assert_eq!(config.security_level, 128);
}

#[test]
fn total_stake_tracks_members() {
    let mut set = ValidatorSet::new();
    set.add_validator(validator(1, 1000)).unwrap();
    set.add_validator(validator(2, 2500)).unwrap();
    set.add_validator(validator(3, 500)).unwrap();
    assert_eq!(set.total_stake(), 4000);
    set.remove_validator(&ValidatorId(vec![2]));
    assert_eq!(set.total_stake(), 1500);
    set.add_validator(validator(1, 300)).unwrap();
    assert_eq!(set.total_stake(), 800);
    assert_eq!(set.len(), 2);
}

#[test]
fn register_validator_enforces_minimum_stake() {
    let mut manager = ValidatorManager::new(1000, 100);
    let err = manager
        .register_validator(ValidatorId(vec![1]), 500, Fe::from_u64(1))
        .unwrap_err();
    match err {
        ConsensusError::InsufficientStake(v) => assert_eq!(v, 500),
        _ => panic!("expected an insufficient-stake error"),
    }
    assert!(manager.register_validator(ValidatorId(vec![1]), 1000, Fe::from_u64(1)).is_ok());
    assert!(manager.get_validator(&ValidatorId(vec![1])).is_some());
}

#[test]
fn register_validator_enforces_cap() {
    let mut manager = ValidatorManager::new(10, 1);
    assert!(manager.register_validator(ValidatorId(vec![1]), 10, Fe::from_u64(1)).is_ok());
    assert!(manager.register_validator(ValidatorId(vec![2]), 10, Fe::from_u64(2)).is_err());
}

#[test]
fn update_stake_and_performance() {
    let mut manager = ValidatorManager::new(10, 8);
    manager.register_validator(ValidatorId(vec![1]), 100, Fe::from_u64(1)).unwrap();
    assert!(manager.update_stake(&ValidatorId(vec![1]), 5).is_err());
    assert!(manager.update_stake(&ValidatorId(vec![1]), 200).is_ok());
    assert_eq!(manager.get_validator(&ValidatorId(vec![1])).unwrap().stake, 200);
    assert!(manager.update_performance(&ValidatorId(vec![1]), true).is_ok());
    assert!(manager.update_performance(&ValidatorId(vec![1]), false).is_ok());
    let v = manager.get_validator(&ValidatorId(vec![1])).unwrap();
    assert_eq!(v.performance.blocks_produced, 1);
    assert_eq!(v.performance.blocks_missed, 1);
    assert_eq!(v.performance.uptime_ppm(), 500000);
    assert!(manager.update_performance(&ValidatorId(vec![9]), true).is_err());
}

#[test]
fn test_duplicate_vote() {
    let mut voting_manager = VotingManager::new(Ratio::new(2, 3));
    voting_manager.update_weights(vec![(ValidatorId(vec![1]), 100)]);
    let block_hash = Fe::from_u64(1);
    let result1 = voting_manager.submit_vote(block_hash.clone(), ValidatorId(vec![1]), vec![1, 2, 3]);
    assert_eq!(result1.unwrap(), true);
    let result2 = voting_manager.submit_vote(block_hash.clone(), ValidatorId(vec![1]), vec![1, 2, 3]);
    assert!(result2.is_err());
    assert_eq!(voting_manager.get_block_votes(&block_hash).unwrap().len(), 1);
}

#[test]
fn quorum_builds_vote_by_vote() {
    let mut voting_manager = VotingManager::new(Ratio::new(2, 3));
    voting_manager.update_weights(vec![
        (ValidatorId(vec![1]), 100),
        (ValidatorId(vec![2]), 100),
        (ValidatorId(vec![3]), 100),
    ]);
    let h = Fe::from_u64(1);
    assert_eq!(voting_manager.submit_vote(h.clone(), ValidatorId(vec![1]), vec![1]).unwrap(), false);
    assert_eq!(voting_manager.submit_vote(h.clone(), ValidatorId(vec![2]), vec![1]).unwrap(), true);
    assert_eq!(voting_manager.submit_vote(h.clone(), ValidatorId(vec![3]), vec![1]).unwrap(), true);
}

#[test]
fn vote_rejects_empty_signature() {
    let mut voting_manager = VotingManager::new(Ratio::new(2, 3));
    voting_manager.update_weights(vec![(ValidatorId(vec![1]), 100)]);
    assert!(voting_manager.submit_vote(Fe::from_u64(1), ValidatorId(vec![1]), vec![]).is_err());
}

#[test]
fn voting_stats_report_weights() {
    let mut voting_manager = VotingManager::new(Ratio::new(2, 3));
    voting_manager.update_weights(vec![
        (ValidatorId(vec![1]), 100),
        (ValidatorId(vec![2]), 50),
    ]);
    let h = Fe::from_u64(1);
    voting_manager.submit_vote(h.clone(), ValidatorId(vec![1]), vec![1]).unwrap();
    let stats = voting_manager.get_voting_stats(&h).unwrap();
    assert_eq!(stats.total_votes, 1);
    assert_eq!(stats.total_weight, 100);
    assert_eq!(stats.possible_weight, 150);
    assert!(voting_manager.get_voting_stats(&Fe::from_u64(2)).is_err());
}

#[test]
fn clear_old_votes_is_height_indexed() {
    let mut voting_manager = VotingManager::new(Ratio::new(2, 3));
    voting_manager.update_weights(vec![
        (ValidatorId(vec![1]), 100),
        (ValidatorId(vec![2]), 100),
    ]);
    let old_hash = Fe::from_u64(10);
    let new_hash = Fe::from_u64(20);
    let unregistered = Fe::from_u64(30);
    voting_manager.register_block(old_hash.clone(), 5);
    voting_manager.register_block(new_hash.clone(), 9);
    voting_manager.submit_vote(old_hash.clone(), ValidatorId(vec![1]), vec![1]).unwrap();
    voting_manager.submit_vote(new_hash.clone(), ValidatorId(vec![1]), vec![1]).unwrap();
    voting_manager.submit_vote(unregistered.clone(), ValidatorId(vec![1]), vec![1]).unwrap();

    voting_manager.clear_old_votes(9);

    assert!(voting_manager.get_block_votes(&old_hash).is_none());
    assert_eq!(voting_manager.get_block_votes(&new_hash).unwrap().len(), 1);
    assert_eq!(voting_manager.get_block_votes(&unregistered).unwrap().len(), 1);

    // A voter may vote again for a cleared block; retained blocks still
    // reject duplicates.
    assert!(voting_manager.submit_vote(old_hash, ValidatorId(vec![1]), vec![1]).is_ok());
    assert!(voting_manager.submit_vote(new_hash, ValidatorId(vec![1]), vec![1]).is_err());
}

#[test]
fn register_block_updates_height() {
    let mut voting_manager = VotingManager::new(Ratio::new(2, 3));
    voting_manager.update_weights(vec![(ValidatorId(vec![1]), 100)]);
    let h = Fe::from_u64(10);
    voting_manager.register_block(h.clone(), 3);
    voting_manager.register_block(h.clone(), 8);
    voting_manager.submit_vote(h.clone(), ValidatorId(vec![1]), vec![1]).unwrap();
    voting_manager.clear_old_votes(5);
    assert_eq!(voting_manager.get_block_votes(&h).unwrap().len(), 1);
    voting_manager.clear_old_votes(9);
    assert!(voting_manager.get_block_votes(&h).is_none());
}

#[test]
fn selection_is_deterministic() {
    let mut config = ConsensusConfig::default();
    config.min_validators = 1;
    let selector = ValidatorSelector::new(config);
    let mut set = ValidatorSet::new();
    for i in 1..=5u8 {
        set.add_validator(validator(i, 1000 + i as u64 * 1000)).unwrap();
    }
    let seed = vec![7u8; 32];
    let r1 = selector.select_next_validators(&set, &seed);
    let r2 = selector.select_next_validators(&set, &seed);
    match (r1, r2) {
        (Ok(s1), Ok(s2)) => {
            assert_eq!(s1.len(), s2.len());
            let mut i = 0;
            while i < s1.len() {
                assert_eq!(s1.validator_at(i).id, s2.validator_at(i).id);
                i += 1;
            }
        },
        (Err(_), Err(_)) => {},
        _ => panic!("selection differed between identical runs"),
    }
}

#[test]
fn block_timing_window() {
    let config = ConsensusConfig::default();
    let mut producer = BlockProducer::new(config.clone());
    producer.start(1000).unwrap();
    let state = ConsensusState::new();

    let mut make = |timestamp: u64| -> Block {
        let mut b = Block {
            height: 1,
            timestamp,
            prev_hash: Fe::zero(),
            hash: Fe::zero(),
            producer: ValidatorId(vec![1]),
            identity_proof: IdentityProof { proof: vec![1], public_inputs: Vec::new() },
            epoch_length: config.epoch_length,
        };
        b.hash = compute_block_hash(&b);
        b
    };

    assert!(producer.verify_block(&state, &make(1005)).is_err());
    assert!(producer.verify_block(&state, &make(1006)).is_ok());
    assert!(producer.verify_block(&state, &make(1012)).is_ok());
    assert!(producer.verify_block(&state, &make(1013)).is_err());
}

#[test]
fn create_block_respects_timing_and_hash() {
    let config = ConsensusConfig::default();
    let mut producer = BlockProducer::new(config);
    producer.start(1000).unwrap();
    let state = ConsensusState::new();
    assert!(producer
        .create_block(&state, ValidatorId(vec![1]), vec![1, 2, 3], 1005)
        .is_err());
    let block = producer
        .create_block(&state, ValidatorId(vec![1]), vec![1, 2, 3], 1006)
        .unwrap();
    assert_eq!(block.height, 1);
    assert_eq!(block.timestamp, 1006);
    assert_eq!(compute_block_hash(&block), block.hash);
}

#[test]
fn tampered_block_hash_is_rejected() {
    let config = ConsensusConfig::default();
    let mut producer = BlockProducer::new(config);
    producer.start(1000).unwrap();
    let state = ConsensusState::new();
    let mut block = producer
        .create_block(&state, ValidatorId(vec![1]), vec![1, 2, 3], 1006)
        .unwrap();
    block.timestamp = 1007;
    let mut producer2 = BlockProducer::new(ConsensusConfig::default());
    producer2.start(1000).unwrap();
    assert!(producer2.verify_block(&state, &block).is_err());
}

#[test]
fn consensus_state_applies_blocks_and_rolls_epochs() {
    let mut state = ConsensusState::new();
    let mut block = Block {
        height: 1,
        timestamp: 500,
        prev_hash: Fe::zero(),
        hash: Fe::zero(),
        producer: ValidatorId(vec![1]),
        identity_proof: IdentityProof { proof: vec![1], public_inputs: Vec::new() },
        epoch_length: 1,
    };
    block.hash = compute_block_hash(&block);
    state.apply_block(&block).unwrap();
    assert_eq!(state.height, 1);
    assert_eq!(state.last_block_hash, block.hash);
    assert_eq!(state.epoch, 1);
    assert_eq!(state.epoch_start, 500);
}

#[test]
fn identity_eligibility_checks() {
    let verifier = IdentityVerifier::new(ConsensusConfig::default());
    let mut set = ValidatorSet::new();
    set.add_validator(validator(1, 1000)).unwrap();
    let commitment = Fe::from_u64(2);
    let mut block = Block {
        height: 5,
        timestamp: 500,
        prev_hash: Fe::zero(),
        hash: Fe::zero(),
        producer: ValidatorId(vec![1]),
        identity_proof: IdentityProof { proof: vec![1], public_inputs: vec![commitment] },
        epoch_length: 10,
    };
    block.hash = compute_block_hash(&block);
    assert!(verifier.verify_producer_eligibility(&block, &set, 1).is_ok());

    block.identity_proof.public_inputs = vec![Fe::from_u64(9)];
    assert!(verifier.verify_producer_eligibility(&block, &set, 1).is_err());

    block.producer = ValidatorId(vec![7]);
    assert!(verifier.verify_producer_eligibility(&block, &set, 1).is_err());
}

#[test]
fn identity_proof_rejects_empty_and_garbage() {
    let verifier = IdentityVerifier::new(ConsensusConfig::default());
    let empty = IdentityProof { proof: vec![], public_inputs: vec![] };
    assert!(verifier.verify_identity_proof(&empty).is_err());
    let garbage = IdentityProof { proof: vec![1, 2, 3], public_inputs: vec![] };
    assert!(verifier.verify_identity_proof(&garbage).is_err());
}
