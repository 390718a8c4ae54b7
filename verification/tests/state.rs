//! Accounts, the sparse Merkle tree, the world state and in-memory
//! storage, exercised with the real hashing backend.

use zkips::account::{Account, AccountId};
use zkips::algebra::Fe;
use zkips::keys::KeyManager;
use zkips::merkle::MerkleTree;
use zkips::state::{State, StateProof, StateUpdate};
use zkips::storage::MemoryStorage;

fn test_key() -> zkips::algebra::Ge {
    KeyManager::new().derive_public_key(&Fe::from_u64(5))
}

#[test]
fn test_account_creation() {
    let id = AccountId(vec![1, 2, 3]);
    let account = Account::new(id.clone(), test_key());
    assert_eq!(account.id, id);
    assert_eq!(account.nonce, 0);
    assert_eq!(account.balance, 0);
    assert!(!account.is_contract());
}

#[test]
fn test_contract_account() {
    let id = AccountId(vec![1, 2, 3]);
    let code_hash = Fe::from_u64(77);
    let account = Account::new_contract(id.clone(), code_hash.clone(), test_key());
    assert!(account.is_contract());
    assert_eq!(account.code_hash, Some(code_hash));
}

#[test]
fn test_account_balance() {
    let id = AccountId(vec![1, 2, 3]);
    let mut account = Account::new(id, test_key());
    assert!(account.update_balance(100).is_ok());
    assert_eq!(account.balance, 100);
    assert!(account.update_balance(-200).is_err());
}

#[test]
fn balance_never_goes_negative() {
    let mut account = Account::new(AccountId(vec![9]), test_key());
    assert!(account.update_balance(50).is_ok());
    assert!(account.update_balance(-20).is_ok());
    assert!(account.update_balance(-40).is_err());
    assert_eq!(account.balance, 30);
}

#[test]
fn nonce_is_non_decreasing() {
    let mut account = Account::new(AccountId(vec![9]), test_key());
    let mut last = account.nonce;
    for _ in 0..5 {
        account.increment_nonce();
        assert!(account.nonce > last);
        last = account.nonce;
    }
    assert_eq!(account.nonce, 5);
}

#[test]
fn test_account_storage() {
    let id = AccountId(vec![1, 2, 3]);
    let mut account = Account::new(id, test_key());
    let key = Fe::from_u64(1);
    let value = Fe::from_u64(42);
    account.set_storage(key.clone(), value.clone());
    assert_eq!(account.get_storage(&key), Some(value));
}

#[test]
fn test_account_serialization() {
    let id = AccountId(vec![1, 2, 3]);
    let mut account = Account::new(id, test_key());
    account.update_balance(100).unwrap();
    account.set_storage(Fe::from_u64(1), Fe::from_u64(42));
    let bytes = account.serialize().unwrap();
    let deserialized = Account::deserialize(&bytes).unwrap();
    assert_eq!(account.id.0, deserialized.id.0);
    assert_eq!(account.balance, deserialized.balance);
    assert_eq!(account.storage, deserialized.storage);
}

#[test]
fn account_deserialize_rejects_garbage() {
    assert!(Account::deserialize(&vec![7u8; 5]).is_err());
}

#[test]
fn test_merkle_tree() {
    let mut tree = MerkleTree::new(8);
    let key = b"test_key";
    let value = b"test_value";
    let root = tree.update(key, value).unwrap();
    assert_ne!(root, Fe::zero());
    let retrieved = tree.get(key).unwrap().unwrap();
    assert_eq!(retrieved, value.to_vec());
}

#[test]
fn test_merkle_proof() {
    let mut tree = MerkleTree::new(8);
    let key = b"test_key";
    let value = b"test_value";
    tree.update(key, value).unwrap();
    let proof = tree.get_proof(key).unwrap();
    assert!(tree.verify_proof(key, value, &proof).unwrap());
}

#[test]
fn merkle_proof_rejects_wrong_value() {
    let mut tree = MerkleTree::new(8);
    tree.update(b"test_key", b"test_value").unwrap();
    let proof = tree.get_proof(b"test_key").unwrap();
    assert!(!tree.verify_proof(b"test_key", b"other_value", &proof).unwrap());
}

#[test]
fn merkle_proofs_verify_for_every_key() {
    let mut tree = MerkleTree::new(16);
    tree.update(b"alpha", b"1").unwrap();
    tree.update(b"beta", b"2").unwrap();
    tree.update(b"gamma", b"3").unwrap();
    for (k, v) in [(b"alpha".as_slice(), b"1".as_slice()), (b"beta", b"2"), (b"gamma", b"3")] {
        let proof = tree.get_proof(k).unwrap();
        assert!(tree.verify_proof(k, v, &proof).unwrap());
    }
    assert_eq!(tree.get(b"delta").unwrap(), None);
}

#[test]
fn merkle_update_overwrites() {
    let mut tree = MerkleTree::new(8);
    let r1 = tree.update(b"k", b"v1").unwrap();
    let r2 = tree.update(b"k", b"v2").unwrap();
    assert_ne!(r1, r2);
    assert_eq!(tree.get(b"k").unwrap().unwrap(), b"v2".to_vec());
}

#[test]
fn test_state_creation() {
    let state = State::new();
    assert_eq!(state.version, 0);
    assert_eq!(state.block_height, 0);
    assert!(state.accounts.is_empty());
}

#[test]
fn test_account_management() {
    let mut state = State::new();
    let id = AccountId(vec![1, 2, 3]);
    let account = Account::new(id.clone(), test_key());
    state.set_account(account);
    assert_eq!(state.get_account(&id).unwrap().id, id);
    state.remove_account(&id);
    assert!(state.get_account(&id).is_none());
}

#[test]
fn test_state_root_calculation() {
    let state = State::new();
    let mut modified_accounts = Vec::new();
    for i in 0..3u8 {
        let id = AccountId(vec![i]);
        modified_accounts.push(Account::new(id, test_key()));
    }
    let root = state.calculate_root(&modified_accounts).unwrap();
    assert_ne!(root, Fe::zero());
}

#[test]
fn state_root_is_deterministic() {
    let mut state = State::new();
    state.set_account(Account::new(AccountId(vec![1]), test_key()));
    let r1 = state.calculate_root(&Vec::new()).unwrap();
    let r2 = state.calculate_root(&Vec::new()).unwrap();
    assert_eq!(r1, r2);
}

#[test]
fn test_state_proof() {
    let mut state = State::new();
    let id = AccountId(vec![1, 2, 3]);
    let account = Account::new(id.clone(), test_key());
    state.apply_modifications(vec![account]).unwrap();
    let proof = state.get_account_proof(&id).unwrap();
    assert!(state.verify_proof(&proof).unwrap());
}

#[test]
fn state_proof_rejects_foreign_membership_proof() {
    let mut state = State::new();
    let id = AccountId(vec![1, 2, 3]);
    let account = Account::new(id.clone(), test_key());
    state.apply_modifications(vec![account.clone_account()]).unwrap();

    let mut other_tree = MerkleTree::new(8);
    other_tree.update(b"unrelated", b"leaf").unwrap();
    let foreign = other_tree.get_proof(&id.0).unwrap();

    let fake = StateProof {
        account_id: id,
        account: Some(account),
        merkle_proof: foreign,
        root: state.root.clone(),
    };
    assert!(!state.verify_proof(&fake).unwrap());
}

#[test]
fn state_proof_rejects_stale_root() {
    let mut state = State::new();
    let id = AccountId(vec![1, 2, 3]);
    // The account is stored but the root is never committed, so an
    // issued proof does not authenticate under the stale root.
    state.set_account(Account::new(id.clone(), test_key()));
    let proof = state.get_account_proof(&id).unwrap();
    assert!(!state.verify_proof(&proof).unwrap());
}

#[test]
fn test_state_serialization() {
    let mut state = State::new();
    let id = AccountId(vec![1, 2, 3]);
    state.set_account(Account::new(id, test_key()));
    let bytes = state.serialize().unwrap();
    let deserialized = State::deserialize(&bytes).unwrap();
    assert_eq!(state.version, deserialized.version);
    assert_eq!(state.root, deserialized.root);
    assert_eq!(state.accounts.len(), deserialized.accounts.len());
}

#[test]
fn types_test_state_update() {
    let mut state = State::new();
    let mut modified_accounts = Vec::new();
    let id = AccountId(vec![1, 2, 3]);
    modified_accounts.push(Account::new(id, test_key()));
    let previous_root = state.root.clone();
    let new_root = state.calculate_root(&modified_accounts).unwrap();
    let update = StateUpdate::new(1, 1000, modified_accounts, previous_root, new_root);
    assert!(update.verify(&state).unwrap());
}

#[test]
fn state_update_rejects_stale_root() {
    let state = State::new();
    let update = StateUpdate::new(1, 1000, Vec::new(), Fe::from_u64(9), Fe::zero());
    assert!(!update.verify(&state).unwrap());
}

#[test]
fn memory_storage_round_trip() {
    let mut storage = MemoryStorage::new();
    let id = AccountId(vec![1, 2, 3]);
    let account = Account::new(id.clone(), test_key());
    storage.save_account_mem(&account).unwrap();
    let loaded = storage.get_account_mem(&id).unwrap().unwrap();
    assert_eq!(account.id, loaded.id);
    assert_eq!(account.balance, loaded.balance);
    storage.delete_account_mem(&id).unwrap();
    assert!(storage.get_account_mem(&id).unwrap().is_none());
    storage.clear_mem().unwrap();
    let state = storage.load_state_mem().unwrap();
    assert!(state.accounts.is_empty());
}

#[test]
fn memory_storage_saves_state() {
    let mut storage = MemoryStorage::new();
    let mut state = State::new();
    state.set_account(Account::new(AccountId(vec![4]), test_key()));
    storage.save_state_mem(&state).unwrap();
    let loaded = storage.load_state_mem().unwrap();
    assert_eq!(loaded.accounts.len(), 1);
    assert_eq!(loaded.root, state.root);
}
