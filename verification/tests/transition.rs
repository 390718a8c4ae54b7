//! Transactions and the state transition rules: the five kinds, the
//! validation rules, computation accounting and purity.

use zkips::account::{Account, AccountId};
use zkips::algebra::Fe;
use zkips::keys::KeyManager;
use zkips::signature::SignatureScheme;
use zkips::state::State;
use zkips::transaction::{Transaction, TransactionType};
use zkips::transition::StateTransition;

fn setup_test_state() -> (State, Fe) {
    let km = KeyManager::new();
    let private_key = Fe::from_u64(31);
    let pk = km.derive_public_key(&private_key);
    let mut state = State::new();
    let sender_id = AccountId(vec![1]);
    let mut sender = Account::new(sender_id, pk.clone());
    sender.balance = 1000;
    state.set_account(sender);
    let receiver_id = AccountId(vec![2]);
    let receiver = Account::new(receiver_id, pk);
    state.set_account(receiver);
    (state, private_key)
}

fn create_signed_transaction(
    tx_type: TransactionType,
    from: AccountId,
    to: Option<AccountId>,
    value: u64,
    nonce: u64,
    data: Vec<u8>,
    private_key: &Fe,
) -> Transaction {
    let mut tx = Transaction::new(tx_type, from, to, value, nonce, data);
    let signature_scheme = SignatureScheme::new(128).unwrap();
    tx.sign(&signature_scheme, private_key).unwrap();
    tx.add_computation_proof(vec![1, 2, 3]);
    tx
}

fn find_account<'a>(accounts: &'a [Account], id: &AccountId) -> Option<&'a Account> {
    accounts.iter().find(|a| a.id == *id)
}

#[test]
fn test_transaction_creation() {
    let from = AccountId(vec![1, 2, 3]);
    let to = AccountId(vec![4, 5, 6]);
    let tx = Transaction::new(TransactionType::Transfer, from, Some(to), 100, 1, vec![]);
    assert_eq!(tx.tx_type, TransactionType::Transfer);
    assert_eq!(tx.value, 100);
    assert_eq!(tx.nonce, 1);
}

#[test]
fn test_transaction_signing() {
    let signature_scheme = SignatureScheme::new(128).unwrap();
    let private_key = Fe::from_u64(31);
    let from = AccountId(vec![1, 2, 3]);
    let mut tx = Transaction::new(TransactionType::Transfer, from, None, 100, 1, vec![]);
    assert!(tx.sign(&signature_scheme, &private_key).is_ok());
    assert!(tx.signature.is_some());
}

#[test]
fn test_transaction_verification() {
    let signature_scheme = SignatureScheme::new(128).unwrap();
    let km = KeyManager::new();
    let private_key = Fe::from_u64(31);
    let public_key = km.derive_public_key(&private_key);
    let from = AccountId(vec![1, 2, 3]);
    let mut tx = Transaction::new(TransactionType::Transfer, from, None, 100, 1, vec![]);
    tx.sign(&signature_scheme, &private_key).unwrap();
    assert!(tx.verify_signature(&public_key).unwrap());
}

#[test]
fn test_computation_proof() {
    let from = AccountId(vec![1, 2, 3]);
    let mut tx = Transaction::new(TransactionType::Transfer, from, None, 100, 1, vec![]);
    let proof = vec![1, 2, 3, 4];
    tx.add_computation_proof(proof);
    assert!(tx.verify_computation().unwrap());
}

#[test]
fn verify_computation_errors_when_missing() {
    let tx = Transaction::new(TransactionType::Transfer, AccountId(vec![1]), None, 1, 0, vec![]);
    assert!(tx.verify_computation().is_err());
}

#[test]
fn test_transfer_transaction() {
    let state_transition = StateTransition::new().unwrap();
    let (state, private_key) = setup_test_state();
    let tx = create_signed_transaction(
        TransactionType::Transfer,
        AccountId(vec![1]),
        Some(AccountId(vec![2])),
        100,
        0,
        vec![],
        &private_key,
    );
    let result = state_transition.apply_transaction(&state, &tx, 1).unwrap();
    let sender_account = find_account(&result.modified_accounts, &AccountId(vec![1])).unwrap();
    let receiver_account = find_account(&result.modified_accounts, &AccountId(vec![2])).unwrap();
    assert_eq!(sender_account.balance, 900);
    assert_eq!(sender_account.nonce, 1);
    assert_eq!(receiver_account.balance, 100);
    assert_ne!(result.new_root, state.root);
}

#[test]
fn test_deploy_contract() {
    let state_transition = StateTransition::new().unwrap();
    let (state, private_key) = setup_test_state();
    let tx = create_signed_transaction(
        TransactionType::Deploy,
        AccountId(vec![1]),
        None,
        0,
        0,
        vec![1, 2, 3, 4],
        &private_key,
    );
    let result = state_transition.apply_transaction(&state, &tx, 1).unwrap();
    assert_eq!(result.modified_accounts.len(), 2);
    let contract_account = result.modified_accounts.iter().find(|a| a.is_contract()).unwrap();
    assert!(contract_account.code_hash.is_some());
}

#[test]
fn test_contract_call() {
    let state_transition = StateTransition::new().unwrap();
    let (mut state, private_key) = setup_test_state();
    let km = KeyManager::new();
    let contract_id = AccountId(vec![3]);
    let contract = Account::new_contract(
        contract_id.clone(),
        Fe::from_u64(99),
        km.derive_public_key(&private_key),
    );
    state.set_account(contract);
    let tx = create_signed_transaction(
        TransactionType::Call,
        AccountId(vec![1]),
        Some(contract_id),
        0,
        0,
        vec![],
        &private_key,
    );
    let result = state_transition.apply_transaction(&state, &tx, 1).unwrap();
    assert!(find_account(&result.modified_accounts, &AccountId(vec![1])).is_some());
    assert!(find_account(&result.modified_accounts, &AccountId(vec![3])).is_some());
}

#[test]
fn test_create_account() {
    let state_transition = StateTransition::new().unwrap();
    let (state, private_key) = setup_test_state();
    let new_account_id = AccountId(vec![4]);
    let tx = create_signed_transaction(
        TransactionType::CreateAccount,
        AccountId(vec![1]),
        Some(new_account_id.clone()),
        0,
        0,
        vec![],
        &private_key,
    );
    let result = state_transition.apply_transaction(&state, &tx, 1).unwrap();
    let new_account = find_account(&result.modified_accounts, &new_account_id).unwrap();
    assert_eq!(new_account.balance, 0);
}

#[test]
fn create_account_rejects_existing() {
    let state_transition = StateTransition::new().unwrap();
    let (state, private_key) = setup_test_state();
    let tx = create_signed_transaction(
        TransactionType::CreateAccount,
        AccountId(vec![1]),
        Some(AccountId(vec![2])),
        0,
        0,
        vec![],
        &private_key,
    );
    assert!(state_transition.apply_transaction(&state, &tx, 1).is_err());
}

#[test]
fn test_invalid_nonce() {
    let state_transition = StateTransition::new().unwrap();
    let (state, private_key) = setup_test_state();
    let tx = create_signed_transaction(
        TransactionType::Transfer,
        AccountId(vec![1]),
        Some(AccountId(vec![2])),
        100,
        1,
        vec![],
        &private_key,
    );
    let result = state_transition.apply_transaction(&state, &tx, 1);
    assert!(result.is_err());
}

#[test]
fn test_insufficient_balance() {
    let state_transition = StateTransition::new().unwrap();
    let (state, private_key) = setup_test_state();
    let tx = create_signed_transaction(
        TransactionType::Transfer,
        AccountId(vec![1]),
        Some(AccountId(vec![2])),
        2000,
        0,
        vec![],
        &private_key,
    );
    let result = state_transition.apply_transaction(&state, &tx, 1);
    assert!(result.is_err());
}

#[test]
fn transfer_rejects_missing_receiver() {
    let state_transition = StateTransition::new().unwrap();
    let (state, private_key) = setup_test_state();
    let tx = create_signed_transaction(
        TransactionType::Transfer,
        AccountId(vec![1]),
        Some(AccountId(vec![9])),
        100,
        0,
        vec![],
        &private_key,
    );
    assert!(state_transition.apply_transaction(&state, &tx, 1).is_err());
}

#[test]
fn test_computation_used() {
    let state_transition = StateTransition::new().unwrap();
    let (state, private_key) = setup_test_state();
    let tx = create_signed_transaction(
        TransactionType::Transfer,
        AccountId(vec![1]),
        Some(AccountId(vec![2])),
        100,
        0,
        vec![],
        &private_key,
    );
    let result = state_transition.apply_transaction(&state, &tx, 1).unwrap();
    assert!(result.computation_used >= state_transition.min_computation);
    assert_eq!(result.computation_used, 2000);
}

#[test]
fn apply_transaction_is_pure_and_deterministic() {
    let state_transition = StateTransition::new().unwrap();
    let (state, private_key) = setup_test_state();
    let before = state.serialize().unwrap();
    let tx = create_signed_transaction(
        TransactionType::Transfer,
        AccountId(vec![1]),
        Some(AccountId(vec![2])),
        100,
        0,
        vec![],
        &private_key,
    );
    let r1 = state_transition.apply_transaction(&state, &tx, 1).unwrap();
    let r2 = state_transition.apply_transaction(&state, &tx, 1).unwrap();
    assert_eq!(state.serialize().unwrap(), before);
    assert_eq!(r1.new_root, r2.new_root);
    assert_eq!(r1.computation_used, r2.computation_used);
    assert_eq!(r1.modified_accounts.len(), r2.modified_accounts.len());
    for (a, b) in r1.modified_accounts.iter().zip(r2.modified_accounts.iter()) {
        assert!(a.equals(b));
    }
}

#[test]
fn deploy_then_call_contract() {
    let state_transition = StateTransition::new().unwrap();
    let (mut state, private_key) = setup_test_state();
    let deploy = create_signed_transaction(
        TransactionType::Deploy,
        AccountId(vec![1]),
        None,
        0,
        0,
        vec![9, 9, 9],
        &private_key,
    );
    let result = state_transition.apply_transaction(&state, &deploy, 1).unwrap();
    let contract = result.modified_accounts.iter().find(|a| a.is_contract()).unwrap().clone();
    let contract_id = contract.id.clone();
    for acc in result.modified_accounts {
        state.set_account(acc);
    }
    let call = create_signed_transaction(
        TransactionType::Call,
        AccountId(vec![1]),
        Some(contract_id.clone()),
        0,
        1,
        vec![],
        &private_key,
    );
    let result2 = state_transition.apply_transaction(&state, &call, 2).unwrap();
    assert!(result2.modified_accounts.iter().any(|a| a.id == contract_id));
}

#[test]
fn apply_block_merges_and_verifies() {
    let state_transition = StateTransition::new().unwrap();
    let (state, private_key) = setup_test_state();
    let tx = create_signed_transaction(
        TransactionType::Transfer,
        AccountId(vec![1]),
        Some(AccountId(vec![2])),
        100,
        0,
        vec![],
        &private_key,
    );
    let txs = vec![tx];
    assert!(state_transition.validate_block(&state, &txs).is_ok());
    let result = state_transition.apply_block(&state, &txs, 1).unwrap();
    let mut new_state = state.clone();
    new_state.apply_modifications(result.modified_accounts.clone()).unwrap();
    assert_eq!(new_state.root, result.new_root);
    assert!(state_transition.verify_transition(&state, &new_state, &txs).unwrap());
}

#[test]
fn validate_block_rejects_nonce_gap() {
    let state_transition = StateTransition::new().unwrap();
    let (state, private_key) = setup_test_state();
    let t1 = create_signed_transaction(
        TransactionType::Transfer,
        AccountId(vec![1]),
        Some(AccountId(vec![2])),
        10,
        0,
        vec![],
        &private_key,
    );
    let t2 = create_signed_transaction(
        TransactionType::Transfer,
        AccountId(vec![1]),
        Some(AccountId(vec![2])),
        10,
        2,
        vec![],
        &private_key,
    );
    assert!(state_transition.validate_block(&state, &vec![t1, t2]).is_err());
}
