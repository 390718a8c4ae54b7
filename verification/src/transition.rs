//! The state transition rules: per-transaction validation, the five
//! transaction kinds, computation accounting, block-level validation and
//! application, and transition verification. The transition function is
//! pure: it never mutates the input state, and its whole result is a
//! function of the state, the transaction and the block number.

use vstd::prelude::*;
use vstd::bytes::spec_u64_to_le_bytes;
use crate::errors::StateError;
use crate::algebra::{Fe, Ge, fe_wf, ge_wf, gen_mul, fe_from_le_bytes, fe_one, fe_zero,
    ge_mul_gen};
use crate::account::{Account, AccountId, AccountV, spec_account_wf};
use crate::hash::{sha3_256_of, sha3_256_bytes, spec_h2f256, mask_top_bit};
use crate::signature::{SignatureScheme, spec_verifies};
use crate::state::{State, StateV, account_views, spec_accounts_get, spec_calc_root,
    lemma_accounts_get_at, lemma_accounts_get_none, lemma_accounts_get_id};
use crate::transaction::{Transaction, TransactionV, TransactionType, spec_tx_signing_bytes,
    spec_tx_hash};
use crate::wire::append_u64;

verus! {

/// A log produced while applying a transaction.
#[derive(Clone, Debug)]
pub struct Log {
    /// Event topic.
    pub topic: Fe,
    /// Event payload.
    pub data: Vec<u8>,
    /// Block the transaction was applied in.
    pub block_number: u64,
    /// Hash of the transaction.
    pub transaction_hash: Fe,
}

/// The result of applying a transaction or a block.
#[derive(Debug)]
pub struct TransitionResult {
    /// Root over the state with the modifications merged in.
    pub new_root: Fe,
    /// The accounts the transition modified or created.
    pub modified_accounts: Vec<Account>,
    /// Deterministic computation cost.
    pub computation_used: u64,
    /// Logs produced (none: contract execution is delegated).
    pub logs: Vec<Log>,
}

/// The canonical zero scalar encoding.
pub open spec fn spec_zero_fe() -> Seq<u8> {
    Seq::new(32, |i: int| 0u8)
}

/// The canonical unit scalar encoding.
pub open spec fn spec_one_fe() -> Seq<u8> {
    Seq::new(32, |i: int| if i == 0 { 1u8 } else { 0u8 })
}

/// The public key extracted from creation data. Key recovery is delegated
/// to the backend; this stands in with the subgroup generator.
pub open spec fn spec_extract_public_key(data: Seq<u8>) -> Seq<u8> {
    gen_mul(spec_one_fe())
}

/// The identifier of a deployed contract: the digest of the sender
/// followed by the nonce, little-endian.
pub open spec fn spec_contract_id(from: Seq<u8>, nonce: u64) -> Seq<u8> {
    sha3_256_of(from + spec_u64_to_le_bytes(nonce))
}

/// Base computation cost of a transaction kind.
pub open spec fn spec_kind_cost(t: TransactionType) -> int {
    match t {
        TransactionType::Transfer => 1000,
        TransactionType::Deploy => 50000,
        TransactionType::Call => 5000,
        TransactionType::CreateAccount => 2000,
        TransactionType::UpdateAccount => 3000,
    }
}

/// Deterministic computation cost: the minimum, ten per data byte, and
/// the kind's base cost.
pub open spec fn spec_computation(tx: TransactionV) -> int {
    1000 + 10 * tx.data.len() + spec_kind_cost(tx.tx_type)
}

/// Inserting into a modification list: replaces the first entry with the
/// same identifier, else appends.
pub open spec fn spec_mods_insert(s: Seq<AccountV>, a: AccountV) -> Seq<AccountV>
    decreases s.len(),
{
    if s.len() == 0 {
        seq![a]
    } else if s[0].id == a.id {
        seq![a] + s.skip(1)
    } else {
        seq![s[0]] + spec_mods_insert(s.skip(1), a)
    }
}

/// Inserting over the first matching index replaces exactly that entry.
pub proof fn lemma_mods_insert_at(s: Seq<AccountV>, a: AccountV, i: int)
    requires
        0 <= i < s.len(),
        forall|j: int| 0 <= j < i ==> s[j].id != a.id,
        s[i].id == a.id,
    ensures
        spec_mods_insert(s, a) == s.update(i, a),
    decreases i,
{
    if i == 0 {
        assert(seq![a] + s.skip(1) =~= s.update(0, a));
    } else {
        lemma_mods_insert_at(s.skip(1), a, i - 1);
        assert(seq![s[0]] + s.skip(1).update(i - 1, a) =~= s.update(i, a));
    }
}

/// Inserting a fresh identifier appends.
pub proof fn lemma_mods_insert_none(s: Seq<AccountV>, a: AccountV)
    requires
        forall|j: int| 0 <= j < s.len() ==> s[j].id != a.id,
    ensures
        spec_mods_insert(s, a) == s.push(a),
    decreases s.len(),
{
    if s.len() == 0 {
        assert(seq![a] =~= s.push(a));
    } else {
        lemma_mods_insert_none(s.skip(1), a);
        assert(seq![s[0]] + s.skip(1).push(a) =~= s.push(a));
    }
}

/// Inserts into an executable modification list, replacing the first
/// entry with the same identifier or appending.
pub fn mods_insert(mods: &mut Vec<Account>, account: Account)
    ensures
        account_views(final(mods)@) == spec_mods_insert(account_views(old(mods)@), account@),
{
    let n = mods.len();
    let ghost aid = account@.id;
    let mut i: usize = 0;
    while i < n
        invariant
            *mods == *old(mods),
            aid == account@.id,
            n == mods@.len(),
            0 <= i <= n,
            forall|j: int| 0 <= j < i ==> account_views(mods@)[j].id != aid,
            forall|j: int| 0 <= j < n ==> #[trigger] account_views(mods@)[j] == mods@[j]@,
        decreases n - i,
    {
        let hit = mods[i].id.equals(&account.id);
        if hit {
            let ghost old_model = account_views(mods@);
            self_set(mods, i, account);
            proof {
                let new_model = account_views(mods@);
                assert(new_model =~= old_model.update(i as int, old_model[i as int]).update(
                    i as int,
                    new_model[i as int],
                ));
                assert(new_model =~= old_model.update(i as int, mods@[i as int]@));
                lemma_mods_insert_at(old_model, mods@[i as int]@, i as int);
            }
            return ;
        }
        i = i + 1;
    }
    let ghost old_model = account_views(mods@);
    let ghost av = account@;
    mods.push(account);
    proof {
        let new_model = account_views(mods@);
        assert(new_model =~= old_model.push(av));
        lemma_mods_insert_none(old_model, av);
    }
}

/// Replaces the element at `i`.
fn self_set(mods: &mut Vec<Account>, i: usize, account: Account)
    requires
        i < old(mods)@.len(),
    ensures
        final(mods)@ == old(mods)@.update(i as int, account),
{
    mods.set(i, account);
}

/// The sender account a transaction names.
pub open spec fn spec_sender(s: StateV, tx: TransactionV) -> AccountV {
    spec_accounts_get(s.accounts, tx.from)->Some_0
}

/// The five global validation rules: the sender exists, the nonce matches
/// exactly (and can still advance), the signature verifies over the
/// signing encoding, a non-empty computation proof is attached, and the
/// balance covers the value.
pub open spec fn spec_tx_valid(s: StateV, tx: TransactionV) -> bool {
    &&& spec_accounts_get(s.accounts, tx.from) is Some
    &&& tx.nonce == spec_sender(s, tx).nonce
    &&& tx.nonce < u64::MAX
    &&& (tx.signature matches Some(sig) && spec_verifies(
        spec_tx_signing_bytes(tx),
        sig.0,
        sig.1,
        spec_sender(s, tx).public_key,
    ))
    &&& (tx.computation_proof matches Some(p) && p.len() > 0)
    &&& tx.value <= spec_sender(s, tx).balance
}

/// The kind-specific rules.
pub open spec fn spec_kind_ok(s: StateV, tx: TransactionV) -> bool {
    match tx.tx_type {
        TransactionType::Transfer => {
            &&& tx.to is Some
            &&& spec_accounts_get(s.accounts, tx.to->Some_0) is Some
            &&& (tx.to->Some_0 != tx.from ==> spec_accounts_get(
                s.accounts,
                tx.to->Some_0,
            )->Some_0.balance + tx.value <= u64::MAX)
        },
        TransactionType::Deploy => true,
        TransactionType::Call => {
            &&& tx.to is Some
            &&& spec_accounts_get(s.accounts, tx.to->Some_0) is Some
            &&& spec_accounts_get(s.accounts, tx.to->Some_0)->Some_0.code_hash is Some
        },
        TransactionType::CreateAccount => {
            &&& tx.to is Some
            &&& spec_accounts_get(s.accounts, tx.to->Some_0) is None
        },
        TransactionType::UpdateAccount => {
            &&& tx.to is Some
            &&& spec_accounts_get(s.accounts, tx.to->Some_0) is Some
            &&& spec_accounts_get(s.accounts, tx.to->Some_0)->Some_0.id == spec_sender(s, tx).id
        },
    }
}

/// A transaction is applicable when the global and kind rules all hold.
pub open spec fn spec_tx_applies(s: StateV, tx: TransactionV) -> bool {
    spec_tx_valid(s, tx) && spec_kind_ok(s, tx)
}

/// The modified accounts an applicable transaction produces, in insertion
/// order. Every kind advances the sender's nonce by one.
pub open spec fn spec_tx_mods(s: StateV, tx: TransactionV) -> Seq<AccountV>
    recommends
        spec_tx_applies(s, tx),
{
    let sender = spec_sender(s, tx);
    match tx.tx_type {
        TransactionType::Transfer => {
            let sender1 = AccountV {
                balance: (sender.balance - tx.value) as u64,
                nonce: (tx.nonce + 1) as u64,
                ..sender
            };
            let to = tx.to->Some_0;
            let rbase = if to == tx.from {
                sender1
            } else {
                spec_accounts_get(s.accounts, to)->Some_0
            };
            let receiver1 = AccountV { balance: (rbase.balance + tx.value) as u64, ..rbase };
            spec_mods_insert(spec_mods_insert(Seq::empty(), sender1), receiver1)
        },
        TransactionType::Deploy => {
            let sender1 = AccountV {
                balance: (sender.balance - tx.value) as u64,
                nonce: (tx.nonce + 1) as u64,
                ..sender
            };
            let contract = AccountV {
                id: spec_contract_id(tx.from, tx.nonce),
                nonce: 0,
                balance: 0,
                public_key: sender.public_key,
                state_root: spec_zero_fe(),
                code_hash: Some(spec_h2f256(tx.data)),
                storage: Seq::empty(),
            };
            spec_mods_insert(spec_mods_insert(Seq::empty(), sender1), contract)
        },
        TransactionType::Call => {
            let sender1 = AccountV {
                balance: (sender.balance - tx.value) as u64,
                nonce: (tx.nonce + 1) as u64,
                ..sender
            };
            let to = tx.to->Some_0;
            let contract1 = if to == tx.from {
                sender1
            } else {
                spec_accounts_get(s.accounts, to)->Some_0
            };
            spec_mods_insert(spec_mods_insert(Seq::empty(), sender1), contract1)
        },
        TransactionType::CreateAccount => {
            let sender1 = AccountV { nonce: (tx.nonce + 1) as u64, ..sender };
            let created = AccountV {
                id: tx.to->Some_0,
                nonce: 0,
                balance: 0,
                public_key: spec_extract_public_key(tx.data),
                state_root: spec_zero_fe(),
                code_hash: None,
                storage: Seq::empty(),
            };
            spec_mods_insert(spec_mods_insert(Seq::empty(), sender1), created)
        },
        TransactionType::UpdateAccount => {
            let sender1 = AccountV { nonce: (tx.nonce + 1) as u64, ..sender };
            spec_mods_insert(Seq::empty(), sender1)
        },
    }
}

/// The state transition handler.
pub struct StateTransition {
    /// Signature scheme used for transaction signatures.
    signature_scheme: SignatureScheme,
    /// Minimum computation charged per transaction.
    pub min_computation: u64,
}

impl StateTransition {
    /// Well-formedness: the canonical minimum charge.
    pub closed spec fn wf(&self) -> bool {
        self.min_computation == 1000
    }

    /// A transition handler with the canonical parameters; never fails.
    pub fn new() -> (r: Result<StateTransition, StateError>)
        ensures
            r matches Ok(t) && t.wf(),
    {
        let signature_scheme = match SignatureScheme::new(128) {
            Ok(s) => s,
            Err(_) => {
                return Err(StateError::ValidationError("scheme init failed".to_string()));
            },
        };
        Ok(StateTransition { signature_scheme, min_computation: 1000 })
    }

    /// The deterministic computation cost of a transaction.
    pub fn calculate_computation_used(&self, transaction: &Transaction) -> (r: Result<
        u64,
        StateError,
    >)
        requires
            self.wf(),
            spec_computation(transaction@) <= u64::MAX,
        ensures
            r matches Ok(c) && c == spec_computation(transaction@),
    {
        let mut computation: u64 = self.min_computation;
        computation = computation + (transaction.data.len() as u64) * 10;
        let kind_cost: u64 = match transaction.tx_type {
            TransactionType::Transfer => 1000,
            TransactionType::Deploy => 50000,
            TransactionType::Call => 5000,
            TransactionType::CreateAccount => 2000,
            TransactionType::UpdateAccount => 3000,
        };
        computation = computation + kind_cost;
        Ok(computation)
    }

    /// Checks the five global rules; accepts exactly the valid
    /// transactions.
    pub fn validate_transaction(&self, state: &State, transaction: &Transaction) -> (r: Result<
        (),
        StateError,
    >)
        requires
            state.wf(),
            transaction.wf(),
        ensures
            r is Ok <==> spec_tx_valid(state@, transaction@),
    {
        let sender = match state.get_account(&transaction.from) {
            Some(a) => a,
            None => {
                return Err(StateError::ValidationError("Sender account not found".to_string()));
            },
        };
        proof {
            assert(sender@ == spec_sender(state@, transaction@));
            lemma_accounts_get_member(state@.accounts, transaction@.from);
            let i = choose|i: int|
                0 <= i < state@.accounts.len() && state@.accounts[i] == sender@;
            assert(spec_account_wf(state@.accounts[i]));
        }
        if transaction.nonce != sender.nonce {
            return Err(StateError::ValidationError("Invalid nonce".to_string()));
        }
        if sender.nonce == u64::MAX {
            return Err(StateError::ValidationError("Nonce exhausted".to_string()));
        }
        let sig_ok = match transaction.verify_signature(&sender.public_key) {
            Ok(b) => b,
            Err(e) => { return Err(e); },
        };
        if !sig_ok {
            return Err(StateError::ValidationError("Invalid signature".to_string()));
        }
        let comp_ok = match transaction.verify_computation() {
            Ok(b) => b,
            Err(e) => { return Err(e); },
        };
        if !comp_ok {
            return Err(StateError::ValidationError("Invalid computation proof".to_string()));
        }
        if transaction.value > sender.balance {
            return Err(StateError::ValidationError("Insufficient balance".to_string()));
        }
        Ok(())
    }
}

impl StateTransition {
    /// Applies one transaction to the state, without mutating it: accepts
    /// exactly the applicable transactions, and the whole result — the
    /// modified accounts, the merged root, and the computation charge — is
    /// a function of the state and transaction alone.
    pub fn apply_transaction(&self, state: &State, transaction: &Transaction, block_number: u64)
        -> (r: Result<TransitionResult, StateError>)
        requires
            self.wf(),
            state.wf(),
            transaction.wf(),
            spec_computation(transaction@) <= u64::MAX,
        ensures
            r is Ok <==> spec_tx_applies(state@, transaction@),
            r matches Ok(res) ==> account_views(res.modified_accounts@) == spec_tx_mods(
                state@,
                transaction@,
            ) && res.new_root@ == spec_calc_root(
                state@.accounts,
                spec_tx_mods(state@, transaction@),
            ) && res.computation_used == spec_computation(transaction@) && res.logs@.len() == 0,
    {
        match self.validate_transaction(state, transaction) {
            Ok(()) => {},
            Err(e) => { return Err(e); },
        }
        let mods = match transaction.tx_type {
            TransactionType::Transfer => self.process_transfer(state, transaction),
            TransactionType::Deploy => self.process_deploy(state, transaction),
            TransactionType::Call => self.process_call(state, transaction),
            TransactionType::CreateAccount => self.process_create_account(state, transaction),
            TransactionType::UpdateAccount => self.process_update_account(state, transaction),
        };
        let mods = match mods {
            Ok(m) => m,
            Err(e) => { return Err(e); },
        };
        let new_root = match state.calculate_root(&mods) {
            Ok(f) => f,
            Err(e) => { return Err(e); },
        };
        let computation_used = match self.calculate_computation_used(transaction) {
            Ok(c) => c,
            Err(e) => { return Err(e); },
        };
        Ok(TransitionResult {
            new_root,
            modified_accounts: mods,
            computation_used,
            logs: Vec::new(),
        })
    }

    /// Transfer: move the value to the receiver and advance the sender's
    /// nonce. Accepts exactly when the receiver exists and its balance can
    /// take the value.
    fn process_transfer(&self, state: &State, transaction: &Transaction) -> (r: Result<
        Vec<Account>,
        StateError,
    >)
        requires
            state.wf(),
            spec_tx_valid(state@, transaction@),
            transaction@.tx_type == TransactionType::Transfer,
        ensures
            r is Ok <==> spec_kind_ok(state@, transaction@),
            r matches Ok(mods) ==> account_views(mods@) == spec_tx_mods(state@, transaction@),
    {
        let mut sender = match state.get_account(&transaction.from) {
            Some(a) => a,
            None => {
                return Err(StateError::ValidationError("Sender account not found".to_string()));
            },
        };
        let to = match &transaction.to {
            Some(t) => t,
            None => {
                return Err(StateError::ValidationError("Receiver not specified".to_string()));
            },
        };
        sender.debit(transaction.value);
        sender.increment_nonce();
        proof {
            let sv = spec_sender(state@, transaction@);
            assert(sender@ == (AccountV {
                balance: (sv.balance - transaction@.value) as u64,
                nonce: (transaction@.nonce + 1) as u64,
                ..sv
            }));
        }
        let same = to.equals(&transaction.from);
        let mut mods: Vec<Account> = Vec::new();
        proof {
            assert(account_views(mods@) =~= Seq::<AccountV>::empty());
        }
        if same {
            let mut receiver = sender.clone_account();
            receiver.credit(transaction.value);
            mods_insert(&mut mods, sender);
            mods_insert(&mut mods, receiver);
            proof {
                assert(account_views(mods@) == spec_tx_mods(state@, transaction@));
            }
            Ok(mods)
        } else {
            let mut receiver = match state.get_account(to) {
                Some(a) => a,
                None => {
                    return Err(StateError::ValidationError(
                        "Receiver account not found".to_string(),
                    ));
                },
            };
            if receiver.balance > u64::MAX - transaction.value {
                return Err(StateError::ValidationError("Receiver balance overflow".to_string()));
            }
            receiver.credit(transaction.value);
            mods_insert(&mut mods, sender);
            mods_insert(&mut mods, receiver);
            proof {
                assert(account_views(mods@) == spec_tx_mods(state@, transaction@));
            }
            Ok(mods)
        }
    }

    /// Deploy: create the contract account under the derived identifier
    /// and charge the sender; never rejects beyond the global rules.
    fn process_deploy(&self, state: &State, transaction: &Transaction) -> (r: Result<
        Vec<Account>,
        StateError,
    >)
        requires
            state.wf(),
            spec_tx_valid(state@, transaction@),
            transaction@.tx_type == TransactionType::Deploy,
        ensures
            r is Ok <==> spec_kind_ok(state@, transaction@),
            r matches Ok(mods) ==> account_views(mods@) == spec_tx_mods(state@, transaction@),
    {
        let mut sender = match state.get_account(&transaction.from) {
            Some(a) => a,
            None => {
                return Err(StateError::ValidationError("Sender account not found".to_string()));
            },
        };
        proof {
            lemma_get_wf(state@.accounts, transaction@.from);
        }
        let contract_id = match self.generate_contract_id(transaction) {
            Ok(c) => c,
            Err(e) => { return Err(e); },
        };
        let code_hash = match self.compute_code_hash(transaction.data.as_slice()) {
            Ok(h) => h,
            Err(e) => { return Err(e); },
        };
        let contract = Account::new_contract(contract_id, code_hash, sender.public_key.duplicate());
        sender.debit(transaction.value);
        sender.increment_nonce();
        let mut mods: Vec<Account> = Vec::new();
        proof {
            assert(account_views(mods@) =~= Seq::<AccountV>::empty());
            let sv = spec_sender(state@, transaction@);
            assert(sender@ == (AccountV {
                balance: (sv.balance - transaction@.value) as u64,
                nonce: (transaction@.nonce + 1) as u64,
                ..sv
            }));
            assert(contract@.storage =~= Seq::<(Seq<u8>, Seq<u8>)>::empty());
            assert(contract@.state_root =~= spec_zero_fe());
        }
        mods_insert(&mut mods, sender);
        mods_insert(&mut mods, contract);
        proof {
            assert(account_views(mods@) == spec_tx_mods(state@, transaction@));
        }
        Ok(mods)
    }

    /// Call: run the contract (execution is delegated and currently yields
    /// no updates), merge its storage writes, and charge the sender.
    /// Accepts exactly when the target exists and is a contract.
    fn process_call(&self, state: &State, transaction: &Transaction) -> (r: Result<
        Vec<Account>,
        StateError,
    >)
        requires
            state.wf(),
            spec_tx_valid(state@, transaction@),
            transaction@.tx_type == TransactionType::Call,
        ensures
            r is Ok <==> spec_kind_ok(state@, transaction@),
            r matches Ok(mods) ==> account_views(mods@) == spec_tx_mods(state@, transaction@),
    {
        let mut sender = match state.get_account(&transaction.from) {
            Some(a) => a,
            None => {
                return Err(StateError::ValidationError("Sender account not found".to_string()));
            },
        };
        let to = match &transaction.to {
            Some(t) => t,
            None => {
                return Err(StateError::ValidationError("Contract not specified".to_string()));
            },
        };
        let contract = match state.get_account(to) {
            Some(a) => a,
            None => {
                return Err(StateError::ValidationError("Contract not found".to_string()));
            },
        };
        if !contract.is_contract() {
            return Err(StateError::ValidationError("Target is not a contract".to_string()));
        }
        let (updates, _call_logs) = match self.execute_contract_call(&contract, transaction) {
            Ok(t) => t,
            Err(e) => { return Err(e); },
        };
        sender.debit(transaction.value);
        sender.increment_nonce();
        proof {
            let sv = spec_sender(state@, transaction@);
            assert(sender@ == (AccountV {
                balance: (sv.balance - transaction@.value) as u64,
                nonce: (transaction@.nonce + 1) as u64,
                ..sv
            }));
        }
        let same = to.equals(&transaction.from);
        let mut target = if same {
            sender.clone_account()
        } else {
            contract
        };
        let mut k: usize = 0;
        while k < updates.len()
            invariant
                updates@.len() == 0,
                0 <= k,
            decreases updates@.len() - k,
        {
            k = k + 1;
        }
        let mut mods: Vec<Account> = Vec::new();
        proof {
            assert(account_views(mods@) =~= Seq::<AccountV>::empty());
        }
        mods_insert(&mut mods, sender);
        mods_insert(&mut mods, target);
        proof {
            assert(account_views(mods@) == spec_tx_mods(state@, transaction@));
        }
        Ok(mods)
    }

    /// CreateAccount: create a fresh zero-balance account under the given
    /// identifier and advance the sender's nonce. Accepts exactly when the
    /// identifier is free.
    fn process_create_account(&self, state: &State, transaction: &Transaction) -> (r: Result<
        Vec<Account>,
        StateError,
    >)
        requires
            state.wf(),
            spec_tx_valid(state@, transaction@),
            transaction@.tx_type == TransactionType::CreateAccount,
        ensures
            r is Ok <==> spec_kind_ok(state@, transaction@),
            r matches Ok(mods) ==> account_views(mods@) == spec_tx_mods(state@, transaction@),
    {
        let to = match &transaction.to {
            Some(t) => t,
            None => {
                return Err(StateError::ValidationError("Account ID not specified".to_string()));
            },
        };
        match state.get_account(to) {
            Some(_) => {
                return Err(StateError::ValidationError("Account already exists".to_string()));
            },
            None => {},
        }
        let mut sender = match state.get_account(&transaction.from) {
            Some(a) => a,
            None => {
                return Err(StateError::ValidationError("Sender account not found".to_string()));
            },
        };
        let public_key = match self.extract_public_key(transaction.data.as_slice()) {
            Ok(p) => p,
            Err(e) => { return Err(e); },
        };
        let new_account = Account::new(to.duplicate(), public_key);
        sender.increment_nonce();
        proof {
            let sv = spec_sender(state@, transaction@);
            assert(sender@ == (AccountV { nonce: (transaction@.nonce + 1) as u64, ..sv }));
            assert(new_account@.storage =~= Seq::<(Seq<u8>, Seq<u8>)>::empty());
            assert(new_account@.state_root =~= spec_zero_fe());
        }
        let mut mods: Vec<Account> = Vec::new();
        proof {
            assert(account_views(mods@) =~= Seq::<AccountV>::empty());
        }
        mods_insert(&mut mods, sender);
        mods_insert(&mut mods, new_account);
        proof {
            assert(account_views(mods@) == spec_tx_mods(state@, transaction@));
        }
        Ok(mods)
    }

    /// UpdateAccount: the sender updates its own record (specific updates
    /// are delegated and currently none) and advances its nonce. Accepts
    /// exactly when the target exists and is the sender itself.
    fn process_update_account(&self, state: &State, transaction: &Transaction) -> (r: Result<
        Vec<Account>,
        StateError,
    >)
        requires
            state.wf(),
            spec_tx_valid(state@, transaction@),
            transaction@.tx_type == TransactionType::UpdateAccount,
        ensures
            r is Ok <==> spec_kind_ok(state@, transaction@),
            r matches Ok(mods) ==> account_views(mods@) == spec_tx_mods(state@, transaction@),
    {
        let to = match &transaction.to {
            Some(t) => t,
            None => {
                return Err(StateError::ValidationError("Account ID not specified".to_string()));
            },
        };
        let account = match state.get_account(to) {
            Some(a) => a,
            None => {
                return Err(StateError::ValidationError("Account not found".to_string()));
            },
        };
        let mut sender = match state.get_account(&transaction.from) {
            Some(a) => a,
            None => {
                return Err(StateError::ValidationError("Sender account not found".to_string()));
            },
        };
        let owner = sender.id.equals(&account.id);
        if !owner {
            return Err(StateError::ValidationError("Not account owner".to_string()));
        }
        match self.apply_account_updates(&mut sender, transaction.data.as_slice()) {
            Ok(()) => {},
            Err(e) => { return Err(e); },
        }
        sender.increment_nonce();
        proof {
            let sv = spec_sender(state@, transaction@);
            assert(sender@ == (AccountV { nonce: (transaction@.nonce + 1) as u64, ..sv }));
        }
        let mut mods: Vec<Account> = Vec::new();
        proof {
            assert(account_views(mods@) =~= Seq::<AccountV>::empty());
        }
        mods_insert(&mut mods, sender);
        proof {
            assert(account_views(mods@) == spec_tx_mods(state@, transaction@));
        }
        Ok(mods)
    }

    /// The identifier of the contract a deploy creates: the digest of the
    /// sender followed by the nonce, little-endian; never fails.
    fn generate_contract_id(&self, transaction: &Transaction) -> (r: Result<AccountId, StateError>)
        ensures
            r matches Ok(id) && id@ == spec_contract_id(transaction@.from, transaction@.nonce),
    {
        let mut buf: Vec<u8> = Vec::new();
        buf.extend_from_slice(transaction.from.0.as_slice());
        append_u64(&mut buf, transaction.nonce);
        proof {
            assert(buf@ =~= transaction@.from + spec_u64_to_le_bytes(transaction@.nonce));
        }
        Ok(AccountId(sha3_256_bytes(buf.as_slice())))
    }

    /// The code hash of deployed code: the first 255 bits of its digest,
    /// reduced into the field; total, never fails.
    fn compute_code_hash(&self, code: &[u8]) -> (r: Result<Fe, StateError>)
        ensures
            r matches Ok(h) && h@ == spec_h2f256(code@) && fe_wf(h@),
    {
        let mut digest = sha3_256_bytes(code);
        mask_top_bit(&mut digest);
        Ok(fe_from_le_bytes(&digest))
    }

    /// Contract execution is delegated to an off-chain backend whose proof
    /// the transaction carries; here it yields no storage updates and no
    /// logs.
    fn execute_contract_call(&self, _contract: &Account, _transaction: &Transaction) -> (r: Result<
        (Vec<(Fe, Fe)>, Vec<Log>),
        StateError,
    >)
        ensures
            r matches Ok(t) && t.0@.len() == 0 && t.1@.len() == 0,
    {
        Ok((Vec::new(), Vec::new()))
    }

    /// Key recovery from creation data is delegated; this stands in with
    /// the subgroup generator.
    fn extract_public_key(&self, data: &[u8]) -> (r: Result<Ge, StateError>)
        ensures
            r matches Ok(p) && p@ == spec_extract_public_key(data@) && ge_wf(p@),
    {
        let one = fe_one();
        proof {
            assert(one@ =~= spec_one_fe());
        }
        Ok(ge_mul_gen(&one))
    }

    /// Account-specific updates are delegated; here they change nothing.
    fn apply_account_updates(&self, account: &mut Account, _data: &[u8]) -> (r: Result<
        (),
        StateError,
    >)
        ensures
            r is Ok,
            *final(account) == *old(account),
    {
        Ok(())
    }
}

/// The models of an executable transaction list.
pub open spec fn tx_views(s: Seq<Transaction>) -> Seq<TransactionV> {
    Seq::new(s.len(), |i: int| s[i]@)
}

/// How many of the first `j` transactions share the sender `from`.
pub open spec fn spec_count_from(txs: Seq<TransactionV>, from: Seq<u8>, j: int) -> int
    decreases j,
{
    if j <= 0 {
        0
    } else {
        spec_count_from(txs, from, j - 1) + (if txs[j - 1].from == from {
            1int
        } else {
            0int
        })
    }
}

/// Block-level validity: every transaction passes the global rules
/// against the initial state, and each sender's nonces form a strictly
/// consecutive ascending run starting at that sender's current nonce.
pub open spec fn spec_block_valid(s: StateV, txs: Seq<TransactionV>) -> bool {
    forall|i: int|
        0 <= i < txs.len() ==> spec_tx_valid(s, #[trigger] txs[i]) && txs[i].nonce == spec_sender(
            s,
            txs[i],
        ).nonce + spec_count_from(txs, txs[i].from, i)
}

/// Block-level applicability: block-valid and each transaction's kind
/// rules hold against the initial state.
pub open spec fn spec_block_applies(s: StateV, txs: Seq<TransactionV>) -> bool {
    &&& spec_block_valid(s, txs)
    &&& forall|i: int| 0 <= i < txs.len() ==> spec_tx_applies(s, #[trigger] txs[i])
}

/// Merging a transaction's modifications into an accumulated list, in
/// order.
pub open spec fn spec_mods_merge(acc: Seq<AccountV>, mods: Seq<AccountV>) -> Seq<AccountV>
    decreases mods.len(),
{
    if mods.len() == 0 {
        acc
    } else {
        spec_mods_merge(spec_mods_insert(acc, mods[0]), mods.skip(1))
    }
}

/// The merged modifications of the first `i` transactions, each applied
/// against the initial state.
pub open spec fn spec_block_mods(s: StateV, txs: Seq<TransactionV>, i: int) -> Seq<AccountV>
    decreases i,
{
    if i <= 0 {
        Seq::empty()
    } else {
        spec_mods_merge(spec_block_mods(s, txs, i - 1), spec_tx_mods(s, txs[i - 1]))
    }
}

/// The total computation of the first `i` transactions.
pub open spec fn spec_block_computation(txs: Seq<TransactionV>, i: int) -> int
    decreases i,
{
    if i <= 0 {
        0
    } else {
        spec_block_computation(txs, i - 1) + spec_computation(txs[i - 1])
    }
}

/// The running computation total never decreases.
pub proof fn lemma_block_computation_mono(txs: Seq<TransactionV>, i: int, j: int)
    requires
        0 <= i <= j,
    ensures
        spec_block_computation(txs, i) <= spec_block_computation(txs, j),
    decreases j - i,
{
    if i < j {
        lemma_block_computation_mono(txs, i, j - 1);
    }
}

/// Applying a transaction is pure: the state is taken by shared reference
/// and never mutated, and the whole result is a function of the state and
/// transaction alone, so two applications with identical inputs yield
/// identical modified accounts, roots and charges.
pub proof fn lemma_apply_transaction_deterministic(
    s: StateV,
    tx: TransactionV,
    m1: Seq<AccountV>,
    m2: Seq<AccountV>,
)
    requires
        m1 == spec_tx_mods(s, tx),
        m2 == spec_tx_mods(s, tx),
    ensures
        m1 == m2,
        spec_calc_root(s.accounts, m1) == spec_calc_root(s.accounts, m2),
{
}

impl StateTransition {
    /// Checks a whole block: every transaction must pass the global rules
    /// against the initial state, and each sender's nonces must run
    /// consecutively from that sender's current nonce.
    pub fn validate_block(&self, state: &State, transactions: &Vec<Transaction>) -> (r: Result<
        (),
        StateError,
    >)
        requires
            state.wf(),
            forall|i: int| 0 <= i < transactions@.len() ==> (#[trigger] transactions@[i]).wf(),
        ensures
            r is Ok <==> spec_block_valid(state@, tx_views(transactions@)),
    {
        let ghost txs = tx_views(transactions@);
        let n = transactions.len();
        let mut i: usize = 0;
        while i < n
            invariant
                n == transactions@.len(),
                txs == tx_views(transactions@),
                txs.len() == n,
                state.wf(),
                forall|k: int| 0 <= k < n ==> (#[trigger] transactions@[k]).wf(),
                forall|k: int| 0 <= k < n ==> #[trigger] txs[k] == transactions@[k]@,
                0 <= i <= n,
                forall|k: int|
                    0 <= k < i ==> spec_tx_valid(state@, #[trigger] txs[k]) && txs[k].nonce
                        == spec_sender(state@, txs[k]).nonce + spec_count_from(txs, txs[k].from, k),
            decreases n - i,
        {
            let tx = vstd::std_specs::vec::vec_index(transactions, i);
            match self.validate_transaction(state, tx) {
                Ok(()) => {},
                Err(e) => { return Err(e); },
            }
            let sender = match state.get_account(&tx.from) {
                Some(a) => a,
                None => {
                    return Err(StateError::ValidationError("Sender account not found".to_string()));
                },
            };
            let mut count: u64 = 0;
            let mut j: usize = 0;
            while j < i
                invariant
                    n == transactions@.len(),
                    txs == tx_views(transactions@),
                    txs.len() == n,
                    forall|k: int| 0 <= k < n ==> #[trigger] txs[k] == transactions@[k]@,
                    0 <= j <= i <= n,
                    i < n,
                    tx == transactions@[i as int],
                    count == spec_count_from(txs, txs[i as int].from, j as int),
                    count <= j,
                decreases i - j,
            {
                let other = vstd::std_specs::vec::vec_index(transactions, j);
                let same = other.from.equals(&tx.from);
                proof {
                    assert(other@ == txs[j as int]);
                    assert(same == (txs[j as int].from == txs[i as int].from));
                    assert(spec_count_from(txs, txs[i as int].from, j + 1) == spec_count_from(
                        txs,
                        txs[i as int].from,
                        j as int,
                    ) + (if txs[j as int].from == txs[i as int].from {
                        1int
                    } else {
                        0int
                    }));
                }
                if same {
                    count = count + 1;
                }
                j = j + 1;
            }
            let expected: u128 = sender.nonce as u128 + count as u128;
            if tx.nonce as u128 != expected {
                return Err(StateError::ValidationError("Invalid nonce sequence".to_string()));
            }
            i = i + 1;
        }
        Ok(())
    }

    /// Applies a whole block against the initial state: validates it,
    /// applies each transaction in order, merges the modified accounts,
    /// sums the computation, and recomputes the root over the merged
    /// modifications. Accepts exactly the applicable blocks whose total
    /// computation fits.
    #[verifier::rlimit(80)]
    pub fn apply_block(
        &self,
        state: &State,
        transactions: &Vec<Transaction>,
        block_number: u64,
    ) -> (r: Result<TransitionResult, StateError>)
        requires
            self.wf(),
            state.wf(),
            forall|i: int| 0 <= i < transactions@.len() ==> (#[trigger] transactions@[i]).wf(),
            forall|i: int|
                0 <= i < transactions@.len() ==> spec_computation(#[trigger] transactions@[i]@)
                    <= u64::MAX,
        ensures
            r is Ok <==> (spec_block_applies(state@, tx_views(transactions@))
                && spec_block_computation(tx_views(transactions@), transactions@.len() as int)
                <= u64::MAX),
            r matches Ok(res) ==> ({
                let txs = tx_views(transactions@);
                let mods = spec_block_mods(state@, txs, txs.len() as int);
                &&& account_views(res.modified_accounts@) == mods
                &&& res.new_root@ == spec_calc_root(state@.accounts, mods)
                &&& res.computation_used == spec_block_computation(txs, txs.len() as int)
                &&& res.logs@.len() == 0
            }),
    {
        let ghost txs = tx_views(transactions@);
        proof {
            assert(forall|k: int| 0 <= k < txs.len() ==> #[trigger] txs[k] == transactions@[k]@);
        }
        match self.validate_block(state, transactions) {
            Ok(()) => {},
            Err(e) => { return Err(e); },
        }
        let n = transactions.len();
        let mut modified: Vec<Account> = Vec::new();
        let mut total: u64 = 0;
        let mut i: usize = 0;
        proof {
            assert(account_views(modified@) =~= Seq::<AccountV>::empty());
        }
        while i < n
            invariant
                n == transactions@.len(),
                txs == tx_views(transactions@),
                txs.len() == n,
                self.wf(),
                state.wf(),
                spec_block_valid(state@, txs),
                forall|k: int| 0 <= k < n ==> (#[trigger] transactions@[k]).wf(),
                forall|k: int|
                    0 <= k < n ==> spec_computation(#[trigger] transactions@[k]@) <= u64::MAX,
                forall|k: int| 0 <= k < n ==> #[trigger] txs[k] == transactions@[k]@,
                0 <= i <= n,
                forall|k: int| 0 <= k < i ==> spec_tx_applies(state@, #[trigger] txs[k]),
                account_views(modified@) == spec_block_mods(state@, txs, i as int),
                total == spec_block_computation(txs, i as int),
            decreases n - i,
        {
            let tx = vstd::std_specs::vec::vec_index(transactions, i);
            let result = match self.apply_transaction(state, tx, block_number) {
                Ok(res) => res,
                Err(e) => {
                    proof {
                        assert(!spec_tx_applies(state@, txs[i as int]));
                        assert(!spec_block_applies(state@, txs));
                    }
                    return Err(e);
                },
            };
            let ghost mods_before = account_views(modified@);
            let ghost tx_mods = spec_tx_mods(state@, txs[i as int]);
            let m = result.modified_accounts.len();
            let mut k: usize = 0;
            let mut result_mods = result.modified_accounts;
            while k < m
                invariant
                    m == result_mods@.len(),
                    account_views(result_mods@) == tx_mods,
                    0 <= k <= m,
                    account_views(modified@) == spec_mods_merge_partial(
                        mods_before,
                        tx_mods,
                        k as int,
                    ),
                decreases m - k,
            {
                let acc = vstd::std_specs::vec::vec_index(&result_mods, k).clone_account();
                proof {
                    assert(acc@ == tx_mods[k as int]);
                }
                mods_insert(&mut modified, acc);
                proof {
                    lemma_mods_merge_partial_step(mods_before, tx_mods, k as int);
                }
                k = k + 1;
            }
            proof {
                lemma_mods_merge_partial_full(mods_before, tx_mods);
            }
            if total > u64::MAX - result.computation_used {
                proof {
                    assert(spec_block_computation(txs, i + 1) > u64::MAX);
                    lemma_block_computation_mono(txs, i + 1, n as int);
                }
                return Err(StateError::ValidationError("Computation overflow".to_string()));
            }
            total = total + result.computation_used;
            i = i + 1;
        }
        let new_root = match state.calculate_root(&modified) {
            Ok(f) => f,
            Err(e) => { return Err(e); },
        };
        Ok(TransitionResult {
            new_root,
            modified_accounts: modified,
            computation_used: total,
            logs: Vec::new(),
        })
    }

    /// Checks a proposed transition: reapplies the block to the old state
    /// and accepts exactly when the claimed new root matches the recomputed
    /// one and the new state holds every modified account verbatim.
    #[verifier::rlimit(60)]
    pub fn verify_transition(
        &self,
        old_state: &State,
        new_state: &State,
        transactions: &Vec<Transaction>,
    ) -> (r: Result<bool, StateError>)
        requires
            self.wf(),
            old_state.wf(),
            forall|i: int| 0 <= i < transactions@.len() ==> (#[trigger] transactions@[i]).wf(),
            forall|i: int|
                0 <= i < transactions@.len() ==> spec_computation(#[trigger] transactions@[i]@)
                    <= u64::MAX,
        ensures
            r is Ok <==> (spec_block_applies(old_state@, tx_views(transactions@))
                && spec_block_computation(tx_views(transactions@), transactions@.len() as int)
                <= u64::MAX),
            r matches Ok(b) ==> ({
                let txs = tx_views(transactions@);
                let mods = spec_block_mods(old_state@, txs, txs.len() as int);
                b == (new_state@.root == spec_calc_root(old_state@.accounts, mods) && forall|k: int|
                    0 <= k < mods.len() ==> spec_accounts_get(
                        new_state@.accounts,
                        (#[trigger] mods[k]).id,
                    ) == Some(mods[k]))
            }),
    {
        let result = match self.apply_block(old_state, transactions, 0) {
            Ok(res) => res,
            Err(e) => { return Err(e); },
        };
        let ghost mods = spec_block_mods(
            old_state@,
            tx_views(transactions@),
            transactions@.len() as int,
        );
        if !new_state.root.equals(&result.new_root) {
            return Ok(false);
        }
        let m = result.modified_accounts.len();
        let mut k: usize = 0;
        while k < m
            invariant
                m == result.modified_accounts@.len(),
                account_views(result.modified_accounts@) == mods,
                mods == spec_block_mods(
                    old_state@,
                    tx_views(transactions@),
                    transactions@.len() as int,
                ),
                mods.len() == m,
                0 <= k <= m,
                spec_block_applies(old_state@, tx_views(transactions@)),
                spec_block_computation(tx_views(transactions@), transactions@.len() as int)
                    <= u64::MAX,
                new_state@.root == spec_calc_root(old_state@.accounts, mods),
                forall|j: int|
                    0 <= j < k ==> spec_accounts_get(new_state@.accounts, (#[trigger] mods[j]).id)
                        == Some(mods[j]),
            decreases m - k,
        {
            let acc = vstd::std_specs::vec::vec_index(&result.modified_accounts, k);
            proof {
                assert(acc@ == mods[k as int]);
            }
            let stored = match new_state.get_account(&acc.id) {
                Some(a) => a,
                None => {
                    proof {
                        assert(spec_accounts_get(new_state@.accounts, mods[k as int].id)
                            != Some(mods[k as int]));
                    }
                    return Ok(false);
                },
            };
            if !stored.equals(acc) {
                proof {
                    assert(spec_accounts_get(new_state@.accounts, mods[k as int].id)
                        != Some(mods[k as int]));
                }
                return Ok(false);
            }
            k = k + 1;
        }
        Ok(true)
    }
}

/// The merge of the first `k` entries of `mods` into `acc`.
pub open spec fn spec_mods_merge_partial(acc: Seq<AccountV>, mods: Seq<AccountV>, k: int) -> Seq<
    AccountV,
>
    decreases k,
{
    if k <= 0 {
        acc
    } else {
        spec_mods_insert(spec_mods_merge_partial(acc, mods, k - 1), mods[k - 1])
    }
}

/// One merge step extends the partial merge.
pub proof fn lemma_mods_merge_partial_step(acc: Seq<AccountV>, mods: Seq<AccountV>, k: int)
    requires
        0 <= k,
    ensures
        spec_mods_merge_partial(acc, mods, k + 1) == spec_mods_insert(
            spec_mods_merge_partial(acc, mods, k),
            mods[k],
        ),
{
}

/// The full partial merge equals the merge.
pub proof fn lemma_mods_merge_partial_full(acc: Seq<AccountV>, mods: Seq<AccountV>)
    ensures
        spec_mods_merge_partial(acc, mods, mods.len() as int) == spec_mods_merge(acc, mods),
    decreases mods.len(),
{
    lemma_merge_shift(acc, mods, mods.len() as int);
    assert(mods.take(mods.len() as int) =~= mods);
}

/// Relates front-recursion of the merge to the indexed partial merge.
pub proof fn lemma_merge_shift(acc: Seq<AccountV>, mods: Seq<AccountV>, k: int)
    requires
        0 <= k <= mods.len(),
    ensures
        spec_mods_merge_partial(acc, mods, k) == spec_mods_merge(acc, mods.take(k)),
    decreases k,
{
    if k == 0 {
        assert(mods.take(0int) =~= Seq::<AccountV>::empty());
    } else {
        lemma_merge_shift(acc, mods, k - 1);
        lemma_merge_snoc(acc, mods.take(k - 1), mods[k - 1]);
        assert(mods.take(k) =~= mods.take(k - 1).push(mods[k - 1]));
    }
}

/// Merging one more entry at the end inserts it last.
pub proof fn lemma_merge_snoc(acc: Seq<AccountV>, mods: Seq<AccountV>, a: AccountV)
    ensures
        spec_mods_merge(acc, mods.push(a)) == spec_mods_insert(spec_mods_merge(acc, mods), a),
    decreases mods.len(),
{
    if mods.len() == 0 {
        assert(mods.push(a)[0] == a);
        assert(mods.push(a).skip(1) =~= Seq::<AccountV>::empty());
        assert(spec_mods_merge(acc, mods.push(a)) == spec_mods_merge(
            spec_mods_insert(acc, a),
            Seq::<AccountV>::empty(),
        ));
        assert(spec_mods_merge(spec_mods_insert(acc, a), Seq::<AccountV>::empty())
            == spec_mods_insert(acc, a));
        assert(spec_mods_merge(acc, mods) == acc);
    } else {
        assert(mods.push(a)[0] == mods[0]);
        assert(mods.push(a).skip(1) =~= mods.skip(1).push(a));
        lemma_merge_snoc(spec_mods_insert(acc, mods[0]), mods.skip(1), a);
        assert(spec_mods_merge(acc, mods.push(a)) == spec_mods_merge(
            spec_mods_insert(acc, mods[0]),
            mods.skip(1).push(a),
        ));
        assert(spec_mods_merge(acc, mods) == spec_mods_merge(
            spec_mods_insert(acc, mods[0]),
            mods.skip(1),
        ));
    }
}

/// A looked-up account in a well-formed list is well-formed.
pub proof fn lemma_get_wf(s: Seq<AccountV>, id: Seq<u8>)
    requires
        crate::state::spec_accounts_wf(s),
        spec_accounts_get(s, id) is Some,
    ensures
        spec_account_wf(spec_accounts_get(s, id)->Some_0),
{
    lemma_accounts_get_member(s, id);
    let a = spec_accounts_get(s, id)->Some_0;
    let i = choose|i: int| 0 <= i < s.len() && s[i] == a;
    assert(spec_account_wf(s[i]));
}

/// Witness form of a successful account lookup: some index holds the
/// account found.
pub open spec fn spec_accounts_get_witness(s: Seq<AccountV>, id: Seq<u8>, a: AccountV) -> bool {
    exists|i: int| 0 <= i < s.len() && s[i] == a
}

/// A found account sits at some index of the list.
pub proof fn lemma_accounts_get_member(s: Seq<AccountV>, id: Seq<u8>)
    requires
        spec_accounts_get(s, id) is Some,
    ensures
        spec_accounts_get_witness(s, id, spec_accounts_get(s, id)->Some_0),
    decreases s.len(),
{
    if s.len() > 0 && s[0].id != id {
        lemma_accounts_get_member(s.skip(1), id);
        let a = spec_accounts_get(s, id)->Some_0;
        let i = choose|i: int| 0 <= i < s.skip(1).len() && s.skip(1)[i] == a;
        assert(s[i + 1] == a);
    }
}

} // verus!
