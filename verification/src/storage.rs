//! The persistence interface the node hands its state to, and the
//! in-memory implementation used by tests and ephemeral nodes. A
//! production backend implements the same interface over a key-value
//! store outside this library.

use vstd::prelude::*;
use crate::errors::StateError;
use crate::algebra::{Fe, fe_zero, fe_wf};
use crate::account::{Account, AccountId, AccountV};
use crate::state::{State, StateV, account_views, spec_accounts_get, lemma_accounts_get_at,
    lemma_accounts_get_none, lemma_accounts_set_frame, lemma_accounts_push_frame};

verus! {

/// An account list with the first entry under `id` removed.
pub open spec fn spec_remove_first(s: Seq<AccountV>, id: Seq<u8>) -> Seq<AccountV>
    decreases s.len(),
{
    if s.len() == 0 {
        Seq::empty()
    } else if s[0].id == id {
        s.skip(1)
    } else {
        seq![s[0]] + spec_remove_first(s.skip(1), id)
    }
}

/// Removing the first match removes exactly the entry at the first
/// matching index.
pub proof fn lemma_remove_first_at(s: Seq<AccountV>, id: Seq<u8>, i: int)
    requires
        0 <= i < s.len(),
        forall|j: int| 0 <= j < i ==> s[j].id != id,
        s[i].id == id,
    ensures
        spec_remove_first(s, id) == s.remove(i),
    decreases i,
{
    if i == 0 {
        assert(s.remove(0) =~= s.skip(1));
    } else {
        lemma_remove_first_at(s.skip(1), id, i - 1);
        assert(seq![s[0]] + s.skip(1).remove(i - 1) =~= s.remove(i));
    }
}

/// With no match, removal changes nothing.
pub proof fn lemma_remove_first_none(s: Seq<AccountV>, id: Seq<u8>)
    requires
        forall|j: int| 0 <= j < s.len() ==> s[j].id != id,
    ensures
        spec_remove_first(s, id) == s,
    decreases s.len(),
{
    if s.len() > 0 {
        lemma_remove_first_none(s.skip(1), id);
        assert(seq![s[0]] + s.skip(1) =~= s);
    }
}

/// The persistence interface: load and save whole states, single
/// accounts, and the stored root; every operation is total, surfacing
/// backend failures as errors. The contracts speak of the accounts and
/// root the backend holds, so callers holding the trait — including the
/// node shell over a boxed backend — inherit what success returns; a
/// fallible backend may still error.
pub trait StateStorage {
    /// The accounts the backend currently holds.
    spec fn stored_accounts(&self) -> Seq<AccountV>;

    /// The root the backend currently holds.
    spec fn stored_root(&self) -> Seq<u8>;

    /// Loads the stored contents as a state; on success, exactly what the
    /// backend holds, with the metadata the backend does not keep zeroed.
    fn load_state(&self) -> (r: Result<State, StateError>)
        ensures
            r matches Ok(s) ==> s@.accounts == self.stored_accounts() && s@.root
                == self.stored_root() && s@.version == 0 && s@.block_height == 0 && s@.timestamp
                == 0;

    /// Replaces the stored contents with the state's.
    fn save_state(&mut self, state: &State) -> (r: Result<(), StateError>)
        ensures
            r is Ok ==> final(self).stored_accounts() == state@.accounts && final(self).stored_root() == state@.root;

    /// Looks a stored account up by identifier.
    fn get_account(&self, id: &AccountId) -> (r: Result<Option<Account>, StateError>)
        ensures
            r matches Ok(o) ==> (match spec_accounts_get(self.stored_accounts(), id@) {
                Some(a) => o matches Some(acc) && acc@ == a,
                None => o is None,
            });

    /// Stores an account under its identifier, leaving every other
    /// identifier's lookup and the root unchanged.
    fn save_account(&mut self, account: &Account) -> (r: Result<(), StateError>)
        ensures
            r is Ok ==> spec_accounts_get(final(self).stored_accounts(), account@.id) == Some(
                account@,
            ) && (forall|id2: Seq<u8>|
                id2 != account@.id ==> #[trigger] spec_accounts_get(
                    final(self).stored_accounts(),
                    id2,
                ) == spec_accounts_get(old(self).stored_accounts(), id2)) && final(self).stored_root() == old(self).stored_root();

    /// Deletes the first stored account under `id`, if any.
    fn delete_account(&mut self, id: &AccountId) -> (r: Result<(), StateError>)
        ensures
            r is Ok ==> final(self).stored_accounts() == spec_remove_first(
                old(self).stored_accounts(),
                id@,
            ) && final(self).stored_root() == old(self).stored_root();

    /// The stored root.
    fn get_storage_root(&self) -> (r: Result<Fe, StateError>)
        ensures
            r matches Ok(f) ==> f@ == self.stored_root();

    /// Clears everything.
    fn clear(&mut self) -> (r: Result<(), StateError>)
        ensures
            r is Ok ==> final(self).stored_accounts() =~= Seq::<AccountV>::empty() && final(self).stored_root() =~= Seq::new(32, |i: int| 0u8);
}

/// In-memory storage: an account list and a root.
#[derive(Debug)]
pub struct MemoryStorage {
    accounts: Vec<Account>,
    root: Fe,
}

impl MemoryStorage {
    /// The stored accounts.
    pub closed spec fn spec_accounts(&self) -> Seq<AccountV> {
        account_views(self.accounts@)
    }

    /// The stored root.
    pub closed spec fn spec_root(&self) -> Seq<u8> {
        self.root@
    }

    /// Fresh empty storage.
    pub fn new() -> (r: MemoryStorage)
        ensures
            r.spec_accounts() =~= Seq::<AccountV>::empty(),
            r.spec_root() =~= Seq::new(32, |i: int| 0u8),
    {
        MemoryStorage { accounts: Vec::new(), root: fe_zero() }
    }

    /// Loads the stored accounts and root as a state; the metadata fields
    /// the backend does not keep come back as zero. Never fails.
    pub fn load_state_mem(&self) -> (r: Result<State, StateError>)
        ensures
            r matches Ok(s) && s@.accounts == self.spec_accounts() && s@.root == self.spec_root()
                && s@.version == 0 && s@.block_height == 0 && s@.timestamp == 0,
    {
        let n = self.accounts.len();
        let mut accounts: Vec<Account> = Vec::new();
        let mut i: usize = 0;
        while i < n
            invariant
                n == self.accounts@.len(),
                0 <= i <= n,
                accounts@.len() == i,
                forall|j: int| 0 <= j < i ==> #[trigger] accounts@[j]@ == self.accounts@[j]@,
            decreases n - i,
        {
            accounts.push(vstd::std_specs::vec::vec_index(&self.accounts, i).clone_account());
            i = i + 1;
        }
        let st = State {
            accounts,
            root: self.root.duplicate(),
            version: 0,
            block_height: 0,
            timestamp: 0,
        };
        proof {
            assert(st@.accounts =~= self.spec_accounts());
        }
        Ok(st)
    }

    /// Replaces the stored accounts and root with the state's; never
    /// fails.
    pub fn save_state_mem(&mut self, state: &State) -> (r: Result<(), StateError>)
        ensures
            r is Ok,
            final(self).spec_accounts() == state@.accounts,
            final(self).spec_root() == state@.root,
    {
        let n = state.accounts.len();
        let mut accounts: Vec<Account> = Vec::new();
        let mut i: usize = 0;
        while i < n
            invariant
                n == state.accounts@.len(),
                0 <= i <= n,
                accounts@.len() == i,
                forall|j: int| 0 <= j < i ==> #[trigger] accounts@[j]@ == state.accounts@[j]@,
            decreases n - i,
        {
            accounts.push(vstd::std_specs::vec::vec_index(&state.accounts, i).clone_account());
            i = i + 1;
        }
        self.accounts = accounts;
        self.root = state.root.duplicate();
        proof {
            assert(final(self).spec_accounts() =~= state@.accounts);
        }
        Ok(())
    }

    /// Looks a stored account up by identifier; never fails.
    pub fn get_account_mem(&self, id: &AccountId) -> (r: Result<Option<Account>, StateError>)
        ensures
            r matches Ok(o) && (match spec_accounts_get(self.spec_accounts(), id@) {
                Some(a) => o matches Some(acc) && acc@ == a,
                None => o is None,
            }),
    {
        let n = self.accounts.len();
        let mut i: usize = 0;
        while i < n
            invariant
                n == self.accounts@.len(),
                self.spec_accounts().len() == n,
                0 <= i <= n,
                forall|j: int| 0 <= j < i ==> self.spec_accounts()[j].id != id@,
                forall|j: int|
                    0 <= j < n ==> #[trigger] self.spec_accounts()[j] == self.accounts@[j]@,
            decreases n - i,
        {
            let acc = vstd::std_specs::vec::vec_index(&self.accounts, i);
            if acc.id.equals(id) {
                proof {
                    lemma_accounts_get_at(self.spec_accounts(), id@, i as int);
                }
                return Ok(Some(acc.clone_account()));
            }
            i = i + 1;
        }
        proof {
            lemma_accounts_get_none(self.spec_accounts(), id@);
        }
        Ok(None)
    }

    /// Stores an account under its identifier, replacing the first match
    /// or appending; never fails.
    pub fn save_account_mem(&mut self, account: &Account) -> (r: Result<(), StateError>)
        ensures
            r is Ok,
            spec_accounts_get(final(self).spec_accounts(), account@.id) == Some(account@),
            forall|id2: Seq<u8>|
                id2 != account@.id ==> #[trigger] spec_accounts_get(
                    final(self).spec_accounts(),
                    id2,
                ) == spec_accounts_get(old(self).spec_accounts(), id2),
            final(self).spec_root() == old(self).spec_root(),
    {
        let n = self.accounts.len();
        let ghost aid = account@.id;
        let mut i: usize = 0;
        while i < n
            invariant
                *self == *old(self),
                aid == account@.id,
                n == self.accounts@.len(),
                self.spec_accounts().len() == n,
                0 <= i <= n,
                forall|j: int| 0 <= j < i ==> self.spec_accounts()[j].id != aid,
                forall|j: int|
                    0 <= j < n ==> #[trigger] self.spec_accounts()[j] == self.accounts@[j]@,
            decreases n - i,
        {
            let hit = self.accounts[i].id.equals(&account.id);
            if hit {
                let ghost old_model = self.spec_accounts();
                self.accounts.set(i, account.clone_account());
                proof {
                    let new_model = self.spec_accounts();
                    assert(old_model[i as int].id == aid);
                    assert(new_model[i as int] == account@);
                    assert(forall|j: int|
                        0 <= j < n && j != i ==> new_model[j] == old_model[j]);
                    assert(forall|j: int| 0 <= j < i ==> new_model[j].id != aid);
                    lemma_accounts_get_at(new_model, aid, i as int);
                    assert forall|id2: Seq<u8>| id2 != aid implies
                        #[trigger] spec_accounts_get(new_model, id2)
                            == spec_accounts_get(old_model, id2) by {
                        lemma_accounts_set_frame(old_model, new_model, i as int, id2);
                    }
                }
                return Ok(());
            }
            i = i + 1;
        }
        let ghost old_model = self.spec_accounts();
        let ghost av = account@;
        self.accounts.push(account.clone_account());
        proof {
            let new_model = self.spec_accounts();
            assert(new_model =~= old_model.push(av));
            assert(forall|j: int| 0 <= j < n ==> old_model[j].id != aid);
            assert(forall|j: int| 0 <= j < n ==> new_model[j] == old_model[j]);
            assert(new_model[n as int] == av);
            lemma_accounts_get_at(new_model, aid, n as int);
            assert forall|id2: Seq<u8>| id2 != aid implies
                #[trigger] spec_accounts_get(new_model, id2)
                    == spec_accounts_get(old_model, id2) by {
                lemma_accounts_push_frame(old_model, av, id2);
            }
        }
        Ok(())
    }

    /// Deletes the first stored account under `id`, if any; never fails.
    pub fn delete_account_mem(&mut self, id: &AccountId) -> (r: Result<(), StateError>)
        ensures
            r is Ok,
            final(self).spec_accounts() == spec_remove_first(old(self).spec_accounts(), id@),
            final(self).spec_root() == old(self).spec_root(),
    {
        let n = self.accounts.len();
        let mut i: usize = 0;
        while i < n
            invariant
                *self == *old(self),
                n == self.accounts@.len(),
                self.spec_accounts().len() == n,
                0 <= i <= n,
                forall|j: int| 0 <= j < i ==> self.spec_accounts()[j].id != id@,
                forall|j: int|
                    0 <= j < n ==> #[trigger] self.spec_accounts()[j] == self.accounts@[j]@,
            decreases n - i,
        {
            let hit = self.accounts[i].id.equals(id);
            if hit {
                let ghost old_model = self.spec_accounts();
                self.accounts.remove(i);
                proof {
                    lemma_remove_first_at(old_model, id@, i as int);
                    assert(self.spec_accounts() =~= old_model.remove(i as int));
                }
                return Ok(());
            }
            i = i + 1;
        }
        proof {
            lemma_remove_first_none(self.spec_accounts(), id@);
        }
        Ok(())
    }

    /// The stored root; never fails.
    pub fn get_storage_root_mem(&self) -> (r: Result<Fe, StateError>)
        ensures
            r matches Ok(f) && f@ == self.spec_root(),
    {
        Ok(self.root.duplicate())
    }

    /// Clears everything; never fails.
    pub fn clear_mem(&mut self) -> (r: Result<(), StateError>)
        ensures
            r is Ok,
            final(self).spec_accounts() =~= Seq::<AccountV>::empty(),
            final(self).spec_root() =~= Seq::new(32, |i: int| 0u8),
    {
        self.accounts = Vec::new();
        self.root = fe_zero();
        Ok(())
    }
}

impl StateStorage for MemoryStorage {
    open spec fn stored_accounts(&self) -> Seq<AccountV> {
        self.spec_accounts()
    }

    open spec fn stored_root(&self) -> Seq<u8> {
        self.spec_root()
    }

    fn load_state(&self) -> (r: Result<State, StateError>) {
        self.load_state_mem()
    }

    fn save_state(&mut self, state: &State) -> (r: Result<(), StateError>) {
        self.save_state_mem(state)
    }

    fn get_account(&self, id: &AccountId) -> (r: Result<Option<Account>, StateError>) {
        self.get_account_mem(id)
    }

    fn save_account(&mut self, account: &Account) -> (r: Result<(), StateError>) {
        self.save_account_mem(account)
    }

    fn delete_account(&mut self, id: &AccountId) -> (r: Result<(), StateError>) {
        self.delete_account_mem(id)
    }

    fn get_storage_root(&self) -> (r: Result<Fe, StateError>) {
        self.get_storage_root_mem()
    }

    fn clear(&mut self) -> (r: Result<(), StateError>) {
        self.clear_mem()
    }
}

} // verus!
