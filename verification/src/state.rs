//! The world state: an account list with unique identifiers, the sparse
//! Merkle commitment over the canonical account serializations, version
//! and block metadata, state proofs and state updates.

use vstd::prelude::*;
use vstd::bytes::spec_u64_to_le_bytes;
use crate::errors::StateError;
use crate::algebra::{Fe, fe_wf, fe_zero, fe_canon, fe_parse, copy_bytes};
use crate::account::{Account, AccountId, AccountV, spec_account_wf, spec_account_bytes,
    spec_parse_account};
use crate::merkle::{MerkleTree, MerkleProof, TreeV, tv_hash, tv_update, spec_path, spec_fold,
    leaf_hash_fe, verify_merkle_proof};
use crate::wire::{spec_enc_bytes, spec_enc_u64, spec_read_bytes, spec_read_u64, append_bytes,
    append_u64, append_raw, read_bytes, read_u64};

verus! {

/// The canonical depth of the state commitment tree.
pub open spec fn state_tree_depth() -> nat {
    256
}

/// Looks an account up by identifier (first match).
pub open spec fn spec_accounts_get(s: Seq<AccountV>, id: Seq<u8>) -> Option<AccountV>
    decreases s.len(),
{
    if s.len() == 0 {
        None
    } else if s[0].id == id {
        Some(s[0])
    } else {
        spec_accounts_get(s.skip(1), id)
    }
}

/// The models of an executable account list.
pub open spec fn account_views(v: Seq<Account>) -> Seq<AccountV> {
    Seq::new(v.len(), |i: int| v[i]@)
}

/// Account-list well-formedness: pairwise distinct identifiers, each
/// account well-formed.
pub open spec fn spec_accounts_wf(s: Seq<AccountV>) -> bool {
    &&& forall|i: int, j: int| 0 <= i < j < s.len() ==> s[i].id != s[j].id
    &&& forall|i: int| 0 <= i < s.len() ==> spec_account_wf(#[trigger] s[i])
}

/// If the first `i` identifiers differ from `id` and the one at `i`
/// matches, the lookup returns the account at `i`.
pub proof fn lemma_accounts_get_at(s: Seq<AccountV>, id: Seq<u8>, i: int)
    requires
        0 <= i < s.len(),
        forall|j: int| 0 <= j < i ==> s[j].id != id,
        s[i].id == id,
    ensures
        spec_accounts_get(s, id) == Some(s[i]),
    decreases i,
{
    if i > 0 {
        lemma_accounts_get_at(s.skip(1), id, i - 1);
    }
}

/// If no identifier matches, the lookup misses.
pub proof fn lemma_accounts_get_none(s: Seq<AccountV>, id: Seq<u8>)
    requires
        forall|j: int| 0 <= j < s.len() ==> s[j].id != id,
    ensures
        spec_accounts_get(s, id) is None,
    decreases s.len(),
{
    if s.len() > 0 {
        lemma_accounts_get_none(s.skip(1), id);
    }
}

/// A found account carries the identifier it was looked up under.
pub proof fn lemma_accounts_get_id(s: Seq<AccountV>, id: Seq<u8>)
    requires
        spec_accounts_get(s, id) is Some,
    ensures
        spec_accounts_get(s, id)->Some_0.id == id,
    decreases s.len(),
{
    if s.len() > 0 && s[0].id != id {
        lemma_accounts_get_id(s.skip(1), id);
    }
}

/// Replacing the entry at an existing identifier leaves every other
/// identifier's lookup unchanged.
pub proof fn lemma_accounts_set_frame(s1: Seq<AccountV>, s2: Seq<AccountV>, i: int, id2: Seq<u8>)
    requires
        s1.len() == s2.len(),
        0 <= i < s1.len(),
        forall|j: int| 0 <= j < s1.len() && j != i ==> s1[j] == s2[j],
        s1[i].id == s2[i].id,
        s1[i].id != id2,
    ensures
        spec_accounts_get(s2, id2) == spec_accounts_get(s1, id2),
    decreases s1.len(),
{
    if s1.len() > 0 {
        if i == 0 {
            assert(s1.skip(1) =~= s2.skip(1));
        } else {
            assert(s1[0] == s2[0]);
            lemma_accounts_set_frame(s1.skip(1), s2.skip(1), i - 1, id2);
        }
    }
}

/// Appending an account with a fresh identifier leaves every other
/// identifier's lookup unchanged.
pub proof fn lemma_accounts_push_frame(s: Seq<AccountV>, a: AccountV, id2: Seq<u8>)
    requires
        a.id != id2,
    ensures
        spec_accounts_get(s.push(a), id2) == spec_accounts_get(s, id2),
    decreases s.len(),
{
    if s.len() == 0 {
        assert(s.push(a)[0] == a);
        assert(s.push(a).skip(1) =~= Seq::<AccountV>::empty());
        assert(spec_accounts_get(Seq::<AccountV>::empty(), id2) is None);
        assert(spec_accounts_get(s.push(a), id2) is None);
        assert(spec_accounts_get(s, id2) is None);
    } else {
        assert(s.push(a)[0] == s[0]);
        assert(s.push(a).skip(1) =~= s.skip(1).push(a));
        lemma_accounts_push_frame(s.skip(1), a, id2);
    }
}

/// Removing the entry at `i` leaves every other identifier's lookup
/// unchanged.
pub proof fn lemma_accounts_remove_frame(s: Seq<AccountV>, i: int, id2: Seq<u8>)
    requires
        0 <= i < s.len(),
        s[i].id != id2,
    ensures
        spec_accounts_get(s.remove(i), id2) == spec_accounts_get(s, id2),
    decreases s.len(),
{
    if i == 0 {
        assert(s.remove(0) =~= s.skip(1));
    } else {
        assert(s.remove(i)[0] == s[0]);
        assert(s.remove(i).skip(1) =~= s.skip(1).remove(i - 1));
        lemma_accounts_remove_frame(s.skip(1), i - 1, id2);
    }
}

/// Mathematical model of the world state.
pub struct StateV {
    pub accounts: Seq<AccountV>,
    pub root: Seq<u8>,
    pub version: u64,
    pub block_height: u64,
    pub timestamp: u64,
}

/// The world state.
#[derive(Clone, Debug)]
pub struct State {
    /// Accounts, with pairwise distinct identifiers.
    pub accounts: Vec<Account>,
    /// Sparse Merkle commitment over the accounts as of the last committed
    /// update.
    pub root: Fe,
    /// Incremented on every accepted update.
    pub version: u64,
    /// Height of the last applied block.
    pub block_height: u64,
    /// Timestamp of the last applied block.
    pub timestamp: u64,
}

impl View for State {
    type V = StateV;

    open spec fn view(&self) -> StateV {
        StateV {
            accounts: account_views(self.accounts@),
            root: self.root@,
            version: self.version,
            block_height: self.block_height,
            timestamp: self.timestamp,
        }
    }
}

impl State {
    /// Well-formedness: distinct identifiers, well-formed accounts, a
    /// canonical root encoding.
    pub open spec fn wf(&self) -> bool {
        &&& spec_accounts_wf(self@.accounts)
        &&& fe_wf(self@.root)
    }

    /// The empty genesis state: no accounts, zero root and counters.
    pub fn new() -> (r: State)
        ensures
            r@.accounts =~= Seq::<AccountV>::empty(),
            r@.root =~= Seq::new(32, |i: int| 0u8),
            r@.version == 0,
            r@.block_height == 0,
            r@.timestamp == 0,
            r.wf(),
    {
        State { accounts: Vec::new(), root: fe_zero(), version: 0, block_height: 0, timestamp: 0 }
    }

    /// Looks an account up by identifier, returning a copy.
    pub fn get_account(&self, id: &AccountId) -> (r: Option<Account>)
        ensures
            match spec_accounts_get(self@.accounts, id@) {
                Some(a) => r matches Some(acc) && acc@ == a,
                None => r is None,
            },
    {
        let n = self.accounts.len();
        let mut i: usize = 0;
        while i < n
            invariant
                n == self.accounts@.len(),
                self@.accounts.len() == n,
                0 <= i <= n,
                forall|j: int| 0 <= j < i ==> self@.accounts[j].id != id@,
                forall|j: int| 0 <= j < n ==> #[trigger] self@.accounts[j] == self.accounts@[j]@,
            decreases n - i,
        {
            let acc = vstd::std_specs::vec::vec_index(&self.accounts, i);
            if acc.id.equals(id) {
                proof {
                    lemma_accounts_get_at(self@.accounts, id@, i as int);
                }
                return Some(acc.clone_account());
            }
            i = i + 1;
        }
        proof {
            lemma_accounts_get_none(self@.accounts, id@);
        }
        None
    }

    /// Inserts or replaces the account under its identifier; every other
    /// identifier's lookup is unchanged.
    pub fn set_account(&mut self, account: Account)
        requires
            spec_accounts_wf(old(self)@.accounts),
            spec_account_wf(account@),
        ensures
            spec_accounts_get(final(self)@.accounts, account@.id) == Some(account@),
            forall|id2: Seq<u8>|
                id2 != account@.id ==> #[trigger] spec_accounts_get(final(self)@.accounts, id2)
                    == spec_accounts_get(old(self)@.accounts, id2),
            spec_accounts_wf(final(self)@.accounts),
            final(self)@.root == old(self)@.root,
            final(self)@.version == old(self)@.version,
            final(self)@.block_height == old(self)@.block_height,
            final(self)@.timestamp == old(self)@.timestamp,
    {
        let n = self.accounts.len();
        let ghost aid = account@.id;
        let mut i: usize = 0;
        while i < n
            invariant
                *self == *old(self),
                spec_accounts_wf(self@.accounts),
                spec_account_wf(account@),
                aid == account@.id,
                n == self.accounts@.len(),
                self@.accounts.len() == n,
                0 <= i <= n,
                forall|j: int| 0 <= j < i ==> self@.accounts[j].id != aid,
                forall|j: int| 0 <= j < n ==> #[trigger] self@.accounts[j] == self.accounts@[j]@,
            decreases n - i,
        {
            let hit = self.accounts[i].id.equals(&account.id);
            if hit {
                let ghost old_model = self@.accounts;
                self.accounts.set(i, account);
                proof {
                    let new_model = self@.accounts;
                    assert(old_model[i as int].id == aid);
                    assert(new_model[i as int] == account@);
                    assert(forall|j: int|
                        0 <= j < n && j != i ==> new_model[j] == old_model[j]);
                    assert(forall|j: int| 0 <= j < i ==> new_model[j].id != aid);
                    lemma_accounts_get_at(new_model, aid, i as int);
                    assert forall|id2: Seq<u8>| id2 != aid implies
                        #[trigger] spec_accounts_get(new_model, id2)
                            == spec_accounts_get(old_model, id2) by {
                        lemma_accounts_set_frame(old_model, new_model, i as int, id2);
                    }
                    assert(spec_accounts_wf(new_model)) by {
                        assert(forall|a: int, b: int|
                            0 <= a < b < new_model.len() ==> new_model[a].id != new_model[b].id);
                        assert(forall|j: int|
                            0 <= j < new_model.len() ==> spec_account_wf(#[trigger] new_model[j]));
                    }
                }
                return ;
            }
            i = i + 1;
        }
        let ghost old_model = self@.accounts;
        let ghost av = account@;
        self.accounts.push(account);
        proof {
            let new_model = self@.accounts;
            assert(new_model =~= old_model.push(av));
            assert(forall|j: int| 0 <= j < n ==> old_model[j].id != aid);
            assert(forall|j: int| 0 <= j < n ==> new_model[j] == old_model[j]);
            assert(new_model[n as int] == av);
            lemma_accounts_get_at(new_model, aid, n as int);
            assert forall|id2: Seq<u8>| id2 != aid implies
                #[trigger] spec_accounts_get(new_model, id2)
                    == spec_accounts_get(old_model, id2) by {
                lemma_accounts_push_frame(old_model, av, id2);
            }
            assert(spec_accounts_wf(new_model)) by {
                assert(forall|a: int, b: int|
                    0 <= a < b < new_model.len() ==> new_model[a].id != new_model[b].id);
                assert(forall|j: int|
                    0 <= j < new_model.len() ==> spec_account_wf(#[trigger] new_model[j]));
            }
        }
    }

    /// Removes the account under `id`, if present; every other
    /// identifier's lookup is unchanged.
    pub fn remove_account(&mut self, id: &AccountId)
        requires
            spec_accounts_wf(old(self)@.accounts),
        ensures
            spec_accounts_get(final(self)@.accounts, id@) is None,
            forall|id2: Seq<u8>|
                id2 != id@ ==> #[trigger] spec_accounts_get(final(self)@.accounts, id2)
                    == spec_accounts_get(old(self)@.accounts, id2),
            spec_accounts_wf(final(self)@.accounts),
            final(self)@.root == old(self)@.root,
            final(self)@.version == old(self)@.version,
            final(self)@.block_height == old(self)@.block_height,
            final(self)@.timestamp == old(self)@.timestamp,
    {
        let n = self.accounts.len();
        let mut i: usize = 0;
        while i < n
            invariant
                *self == *old(self),
                spec_accounts_wf(self@.accounts),
                n == self.accounts@.len(),
                self@.accounts.len() == n,
                0 <= i <= n,
                forall|j: int| 0 <= j < i ==> self@.accounts[j].id != id@,
                forall|j: int| 0 <= j < n ==> #[trigger] self@.accounts[j] == self.accounts@[j]@,
            decreases n - i,
        {
            let hit = self.accounts[i].id.equals(id);
            if hit {
                let ghost old_model = self@.accounts;
                self.accounts.remove(i);
                proof {
                    let new_model = self@.accounts;
                    assert(new_model =~= old_model.remove(i as int));
                    assert(forall|j: int|
                        0 <= j < new_model.len() ==> new_model[j] == (if j < i {
                            old_model[j]
                        } else {
                            old_model[j + 1]
                        }));
                    assert forall|j: int| 0 <= j < new_model.len() implies new_model[j].id != id@
                        by {
                        if j >= i {
                            assert(new_model[j] == old_model[j + 1]);
                            assert(old_model[i as int].id != old_model[j + 1].id);
                        }
                    }
                    lemma_accounts_get_none(new_model, id@);
                    assert forall|id2: Seq<u8>| id2 != id@ implies
                        #[trigger] spec_accounts_get(new_model, id2)
                            == spec_accounts_get(old_model, id2) by {
                        lemma_accounts_remove_frame(old_model, i as int, id2);
                    }
                    assert(spec_accounts_wf(new_model)) by {
                        assert(forall|a: int, b: int|
                            0 <= a < b < new_model.len() ==> new_model[a].id != new_model[b].id);
                        assert(forall|j: int|
                            0 <= j < new_model.len() ==> spec_account_wf(#[trigger] new_model[j]));
                    }
                }
                return ;
            }
            i = i + 1;
        }
        proof {
            lemma_accounts_get_none(self@.accounts, id@);
        }
    }
}

/// The base accounts with modifications merged in, in place.
pub open spec fn spec_merged_base(base: Seq<AccountV>, modified: Seq<AccountV>) -> Seq<AccountV> {
    Seq::new(
        base.len(),
        |i: int|
            match spec_accounts_get(modified, base[i].id) {
                Some(m) => m,
                None => base[i],
            },
    )
}

/// The modified accounts that are new to the state, in order.
pub open spec fn spec_new_accounts(base: Seq<AccountV>, modified: Seq<AccountV>) -> Seq<AccountV>
    decreases modified.len(),
{
    if modified.len() == 0 {
        Seq::empty()
    } else {
        spec_new_accounts(base, modified.drop_last()) + (if spec_accounts_get(
            base,
            modified.last().id,
        ) is None {
            seq![modified.last()]
        } else {
            Seq::empty()
        })
    }
}

/// The full merged account list: the base with modifications applied,
/// followed by the new accounts.
pub open spec fn spec_merged(base: Seq<AccountV>, modified: Seq<AccountV>) -> Seq<AccountV> {
    spec_merged_base(base, modified) + spec_new_accounts(base, modified)
}

/// The commitment tree holding the canonical serialization of each account
/// in order, keyed by identifier.
pub open spec fn spec_accounts_tree(accs: Seq<AccountV>) -> TreeV
    decreases accs.len(),
{
    if accs.len() == 0 {
        TreeV::Empty
    } else {
        tv_update(
            spec_accounts_tree(accs.drop_last()),
            spec_path(accs.last().id, state_tree_depth()),
            spec_account_bytes(accs.last()),
        )
    }
}

/// The state root over a base account list with modifications merged in.
pub open spec fn spec_calc_root(base: Seq<AccountV>, modified: Seq<AccountV>) -> Seq<u8> {
    tv_hash(spec_accounts_tree(spec_merged(base, modified)), state_tree_depth())
}

/// Looks an account up in an executable list by identifier, without
/// copying.
pub fn find_account<'a>(list: &'a Vec<Account>, id: &AccountId) -> (r: Option<&'a Account>)
    ensures
        match spec_accounts_get(account_views(list@), id@) {
            Some(a) => r matches Some(acc) && acc@ == a,
            None => r is None,
        },
{
    let n = list.len();
    let mut i: usize = 0;
    while i < n
        invariant
            n == list@.len(),
            0 <= i <= n,
            forall|j: int| 0 <= j < i ==> account_views(list@)[j].id != id@,
            forall|j: int| 0 <= j < n ==> #[trigger] account_views(list@)[j] == list@[j]@,
        decreases n - i,
    {
        let acc = vstd::std_specs::vec::vec_index(list, i);
        if acc.id.equals(id) {
            proof {
                lemma_accounts_get_at(account_views(list@), id@, i as int);
            }
            return Some(acc);
        }
        i = i + 1;
    }
    proof {
        lemma_accounts_get_none(account_views(list@), id@);
    }
    None
}

impl State {
    /// The root over this state's accounts with `modified` merged in: the
    /// commitment tree is rebuilt over every account, taking the modified
    /// version where one exists and appending the new ones; never fails.
    /// The result is a function of the two account lists alone.
    pub fn calculate_root(&self, modified: &Vec<Account>) -> (r: Result<Fe, StateError>)
        ensures
            r matches Ok(f) && f@ == spec_calc_root(self@.accounts, account_views(modified@))
                && fe_wf(f@),
    {
        let ghost base = self@.accounts;
        let ghost mviews = account_views(modified@);
        let mut tree = MerkleTree::new(256);
        let n = self.accounts.len();
        let mut i: usize = 0;
        proof {
            assert(spec_merged_base(base, mviews).take(0int) =~= Seq::<AccountV>::empty());
        }
        while i < n
            invariant
                n == self.accounts@.len(),
                base == self@.accounts,
                base.len() == n,
                mviews == account_views(modified@),
                0 <= i <= n,
                tree.wf(),
                tree.spec_depth() == state_tree_depth(),
                tree.spec_model() == spec_accounts_tree(spec_merged_base(base, mviews).take(
                    i as int,
                )),
                forall|j: int| 0 <= j < n ==> #[trigger] base[j] == self.accounts@[j]@,
            decreases n - i,
        {
            let acc = vstd::std_specs::vec::vec_index(&self.accounts, i);
            let eff: &Account = match find_account(modified, &acc.id) {
                Some(m) => m,
                None => acc,
            };
            proof {
                assert(eff@ == spec_merged_base(base, mviews)[i as int]);
            }
            let bytes = match eff.serialize() {
                Ok(b) => b,
                Err(e) => { return Err(e); },
            };
            let _ = match tree.update(acc.id.0.as_slice(), bytes.as_slice()) {
                Ok(h) => h,
                Err(e) => { return Err(e); },
            };
            proof {
                let t1 = spec_merged_base(base, mviews).take(i + 1);
                assert(t1.drop_last() =~= spec_merged_base(base, mviews).take(i as int));
                assert(t1.last() == spec_merged_base(base, mviews)[i as int]);
                if spec_accounts_get(mviews, base[i as int].id) is Some {
                    lemma_accounts_get_id(mviews, base[i as int].id);
                }
                assert(t1.last().id == base[i as int].id);
                assert(tree.spec_model() == spec_accounts_tree(t1));
            }
            i = i + 1;
        }
        proof {
            assert(spec_merged_base(base, mviews).take(n as int) =~= spec_merged_base(
                base,
                mviews,
            ));
        }
        let m = modified.len();
        let mut j: usize = 0;
        proof {
            assert(mviews.take(0int) =~= Seq::<AccountV>::empty());
            assert(spec_merged_base(base, mviews) + spec_new_accounts(base, mviews.take(0int))
                =~= spec_merged_base(base, mviews));
        }
        while j < m
            invariant
                m == modified@.len(),
                base == self@.accounts,
                mviews == account_views(modified@),
                mviews.len() == m,
                0 <= j <= m,
                tree.wf(),
                tree.spec_depth() == state_tree_depth(),
                tree.spec_model() == spec_accounts_tree(
                    spec_merged_base(base, mviews) + spec_new_accounts(base, mviews.take(j as int)),
                ),
                forall|k: int| 0 <= k < m ==> #[trigger] mviews[k] == modified@[k]@,
            decreases m - j,
        {
            let macc = vstd::std_specs::vec::vec_index(modified, j);
            let ghost prefix = spec_merged_base(base, mviews) + spec_new_accounts(
                base,
                mviews.take(j as int),
            );
            let present = match find_account(&self.accounts, &macc.id) {
                Some(_) => true,
                None => false,
            };
            proof {
                assert(mviews.take(j + 1).drop_last() =~= mviews.take(j as int));
                assert(mviews.take(j + 1).last() == mviews[j as int]);
                assert(account_views(self.accounts@) == base);
                assert(present == (spec_accounts_get(base, mviews[j as int].id) is Some));
            }
            if !present {
                let bytes = match macc.serialize() {
                    Ok(b) => b,
                    Err(e) => { return Err(e); },
                };
                let _ = match tree.update(macc.id.0.as_slice(), bytes.as_slice()) {
                    Ok(h) => h,
                    Err(e) => { return Err(e); },
                };
                proof {
                    let s1 = spec_merged_base(base, mviews) + spec_new_accounts(
                        base,
                        mviews.take(j + 1),
                    );
                    assert(spec_new_accounts(base, mviews.take(j + 1)) == spec_new_accounts(
                        base,
                        mviews.take(j as int),
                    ) + seq![mviews[j as int]]);
                    assert(s1 =~= prefix.push(mviews[j as int]));
                    assert(s1.drop_last() =~= prefix);
                    assert(s1.last() == mviews[j as int]);
                    assert(tree.spec_model() == spec_accounts_tree(s1));
                }
            } else {
                proof {
                    assert(spec_new_accounts(base, mviews.take(j + 1)) =~= spec_new_accounts(
                        base,
                        mviews.take(j as int),
                    ));
                }
            }
            j = j + 1;
        }
        proof {
            assert(mviews.take(m as int) =~= mviews);
            tree.lemma_root_hash_is_model_hash();
            assert(spec_merged_base(base, mviews) + spec_new_accounts(base, mviews)
                =~= spec_merged(base, mviews));
        }
        Ok(tree.root())
    }

    /// Applies modified accounts: recomputes the root over the merged
    /// accounts, stores each modified account, and advances the version.
    pub fn apply_modifications(&mut self, modified: Vec<Account>) -> (r: Result<(), StateError>)
        requires
            old(self).wf(),
            old(self).version < u64::MAX,
            spec_accounts_wf(account_views(modified@)),
        ensures
            r is Ok,
            final(self)@.root == spec_calc_root(old(self)@.accounts, account_views(modified@)),
            forall|id2: Seq<u8>|
                #[trigger] spec_accounts_get(final(self)@.accounts, id2) == (
                match spec_accounts_get(account_views(modified@), id2) {
                    Some(a) => Some(a),
                    None => spec_accounts_get(old(self)@.accounts, id2),
                }),
            final(self)@.version == old(self)@.version + 1,
            final(self)@.block_height == old(self)@.block_height,
            final(self)@.timestamp == old(self)@.timestamp,
            final(self).wf(),
    {
        let ghost mviews = account_views(modified@);
        let new_root = match self.calculate_root(&modified) {
            Ok(f) => f,
            Err(e) => { return Err(e); },
        };
        let m = modified.len();
        let mut j: usize = 0;
        proof {
            assert(mviews.take(0int) =~= Seq::<AccountV>::empty());
            assert(forall|id2: Seq<u8>|
                spec_accounts_get(mviews.take(0int), id2) is None);
        }
        while j < m
            invariant
                m == modified@.len(),
                mviews == account_views(modified@),
                mviews.len() == m,
                spec_accounts_wf(mviews),
                0 <= j <= m,
                spec_accounts_wf(self@.accounts),
                self@.root == old(self)@.root,
                self@.version == old(self)@.version,
                self@.block_height == old(self)@.block_height,
                self@.timestamp == old(self)@.timestamp,
                forall|k: int| 0 <= k < m ==> #[trigger] mviews[k] == modified@[k]@,
                forall|id2: Seq<u8>|
                    #[trigger] spec_accounts_get(self@.accounts, id2) == (
                    match spec_accounts_get(mviews.take(j as int), id2) {
                        Some(a) => Some(a),
                        None => spec_accounts_get(old(self)@.accounts, id2),
                    }),
            decreases m - j,
        {
            let macc = vstd::std_specs::vec::vec_index(&modified, j).clone_account();
            let ghost pre = self@.accounts;
            proof {
                assert(macc@ == mviews[j as int]);
                assert(spec_account_wf(macc@));
            }
            self.set_account(macc);
            proof {
                let mj = mviews[j as int];
                assert(mviews.take(j + 1).drop_last() =~= mviews.take(j as int));
                assert(mviews.take(j + 1) =~= mviews.take(j as int).push(mj));
                assert(forall|k: int| 0 <= k < j ==> mviews[k].id != mj.id);
                assert forall|id2: Seq<u8>|
                    #[trigger] spec_accounts_get(self@.accounts, id2) == (
                match spec_accounts_get(mviews.take(j + 1), id2) {
                    Some(a) => Some(a),
                    None => spec_accounts_get(old(self)@.accounts, id2),
                }) by {
                    if id2 == mj.id {
                        assert(forall|k: int|
                            0 <= k < mviews.take(j as int).len()
                                ==> mviews.take(j as int)[k].id != id2);
                        lemma_accounts_get_none(mviews.take(j as int), id2);
                        lemma_accounts_get_at(mviews.take(j + 1), id2, j as int);
                        assert(spec_accounts_get(self@.accounts, id2) == Some(mj));
                    } else {
                        lemma_accounts_push_frame(mviews.take(j as int), mj, id2);
                        assert(spec_accounts_get(mviews.take(j + 1), id2) == spec_accounts_get(
                            mviews.take(j as int),
                            id2,
                        ));
                        assert(spec_accounts_get(self@.accounts, id2) == spec_accounts_get(
                            pre,
                            id2,
                        ));
                    }
                }
            }
            j = j + 1;
        }
        proof {
            assert(mviews.take(m as int) =~= mviews);
        }
        self.root = new_root;
        self.version = self.version + 1;
        Ok(())
    }
}

/// A state proof for one account: the identifier, the account if present,
/// the membership proof, and the root it was issued under.
#[derive(Clone, Debug)]
pub struct StateProof {
    /// The identifier the proof speaks of.
    pub account_id: AccountId,
    /// The account under that identifier, if any.
    pub account: Option<Account>,
    /// Membership proof in the commitment tree.
    pub merkle_proof: MerkleProof,
    /// The root the proof was issued under.
    pub root: Fe,
}

impl State {
    /// Issues a state proof for `id`: the stored account (if any), the
    /// membership proof from a tree over all current accounts, and this
    /// state's root; never fails.
    pub fn get_account_proof(&self, id: &AccountId) -> (r: Result<StateProof, StateError>)
        requires
            self.wf(),
        ensures
            r matches Ok(p) && p.account_id@ == id@ && p.root@ == self@.root && (
            match spec_accounts_get(self@.accounts, id@) {
                Some(a) => p.account matches Some(acc) && acc@ == a,
                None => p.account is None,
            }) && p.merkle_proof@.len() == state_tree_depth(),
    {
        let empty: Vec<Account> = Vec::new();
        let mut tree = MerkleTree::new(256);
        let n = self.accounts.len();
        let mut i: usize = 0;
        while i < n
            invariant
                n == self.accounts@.len(),
                0 <= i <= n,
                tree.wf(),
                tree.spec_depth() == state_tree_depth(),
            decreases n - i,
        {
            let acc = vstd::std_specs::vec::vec_index(&self.accounts, i);
            let bytes = match acc.serialize() {
                Ok(b) => b,
                Err(e) => { return Err(e); },
            };
            let _ = match tree.update(acc.id.0.as_slice(), bytes.as_slice()) {
                Ok(h) => h,
                Err(e) => { return Err(e); },
            };
            i = i + 1;
        }
        let merkle_proof = match tree.get_proof(id.0.as_slice()) {
            Ok(p) => p,
            Err(e) => { return Err(e); },
        };
        proof {
            crate::merkle::lemma_siblings_len(
                tree.spec_root(),
                spec_path(id@, state_tree_depth()),
            );
        }
        Ok(StateProof {
            account_id: id.duplicate(),
            account: self.get_account(id),
            merkle_proof,
            root: self.root.duplicate(),
        })
    }

    /// Checks a state proof against this state: accepts exactly when the
    /// proof's root equals this state's root and, when the proof carries
    /// an account, its membership proof covers every level of the state
    /// commitment and reconstructs that root from the account's canonical
    /// serialization at the identifier's path. Never fails.
    pub fn verify_proof(&self, proof: &StateProof) -> (r: Result<bool, StateError>)
        ensures
            r matches Ok(b) && b == (proof.root@ == self@.root && (proof.account matches Some(acc)
                ==> proof.merkle_proof@.len() == state_tree_depth() && spec_fold(
                spec_path(proof.account_id@, state_tree_depth()),
                leaf_hash_fe(spec_account_bytes(acc@)),
                proof.merkle_proof@,
            ) == proof.root@)),
    {
        if !proof.root.equals(&self.root) {
            return Ok(false);
        }
        match &proof.account {
            Some(acc) => {
                let bytes = match acc.serialize() {
                    Ok(b) => b,
                    Err(e) => { return Err(e); },
                };
                let ok = verify_merkle_proof(
                    proof.account_id.0.as_slice(),
                    bytes.as_slice(),
                    &proof.merkle_proof,
                    &proof.root,
                    256,
                );
                Ok(ok)
            },
            None => Ok(true),
        }
    }
}

/// Canonical encoding of an account list: each account as its
/// length-prefixed identifier followed by its canonical serialization.
pub open spec fn spec_state_accounts_bytes(accs: Seq<AccountV>) -> Seq<u8>
    decreases accs.len(),
{
    if accs.len() == 0 {
        Seq::empty()
    } else {
        spec_state_accounts_bytes(accs.drop_last()) + spec_enc_bytes(accs.last().id)
            + spec_account_bytes(accs.last())
    }
}

/// Canonical encoding of a state: version, block height, timestamp, root,
/// account count, then the accounts.
pub open spec fn spec_state_bytes(s: StateV) -> Seq<u8> {
    spec_enc_u64(s.version) + spec_enc_u64(s.block_height) + spec_enc_u64(s.timestamp) + s.root
        + spec_enc_u64(s.accounts.len() as u64) + spec_state_accounts_bytes(s.accounts)
}

/// Parses `count` accounts at `pos`; each identifier prefix must match the
/// identifier inside the account encoding.
pub open spec fn spec_parse_state_accounts(b: Seq<u8>, pos: int, count: int) -> Option<
    (Seq<AccountV>, int),
>
    decreases count,
{
    if count <= 0 {
        Some((Seq::empty(), pos))
    } else {
        match spec_read_bytes(b, pos) {
            None => None,
            Some((idb, p1)) => match spec_parse_account(b, p1) {
                None => None,
                Some((a, p2)) => {
                    if a.id == idb {
                        match spec_parse_state_accounts(b, p2, count - 1) {
                            Some((rest, p3)) => Some((seq![a] + rest, p3)),
                            None => None,
                        }
                    } else {
                        None
                    }
                },
            },
        }
    }
}

/// Parses a canonical state encoding: succeeds exactly on well-formed
/// encodings with distinct account identifiers.
pub open spec fn spec_parse_state(b: Seq<u8>) -> Option<StateV> {
    match spec_read_u64(b, 0) {
        None => None,
        Some((version, p1)) => match spec_read_u64(b, p1) {
            None => None,
            Some((block_height, p2)) => match spec_read_u64(b, p2) {
                None => None,
                Some((timestamp, p3)) => {
                    if p3 + 32 <= b.len() && fe_canon(b.subrange(p3, p3 + 32)) {
                        match spec_read_u64(b, p3 + 32) {
                            None => None,
                            Some((count, p4)) => match spec_parse_state_accounts(
                                b,
                                p4,
                                count as int,
                            ) {
                                None => None,
                                Some((accs, _)) => {
                                    if forall|i: int, j: int|
                                        0 <= i < j < accs.len() ==> accs[i].id != accs[j].id {
                                        Some(
                                            StateV {
                                                accounts: accs,
                                                root: b.subrange(p3, p3 + 32),
                                                version,
                                                block_height,
                                                timestamp,
                                            },
                                        )
                                    } else {
                                        None
                                    }
                                },
                            },
                        }
                    } else {
                        None
                    }
                },
            },
        },
    }
}

/// The account-list encoding, decomposed at the front.
pub proof fn lemma_state_accounts_bytes_cons(accs: Seq<AccountV>)
    requires
        accs.len() > 0,
    ensures
        spec_state_accounts_bytes(accs) == spec_enc_bytes(accs[0].id) + spec_account_bytes(
            accs[0],
        ) + spec_state_accounts_bytes(accs.skip(1)),
    decreases accs.len(),
{
    if accs.len() == 1 {
        assert(accs.drop_last() =~= Seq::<AccountV>::empty());
        assert(accs.skip(1) =~= Seq::<AccountV>::empty());
        assert(spec_state_accounts_bytes(accs) =~= spec_enc_bytes(accs[0].id)
            + spec_account_bytes(accs[0]) + spec_state_accounts_bytes(accs.skip(1)));
    } else {
        lemma_state_accounts_bytes_cons(accs.drop_last());
        assert(accs.drop_last()[0] == accs[0]);
        assert(accs.drop_last().skip(1) =~= accs.skip(1).drop_last());
        assert(accs.skip(1).last() == accs.last());
        assert(spec_state_accounts_bytes(accs) =~= spec_enc_bytes(accs[0].id)
            + spec_account_bytes(accs[0]) + spec_state_accounts_bytes(accs.skip(1)));
    }
}

/// Parsing a well-formed account list at any position yields the list
/// when the bytes there are its encoding.
#[verifier::rlimit(60)]
pub proof fn lemma_parse_state_accounts_round_trip(b: Seq<u8>, accs: Seq<AccountV>, pos: int)
    requires
        forall|i: int|
            0 <= i < accs.len() ==> spec_account_wf(#[trigger] accs[i]) && accs[i].id.len()
                <= u64::MAX && accs[i].storage.len() <= u64::MAX,
        0 <= pos,
        pos + spec_state_accounts_bytes(accs).len() <= b.len(),
        b.subrange(pos, pos + spec_state_accounts_bytes(accs).len()) == spec_state_accounts_bytes(
            accs,
        ),
    ensures
        spec_parse_state_accounts(b, pos, accs.len() as int) == Some(
            (accs, pos + spec_state_accounts_bytes(accs).len()),
        ),
    decreases accs.len(),
{
    vstd::bytes::lemma_auto_spec_u64_to_from_le_bytes();
    if accs.len() == 0 {
        assert(spec_parse_state_accounts(b, pos, 0int) == Some(
            (Seq::<AccountV>::empty(), pos),
        ));
        assert(accs =~= Seq::<AccountV>::empty());
    } else {
        lemma_state_accounts_bytes_cons(accs);
        let a0 = accs[0];
        let enc = spec_state_accounts_bytes(accs);
        let len = enc.len() as int;
        let abytes = spec_account_bytes(a0);
        crate::account::lemma_account_bytes_len(a0);
        let idlen = a0.id.len() as int;
        let alen = abytes.len() as int;
        let p1 = pos + 8 + idlen;
        let p2 = p1 + alen;
        let rest_bytes = spec_state_accounts_bytes(accs.skip(1));
        assert forall|i: int| 0 <= i < len implies b[pos + i] == enc[i] by {
            assert(b.subrange(pos, pos + len)[i] == b[pos + i]);
        }
        assert(b.subrange(pos, pos + 8) =~= spec_u64_to_le_bytes(a0.id.len() as u64)) by {
            assert forall|j: int| 0 <= j < 8 implies #[trigger] b.subrange(pos, pos + 8)[j]
                == spec_u64_to_le_bytes(a0.id.len() as u64)[j] by {
                assert(b[pos + j] == enc[j]);
            }
        }
        assert(b.subrange(pos + 8, pos + 8 + idlen) =~= a0.id) by {
            assert forall|j: int| 0 <= j < idlen implies #[trigger] b.subrange(
                pos + 8,
                pos + 8 + idlen,
            )[j] == a0.id[j] by {
                assert(b[pos + (8 + j)] == enc[8 + j]);
            }
        }
        assert(spec_read_bytes(b, pos) == Some((a0.id, p1)));
        assert(b.subrange(p1, p1 + alen) =~= abytes) by {
            assert forall|j: int| 0 <= j < alen implies #[trigger] b.subrange(p1, p1 + alen)[j]
                == abytes[j] by {
                assert(b[pos + (8 + idlen + j)] == enc[8 + idlen + j]);
            }
        }
        crate::account::lemma_account_round_trip_at(b, a0, p1);
        assert(spec_parse_account(b, p1) == Some((a0, p2)));
        assert(b.subrange(p2, p2 + rest_bytes.len()) =~= rest_bytes) by {
            assert forall|j: int| 0 <= j < rest_bytes.len() implies #[trigger] b.subrange(
                p2,
                p2 + rest_bytes.len(),
            )[j] == rest_bytes[j] by {
                assert(b[pos + (8 + idlen + alen + j)] == enc[8 + idlen + alen + j]);
            }
        }
        lemma_parse_state_accounts_round_trip(b, accs.skip(1), p2);
        assert(seq![a0] + accs.skip(1) =~= accs);
        assert(spec_parse_state_accounts(b, pos, accs.len() as int) == Some((accs, pos + len)));
    }
}

/// Parsing a well-formed state back from its canonical encoding yields
/// the state: the codec is lossless.
#[verifier::rlimit(60)]
pub proof fn lemma_state_round_trip(s: StateV)
    requires
        spec_accounts_wf(s.accounts),
        fe_wf(s.root),
        s.accounts.len() <= u64::MAX,
        forall|i: int|
            0 <= i < s.accounts.len() ==> (#[trigger] s.accounts[i]).id.len() <= u64::MAX
                && s.accounts[i].storage.len() <= u64::MAX,
    ensures
        spec_parse_state(spec_state_bytes(s)) == Some(s),
{
    vstd::bytes::lemma_auto_spec_u64_to_from_le_bytes();
    let b = spec_state_bytes(s);
    let abytes = spec_state_accounts_bytes(s.accounts);
    assert(b =~= spec_u64_to_le_bytes(s.version) + spec_u64_to_le_bytes(s.block_height)
        + spec_u64_to_le_bytes(s.timestamp) + s.root + spec_u64_to_le_bytes(
        s.accounts.len() as u64,
    ) + abytes);
    assert(b.subrange(0, 8) =~= spec_u64_to_le_bytes(s.version));
    assert(spec_read_u64(b, 0) == Some((s.version, 8int)));
    assert(b.subrange(8, 16) =~= spec_u64_to_le_bytes(s.block_height));
    assert(spec_read_u64(b, 8) == Some((s.block_height, 16int)));
    assert(b.subrange(16, 24) =~= spec_u64_to_le_bytes(s.timestamp));
    assert(spec_read_u64(b, 16) == Some((s.timestamp, 24int)));
    assert(b.subrange(24, 56) =~= s.root);
    assert(b.subrange(56, 64) =~= spec_u64_to_le_bytes(s.accounts.len() as u64));
    assert(spec_read_u64(b, 56) == Some((s.accounts.len() as u64, 64int)));
    assert(b.subrange(64, 64 + abytes.len() as int) =~= abytes);
    lemma_parse_state_accounts_round_trip(b, s.accounts, 64);
    assert(spec_parse_state(b) is Some);
    let parsed = spec_parse_state(b)->Some_0;
    assert(parsed.accounts == s.accounts);
    assert(parsed.root == s.root);
    assert(parsed == s);
}

impl State {
    /// The canonical serialization of this state; never fails.
    pub fn serialize(&self) -> (r: Result<Vec<u8>, StateError>)
        ensures
            r matches Ok(b) && b@ == spec_state_bytes(self@),
    {
        let mut out: Vec<u8> = Vec::new();
        append_u64(&mut out, self.version);
        append_u64(&mut out, self.block_height);
        append_u64(&mut out, self.timestamp);
        append_raw(&mut out, self.root.as_bytes());
        let n = self.accounts.len();
        append_u64(&mut out, n as u64);
        let ghost base = out@;
        let ghost accs = self@.accounts;
        let mut i: usize = 0;
        proof {
            assert(accs.take(0int) =~= Seq::<AccountV>::empty());
        }
        while i < n
            invariant
                n == self.accounts@.len(),
                accs == self@.accounts,
                accs.len() == n,
                0 <= i <= n,
                out@ == base + spec_state_accounts_bytes(accs.take(i as int)),
                forall|j: int| 0 <= j < n ==> #[trigger] accs[j] == self.accounts@[j]@,
            decreases n - i,
        {
            let acc = vstd::std_specs::vec::vec_index(&self.accounts, i);
            append_bytes(&mut out, &acc.id.0);
            let mut bytes = match acc.serialize() {
                Ok(b) => b,
                Err(e) => { return Err(e); },
            };
            out.append(&mut bytes);
            proof {
                let t1 = accs.take(i + 1);
                assert(t1.drop_last() =~= accs.take(i as int));
                assert(t1.last() == accs[i as int]);
                assert(out@ =~= base + spec_state_accounts_bytes(t1));
            }
            i = i + 1;
        }
        proof {
            assert(accs.take(n as int) =~= accs);
            assert(out@ =~= spec_state_bytes(self@));
        }
        Ok(out)
    }

    /// Parses a canonical state encoding, per `spec_parse_state`; the
    /// returned state is well-formed.
    pub fn deserialize(bytes: &Vec<u8>) -> (r: Result<State, StateError>)
        ensures
            match spec_parse_state(bytes@) {
                None => r is Err,
                Some(s) => r matches Ok(st) && st@ == s && st.wf(),
            },
    {
        let (version, p1) = match read_u64(bytes, 0) {
            Some(t) => t,
            None => { return Err(StateError::SerializationError("truncated".to_string())); },
        };
        let (block_height, p2) = match read_u64(bytes, p1) {
            Some(t) => t,
            None => { return Err(StateError::SerializationError("truncated".to_string())); },
        };
        let (timestamp, p3) = match read_u64(bytes, p2) {
            Some(t) => t,
            None => { return Err(StateError::SerializationError("truncated".to_string())); },
        };
        if bytes.len() < 32 || p3 > bytes.len() - 32 {
            return Err(StateError::SerializationError("truncated root".to_string()));
        }
        let root_slice = vstd::slice::slice_subrange(bytes.as_slice(), p3, p3 + 32);
        let mut root_bytes: Vec<u8> = Vec::new();
        root_bytes.extend_from_slice(root_slice);
        proof {
            assert(root_bytes@ =~= bytes@.subrange(p3 as int, p3 + 32));
        }
        let root = match fe_parse(&root_bytes) {
            Some(f) => f,
            None => {
                return Err(StateError::SerializationError("non-canonical root".to_string()));
            },
        };
        let (count, p4) = match read_u64(bytes, p3 + 32) {
            Some(t) => t,
            None => { return Err(StateError::SerializationError("truncated".to_string())); },
        };
        let (accounts, _) = match Self::parse_accounts(bytes, p4, count) {
            Some(t) => t,
            None => {
                return Err(StateError::SerializationError("malformed accounts".to_string()));
            },
        };
        let ghost accs = spec_parse_state_accounts(bytes@, p4 as int, count as int)->Some_0.0;
        proof {
            assert(accs =~= account_views(accounts@));
        }
        if !Self::ids_distinct(&accounts) {
            proof {
                assert(exists|i: int, j: int|
                    !(0 <= i < j < accounts@.len() ==> #[trigger] accounts@[i]@.id
                        != #[trigger] accounts@[j]@.id));
                let (i, j) = choose|i: int, j: int|
                    !(0 <= i < j < accounts@.len() ==> #[trigger] accounts@[i]@.id
                        != #[trigger] accounts@[j]@.id);
                assert(accs[i].id == accs[j].id);
            }
            return Err(StateError::SerializationError("duplicate identifiers".to_string()));
        }
        let st = State { accounts, root, version, block_height, timestamp };
        proof {
            let s = spec_parse_state(bytes@)->Some_0;
            assert(st@.accounts =~= s.accounts);
            assert(st@ == s);
        }
        Ok(st)
    }

    /// Parses `count` prefixed accounts, per `spec_parse_state_accounts`.
    #[verifier::rlimit(30)]
    fn parse_accounts(bytes: &Vec<u8>, pos: usize, count: u64) -> (r: Option<(Vec<Account>, usize)>)
        ensures
            r is Some <==> spec_parse_state_accounts(bytes@, pos as int, count as int) is Some,
            r matches Some(t) ==> spec_parse_state_accounts(bytes@, pos as int, count as int)
                == Some((account_views(t.0@), t.1 as int)),
            r matches Some(t) ==> forall|i: int|
                0 <= i < t.0@.len() ==> spec_account_wf(#[trigger] t.0@[i]@),
    {
        let mut acc: Vec<Account> = Vec::new();
        let mut p: usize = pos;
        let mut remaining: u64 = count;
        loop
            invariant
                0 <= remaining <= count,
                acc@.len() == count - remaining,
                forall|i: int| 0 <= i < acc@.len() ==> spec_account_wf(#[trigger] acc@[i]@),
                spec_parse_state_accounts(bytes@, pos as int, count as int) == (
                match spec_parse_state_accounts(bytes@, p as int, remaining as int) {
                    Some((rest, q)) => Some((account_views(acc@) + rest, q)),
                    None => None,
                }),
            decreases remaining,
        {
            if remaining == 0 {
                proof {
                    assert(spec_parse_state_accounts(bytes@, p as int, 0int) == Some(
                        (Seq::<AccountV>::empty(), p as int),
                    ));
                    assert(account_views(acc@) + Seq::<AccountV>::empty() =~= account_views(acc@));
                }
                return Some((acc, p));
            }
            let (id_bytes, p1) = match read_bytes(bytes, p) {
                Some(t) => t,
                None => { return None; },
            };
            let (account, p2) = match Account::deserialize_at(bytes, p1) {
                Some(t) => t,
                None => { return None; },
            };
            let same = crate::algebra::bytes_eq(&id_bytes, &account.id.0);
            if !same {
                return None;
            }
            let ghost old_acc = acc@;
            let ghost old_p = p as int;
            let ghost old_remaining = remaining as int;
            acc.push(account);
            p = p2;
            remaining = remaining - 1;
            proof {
                let av = acc@[old_acc.len() as int]@;
                assert(account_views(acc@) =~= account_views(old_acc) + seq![av]);
                match spec_parse_state_accounts(bytes@, p as int, remaining as int) {
                    Some((rest, q)) => {
                        assert(spec_parse_state_accounts(bytes@, old_p, old_remaining) == Some(
                            (seq![av] + rest, q),
                        ));
                        assert(account_views(old_acc) + (seq![av] + rest) =~= account_views(acc@)
                            + rest);
                    },
                    None => {
                        assert(spec_parse_state_accounts(bytes@, old_p, old_remaining) is None);
                    },
                }
            }
        }
    }

    /// Whether all account identifiers are pairwise distinct.
    fn ids_distinct(s: &Vec<Account>) -> (r: bool)
        ensures
            r == (forall|i: int, j: int|
                0 <= i < j < s@.len() ==> #[trigger] s@[i]@.id != #[trigger] s@[j]@.id),
    {
        let n = s.len();
        let mut i: usize = 0;
        while i < n
            invariant
                n == s@.len(),
                0 <= i <= n,
                forall|a: int, b: int| 0 <= a < b < n && a < i ==> s@[a]@.id != s@[b]@.id,
            decreases n - i,
        {
            let mut j: usize = i + 1;
            while j < n
                invariant
                    n == s@.len(),
                    0 <= i < j <= n,
                    forall|b: int| i < b < j ==> s@[i as int]@.id != s@[b]@.id,
                decreases n - j,
            {
                let dup = s[i].id.equals(&s[j].id);
                if dup {
                    proof {
                        assert(s@[i as int]@.id == s@[j as int]@.id);
                    }
                    return false;
                }
                j = j + 1;
            }
            i = i + 1;
        }
        true
    }
}

/// A proposed state update: the modified accounts together with the roots
/// before and after.
#[derive(Clone, Debug)]
pub struct StateUpdate {
    /// Height of the block the update stems from.
    pub block_height: u64,
    /// Timestamp of that block.
    pub timestamp: u64,
    /// The accounts the update touches.
    pub modified_accounts: Vec<Account>,
    /// Root before the update.
    pub previous_root: Fe,
    /// Root after the update.
    pub new_root: Fe,
}

impl StateUpdate {
    /// Packs an update.
    pub fn new(
        block_height: u64,
        timestamp: u64,
        modified_accounts: Vec<Account>,
        previous_root: Fe,
        new_root: Fe,
    ) -> (r: StateUpdate)
        ensures
            r.block_height == block_height,
            r.timestamp == timestamp,
            r.modified_accounts@ == modified_accounts@,
            r.previous_root@ == previous_root@,
            r.new_root@ == new_root@,
    {
        StateUpdate { block_height, timestamp, modified_accounts, previous_root, new_root }
    }

    /// Checks the update against a state: accepts exactly when the
    /// previous root matches the state's root and the recomputed merged
    /// root matches the claimed new root; never fails.
    pub fn verify(&self, state: &State) -> (r: Result<bool, StateError>)
        ensures
            r matches Ok(b) && b == (self.previous_root@ == state@.root && spec_calc_root(
                state@.accounts,
                account_views(self.modified_accounts@),
            ) == self.new_root@),
    {
        if !self.previous_root.equals(&state.root) {
            return Ok(false);
        }
        let calculated = match state.calculate_root(&self.modified_accounts) {
            Ok(f) => f,
            Err(_) => { return Ok(false); },
        };
        Ok(calculated.equals(&self.new_root))
    }
}

} // verus!
