//! Accounts of the world state: identifier, nonce, balance, public key,
//! per-account storage, and the canonical serialization the Merkle
//! commitment is computed over.

use vstd::prelude::*;
use crate::errors::StateError;
use crate::algebra::{Fe, Ge, fe_wf, ge_wf, fe_canon, ge_valid, fe_parse, ge_parse, fe_zero,
    copy_bytes, bytes_eq};
use vstd::bytes::spec_u64_to_le_bytes;
use crate::wire::{spec_enc_bytes, spec_enc_u64, spec_read_bytes, spec_read_u64, append_bytes,
    append_u64, append_raw, read_bytes, read_u64};

verus! {

/// Opaque variable-length account identifier, unique within the state.
#[derive(Clone, Debug, Hash, Eq, PartialEq)]
pub struct AccountId(pub Vec<u8>);

impl View for AccountId {
    type V = Seq<u8>;

    open spec fn view(&self) -> Seq<u8> {
        self.0@
    }
}

impl AccountId {
    /// Identifier equality.
    pub fn equals(&self, other: &AccountId) -> (r: bool)
        ensures
            r == (self@ == other@),
    {
        bytes_eq(&self.0, &other.0)
    }

    /// A copy of this identifier.
    pub fn duplicate(&self) -> (r: AccountId)
        ensures
            r@ == self@,
    {
        AccountId(copy_bytes(&self.0))
    }
}

/// Mathematical model of an account.
pub struct AccountV {
    pub id: Seq<u8>,
    pub nonce: u64,
    pub balance: u64,
    pub public_key: Seq<u8>,
    pub state_root: Seq<u8>,
    pub code_hash: Option<Seq<u8>>,
    pub storage: Seq<(Seq<u8>, Seq<u8>)>,
}

/// Looks a key up in a storage association list (first match).
pub open spec fn spec_storage_get(s: Seq<(Seq<u8>, Seq<u8>)>, k: Seq<u8>) -> Option<Seq<u8>>
    decreases s.len(),
{
    if s.len() == 0 {
        None
    } else if s[0].0 == k {
        Some(s[0].1)
    } else {
        spec_storage_get(s.skip(1), k)
    }
}

/// Storage well-formedness: pairwise distinct keys, all entries canonical
/// field-element encodings.
pub open spec fn spec_storage_wf(s: Seq<(Seq<u8>, Seq<u8>)>) -> bool {
    &&& forall|i: int, j: int| 0 <= i < j < s.len() ==> s[i].0 != s[j].0
    &&& forall|i: int| 0 <= i < s.len() ==> fe_wf(#[trigger] s[i].0) && fe_wf(s[i].1)
}

/// Account well-formedness: canonical encodings throughout and a
/// well-formed storage list.
pub open spec fn spec_account_wf(a: AccountV) -> bool {
    &&& ge_wf(a.public_key)
    &&& fe_wf(a.state_root)
    &&& (a.code_hash matches Some(h) ==> fe_wf(h))
    &&& spec_storage_wf(a.storage)
}

/// If the first `i` keys differ from `k` and the key at `i` equals `k`,
/// the lookup returns the value at `i`.
pub proof fn lemma_storage_get_at(s: Seq<(Seq<u8>, Seq<u8>)>, k: Seq<u8>, i: int)
    requires
        0 <= i < s.len(),
        forall|j: int| 0 <= j < i ==> s[j].0 != k,
        s[i].0 == k,
    ensures
        spec_storage_get(s, k) == Some(s[i].1),
    decreases i,
{
    if i > 0 {
        lemma_storage_get_at(s.skip(1), k, i - 1);
    }
}

/// If no key equals `k`, the lookup misses.
pub proof fn lemma_storage_get_none(s: Seq<(Seq<u8>, Seq<u8>)>, k: Seq<u8>)
    requires
        forall|j: int| 0 <= j < s.len() ==> s[j].0 != k,
    ensures
        spec_storage_get(s, k) is None,
    decreases s.len(),
{
    if s.len() > 0 {
        lemma_storage_get_none(s.skip(1), k);
    }
}

/// Replacing the value at an existing key leaves every other key's lookup
/// unchanged.
pub proof fn lemma_storage_set_frame(
    s1: Seq<(Seq<u8>, Seq<u8>)>,
    s2: Seq<(Seq<u8>, Seq<u8>)>,
    i: int,
    k2: Seq<u8>,
)
    requires
        s1.len() == s2.len(),
        0 <= i < s1.len(),
        forall|j: int| 0 <= j < s1.len() && j != i ==> s1[j] == s2[j],
        s1[i].0 == s2[i].0,
        s1[i].0 != k2,
    ensures
        spec_storage_get(s2, k2) == spec_storage_get(s1, k2),
    decreases s1.len(),
{
    if s1.len() > 0 {
        if i == 0 {
            assert(s1.skip(1) =~= s2.skip(1));
        } else {
            assert(s1[0] == s2[0]);
            lemma_storage_set_frame(s1.skip(1), s2.skip(1), i - 1, k2);
        }
    }
}

/// Appending an entry with a fresh key leaves every other key's lookup
/// unchanged.
pub proof fn lemma_storage_push_frame(
    s: Seq<(Seq<u8>, Seq<u8>)>,
    e: (Seq<u8>, Seq<u8>),
    k2: Seq<u8>,
)
    requires
        e.0 != k2,
    ensures
        spec_storage_get(s.push(e), k2) == spec_storage_get(s, k2),
    decreases s.len(),
{
    if s.len() == 0 {
        assert(s.push(e)[0] == e);
        assert(s.push(e).skip(1) =~= Seq::<(Seq<u8>, Seq<u8>)>::empty());
        assert(spec_storage_get(Seq::<(Seq<u8>, Seq<u8>)>::empty(), k2) is None);
        assert(spec_storage_get(s.push(e), k2) is None);
        assert(spec_storage_get(s, k2) is None);
    } else {
        assert(s.push(e)[0] == s[0]);
        assert(s.push(e).skip(1) =~= s.skip(1).push(e));
        lemma_storage_push_frame(s.skip(1), e, k2);
    }
}

/// An account of the world state.
#[derive(Clone, Debug)]
pub struct Account {
    /// Account identifier.
    pub id: AccountId,
    /// Strictly non-decreasing transaction counter.
    pub nonce: u64,
    /// Non-negative balance.
    pub balance: u64,
    /// Public key (for contracts, the creator's key).
    pub public_key: Ge,
    /// Per-account storage root.
    pub state_root: Fe,
    /// Present exactly when the account is a contract; set at creation and
    /// never mutated.
    pub code_hash: Option<Fe>,
    /// Contract storage as an association list with distinct keys.
    pub storage: Vec<(Fe, Fe)>,
}

impl View for Account {
    type V = AccountV;

    open spec fn view(&self) -> AccountV {
        AccountV {
            id: self.id@,
            nonce: self.nonce,
            balance: self.balance,
            public_key: self.public_key@,
            state_root: self.state_root@,
            code_hash: match self.code_hash {
                Some(h) => Some(h@),
                None => None,
            },
            storage: Seq::new(self.storage@.len(), |i: int| (self.storage@[i].0@, self.storage@[i].1@)),
        }
    }
}

impl Account {
    /// Well-formedness of this account.
    pub open spec fn wf(&self) -> bool {
        spec_account_wf(self@)
    }

    /// A fresh user account: zero nonce and balance, no code, empty storage.
    pub fn new(id: AccountId, public_key: Ge) -> (r: Account)
        requires
            ge_wf(public_key@),
        ensures
            r@.id == id@,
            r@.nonce == 0,
            r@.balance == 0,
            r@.public_key == public_key@,
            r@.state_root =~= Seq::new(32, |i: int| 0u8),
            r@.code_hash is None,
            r@.storage =~= Seq::<(Seq<u8>, Seq<u8>)>::empty(),
            r.wf(),
    {
        Account {
            id,
            nonce: 0,
            balance: 0,
            public_key,
            state_root: fe_zero(),
            code_hash: None,
            storage: Vec::new(),
        }
    }

    /// A fresh contract account: the code hash is set at creation and never
    /// mutated afterwards.
    pub fn new_contract(id: AccountId, code_hash: Fe, creator_key: Ge) -> (r: Account)
        requires
            fe_wf(code_hash@),
            ge_wf(creator_key@),
        ensures
            r@.id == id@,
            r@.nonce == 0,
            r@.balance == 0,
            r@.public_key == creator_key@,
            r@.state_root =~= Seq::new(32, |i: int| 0u8),
            r@.code_hash == Some(code_hash@),
            r@.storage =~= Seq::<(Seq<u8>, Seq<u8>)>::empty(),
            r.wf(),
    {
        Account {
            id,
            nonce: 0,
            balance: 0,
            public_key: creator_key,
            state_root: fe_zero(),
            code_hash: Some(code_hash),
            storage: Vec::new(),
        }
    }

    /// Advances the nonce by one: the nonce never decreases.
    pub fn increment_nonce(&mut self)
        requires
            old(self).nonce < u64::MAX,
        ensures
            final(self).nonce == old(self).nonce + 1,
            final(self).id == old(self).id,
            final(self).balance == old(self).balance,
            final(self).public_key == old(self).public_key,
            final(self).state_root == old(self).state_root,
            final(self).code_hash == old(self).code_hash,
            final(self).storage == old(self).storage,
    {
        self.nonce = self.nonce + 1;
    }

    /// Applies a signed delta to the balance. Errors exactly when the delta
    /// would take the balance below zero or above `u64::MAX`; on success the
    /// new balance is exactly the old plus the delta, so a run of successful
    /// updates keeps the balance non-negative.
    pub fn update_balance(&mut self, amount: i64) -> (r: Result<(), StateError>)
        ensures
            r is Ok <==> 0 <= old(self).balance + amount <= u64::MAX,
            r is Ok ==> final(self).balance == old(self).balance + amount,
            r is Err ==> final(self).balance == old(self).balance,
            final(self).id == old(self).id,
            final(self).nonce == old(self).nonce,
            final(self).public_key == old(self).public_key,
            final(self).state_root == old(self).state_root,
            final(self).code_hash == old(self).code_hash,
            final(self).storage == old(self).storage,
    {
        if amount < 0 {
            let need = (-(amount as i128)) as u64;
            if self.balance < need {
                return Err(StateError::AccountError("Insufficient balance".to_string()));
            }
            self.balance = self.balance - need;
            Ok(())
        } else {
            let add_amt = amount as u64;
            if self.balance > u64::MAX - add_amt {
                return Err(StateError::AccountError("Balance overflow".to_string()));
            }
            self.balance = self.balance + add_amt;
            Ok(())
        }
    }

    /// Model equality of two accounts, field by field.
    pub fn equals(&self, other: &Account) -> (r: bool)
        ensures
            r == (self@ == other@),
    {
        if !self.id.equals(&other.id) {
            return false;
        }
        if self.nonce != other.nonce || self.balance != other.balance {
            return false;
        }
        if !self.public_key.equals(&other.public_key) {
            return false;
        }
        if !self.state_root.equals(&other.state_root) {
            return false;
        }
        match (&self.code_hash, &other.code_hash) {
            (Some(a), Some(b)) => {
                if !a.equals(b) {
                    return false;
                }
            },
            (None, None) => {},
            _ => {
                return false;
            },
        }
        let n = self.storage.len();
        if n != other.storage.len() {
            proof {
                assert(self@.storage.len() != other@.storage.len());
            }
            return false;
        }
        let mut i: usize = 0;
        while i < n
            invariant
                n == self.storage@.len() == other.storage@.len(),
                self@.storage.len() == n,
                other@.storage.len() == n,
                0 <= i <= n,
                forall|j: int| 0 <= j < i ==> self@.storage[j] == other@.storage[j],
            decreases n - i,
        {
            let a = vstd::std_specs::vec::vec_index(&self.storage, i);
            let b = vstd::std_specs::vec::vec_index(&other.storage, i);
            if !a.0.equals(&b.0) || !a.1.equals(&b.1) {
                proof {
                    assert(self@.storage[i as int] != other@.storage[i as int]);
                }
                return false;
            }
            i = i + 1;
        }
        proof {
            assert(self@.storage =~= other@.storage);
            assert(self@ == other@);
        }
        true
    }

    /// Removes `v` from the balance; the caller has checked cover.
    pub fn debit(&mut self, v: u64)
        requires
            v <= old(self).balance,
        ensures
            final(self).balance == old(self).balance - v,
            final(self).id == old(self).id,
            final(self).nonce == old(self).nonce,
            final(self).public_key == old(self).public_key,
            final(self).state_root == old(self).state_root,
            final(self).code_hash == old(self).code_hash,
            final(self).storage == old(self).storage,
    {
        self.balance = self.balance - v;
    }

    /// Adds `v` to the balance; the caller has checked the ceiling.
    pub fn credit(&mut self, v: u64)
        requires
            old(self).balance + v <= u64::MAX,
        ensures
            final(self).balance == old(self).balance + v,
            final(self).id == old(self).id,
            final(self).nonce == old(self).nonce,
            final(self).public_key == old(self).public_key,
            final(self).state_root == old(self).state_root,
            final(self).code_hash == old(self).code_hash,
            final(self).storage == old(self).storage,
    {
        self.balance = self.balance + v;
    }

    /// A deep copy with the same model.
    pub fn clone_account(&self) -> (r: Account)
        ensures
            r@ == self@,
    {
        let n = self.storage.len();
        let mut storage: Vec<(Fe, Fe)> = Vec::new();
        let mut i: usize = 0;
        while i < n
            invariant
                n == self.storage@.len(),
                0 <= i <= n,
                storage@.len() == i,
                forall|j: int|
                    0 <= j < i ==> (#[trigger] storage@[j].0@, storage@[j].1@)
                        == (self.storage@[j].0@, self.storage@[j].1@),
            decreases n - i,
        {
            let entry = vstd::std_specs::vec::vec_index(&self.storage, i);
            storage.push((entry.0.duplicate(), entry.1.duplicate()));
            i = i + 1;
        }
        let r = Account {
            id: self.id.duplicate(),
            nonce: self.nonce,
            balance: self.balance,
            public_key: self.public_key.duplicate(),
            state_root: self.state_root.duplicate(),
            code_hash: match &self.code_hash {
                Some(h) => Some(h.duplicate()),
                None => None,
            },
            storage,
        };
        proof {
            assert(r@.storage =~= self@.storage);
            assert(r@ == self@);
        }
        r
    }

    /// Whether this account is a contract.
    pub fn is_contract(&self) -> (r: bool)
        ensures
            r == (self@.code_hash is Some),
    {
        self.code_hash.is_some()
    }

    /// Looks up a storage slot.
    pub fn get_storage(&self, key: &Fe) -> (r: Option<Fe>)
        ensures
            match spec_storage_get(self@.storage, key@) {
                Some(v) => r matches Some(f) && f@ == v,
                None => r is None,
            },
    {
        let n = self.storage.len();
        let mut i: usize = 0;
        while i < n
            invariant
                n == self.storage@.len(),
                self@.storage.len() == n,
                0 <= i <= n,
                forall|j: int| 0 <= j < i ==> self@.storage[j].0 != key@,
                forall|j: int|
                    0 <= j < n ==> #[trigger] self@.storage[j]
                        == (self.storage@[j].0@, self.storage@[j].1@),
            decreases n - i,
        {
            let entry = vstd::std_specs::vec::vec_index(&self.storage, i);
            if entry.0.equals(key) {
                proof {
                    lemma_storage_get_at(self@.storage, key@, i as int);
                }
                return Some(entry.1.duplicate());
            }
            i = i + 1;
        }
        proof {
            lemma_storage_get_none(self@.storage, key@);
        }
        None
    }

    /// Writes a storage slot: the slot then holds `value`, every other slot
    /// is unchanged, and storage stays well-formed. Storage writes are meant
    /// for contract accounts; the caller enforces that rule.
    pub fn set_storage(&mut self, key: Fe, value: Fe)
        requires
            fe_wf(key@),
            fe_wf(value@),
            spec_storage_wf(old(self)@.storage),
        ensures
            spec_storage_get(final(self)@.storage, key@) == Some(value@),
            forall|k2: Seq<u8>|
                k2 != key@ ==> #[trigger] spec_storage_get(final(self)@.storage, k2)
                    == spec_storage_get(old(self)@.storage, k2),
            spec_storage_wf(final(self)@.storage),
            final(self).id == old(self).id,
            final(self).nonce == old(self).nonce,
            final(self).balance == old(self).balance,
            final(self).public_key == old(self).public_key,
            final(self).state_root == old(self).state_root,
            final(self).code_hash == old(self).code_hash,
    {
        let n = self.storage.len();
        let mut i: usize = 0;
        while i < n
            invariant
                *self == *old(self),
                fe_wf(key@),
                fe_wf(value@),
                spec_storage_wf(self@.storage),
                n == self.storage@.len(),
                self@.storage.len() == n,
                0 <= i <= n,
                forall|j: int| 0 <= j < i ==> self@.storage[j].0 != key@,
                forall|j: int|
                    0 <= j < n ==> #[trigger] self@.storage[j]
                        == (self.storage@[j].0@, self.storage@[j].1@),
            decreases n - i,
        {
            let hit = self.storage[i].0.equals(&key);
            if hit {
                let ghost old_model = self@.storage;
                self.storage.set(i, (key, value));
                proof {
                    let new_model = self@.storage;
                    assert(old_model[i as int].0 == key@);
                    assert(new_model[i as int] == (key@, value@));
                    assert(forall|j: int|
                        0 <= j < n && j != i ==> new_model[j] == old_model[j]);
                    assert(forall|j: int| 0 <= j < i ==> new_model[j].0 != key@);
                    lemma_storage_get_at(new_model, key@, i as int);
                    assert forall|k2: Seq<u8>| k2 != key@ implies
                        #[trigger] spec_storage_get(new_model, k2)
                            == spec_storage_get(old_model, k2) by {
                        lemma_storage_set_frame(old_model, new_model, i as int, k2);
                    }
                    assert(spec_storage_wf(new_model)) by {
                        assert(forall|a: int, b: int|
                            0 <= a < b < new_model.len() ==> new_model[a].0 != new_model[b].0);
                    }
                }
                return ;
            }
            i = i + 1;
        }
        let ghost old_model = self@.storage;
        let ghost key_model = key@;
        let ghost value_model = value@;
        self.storage.push((key, value));
        proof {
            let new_model = self@.storage;
            assert(new_model =~= old_model.push((key_model, value_model)));
            assert(forall|j: int| 0 <= j < n ==> old_model[j].0 != key_model);
            assert(forall|j: int| 0 <= j < n ==> new_model[j] == old_model[j]);
            assert(new_model[n as int] == (key_model, value_model));
            lemma_storage_get_at(new_model, key_model, n as int);
            assert forall|k2: Seq<u8>| k2 != key_model implies
                #[trigger] spec_storage_get(new_model, k2)
                    == spec_storage_get(old_model, k2) by {
                lemma_storage_push_frame(old_model, (key_model, value_model), k2);
            }
            assert(spec_storage_wf(new_model)) by {
                assert(forall|a: int, b: int|
                    0 <= a < b < new_model.len() ==> new_model[a].0 != new_model[b].0);
                assert(forall|j: int|
                    0 <= j < new_model.len() ==> fe_wf(#[trigger] new_model[j].0)
                        && fe_wf(new_model[j].1));
            }
        }
    }
}

/// Canonical byte encoding of a storage association list: each entry is its
/// 32-byte key followed by its 32-byte value, in list order.
pub open spec fn spec_storage_bytes(s: Seq<(Seq<u8>, Seq<u8>)>) -> Seq<u8>
    decreases s.len(),
{
    if s.len() == 0 {
        Seq::empty()
    } else {
        s[0].0 + s[0].1 + spec_storage_bytes(s.skip(1))
    }
}

/// Appending an entry appends its bytes.
pub proof fn lemma_storage_bytes_snoc(s: Seq<(Seq<u8>, Seq<u8>)>)
    requires
        s.len() > 0,
    ensures
        spec_storage_bytes(s) == spec_storage_bytes(s.drop_last()) + s.last().0 + s.last().1,
    decreases s.len(),
{
    if s.len() == 1 {
        assert(s.skip(1) =~= Seq::<(Seq<u8>, Seq<u8>)>::empty());
        assert(s.drop_last() =~= Seq::<(Seq<u8>, Seq<u8>)>::empty());
        assert(spec_storage_bytes(s) =~= spec_storage_bytes(s.drop_last()) + s.last().0
            + s.last().1);
    } else {
        lemma_storage_bytes_snoc(s.skip(1));
        assert(s.drop_last()[0] == s[0]);
        assert(s.drop_last().skip(1) =~= s.skip(1).drop_last());
        assert(s.skip(1).last() == s.last());
        assert(spec_storage_bytes(s) =~= spec_storage_bytes(s.drop_last()) + s.last().0
            + s.last().1);
    }
}

/// A well-formed storage list encodes to 64 bytes per entry.
pub proof fn lemma_storage_bytes_len(s: Seq<(Seq<u8>, Seq<u8>)>)
    requires
        forall|i: int| 0 <= i < s.len() ==> fe_wf(#[trigger] s[i].0) && fe_wf(s[i].1),
    ensures
        spec_storage_bytes(s).len() == 64 * s.len(),
    decreases s.len(),
{
    if s.len() > 0 {
        assert(fe_wf(s[0].0) && fe_wf(s[0].1));
        lemma_storage_bytes_len(s.skip(1));
    }
}

/// Canonical byte encoding of the optional code hash: a presence byte, then
/// the 32-byte hash when present.
pub open spec fn spec_code_hash_bytes(c: Option<Seq<u8>>) -> Seq<u8> {
    match c {
        Some(h) => seq![1u8] + h,
        None => seq![0u8],
    }
}

/// Canonical byte encoding of an account: length-prefixed identifier,
/// nonce, balance, public key (48 raw bytes), state root (32 raw bytes),
/// optional code hash, then the storage entry count and the entries.
pub open spec fn spec_account_bytes(a: AccountV) -> Seq<u8> {
    spec_enc_bytes(a.id) + spec_enc_u64(a.nonce) + spec_enc_u64(a.balance) + a.public_key
        + a.state_root + spec_code_hash_bytes(a.code_hash)
        + spec_enc_u64(a.storage.len() as u64) + spec_storage_bytes(a.storage)
}

/// Parses `count` storage entries at `pos`; each must be a canonical
/// key/value pair.
pub open spec fn spec_parse_storage(b: Seq<u8>, pos: int, count: int) -> Option<
    (Seq<(Seq<u8>, Seq<u8>)>, int),
>
    decreases count,
{
    if count <= 0 {
        Some((Seq::empty(), pos))
    } else if 0 <= pos && pos + 64 <= b.len() {
        let k = b.subrange(pos, pos + 32);
        let v = b.subrange(pos + 32, pos + 64);
        if fe_canon(k) && fe_canon(v) {
            match spec_parse_storage(b, pos + 64, count - 1) {
                Some((rest, p)) => Some((seq![(k, v)] + rest, p)),
                None => None,
            }
        } else {
            None
        }
    } else {
        None
    }
}

/// Parses the optional code hash at `pos`.
pub open spec fn spec_parse_code_hash(b: Seq<u8>, pos: int) -> Option<(Option<Seq<u8>>, int)> {
    if 0 <= pos && pos < b.len() {
        if b[pos] == 1u8 {
            if pos + 33 <= b.len() && fe_canon(b.subrange(pos + 1, pos + 33)) {
                Some((Some(b.subrange(pos + 1, pos + 33)), pos + 33))
            } else {
                None
            }
        } else if b[pos] == 0u8 {
            Some((None, pos + 1))
        } else {
            None
        }
    } else {
        None
    }
}

/// Parses one canonical account encoding at `pos`, yielding the account and
/// the next position. Succeeds exactly on well-formed encodings (canonical
/// field and group encodings, distinct storage keys).
pub open spec fn spec_parse_account(b: Seq<u8>, pos: int) -> Option<(AccountV, int)> {
    match spec_read_bytes(b, pos) {
        None => None,
        Some((id, p1)) => match spec_read_u64(b, p1) {
            None => None,
            Some((nonce, p2)) => match spec_read_u64(b, p2) {
                None => None,
                Some((balance, p3)) => {
                    if p3 + 48 <= b.len() && ge_valid(b.subrange(p3, p3 + 48)) && p3 + 80
                        <= b.len() && fe_canon(b.subrange(p3 + 48, p3 + 80)) {
                        match spec_parse_code_hash(b, p3 + 80) {
                            None => None,
                            Some((code, p4)) => match spec_read_u64(b, p4) {
                                None => None,
                                Some((count, p5)) => match spec_parse_storage(
                                    b,
                                    p5,
                                    count as int,
                                ) {
                                    None => None,
                                    Some((entries, p6)) => {
                                        if spec_storage_wf(entries) {
                                            Some(
                                                (
                                                    AccountV {
                                                        id,
                                                        nonce,
                                                        balance,
                                                        public_key: b.subrange(p3, p3 + 48),
                                                        state_root: b.subrange(p3 + 48, p3 + 80),
                                                        code_hash: code,
                                                        storage: entries,
                                                    },
                                                    p6,
                                                ),
                                            )
                                        } else {
                                            None
                                        }
                                    },
                                },
                            },
                        }
                    } else {
                        None
                    }
                },
            },
        },
    }
}

/// The byte views of an executable storage list.
pub open spec fn storage_views(v: Seq<(Fe, Fe)>) -> Seq<(Seq<u8>, Seq<u8>)> {
    Seq::new(v.len(), |i: int| (v[i].0@, v[i].1@))
}

/// Every entry a storage parse yields is a canonical 32-byte encoding.
pub proof fn lemma_parse_storage_entries_wf(b: Seq<u8>, pos: int, count: int)
    requires
        spec_parse_storage(b, pos, count) is Some,
    ensures
        forall|i: int|
            0 <= i < spec_parse_storage(b, pos, count)->Some_0.0.len() ==> fe_wf(
                #[trigger] spec_parse_storage(b, pos, count)->Some_0.0[i].0,
            ) && fe_wf(spec_parse_storage(b, pos, count)->Some_0.0[i].1),
    decreases count,
{
    if count <= 0 {
    } else {
        let k = b.subrange(pos, pos + 32);
        let v = b.subrange(pos + 32, pos + 64);
        lemma_parse_storage_entries_wf(b, pos + 64, count - 1);
        let rest = spec_parse_storage(b, pos + 64, count - 1)->Some_0.0;
        let whole = spec_parse_storage(b, pos, count)->Some_0.0;
        assert(whole == seq![(k, v)] + rest);
        assert(whole[0] == (k, v));
        assert(forall|i: int| 1 <= i < whole.len() ==> whole[i] == rest[i - 1]);
    }
}

/// Parsing `count` well-formed entries back from their encoding yields the
/// entries.
pub proof fn lemma_parse_storage_round_trip(b: Seq<u8>, s: Seq<(Seq<u8>, Seq<u8>)>, pos: int)
    requires
        forall|i: int| 0 <= i < s.len() ==> fe_wf(#[trigger] s[i].0) && fe_wf(s[i].1),
        0 <= pos,
        pos + 64 * s.len() <= b.len(),
        b.subrange(pos, pos + 64 * s.len()) == spec_storage_bytes(s),
    ensures
        spec_parse_storage(b, pos, s.len() as int) == Some((s, pos + 64 * s.len())),
    decreases s.len(),
{
    lemma_storage_bytes_len(s);
    if s.len() == 0 {
        assert(spec_parse_storage(b, pos, 0int) == Some((Seq::<(Seq<u8>, Seq<u8>)>::empty(), pos)));
        assert(s =~= Seq::<(Seq<u8>, Seq<u8>)>::empty());
    } else {
        let total = spec_storage_bytes(s);
        let k = s[0].0;
        let v = s[0].1;
        let tail = s.skip(1);
        lemma_storage_bytes_len(tail);
        assert(fe_wf(k) && fe_wf(v));
        assert(total == k + v + spec_storage_bytes(tail));
        assert forall|i: int| 0 <= i < total.len() implies b[pos + i] == total[i] by {
            assert(b.subrange(pos, pos + 64 * s.len())[i] == b[pos + i]);
        }
        assert(b.subrange(pos, pos + 32) =~= k) by {
            assert forall|j: int| 0 <= j < 32 implies b.subrange(pos, pos + 32)[j] == k[j] by {
                assert(b[pos + j] == total[j]);
            }
        }
        assert(b.subrange(pos + 32, pos + 64) =~= v) by {
            assert forall|j: int| 0 <= j < 32 implies b.subrange(pos + 32, pos + 64)[j] == v[j] by {
                assert(b[pos + (32 + j)] == total[32 + j]);
                assert(total[32 + j] == v[j]);
            }
        }
        assert(b.subrange(pos + 64, pos + 64 + 64 * tail.len()) =~= spec_storage_bytes(tail)) by {
            assert forall|j: int| 0 <= j < 64 * tail.len() implies b.subrange(
                pos + 64,
                pos + 64 + 64 * tail.len(),
            )[j] == spec_storage_bytes(tail)[j] by {
                assert(b[pos + (64 + j)] == total[64 + j]);
                assert(total[64 + j] == spec_storage_bytes(tail)[j]);
            }
        }
        lemma_parse_storage_round_trip(b, tail, pos + 64);
        assert(spec_parse_storage(b, pos + 64, tail.len() as int) == Some(
            (tail, pos + 64 + 64 * tail.len()),
        ));
        assert(seq![(k, v)] + tail =~= s);
        assert(spec_parse_storage(b, pos, s.len() as int) == Some((s, pos + 64 * s.len())));
    }
}

/// The length of a well-formed account's canonical encoding.
pub proof fn lemma_account_bytes_len(a: AccountV)
    requires
        spec_account_wf(a),
    ensures
        spec_account_bytes(a).len() == 112 + a.id.len() + spec_code_hash_bytes(a.code_hash).len()
            + 64 * a.storage.len(),
        spec_code_hash_bytes(a.code_hash).len() == (if a.code_hash is Some {
            33int
        } else {
            1int
        }),
{
    vstd::bytes::lemma_auto_spec_u64_to_from_le_bytes();
    lemma_storage_bytes_len(a.storage);
}

/// Parsing a well-formed account at any position yields the account when
/// the bytes there are its canonical encoding.
#[verifier::rlimit(60)]
pub proof fn lemma_account_round_trip_at(b: Seq<u8>, a: AccountV, pos: int)
    requires
        spec_account_wf(a),
        a.id.len() <= u64::MAX,
        a.storage.len() <= u64::MAX,
        0 <= pos,
        pos + spec_account_bytes(a).len() <= b.len(),
        b.subrange(pos, pos + spec_account_bytes(a).len()) == spec_account_bytes(a),
    ensures
        spec_parse_account(b, pos) == Some((a, pos + spec_account_bytes(a).len())),
{
    vstd::bytes::lemma_auto_spec_u64_to_from_le_bytes();
    lemma_storage_bytes_len(a.storage);
    lemma_account_bytes_len(a);
    let enc = spec_account_bytes(a);
    let len = enc.len() as int;
    let code = spec_code_hash_bytes(a.code_hash);
    let sbytes = spec_storage_bytes(a.storage);
    let idlen = a.id.len() as int;
    let clen = code.len() as int;
    let slen = a.storage.len() as int;
    let off1 = pos + 8 + idlen;
    let off2 = off1 + 8;
    let off3 = off2 + 8;
    let off4 = off3 + 48;
    let off5 = off4 + 32;
    let off6 = off5 + clen;
    let off7 = off6 + 8;
    assert forall|i: int| 0 <= i < len implies b[pos + i] == enc[i] by {
        assert(b.subrange(pos, pos + len)[i] == b[pos + i]);
    }
    assert(b.subrange(pos, pos + 8) =~= spec_u64_to_le_bytes(a.id.len() as u64)) by {
        assert forall|j: int| 0 <= j < 8 implies #[trigger] b.subrange(pos, pos + 8)[j]
            == spec_u64_to_le_bytes(a.id.len() as u64)[j] by {
            assert(b[pos + j] == enc[j]);
        }
    }
    assert(b.subrange(pos + 8, pos + 8 + idlen) =~= a.id) by {
        assert forall|j: int| 0 <= j < idlen implies #[trigger] b.subrange(pos + 8, pos + 8 + idlen)[j]
            == a.id[j] by {
            assert(b[pos + (8 + j)] == enc[8 + j]);
        }
    }
    assert(spec_read_bytes(b, pos) == Some((a.id, off1)));
    assert(b.subrange(off1, off1 + 8) =~= spec_u64_to_le_bytes(a.nonce)) by {
        assert forall|j: int| 0 <= j < 8 implies #[trigger] b.subrange(off1, off1 + 8)[j]
            == spec_u64_to_le_bytes(a.nonce)[j] by {
            assert(b[pos + (8 + idlen + j)] == enc[8 + idlen + j]);
        }
    }
    assert(spec_read_u64(b, off1) == Some((a.nonce, off2)));
    assert(b.subrange(off2, off2 + 8) =~= spec_u64_to_le_bytes(a.balance)) by {
        assert forall|j: int| 0 <= j < 8 implies #[trigger] b.subrange(off2, off2 + 8)[j]
            == spec_u64_to_le_bytes(a.balance)[j] by {
            assert(b[pos + (16 + idlen + j)] == enc[16 + idlen + j]);
        }
    }
    assert(spec_read_u64(b, off2) == Some((a.balance, off3)));
    assert(b.subrange(off3, off3 + 48) =~= a.public_key) by {
        assert forall|j: int| 0 <= j < 48 implies #[trigger] b.subrange(off3, off3 + 48)[j]
            == a.public_key[j] by {
            assert(b[pos + (24 + idlen + j)] == enc[24 + idlen + j]);
        }
    }
    assert(b.subrange(off4, off4 + 32) =~= a.state_root) by {
        assert forall|j: int| 0 <= j < 32 implies #[trigger] b.subrange(off4, off4 + 32)[j]
            == a.state_root[j] by {
            assert(b[pos + (72 + idlen + j)] == enc[72 + idlen + j]);
        }
    }
    assert forall|j: int| 0 <= j < clen implies #[trigger] b[off5 + j] == code[j] by {
        assert(b[pos + (104 + idlen + j)] == enc[104 + idlen + j]);
    }
    match a.code_hash {
        Some(h) => {
            assert(b[off5 + 0] == code[0]);
            assert(b[off5] == code[0]);
            assert(code[0] == 1u8);
            assert(b.subrange(off5 + 1, off5 + 33) =~= h) by {
                assert forall|j: int| 0 <= j < 32 implies #[trigger] b.subrange(off5 + 1, off5 + 33)[j]
                    == h[j] by {
                    assert(b[off5 + (1 + j)] == code[1 + j]);
                }
            }
            assert(spec_parse_code_hash(b, off5) == Some((Some(h), off6)));
        },
        None => {
            assert(b[off5 + 0] == code[0]);
            assert(b[off5] == code[0]);
            assert(code[0] == 0u8);
            assert(spec_parse_code_hash(b, off5) == Some((None::<Seq<u8>>, off6)));
        },
    }
    assert(b.subrange(off6, off6 + 8) =~= spec_u64_to_le_bytes(a.storage.len() as u64)) by {
        assert forall|j: int| 0 <= j < 8 implies #[trigger] b.subrange(off6, off6 + 8)[j]
            == spec_u64_to_le_bytes(a.storage.len() as u64)[j] by {
            assert(b[pos + (104 + idlen + clen + j)] == enc[104 + idlen + clen + j]);
        }
    }
    assert(spec_read_u64(b, off6) == Some((a.storage.len() as u64, off7)));
    assert(b.subrange(off7, off7 + 64 * slen) =~= sbytes) by {
        assert forall|j: int| 0 <= j < 64 * slen implies #[trigger] b.subrange(off7, off7 + 64 * slen)[j]
            == sbytes[j] by {
            assert(b[pos + (112 + idlen + clen + j)] == enc[112 + idlen + clen + j]);
        }
    }
    lemma_parse_storage_round_trip(b, a.storage, off7);
    assert(spec_parse_account(b, pos) is Some);
    let parsed = spec_parse_account(b, pos)->Some_0;
    assert(parsed.1 == pos + len);
    assert(parsed.0.id == a.id);
    assert(parsed.0.nonce == a.nonce);
    assert(parsed.0.balance == a.balance);
    assert(parsed.0.public_key == a.public_key);
    assert(parsed.0.state_root == a.state_root);
    assert(parsed.0.code_hash == a.code_hash);
    assert(parsed.0.storage == a.storage);
    assert(parsed.0 == a);
}

/// Parsing a well-formed account back from its canonical encoding yields
/// the account, whatever follows the encoding.
pub proof fn lemma_account_round_trip(a: AccountV, rest: Seq<u8>)
    requires
        spec_account_wf(a),
        a.id.len() <= u64::MAX,
        a.storage.len() <= u64::MAX,
    ensures
        spec_parse_account(spec_account_bytes(a) + rest, 0) == Some(
            (a, spec_account_bytes(a).len() as int),
        ),
{
    vstd::bytes::lemma_auto_spec_u64_to_from_le_bytes();
    lemma_storage_bytes_len(a.storage);
    let b = spec_account_bytes(a) + rest;
    let code = spec_code_hash_bytes(a.code_hash);
    let sbytes = spec_storage_bytes(a.storage);
    let idlen = a.id.len() as int;
    let slen = a.storage.len() as int;
    let clen = code.len() as int;
    let off1 = 8 + idlen;
    let off2 = off1 + 8;
    let off3 = off2 + 8;
    let off4 = off3 + 48;
    let off5 = off4 + 32;
    let off6 = off5 + clen;
    let off7 = off6 + 8;
    let off8 = off7 + 64 * slen;
    assert(spec_account_bytes(a).len() == off8);
    crate::wire::lemma_read_enc_bytes(
        a.id,
        spec_enc_u64(a.nonce) + spec_enc_u64(a.balance) + a.public_key + a.state_root + code
            + spec_enc_u64(a.storage.len() as u64) + sbytes + rest,
    );
    assert(b =~= spec_enc_bytes(a.id) + (spec_enc_u64(a.nonce) + spec_enc_u64(a.balance)
        + a.public_key + a.state_root + code + spec_enc_u64(a.storage.len() as u64) + sbytes
        + rest));
    assert(spec_read_bytes(b, 0) == Some((a.id, off1)));
    assert(spec_read_u64(b, off1) == Some((a.nonce, off2))) by {
        assert(b.subrange(off1, off1 + 8) =~= spec_u64_to_le_bytes(a.nonce));
    }
    assert(spec_read_u64(b, off2) == Some((a.balance, off3))) by {
        assert(b.subrange(off2, off2 + 8) =~= spec_u64_to_le_bytes(a.balance));
    }
    assert(b.subrange(off3, off3 + 48) =~= a.public_key);
    assert(b.subrange(off4, off4 + 32) =~= a.state_root);
    match a.code_hash {
        Some(h) => {
            assert(b[off5] == 1u8);
            assert(b.subrange(off5 + 1, off5 + 33) =~= h);
            assert(spec_parse_code_hash(b, off5) == Some((Some(h), off6)));
        },
        None => {
            assert(b[off5] == 0u8);
            assert(spec_parse_code_hash(b, off5) == Some((None::<Seq<u8>>, off6)));
        },
    }
    assert(spec_read_u64(b, off6) == Some((a.storage.len() as u64, off7))) by {
        assert(b.subrange(off6, off6 + 8) =~= spec_u64_to_le_bytes(a.storage.len() as u64));
    }
    assert(b.subrange(off7, off7 + 64 * slen) =~= sbytes);
    lemma_parse_storage_round_trip(b, a.storage, off7);
    assert(spec_parse_account(b, 0) is Some);
    let parsed = spec_parse_account(b, 0)->Some_0;
    assert(parsed.1 == off8);
    assert(parsed.0.id == a.id);
    assert(parsed.0.nonce == a.nonce);
    assert(parsed.0.balance == a.balance);
    assert(parsed.0.public_key == a.public_key);
    assert(parsed.0.state_root == a.state_root);
    assert(parsed.0.code_hash == a.code_hash);
    assert(parsed.0.storage == a.storage);
    assert(parsed.0 == a);
}

impl Account {
    /// The canonical serialization of this account; never fails.
    pub fn serialize(&self) -> (r: Result<Vec<u8>, StateError>)
        ensures
            r matches Ok(b) && b@ == spec_account_bytes(self@),
    {
        let mut out: Vec<u8> = Vec::new();
        append_bytes(&mut out, &self.id.0);
        append_u64(&mut out, self.nonce);
        append_u64(&mut out, self.balance);
        append_raw(&mut out, self.public_key.as_bytes());
        append_raw(&mut out, self.state_root.as_bytes());
        match &self.code_hash {
            Some(h) => {
                out.push(1u8);
                append_raw(&mut out, h.as_bytes());
            },
            None => {
                out.push(0u8);
            },
        }
        proof {
            assert(out@ =~= spec_enc_bytes(self@.id) + spec_enc_u64(self@.nonce) + spec_enc_u64(
                self@.balance,
            ) + self@.public_key + self@.state_root + spec_code_hash_bytes(self@.code_hash));
        }
        let n = self.storage.len();
        append_u64(&mut out, n as u64);
        let ghost base = out@;
        let mut i: usize = 0;
        while i < n
            invariant
                n == self.storage@.len(),
                self@.storage.len() == n,
                0 <= i <= n,
                out@ == base + spec_storage_bytes(self@.storage.take(i as int)),
                forall|j: int|
                    0 <= j < n ==> #[trigger] self@.storage[j]
                        == (self.storage@[j].0@, self.storage@[j].1@),
            decreases n - i,
        {
            proof {
                assert(self@.storage.take(0int) =~= Seq::<(Seq<u8>, Seq<u8>)>::empty());
            }
            let entry = vstd::std_specs::vec::vec_index(&self.storage, i);
            append_raw(&mut out, entry.0.as_bytes());
            append_raw(&mut out, entry.1.as_bytes());
            proof {
                let t1 = self@.storage.take(i + 1);
                assert(t1.drop_last() =~= self@.storage.take(i as int));
                assert(t1.last() == self@.storage[i as int]);
                lemma_storage_bytes_snoc(t1);
                assert(out@ =~= base + spec_storage_bytes(t1));
            }
            i = i + 1;
        }
        proof {
            assert(self@.storage.take(0int) =~= Seq::<(Seq<u8>, Seq<u8>)>::empty());
            assert(self@.storage.take(n as int) =~= self@.storage);
            assert(out@ =~= spec_account_bytes(self@));
        }
        Ok(out)
    }

    /// Parses one canonical account encoding at `pos`, per
    /// `spec_parse_account`; the returned account is well-formed.
    pub fn deserialize_at(bytes: &Vec<u8>, pos: usize) -> (r: Option<(Account, usize)>)
        ensures
            match spec_parse_account(bytes@, pos as int) {
                None => r is None,
                Some((a, p)) => r matches Some(t) && t.0@ == a && t.0.wf() && t.1 == p,
            },
    {
        let (id_bytes, p1) = match read_bytes(bytes, pos) {
            Some(t) => t,
            None => { return None; },
        };
        let (nonce, p2) = match read_u64(bytes, p1) {
            Some(t) => t,
            None => { return None; },
        };
        let (balance, p3) = match read_u64(bytes, p2) {
            Some(t) => t,
            None => { return None; },
        };
        if bytes.len() < 80 || p3 > bytes.len() - 80 {
            return None;
        }
        let pk_slice = vstd::slice::slice_subrange(bytes.as_slice(), p3, p3 + 48);
        let mut pk_bytes: Vec<u8> = Vec::new();
        pk_bytes.extend_from_slice(pk_slice);
        proof {
            assert(pk_bytes@ =~= bytes@.subrange(p3 as int, p3 + 48));
        }
        let public_key = match ge_parse(&pk_bytes) {
            Some(p) => p,
            None => { return None; },
        };
        let root_slice = vstd::slice::slice_subrange(bytes.as_slice(), p3 + 48, p3 + 80);
        let mut root_bytes: Vec<u8> = Vec::new();
        root_bytes.extend_from_slice(root_slice);
        proof {
            assert(root_bytes@ =~= bytes@.subrange(p3 + 48, p3 + 80));
        }
        let state_root = match fe_parse(&root_bytes) {
            Some(f) => f,
            None => { return None; },
        };
        let p4 = p3 + 80;
        let (code_hash, p5) = match Self::parse_code_hash(bytes, p4) {
            Some(t) => t,
            None => { return None; },
        };
        let (count, p6) = match read_u64(bytes, p5) {
            Some(t) => t,
            None => { return None; },
        };
        let (storage, p7) = match Self::parse_storage(bytes, p6, count) {
            Some(t) => t,
            None => { return None; },
        };
        let ghost entries = spec_parse_storage(bytes@, p6 as int, count as int)->Some_0.0;
        proof {
            lemma_parse_storage_entries_wf(bytes@, p6 as int, count as int);
            assert(entries =~= storage_views(storage@));
            assert(forall|i: int|
                0 <= i < entries.len() ==> fe_wf(#[trigger] entries[i].0) && fe_wf(entries[i].1));
        }
        if !Self::storage_keys_distinct(&storage) {
            proof {
                assert(exists|i: int, j: int|
                    !(0 <= i < j < storage@.len() ==> #[trigger] storage@[i].0@
                        != #[trigger] storage@[j].0@));
                let (i, j) = choose|i: int, j: int|
                    !(0 <= i < j < storage@.len() ==> #[trigger] storage@[i].0@
                        != #[trigger] storage@[j].0@);
                assert(0 <= i < j < storage@.len() && storage@[i].0@ == storage@[j].0@);
                assert(entries[i].0 == entries[j].0);
                assert(!spec_storage_wf(entries));
            }
            return None;
        }
        let acc = Account {
            id: AccountId(id_bytes),
            nonce,
            balance,
            public_key,
            state_root,
            code_hash,
            storage,
        };
        proof {
            assert(spec_storage_wf(entries));
            let a = spec_parse_account(bytes@, pos as int)->Some_0.0;
            assert(acc@.id == a.id);
            assert(acc@.nonce == a.nonce);
            assert(acc@.balance == a.balance);
            assert(acc@.public_key == a.public_key);
            assert(acc@.state_root == a.state_root);
            assert(acc@.code_hash == a.code_hash);
            assert(acc@.storage =~= a.storage);
            assert(acc@ == a);
        }
        Some((acc, p7))
    }

    /// Parses a full account encoding; trailing bytes are tolerated, as the
    /// encoding is self-delimiting.
    pub fn deserialize(bytes: &Vec<u8>) -> (r: Result<Account, StateError>)
        ensures
            match spec_parse_account(bytes@, 0) {
                None => r is Err,
                Some((a, p)) => r matches Ok(acc) && acc@ == a && acc.wf(),
            },
    {
        match Self::deserialize_at(bytes, 0) {
            Some((acc, _)) => Ok(acc),
            None => Err(StateError::SerializationError("malformed account encoding".to_string())),
        }
    }

    /// Parses the optional code hash, per `spec_parse_code_hash`.
    fn parse_code_hash(bytes: &Vec<u8>, pos: usize) -> (r: Option<(Option<Fe>, usize)>)
        ensures
            match spec_parse_code_hash(bytes@, pos as int) {
                None => r is None,
                Some((c, p)) => r matches Some(t) && t.1 == p && (match (t.0, c) {
                    (Some(f), Some(h)) => f@ == h && fe_wf(f@),
                    (None, None) => true,
                    _ => false,
                }),
            },
    {
        if pos >= bytes.len() {
            return None;
        }
        let flag = *vstd::std_specs::vec::vec_index(bytes, pos);
        if flag == 1u8 {
            if bytes.len() < 33 || pos > bytes.len() - 33 {
                return None;
            }
            let h_slice = vstd::slice::slice_subrange(bytes.as_slice(), pos + 1, pos + 33);
            let mut h_bytes: Vec<u8> = Vec::new();
            h_bytes.extend_from_slice(h_slice);
            proof {
                assert(h_bytes@ =~= bytes@.subrange(pos + 1, pos + 33));
            }
            match fe_parse(&h_bytes) {
                Some(f) => Some((Some(f), pos + 33)),
                None => None,
            }
        } else if flag == 0u8 {
            Some((None, pos + 1))
        } else {
            None
        }
    }

    /// Parses `count` storage entries, per `spec_parse_storage`.
    #[verifier::rlimit(30)]
    fn parse_storage(bytes: &Vec<u8>, pos: usize, count: u64) -> (r: Option<(Vec<(Fe, Fe)>, usize)>)
        ensures
            r is Some <==> spec_parse_storage(bytes@, pos as int, count as int) is Some,
            r matches Some(t) ==> spec_parse_storage(bytes@, pos as int, count as int) == Some(
                (storage_views(t.0@), t.1 as int),
            ),
    {
        let mut acc: Vec<(Fe, Fe)> = Vec::new();
        let mut p: usize = pos;
        let mut remaining: u64 = count;
        loop
            invariant
                0 <= remaining <= count,
                p >= pos,
                acc@.len() == count - remaining,
                spec_parse_storage(bytes@, pos as int, count as int) == (match spec_parse_storage(
                    bytes@,
                    p as int,
                    remaining as int,
                ) {
                    Some((rest, q)) => Some((storage_views(acc@) + rest, q)),
                    None => None,
                }),
            decreases remaining,
        {
            if remaining == 0 {
                proof {
                    assert(spec_parse_storage(bytes@, p as int, 0int) == Some(
                        (Seq::<(Seq<u8>, Seq<u8>)>::empty(), p as int),
                    ));
                    assert(storage_views(acc@) + Seq::<(Seq<u8>, Seq<u8>)>::empty()
                        =~= storage_views(acc@));
                }
                return Some((acc, p));
            }
            if bytes.len() < 64 || p > bytes.len() - 64 {
                return None;
            }
            let k_slice = vstd::slice::slice_subrange(bytes.as_slice(), p, p + 32);
            let mut k_bytes: Vec<u8> = Vec::new();
            k_bytes.extend_from_slice(k_slice);
            let v_slice = vstd::slice::slice_subrange(bytes.as_slice(), p + 32, p + 64);
            let mut v_bytes: Vec<u8> = Vec::new();
            v_bytes.extend_from_slice(v_slice);
            proof {
                assert(k_bytes@ =~= bytes@.subrange(p as int, p + 32));
                assert(v_bytes@ =~= bytes@.subrange(p + 32, p + 64));
            }
            let k = match fe_parse(&k_bytes) {
                Some(f) => f,
                None => { return None; },
            };
            let v = match fe_parse(&v_bytes) {
                Some(f) => f,
                None => { return None; },
            };
            let ghost old_acc = acc@;
            let ghost old_p = p as int;
            let ghost old_remaining = remaining as int;
            acc.push((k, v));
            p = p + 64;
            remaining = remaining - 1;
            proof {
                let kk = bytes@.subrange(old_p, old_p + 32);
                let vv = bytes@.subrange(old_p + 32, old_p + 64);
                assert(storage_views(acc@) =~= storage_views(old_acc) + seq![(kk, vv)]);
                match spec_parse_storage(bytes@, p as int, remaining as int) {
                    Some((rest, q)) => {
                        assert(spec_parse_storage(bytes@, old_p, old_remaining) == Some(
                            (seq![(kk, vv)] + rest, q),
                        ));
                        assert(storage_views(old_acc) + (seq![(kk, vv)] + rest) =~= storage_views(
                            acc@,
                        ) + rest);
                    },
                    None => {
                        assert(spec_parse_storage(bytes@, old_p, old_remaining) is None);
                    },
                }
            }
        }
    }

    /// Whether all storage keys are pairwise distinct.
    fn storage_keys_distinct(s: &Vec<(Fe, Fe)>) -> (r: bool)
        ensures
            r == (forall|i: int, j: int|
                0 <= i < j < s@.len() ==> #[trigger] s@[i].0@ != #[trigger] s@[j].0@),
    {
        let n = s.len();
        let mut i: usize = 0;
        while i < n
            invariant
                n == s@.len(),
                0 <= i <= n,
                forall|a: int, b: int| 0 <= a < b < n && a < i ==> s@[a].0@ != s@[b].0@,
            decreases n - i,
        {
            let mut j: usize = i + 1;
            while j < n
                invariant
                    n == s@.len(),
                    0 <= i < j <= n,
                    forall|b: int| i < b < j ==> s@[i as int].0@ != s@[b].0@,
                decreases n - j,
            {
                let dup = s[i].0.equals(&s[j].0);
                if dup {
                    return false;
                }
                j = j + 1;
            }
            i = i + 1;
        }
        true
    }
}

} // verus!
