//! Validators and the validator set. The set caches the total stake and
//! keeps it equal, at all times, to the exact sum of the member stakes.

use vstd::prelude::*;
use crate::errors::ConsensusError;
use crate::algebra::{Fe, fe_wf, copy_bytes, bytes_eq};

verus! {

/// Opaque validator identifier.
#[derive(Clone, Debug, Hash, Eq, PartialEq)]
pub struct ValidatorId(pub Vec<u8>);

impl View for ValidatorId {
    type V = Seq<u8>;

    open spec fn view(&self) -> Seq<u8> {
        self.0@
    }
}

impl ValidatorId {
    /// Identifier equality.
    pub fn equals(&self, other: &ValidatorId) -> (r: bool)
        ensures
            r == (self@ == other@),
    {
        bytes_eq(&self.0, &other.0)
    }

    /// A copy of this identifier.
    pub fn duplicate(&self) -> (r: ValidatorId)
        ensures
            r@ == self@,
    {
        ValidatorId(copy_bytes(&self.0))
    }
}

/// Performance counters. Uptime is the exact ratio of produced blocks to
/// produced plus missed, kept as the two counters.
#[derive(Clone, Copy, Debug, PartialEq, Eq, Structural)]
pub struct ValidatorPerformance {
    /// Blocks produced.
    pub blocks_produced: u64,
    /// Blocks missed.
    pub blocks_missed: u64,
}

impl ValidatorPerformance {
    /// Fresh counters.
    pub fn new() -> (r: ValidatorPerformance)
        ensures
            r.blocks_produced == 0,
            r.blocks_missed == 0,
    {
        ValidatorPerformance { blocks_produced: 0, blocks_missed: 0 }
    }

    /// Uptime in parts per million: produced over produced plus missed,
    /// rounded down; zero before any block.
    pub fn uptime_ppm(&self) -> (r: u64)
        ensures
            r == spec_uptime_ppm(self.blocks_produced, self.blocks_missed),
            r <= 1000000,
    {
        if self.blocks_produced == 0 && self.blocks_missed == 0 {
            return 0;
        }
        let total: u128 = self.blocks_produced as u128 + self.blocks_missed as u128;
        let ppm: u128 = (self.blocks_produced as u128) * 1000000u128 / total;
        proof {
            let p = self.blocks_produced as int;
            let t = total as int;
            vstd::arithmetic::div_mod::lemma_div_is_ordered(p * 1000000, t * 1000000, t);
            vstd::arithmetic::div_mod::lemma_div_multiples_vanish(1000000int, t);
            assert(t * 1000000 == 1000000 * t) by (nonlinear_arith);
            assert(ppm <= 1000000);
        }
        ppm as u64
    }
}

/// Uptime in parts per million.
pub open spec fn spec_uptime_ppm(produced: u64, missed: u64) -> int {
    if produced + missed == 0 {
        0
    } else {
        produced * 1000000 / (produced + missed)
    }
}

/// Mathematical model of a validator.
pub struct ValidatorV {
    pub id: Seq<u8>,
    pub stake: u64,
    pub identity_commitment: Seq<u8>,
    pub last_block: u64,
    pub blocks_produced: u64,
    pub blocks_missed: u64,
}

/// A validator record.
#[derive(Clone, Debug)]
pub struct Validator {
    /// Identifier.
    pub id: ValidatorId,
    /// Stake.
    pub stake: u64,
    /// Binding commitment to the off-chain identity.
    pub identity_commitment: Fe,
    /// Height of the last block produced.
    pub last_block: u64,
    /// Performance counters.
    pub performance: ValidatorPerformance,
}

impl View for Validator {
    type V = ValidatorV;

    open spec fn view(&self) -> ValidatorV {
        ValidatorV {
            id: self.id@,
            stake: self.stake,
            identity_commitment: self.identity_commitment@,
            last_block: self.last_block,
            blocks_produced: self.performance.blocks_produced,
            blocks_missed: self.performance.blocks_missed,
        }
    }
}

impl Validator {
    /// A copy of this validator.
    pub fn duplicate(&self) -> (r: Validator)
        ensures
            r@ == self@,
    {
        Validator {
            id: self.id.duplicate(),
            stake: self.stake,
            identity_commitment: self.identity_commitment.duplicate(),
            last_block: self.last_block,
            performance: self.performance,
        }
    }
}

/// The views of an executable validator list.
pub open spec fn validator_views(v: Seq<Validator>) -> Seq<ValidatorV> {
    Seq::new(v.len(), |i: int| v[i]@)
}

/// Looks a validator up by identifier (first match).
pub open spec fn spec_vals_get(s: Seq<ValidatorV>, id: Seq<u8>) -> Option<ValidatorV>
    decreases s.len(),
{
    if s.len() == 0 {
        None
    } else if s[0].id == id {
        Some(s[0])
    } else {
        spec_vals_get(s.skip(1), id)
    }
}

/// The exact sum of the stakes.
pub open spec fn spec_total_stake(s: Seq<ValidatorV>) -> int
    decreases s.len(),
{
    if s.len() == 0 {
        0int
    } else {
        s[0].stake + spec_total_stake(s.skip(1))
    }
}

/// If the first `i` identifiers differ and the one at `i` matches, the
/// lookup returns the validator at `i`.
pub proof fn lemma_vals_get_at(s: Seq<ValidatorV>, id: Seq<u8>, i: int)
    requires
        0 <= i < s.len(),
        forall|j: int| 0 <= j < i ==> s[j].id != id,
        s[i].id == id,
    ensures
        spec_vals_get(s, id) == Some(s[i]),
    decreases i,
{
    if i > 0 {
        lemma_vals_get_at(s.skip(1), id, i - 1);
    }
}

/// If no identifier matches, the lookup misses.
pub proof fn lemma_vals_get_none(s: Seq<ValidatorV>, id: Seq<u8>)
    requires
        forall|j: int| 0 <= j < s.len() ==> s[j].id != id,
    ensures
        spec_vals_get(s, id) is None,
    decreases s.len(),
{
    if s.len() > 0 {
        lemma_vals_get_none(s.skip(1), id);
    }
}

/// A found validator carries the identifier it was looked up under.
pub proof fn lemma_vals_get_id(s: Seq<ValidatorV>, id: Seq<u8>)
    requires
        spec_vals_get(s, id) is Some,
    ensures
        spec_vals_get(s, id)->Some_0.id == id,
    decreases s.len(),
{
    if s.len() > 0 && s[0].id != id {
        lemma_vals_get_id(s.skip(1), id);
    }
}

/// Replacing the entry at `i` changes the sum by the stake difference.
pub proof fn lemma_total_stake_update(s: Seq<ValidatorV>, i: int, v: ValidatorV)
    requires
        0 <= i < s.len(),
    ensures
        spec_total_stake(s.update(i, v)) == spec_total_stake(s) - s[i].stake + v.stake,
    decreases i,
{
    if i == 0 {
        assert(s.update(0, v)[0] == v);
        assert(s.update(0, v).skip(1) =~= s.skip(1));
    } else {
        assert(s.update(i, v)[0] == s[0]);
        assert(s.update(i, v).skip(1) =~= s.skip(1).update(i - 1, v));
        lemma_total_stake_update(s.skip(1), i - 1, v);
    }
}

/// Appending adds the stake.
pub proof fn lemma_total_stake_push(s: Seq<ValidatorV>, v: ValidatorV)
    ensures
        spec_total_stake(s.push(v)) == spec_total_stake(s) + v.stake,
    decreases s.len(),
{
    if s.len() == 0 {
        assert(s.push(v)[0] == v);
        assert(s.push(v).skip(1) =~= Seq::<ValidatorV>::empty());
        assert(spec_total_stake(Seq::<ValidatorV>::empty()) == 0);
        assert(spec_total_stake(s) == 0);
    } else {
        assert(s.push(v)[0] == s[0]);
        assert(s.push(v).skip(1) =~= s.skip(1).push(v));
        lemma_total_stake_push(s.skip(1), v);
    }
}

/// Removing subtracts the stake.
pub proof fn lemma_total_stake_remove(s: Seq<ValidatorV>, i: int)
    requires
        0 <= i < s.len(),
    ensures
        spec_total_stake(s.remove(i)) == spec_total_stake(s) - s[i].stake,
    decreases i,
{
    if i == 0 {
        assert(s.remove(0) =~= s.skip(1));
    } else {
        assert(s.remove(i)[0] == s[0]);
        assert(s.remove(i).skip(1) =~= s.skip(1).remove(i - 1));
        lemma_total_stake_remove(s.skip(1), i - 1);
    }
}

/// Every stake is at most the sum.
pub proof fn lemma_stake_le_total(s: Seq<ValidatorV>, i: int)
    requires
        0 <= i < s.len(),
    ensures
        s[i].stake <= spec_total_stake(s),
        spec_total_stake(s) >= 0,
    decreases s.len(),
{
    lemma_total_stake_nonneg(s);
    if i == 0 {
        lemma_total_stake_nonneg(s.skip(1));
    } else {
        lemma_stake_le_total(s.skip(1), i - 1);
    }
}

/// The sum of stakes is non-negative.
pub proof fn lemma_total_stake_nonneg(s: Seq<ValidatorV>)
    ensures
        spec_total_stake(s) >= 0,
    decreases s.len(),
{
    if s.len() > 0 {
        lemma_total_stake_nonneg(s.skip(1));
    }
}

/// The validator set: members with distinct identifiers and a cached
/// total that always equals the exact sum of the member stakes.
#[derive(Clone, Debug)]
pub struct ValidatorSet {
    validators: Vec<Validator>,
    total_stake: u64,
}

impl ValidatorSet {
    /// The member views, in insertion order.
    pub closed spec fn spec_validators(&self) -> Seq<ValidatorV> {
        validator_views(self.validators@)
    }

    /// The cached total.
    pub closed spec fn spec_total(&self) -> u64 {
        self.total_stake
    }

    /// The set invariant: distinct identifiers, and the cached total is
    /// the exact sum of the member stakes.
    pub open spec fn wf(&self) -> bool {
        &&& forall|i: int, j: int|
            0 <= i < j < self.spec_validators().len() ==> self.spec_validators()[i].id
                != self.spec_validators()[j].id
        &&& self.spec_total() == spec_total_stake(self.spec_validators())
    }

    /// The empty set.
    pub fn new() -> (r: ValidatorSet)
        ensures
            r.spec_validators() =~= Seq::<ValidatorV>::empty(),
            r.spec_total() == 0,
            r.wf(),
    {
        ValidatorSet { validators: Vec::new(), total_stake: 0 }
    }

    /// Number of members.
    pub fn len(&self) -> (r: usize)
        ensures
            r == self.spec_validators().len(),
    {
        self.validators.len()
    }

    /// Whether the set is empty.
    pub fn is_empty(&self) -> (r: bool)
        ensures
            r == (self.spec_validators().len() == 0),
    {
        self.validators.len() == 0
    }

    /// The cached total stake — always the exact sum of member stakes.
    pub fn total_stake(&self) -> (r: u64)
        ensures
            r == self.spec_total(),
    {
        self.total_stake
    }

    /// The member at an index.
    pub fn validator_at(&self, i: usize) -> (r: &Validator)
        requires
            i < self.spec_validators().len(),
        ensures
            r@ == self.spec_validators()[i as int],
    {
        vstd::std_specs::vec::vec_index(&self.validators, i)
    }

    /// Builds a set from a member list: accepts exactly when the
    /// identifiers are pairwise distinct and the exact stake sum fits the
    /// stake type, caching that sum as the total.
    pub fn from_members(members: Vec<Validator>) -> (r: Result<ValidatorSet, ConsensusError>)
        ensures
            r is Ok <==> ((forall|i: int, j: int|
                0 <= i < j < members@.len() ==> #[trigger] members@[i]@.id
                    != #[trigger] members@[j]@.id) && spec_total_stake(validator_views(members@))
                <= u64::MAX),
            r matches Ok(s) ==> s.spec_validators() == validator_views(members@) && s.wf(),
    {
        let n = members.len();
        let mut i: usize = 0;
        while i < n
            invariant
                n == members@.len(),
                0 <= i <= n,
                forall|a: int, b: int|
                    0 <= a < b < n && a < i ==> #[trigger] members@[a]@.id
                        != #[trigger] members@[b]@.id,
            decreases n - i,
        {
            let mut j: usize = i + 1;
            while j < n
                invariant
                    n == members@.len(),
                    0 <= i < j <= n,
                    forall|b: int| i < b < n && b < j ==> members@[i as int]@.id != members@[b]@.id,
                decreases n - j,
            {
                let dup = members[i].id.equals(&members[j].id);
                if dup {
                    proof {
                        assert(members@[i as int]@.id == members@[j as int]@.id);
                    }
                    return Err(ConsensusError::InvalidValidatorSet(
                        "duplicate validator identifier".to_string(),
                    ));
                }
                j = j + 1;
            }
            i = i + 1;
        }
        let ghost views = validator_views(members@);
        let mut total: u128 = 0;
        let mut k: usize = 0;
        proof {
            assert(views.take(0int) =~= Seq::<ValidatorV>::empty());
        }
        while k < n
            invariant
                n == members@.len(),
                views == validator_views(members@),
                views.len() == n,
                0 <= k <= n,
                total == spec_total_stake(views.take(k as int)),
                total <= (k as int) * 0xffff_ffff_ffff_ffff,
            decreases n - k,
        {
            proof {
                let t1 = views.take(k + 1);
                assert(t1 =~= views.take(k as int).push(views[k as int]));
                lemma_total_stake_push(views.take(k as int), views[k as int]);
                assert((k as int) * 0xffff_ffff_ffff_ffff + 0xffff_ffff_ffff_ffff == (k + 1)
                    * 0xffff_ffff_ffff_ffff) by (nonlinear_arith);
                assert((k + 1) * 0xffff_ffff_ffff_ffff <= 0x1_0000_0000_0000_0000
                    * 0xffff_ffff_ffff_ffff) by (nonlinear_arith)
                    requires
                        k + 1 <= 0x1_0000_0000_0000_0000,
                ;
            }
            let stake = members[k].stake;
            total = total + stake as u128;
            k = k + 1;
        }
        proof {
            assert(views.take(n as int) =~= views);
        }
        if total > u64::MAX as u128 {
            return Err(ConsensusError::InvalidValidatorSet("total stake overflow".to_string()));
        }
        let s = ValidatorSet { validators: members, total_stake: total as u64 };
        proof {
            assert(s.spec_validators() =~= views);
        }
        Ok(s)
    }

    /// Adds a member, replacing any member under the same identifier and
    /// adjusting the total by the stake difference. Errors exactly when
    /// the new total would pass the ceiling; the sum invariant is kept
    /// across every outcome.
    pub fn add_validator(&mut self, validator: Validator) -> (r: Result<(), ConsensusError>)
        requires
            old(self).wf(),
        ensures
            final(self).wf(),
            r is Ok <==> spec_total_stake(old(self).spec_validators()) - (
            match spec_vals_get(old(self).spec_validators(), validator@.id) {
                Some(v) => v.stake as int,
                None => 0int,
            }) + validator@.stake <= u64::MAX,
            r is Ok ==> spec_vals_get(final(self).spec_validators(), validator@.id) == Some(
                validator@,
            ) && (forall|id2: Seq<u8>|
                id2 != validator@.id ==> #[trigger] spec_vals_get(
                    final(self).spec_validators(),
                    id2,
                ) == spec_vals_get(old(self).spec_validators(), id2)),
            r is Ok ==> final(self).spec_total() == old(self).spec_total() - (
            match spec_vals_get(old(self).spec_validators(), validator@.id) {
                Some(v) => v.stake as int,
                None => 0int,
            }) + validator@.stake,
            r is Err ==> *final(self) == *old(self),
    {
        let n = self.validators.len();
        let ghost vid = validator@.id;
        let mut i: usize = 0;
        while i < n
            invariant
                *self == *old(self),
                old(self).wf(),
                vid == validator@.id,
                n == self.validators@.len(),
                self.spec_validators().len() == n,
                0 <= i <= n,
                forall|j: int| 0 <= j < i ==> self.spec_validators()[j].id != vid,
                forall|j: int|
                    0 <= j < n ==> #[trigger] self.spec_validators()[j] == self.validators@[j]@,
            decreases n - i,
        {
            let hit = self.validators[i].id.equals(&validator.id);
            if hit {
                proof {
                    lemma_stake_le_total(self.spec_validators(), i as int);
                    lemma_vals_get_at(self.spec_validators(), vid, i as int);
                }
                let old_stake = self.validators[i].stake;
                let reduced = self.total_stake - old_stake;
                if validator.stake > u64::MAX - reduced {
                    return Err(ConsensusError::InvalidValidatorSet(
                        "total stake overflow".to_string(),
                    ));
                }
                let ghost old_model = self.spec_validators();
                self.total_stake = reduced + validator.stake;
                self.validators.set(i, validator);
                proof {
                    let new_model = self.spec_validators();
                    assert(new_model =~= old_model.update(i as int, new_model[i as int]));
                    lemma_total_stake_update(old_model, i as int, new_model[i as int]);
                    assert(forall|j: int| 0 <= j < i ==> new_model[j].id != vid);
                    lemma_vals_get_at(new_model, vid, i as int);
                    assert forall|id2: Seq<u8>| id2 != vid implies #[trigger] spec_vals_get(
                        new_model,
                        id2,
                    ) == spec_vals_get(old_model, id2) by {
                        lemma_vals_frame(old_model, new_model, i as int, id2);
                    }
                }
                return Ok(());
            }
            i = i + 1;
        }
        proof {
            lemma_total_stake_nonneg(self.spec_validators());
            lemma_vals_get_none(self.spec_validators(), vid);
        }
        if validator.stake > u64::MAX - self.total_stake {
            return Err(ConsensusError::InvalidValidatorSet("total stake overflow".to_string()));
        }
        let ghost old_model = self.spec_validators();
        let ghost vv = validator@;
        self.total_stake = self.total_stake + validator.stake;
        self.validators.push(validator);
        proof {
            let new_model = self.spec_validators();
            assert(new_model =~= old_model.push(vv));
            lemma_total_stake_push(old_model, vv);
            assert(forall|j: int| 0 <= j < n ==> old_model[j].id != vid);
            assert(forall|j: int| 0 <= j < n ==> new_model[j] == old_model[j]);
            lemma_vals_get_at(new_model, vid, n as int);
            assert forall|id2: Seq<u8>| id2 != vid implies #[trigger] spec_vals_get(
                new_model,
                id2,
            ) == spec_vals_get(old_model, id2) by {
                lemma_vals_push_frame(old_model, vv, id2);
            }
        }
        Ok(())
    }

    /// Removes the member under `id`, if present, subtracting its stake;
    /// the sum invariant is kept.
    pub fn remove_validator(&mut self, id: &ValidatorId)
        requires
            old(self).wf(),
        ensures
            final(self).wf(),
            spec_vals_get(final(self).spec_validators(), id@) is None,
            forall|id2: Seq<u8>|
                id2 != id@ ==> #[trigger] spec_vals_get(final(self).spec_validators(), id2)
                    == spec_vals_get(old(self).spec_validators(), id2),
    {
        let n = self.validators.len();
        let mut i: usize = 0;
        while i < n
            invariant
                *self == *old(self),
                old(self).wf(),
                n == self.validators@.len(),
                self.spec_validators().len() == n,
                0 <= i <= n,
                forall|j: int| 0 <= j < i ==> self.spec_validators()[j].id != id@,
                forall|j: int|
                    0 <= j < n ==> #[trigger] self.spec_validators()[j] == self.validators@[j]@,
            decreases n - i,
        {
            let hit = self.validators[i].id.equals(id);
            if hit {
                proof {
                    lemma_stake_le_total(self.spec_validators(), i as int);
                }
                let stake = self.validators[i].stake;
                let ghost old_model = self.spec_validators();
                self.total_stake = self.total_stake - stake;
                self.validators.remove(i);
                proof {
                    let new_model = self.spec_validators();
                    assert(new_model =~= old_model.remove(i as int));
                    lemma_total_stake_remove(old_model, i as int);
                    assert forall|j: int| 0 <= j < new_model.len() implies new_model[j].id != id@
                        by {
                        if j >= i {
                            assert(new_model[j] == old_model[j + 1]);
                            assert(old_model[i as int].id != old_model[j + 1].id);
                        }
                    }
                    lemma_vals_get_none(new_model, id@);
                    assert forall|id2: Seq<u8>| id2 != id@ implies #[trigger] spec_vals_get(
                        new_model,
                        id2,
                    ) == spec_vals_get(old_model, id2) by {
                        lemma_vals_remove_frame(old_model, i as int, id2);
                    }
                }
                return ;
            }
            i = i + 1;
        }
        proof {
            lemma_vals_get_none(self.spec_validators(), id@);
        }
    }

    /// Looks a member up by identifier.
    pub fn get_validator(&self, id: &ValidatorId) -> (r: Option<&Validator>)
        ensures
            match spec_vals_get(self.spec_validators(), id@) {
                Some(v) => r matches Some(val) && val@ == v,
                None => r is None,
            },
    {
        let n = self.validators.len();
        let mut i: usize = 0;
        while i < n
            invariant
                n == self.validators@.len(),
                self.spec_validators().len() == n,
                0 <= i <= n,
                forall|j: int| 0 <= j < i ==> self.spec_validators()[j].id != id@,
                forall|j: int|
                    0 <= j < n ==> #[trigger] self.spec_validators()[j] == self.validators@[j]@,
            decreases n - i,
        {
            let v = vstd::std_specs::vec::vec_index(&self.validators, i);
            if v.id.equals(id) {
                proof {
                    lemma_vals_get_at(self.spec_validators(), id@, i as int);
                }
                return Some(v);
            }
            i = i + 1;
        }
        proof {
            lemma_vals_get_none(self.spec_validators(), id@);
        }
        None
    }

    /// A deep copy of the set.
    pub fn duplicate(&self) -> (r: ValidatorSet)
        ensures
            r.spec_validators() == self.spec_validators(),
            r.spec_total() == self.spec_total(),
    {
        let n = self.validators.len();
        let mut validators: Vec<Validator> = Vec::new();
        let mut i: usize = 0;
        while i < n
            invariant
                n == self.validators@.len(),
                0 <= i <= n,
                validators@.len() == i,
                forall|j: int| 0 <= j < i ==> #[trigger] validators@[j]@ == self.validators@[j]@,
            decreases n - i,
        {
            validators.push(vstd::std_specs::vec::vec_index(&self.validators, i).duplicate());
            i = i + 1;
        }
        let r = ValidatorSet { validators, total_stake: self.total_stake };
        proof {
            assert(r.spec_validators() =~= self.spec_validators());
        }
        r
    }
}

/// Replacing an entry with one under the same identifier leaves every
/// other identifier's lookup unchanged.
pub proof fn lemma_vals_frame(s1: Seq<ValidatorV>, s2: Seq<ValidatorV>, i: int, id2: Seq<u8>)
    requires
        s1.len() == s2.len(),
        0 <= i < s1.len(),
        forall|j: int| 0 <= j < s1.len() && j != i ==> s1[j] == s2[j],
        s1[i].id == s2[i].id,
        s1[i].id != id2,
    ensures
        spec_vals_get(s2, id2) == spec_vals_get(s1, id2),
    decreases s1.len(),
{
    if s1.len() > 0 {
        if i == 0 {
            assert(s1.skip(1) =~= s2.skip(1));
        } else {
            assert(s1[0] == s2[0]);
            lemma_vals_frame(s1.skip(1), s2.skip(1), i - 1, id2);
        }
    }
}

/// Appending a fresh identifier leaves every other identifier's lookup
/// unchanged.
pub proof fn lemma_vals_push_frame(s: Seq<ValidatorV>, v: ValidatorV, id2: Seq<u8>)
    requires
        v.id != id2,
    ensures
        spec_vals_get(s.push(v), id2) == spec_vals_get(s, id2),
    decreases s.len(),
{
    if s.len() == 0 {
        assert(s.push(v)[0] == v);
        assert(s.push(v).skip(1) =~= Seq::<ValidatorV>::empty());
        assert(spec_vals_get(Seq::<ValidatorV>::empty(), id2) is None);
        assert(spec_vals_get(s.push(v), id2) is None);
        assert(spec_vals_get(s, id2) is None);
    } else {
        assert(s.push(v)[0] == s[0]);
        assert(s.push(v).skip(1) =~= s.skip(1).push(v));
        lemma_vals_push_frame(s.skip(1), v, id2);
    }
}

/// Removing an entry leaves every other identifier's lookup unchanged.
pub proof fn lemma_vals_remove_frame(s: Seq<ValidatorV>, i: int, id2: Seq<u8>)
    requires
        0 <= i < s.len(),
        s[i].id != id2,
    ensures
        spec_vals_get(s.remove(i), id2) == spec_vals_get(s, id2),
    decreases s.len(),
{
    if i == 0 {
        assert(s.remove(0) =~= s.skip(1));
    } else {
        assert(s.remove(i)[0] == s[0]);
        assert(s.remove(i).skip(1) =~= s.skip(1).remove(i - 1));
        lemma_vals_remove_frame(s.skip(1), i - 1, id2);
    }
}

/// Validator registration and maintenance.
pub struct ValidatorManager {
    /// Current members.
    validators: ValidatorSet,
    /// Minimum stake to register.
    min_stake: u64,
    /// Cap on the set size.
    max_validators: usize,
}

impl ValidatorManager {
    /// The current members.
    pub closed spec fn spec_validators(&self) -> Seq<ValidatorV> {
        self.validators.spec_validators()
    }

    /// The manager's set is always well-formed.
    pub closed spec fn wf(&self) -> bool {
        self.validators.wf()
    }

    pub closed spec fn spec_min_stake(&self) -> u64 {
        self.min_stake
    }

    pub closed spec fn spec_max_validators(&self) -> usize {
        self.max_validators
    }

    /// A manager over an empty set.
    pub fn new(min_stake: u64, max_validators: usize) -> (r: ValidatorManager)
        ensures
            r.spec_validators() =~= Seq::<ValidatorV>::empty(),
            r.spec_min_stake() == min_stake,
            r.spec_max_validators() == max_validators,
            r.wf(),
    {
        ValidatorManager { validators: ValidatorSet::new(), min_stake, max_validators }
    }

    /// Registers a validator: rejects, exactly, a stake below the minimum
    /// (carrying the offending stake), a full set, and a total-stake
    /// overflow, leaving the manager unchanged; otherwise records a fresh
    /// member with zeroed counters and grows the total by the stake (less
    /// any record it replaced).
    pub fn register_validator(
        &mut self,
        id: ValidatorId,
        stake: u64,
        identity_commitment: Fe,
    ) -> (r: Result<(), ConsensusError>)
        requires
            old(self).wf(),
        ensures
            final(self).wf(),
            final(self).spec_min_stake() == old(self).spec_min_stake(),
            final(self).spec_max_validators() == old(self).spec_max_validators(),
            r is Ok <==> (stake >= old(self).spec_min_stake() && old(
                self,
            ).spec_validators().len() < old(self).spec_max_validators() && spec_total_stake(
                old(self).spec_validators(),
            ) - (match spec_vals_get(old(self).spec_validators(), id@) {
                Some(v) => v.stake as int,
                None => 0int,
            }) + stake <= u64::MAX),
            r is Err ==> *final(self) == *old(self),
            stake < old(self).spec_min_stake() ==> (r matches Err(e) && (e matches
                ConsensusError::InsufficientStake(v) && v == stake)),
            (stake >= old(self).spec_min_stake() && old(self).spec_validators().len() >= old(
                self,
            ).spec_max_validators()) ==> (r matches Err(e) && e matches
                ConsensusError::InvalidValidatorSet(m)),
            r is Ok ==> spec_vals_get(final(self).spec_validators(), id@) == Some(ValidatorV {
                id: id@,
                stake,
                identity_commitment: identity_commitment@,
                last_block: 0,
                blocks_produced: 0,
                blocks_missed: 0,
            }) && (forall|id2: Seq<u8>|
                id2 != id@ ==> #[trigger] spec_vals_get(final(self).spec_validators(), id2)
                    == spec_vals_get(old(self).spec_validators(), id2)) && spec_total_stake(
                final(self).spec_validators(),
            ) == spec_total_stake(old(self).spec_validators()) - (
            match spec_vals_get(old(self).spec_validators(), id@) {
                Some(v) => v.stake as int,
                None => 0int,
            }) + stake,
    {
        if stake < self.min_stake {
            return Err(ConsensusError::InsufficientStake(stake));
        }
        if self.validators.len() >= self.max_validators {
            return Err(ConsensusError::InvalidValidatorSet(
                "Maximum validator limit reached".to_string(),
            ));
        }
        let validator = Validator {
            id,
            stake,
            identity_commitment,
            last_block: 0,
            performance: ValidatorPerformance::new(),
        };
        match self.validators.add_validator(validator) {
            Ok(()) => Ok(()),
            Err(e) => Err(e),
        }
    }

    /// Updates a member's stake: rejects, exactly, an absent member (as an
    /// invalid-set error), a stake below the minimum (carrying the
    /// offending stake) and a total-stake overflow, leaving the manager
    /// unchanged; otherwise the member holds the new stake and the total
    /// moves by the difference, so the sum invariant is kept.
    pub fn update_stake(&mut self, id: &ValidatorId, new_stake: u64) -> (r: Result<
        (),
        ConsensusError,
    >)
        requires
            old(self).wf(),
        ensures
            final(self).wf(),
            final(self).spec_min_stake() == old(self).spec_min_stake(),
            final(self).spec_max_validators() == old(self).spec_max_validators(),
            r is Ok <==> (spec_vals_get(old(self).spec_validators(), id@) is Some && new_stake
                >= old(self).spec_min_stake() && spec_total_stake(old(self).spec_validators())
                - spec_vals_get(old(self).spec_validators(), id@)->Some_0.stake + new_stake
                <= u64::MAX),
            r is Err ==> *final(self) == *old(self),
            spec_vals_get(old(self).spec_validators(), id@) is None ==> (r matches Err(e)
                && e matches ConsensusError::InvalidValidatorSet(m)),
            (spec_vals_get(old(self).spec_validators(), id@) is Some && new_stake < old(
                self,
            ).spec_min_stake()) ==> (r matches Err(e) && (e matches
                ConsensusError::InsufficientStake(v) && v == new_stake)),
            r is Ok ==> spec_vals_get(final(self).spec_validators(), id@) == Some(ValidatorV {
                stake: new_stake,
                ..spec_vals_get(old(self).spec_validators(), id@)->Some_0
            }) && (forall|id2: Seq<u8>|
                id2 != id@ ==> #[trigger] spec_vals_get(final(self).spec_validators(), id2)
                    == spec_vals_get(old(self).spec_validators(), id2)) && spec_total_stake(
                final(self).spec_validators(),
            ) == spec_total_stake(old(self).spec_validators()) - spec_vals_get(
                old(self).spec_validators(),
                id@,
            )->Some_0.stake + new_stake,
    {
        let existing = match self.validators.get_validator(id) {
            Some(v) => v.duplicate(),
            None => {
                return Err(ConsensusError::InvalidValidatorSet("Validator not found".to_string()));
            },
        };
        if new_stake < self.min_stake {
            return Err(ConsensusError::InsufficientStake(new_stake));
        }
        let updated = Validator { stake: new_stake, ..existing };
        proof {
            lemma_vals_get_id(old(self).spec_validators(), id@);
            assert(updated@.id == id@);
            assert(updated@ == (ValidatorV {
                stake: new_stake,
                ..spec_vals_get(old(self).spec_validators(), id@)->Some_0
            }));
        }
        match self.validators.add_validator(updated) {
            Ok(()) => Ok(()),
            Err(e) => Err(e),
        }
    }

    /// Records a produced or missed block for a member; the counters
    /// saturate at the type's ceiling.
    pub fn update_performance(&mut self, id: &ValidatorId, produced_block: bool) -> (r: Result<
        (),
        ConsensusError,
    >)
        requires
            old(self).wf(),
        ensures
            final(self).wf(),
            final(self).spec_min_stake() == old(self).spec_min_stake(),
            final(self).spec_max_validators() == old(self).spec_max_validators(),
            r is Ok <==> spec_vals_get(old(self).spec_validators(), id@) is Some,
            r is Err ==> *final(self) == *old(self) && (r matches Err(e) && e matches
                ConsensusError::InvalidValidatorSet(m)),
            r is Ok ==> ({
                let v = spec_vals_get(old(self).spec_validators(), id@)->Some_0;
                let updated = if produced_block {
                    ValidatorV {
                        blocks_produced: (if v.blocks_produced < u64::MAX {
                            (v.blocks_produced + 1) as u64
                        } else {
                            u64::MAX
                        }),
                        ..v
                    }
                } else {
                    ValidatorV {
                        blocks_missed: (if v.blocks_missed < u64::MAX {
                            (v.blocks_missed + 1) as u64
                        } else {
                            u64::MAX
                        }),
                        ..v
                    }
                };
                spec_vals_get(final(self).spec_validators(), id@) == Some(updated) && (forall|
                    id2: Seq<u8>,
                |
                    id2 != id@ ==> #[trigger] spec_vals_get(final(self).spec_validators(), id2)
                        == spec_vals_get(old(self).spec_validators(), id2))
            }),
    {
        let existing = match self.validators.get_validator(id) {
            Some(v) => v.duplicate(),
            None => {
                return Err(ConsensusError::InvalidValidatorSet("Validator not found".to_string()));
            },
        };
        let mut perf = existing.performance;
        if produced_block {
            if perf.blocks_produced < u64::MAX {
                perf.blocks_produced = perf.blocks_produced + 1;
            }
        } else {
            if perf.blocks_missed < u64::MAX {
                perf.blocks_missed = perf.blocks_missed + 1;
            }
        }
        let updated = Validator { performance: perf, ..existing };
        proof {
            lemma_vals_get_id(old(self).spec_validators(), id@);
            assert(updated@.id == id@);
            let v = spec_vals_get(old(self).spec_validators(), id@)->Some_0;
            if produced_block {
                assert(updated@ == (ValidatorV {
                    blocks_produced: (if v.blocks_produced < u64::MAX {
                        (v.blocks_produced + 1) as u64
                    } else {
                        u64::MAX
                    }),
                    ..v
                }));
            } else {
                assert(updated@ == (ValidatorV {
                    blocks_missed: (if v.blocks_missed < u64::MAX {
                        (v.blocks_missed + 1) as u64
                    } else {
                        u64::MAX
                    }),
                    ..v
                }));
            }
        }
        match self.validators.add_validator(updated) {
            Ok(()) => Ok(()),
            Err(e) => Err(e),
        }
    }

    /// Removes a member; never fails.
    pub fn remove_validator(&mut self, id: &ValidatorId) -> (r: Result<(), ConsensusError>)
        requires
            old(self).wf(),
        ensures
            final(self).wf(),
            r is Ok,
            spec_vals_get(final(self).spec_validators(), id@) is None,
            forall|id2: Seq<u8>|
                id2 != id@ ==> #[trigger] spec_vals_get(final(self).spec_validators(), id2)
                    == spec_vals_get(old(self).spec_validators(), id2),
    {
        self.validators.remove_validator(id);
        Ok(())
    }

    /// Looks a member up, returning a copy.
    pub fn get_validator(&self, id: &ValidatorId) -> (r: Option<Validator>)
        ensures
            match spec_vals_get(self.spec_validators(), id@) {
                Some(v) => r matches Some(val) && val@ == v,
                None => r is None,
            },
    {
        match self.validators.get_validator(id) {
            Some(v) => Some(v.duplicate()),
            None => None,
        }
    }

    /// A copy of the whole set.
    pub fn get_all_validators(&self) -> (r: ValidatorSet)
        ensures
            r.spec_validators() == self.spec_validators(),
    {
        self.validators.duplicate()
    }
}

} // verus!
