//! Weighted voting. Votes are collected per block hash, in submission
//! order, one vote per voter; consensus is reached exactly when the
//! voted weight reaches the threshold fraction of the total weight, with
//! exact rational arithmetic.

use vstd::prelude::*;
use crate::errors::ConsensusError;
use crate::algebra::{Fe, copy_bytes};
use crate::config::{Ratio, spec_reaches};
use crate::validator::ValidatorId;

verus! {

/// A vote.
#[derive(Clone, Debug)]
pub struct Vote {
    /// Voting validator.
    pub voter: ValidatorId,
    /// The block voted for.
    pub block_hash: Fe,
    /// Vote signature blob; must be non-empty.
    pub signature: Vec<u8>,
}

/// Mathematical model of a vote.
pub struct VoteV {
    pub voter: Seq<u8>,
    pub block_hash: Seq<u8>,
    pub signature: Seq<u8>,
}

/// The views of an executable vote list.
pub open spec fn vote_views(v: Seq<Vote>) -> Seq<VoteV> {
    Seq::new(v.len(), |i: int| VoteV { voter: v[i].voter@, block_hash: v[i].block_hash@, signature: v[i].signature@ })
}

/// The weight of a voter under a weight table (zero when absent).
pub open spec fn spec_weight_of(ws: Seq<(Seq<u8>, u64)>, id: Seq<u8>) -> int
    decreases ws.len(),
{
    if ws.len() == 0 {
        0int
    } else if ws[0].0 == id {
        ws[0].1 as int
    } else {
        spec_weight_of(ws.skip(1), id)
    }
}

/// The total weight of a weight table.
pub open spec fn spec_total_weight(ws: Seq<(Seq<u8>, u64)>) -> int
    decreases ws.len(),
{
    if ws.len() == 0 {
        0int
    } else {
        ws[0].1 + spec_total_weight(ws.skip(1))
    }
}

/// The voted weight of a vote list.
pub open spec fn spec_votes_weight(votes: Seq<VoteV>, ws: Seq<(Seq<u8>, u64)>) -> int
    decreases votes.len(),
{
    if votes.len() == 0 {
        0int
    } else {
        spec_weight_of(ws, votes[0].voter) + spec_votes_weight(votes.skip(1), ws)
    }
}

/// Whether a voter already appears in a vote list.
pub open spec fn spec_has_voter(votes: Seq<VoteV>, id: Seq<u8>) -> bool {
    exists|i: int| 0 <= i < votes.len() && votes[i].voter == id
}

/// Whether every voter appears at most once.
pub open spec fn spec_voters_distinct(votes: Seq<VoteV>) -> bool {
    forall|i: int, j: int| 0 <= i < j < votes.len() ==> votes[i].voter != votes[j].voter
}

/// The weight table with the first entry under `id` removed.
pub open spec fn spec_remove_weight(ws: Seq<(Seq<u8>, u64)>, id: Seq<u8>) -> Seq<(Seq<u8>, u64)>
    decreases ws.len(),
{
    if ws.len() == 0 {
        Seq::empty()
    } else if ws[0].0 == id {
        ws.skip(1)
    } else {
        seq![ws[0]] + spec_remove_weight(ws.skip(1), id)
    }
}

/// Removing a voter's entry subtracts exactly that voter's weight.
pub proof fn lemma_remove_weight_total(ws: Seq<(Seq<u8>, u64)>, id: Seq<u8>)
    ensures
        spec_total_weight(spec_remove_weight(ws, id)) == spec_total_weight(ws) - spec_weight_of(
            ws,
            id,
        ),
    decreases ws.len(),
{
    if ws.len() > 0 && ws[0].0 != id {
        lemma_remove_weight_total(ws.skip(1), id);
        let r = spec_remove_weight(ws, id);
        assert(r == seq![ws[0]] + spec_remove_weight(ws.skip(1), id));
        assert(r[0] == ws[0]);
        assert(r.skip(1) =~= spec_remove_weight(ws.skip(1), id));
    }
}

/// Votes that never name `id` weigh the same with `id`'s entry removed.
pub proof fn lemma_votes_weight_remove(
    votes: Seq<VoteV>,
    ws: Seq<(Seq<u8>, u64)>,
    id: Seq<u8>,
)
    requires
        forall|i: int| 0 <= i < votes.len() ==> votes[i].voter != id,
    ensures
        spec_votes_weight(votes, spec_remove_weight(ws, id)) == spec_votes_weight(votes, ws),
    decreases votes.len(),
{
    if votes.len() > 0 {
        lemma_weight_of_remove(ws, id, votes[0].voter);
        lemma_votes_weight_remove(votes.skip(1), ws, id);
    }
}

/// Removing `id`'s entry leaves every other voter's weight unchanged.
pub proof fn lemma_weight_of_remove(ws: Seq<(Seq<u8>, u64)>, id: Seq<u8>, other: Seq<u8>)
    requires
        other != id,
    ensures
        spec_weight_of(spec_remove_weight(ws, id), other) == spec_weight_of(ws, other),
    decreases ws.len(),
{
    if ws.len() > 0 {
        if ws[0].0 == id {
        } else {
            lemma_weight_of_remove(ws.skip(1), id, other);
            let r = spec_remove_weight(ws, id);
            assert(r == seq![ws[0]] + spec_remove_weight(ws.skip(1), id));
            assert(r[0] == ws[0]);
            assert(r.skip(1) =~= spec_remove_weight(ws.skip(1), id));
        }
    }
}

/// One voter's weight is at most the total.
pub proof fn lemma_weight_of_le_total(ws: Seq<(Seq<u8>, u64)>, id: Seq<u8>)
    ensures
        spec_weight_of(ws, id) <= spec_total_weight(ws),
    decreases ws.len(),
{
    if ws.len() == 0 {
    } else if ws[0].0 == id {
        lemma_total_weight_nonneg(ws.skip(1));
    } else {
        lemma_weight_of_le_total(ws.skip(1), id);
    }
}

/// With one vote per voter, the voted weight never exceeds the total.
pub proof fn lemma_distinct_votes_weight_le_total(votes: Seq<VoteV>, ws: Seq<(Seq<u8>, u64)>)
    requires
        spec_voters_distinct(votes),
    ensures
        spec_votes_weight(votes, ws) <= spec_total_weight(ws),
    decreases votes.len(),
{
    if votes.len() == 0 {
        lemma_total_weight_nonneg(ws);
    } else {
        let v0 = votes[0].voter;
        let rest = votes.skip(1);
        assert forall|i: int| 0 <= i < rest.len() implies rest[i].voter != v0 by {
            assert(rest[i] == votes[i + 1]);
        }
        assert(spec_voters_distinct(rest)) by {
            assert forall|i: int, j: int| 0 <= i < j < rest.len() implies rest[i].voter
                != rest[j].voter by {
                assert(rest[i] == votes[i + 1]);
                assert(rest[j] == votes[j + 1]);
            }
        }
        lemma_weight_of_le_total(ws, v0);
        lemma_votes_weight_remove(rest, ws, v0);
        lemma_distinct_votes_weight_le_total(rest, spec_remove_weight(ws, v0));
        lemma_remove_weight_total(ws, v0);
        assert(spec_votes_weight(rest, ws) <= spec_total_weight(ws) - spec_weight_of(ws, v0));
        assert(spec_votes_weight(votes, ws) == spec_weight_of(ws, v0) + spec_votes_weight(
            rest,
            ws,
        ));
    }
}

/// Weight-table lookup at the first matching index.
pub proof fn lemma_weight_at(ws: Seq<(Seq<u8>, u64)>, id: Seq<u8>, i: int)
    requires
        0 <= i < ws.len(),
        forall|j: int| 0 <= j < i ==> ws[j].0 != id,
        ws[i].0 == id,
    ensures
        spec_weight_of(ws, id) == ws[i].1,
    decreases i,
{
    if i > 0 {
        lemma_weight_at(ws.skip(1), id, i - 1);
    }
}

/// Weight-table lookup with no match.
pub proof fn lemma_weight_none(ws: Seq<(Seq<u8>, u64)>, id: Seq<u8>)
    requires
        forall|j: int| 0 <= j < ws.len() ==> ws[j].0 != id,
    ensures
        spec_weight_of(ws, id) == 0,
    decreases ws.len(),
{
    if ws.len() > 0 {
        lemma_weight_none(ws.skip(1), id);
    }
}

/// A voter's weight is never negative.
pub proof fn lemma_weight_nonneg(ws: Seq<(Seq<u8>, u64)>, id: Seq<u8>)
    ensures
        spec_weight_of(ws, id) >= 0,
    decreases ws.len(),
{
    if ws.len() > 0 && ws[0].0 != id {
        lemma_weight_nonneg(ws.skip(1), id);
    }
}

/// Appending votes never lowers the voted weight.
pub proof fn lemma_votes_weight_extend(
    votes: Seq<VoteV>,
    extra: Seq<VoteV>,
    ws: Seq<(Seq<u8>, u64)>,
)
    ensures
        spec_votes_weight(votes + extra, ws) >= spec_votes_weight(votes, ws),
    decreases votes.len(),
{
    if votes.len() == 0 {
        assert(votes + extra =~= extra);
        lemma_votes_weight_nonneg(extra, ws);
    } else {
        assert((votes + extra)[0] == votes[0]);
        assert((votes + extra).skip(1) =~= votes.skip(1) + extra);
        lemma_votes_weight_extend(votes.skip(1), extra, ws);
    }
}

/// The voted weight is never negative.
pub proof fn lemma_votes_weight_nonneg(votes: Seq<VoteV>, ws: Seq<(Seq<u8>, u64)>)
    ensures
        spec_votes_weight(votes, ws) >= 0,
    decreases votes.len(),
{
    if votes.len() > 0 {
        lemma_weight_nonneg(ws, votes[0].voter);
        lemma_votes_weight_nonneg(votes.skip(1), ws);
    }
}

/// Quorum is monotone: once the voted weight of a block's votes reaches
/// the threshold, any extension of that vote list under the same weights
/// still reaches it.
pub proof fn lemma_quorum_monotonic(
    votes: Seq<VoteV>,
    extra: Seq<VoteV>,
    ws: Seq<(Seq<u8>, u64)>,
    threshold: Ratio,
)
    requires
        spec_reaches(spec_votes_weight(votes, ws), spec_total_weight(ws), threshold.num, threshold.den),
    ensures
        spec_reaches(
            spec_votes_weight(votes + extra, ws),
            spec_total_weight(ws),
            threshold.num,
            threshold.den,
        ),
{
    lemma_votes_weight_extend(votes, extra, ws);
    let s1 = spec_votes_weight(votes, ws);
    let s2 = spec_votes_weight(votes + extra, ws);
    let t = spec_total_weight(ws);
    assert(s2 * threshold.den >= s1 * threshold.den) by (nonlinear_arith)
        requires
            s2 >= s1,
            threshold.den >= 0,
    ;
}

/// Weighted vote collection per block hash, with a side index from block
/// hash to height that retention is judged by.
pub struct VotingManager {
    /// Quorum threshold.
    threshold: Ratio,
    /// Votes per block hash, in submission order.
    votes: Vec<(Fe, Vec<Vote>)>,
    /// Current weight table.
    weights: Vec<(ValidatorId, u64)>,
    /// Side index: block hash to height, for retention.
    heights: Vec<(Fe, u64)>,
}

/// Voting statistics for one block hash.
#[derive(Clone, Debug)]
pub struct VotingStats {
    /// Number of votes collected.
    pub total_votes: usize,
    /// Voted weight.
    pub total_weight: u64,
    /// Total possible weight under the current table.
    pub possible_weight: u64,
}

impl VotingManager {
    /// The threshold.
    pub closed spec fn spec_threshold(&self) -> Ratio {
        self.threshold
    }

    /// The vote table: block hash to votes, in insertion order.
    pub closed spec fn spec_votes(&self) -> Seq<(Seq<u8>, Seq<VoteV>)> {
        Seq::new(self.votes@.len(), |i: int| (self.votes@[i].0@, vote_views(self.votes@[i].1@)))
    }

    /// The weight table.
    pub closed spec fn spec_weights(&self) -> Seq<(Seq<u8>, u64)> {
        Seq::new(self.weights@.len(), |i: int| (self.weights@[i].0@, self.weights@[i].1))
    }

    /// The height index.
    pub closed spec fn spec_heights(&self) -> Seq<(Seq<u8>, u64)> {
        Seq::new(self.heights@.len(), |i: int| (self.heights@[i].0@, self.heights@[i].1))
    }

    /// Well-formedness: a proper threshold, distinct block hashes, one
    /// vote per voter in each list, and a total weight within the weight
    /// type.
    pub open spec fn wf(&self) -> bool {
        &&& self.spec_threshold().wf()
        &&& forall|i: int, j: int|
            0 <= i < j < self.spec_votes().len() ==> self.spec_votes()[i].0
                != self.spec_votes()[j].0
        &&& forall|i: int|
            0 <= i < self.spec_votes().len() ==> spec_voters_distinct(
                #[trigger] self.spec_votes()[i].1,
            )
        &&& spec_total_weight(self.spec_weights()) <= u64::MAX
        &&& forall|i: int, j: int|
            0 <= i < j < self.spec_heights().len() ==> self.spec_heights()[i].0
                != self.spec_heights()[j].0
    }

    /// The votes recorded for a block hash.
    pub open spec fn spec_votes_for(&self, h: Seq<u8>) -> Option<Seq<VoteV>> {
        spec_table_get(self.spec_votes(), h)
    }

    /// A fresh manager with the given threshold and no votes or weights.
    pub fn new(threshold: Ratio) -> (r: VotingManager)
        requires
            threshold.wf(),
        ensures
            r.spec_threshold() == threshold,
            r.spec_votes() =~= Seq::<(Seq<u8>, Seq<VoteV>)>::empty(),
            r.spec_weights() =~= Seq::<(Seq<u8>, u64)>::empty(),
            r.spec_heights() =~= Seq::<(Seq<u8>, u64)>::empty(),
            r.wf(),
    {
        VotingManager { threshold, votes: Vec::new(), weights: Vec::new(), heights: Vec::new() }
    }

    /// Replaces the weight table; the caller supplies weights from stakes,
    /// whose exact sum the validator set already keeps within the weight
    /// type.
    pub fn update_weights(&mut self, new_weights: Vec<(ValidatorId, u64)>)
        requires
            spec_total_weight(
                Seq::new(new_weights@.len(), |i: int| (new_weights@[i].0@, new_weights@[i].1)),
            ) <= u64::MAX,
        ensures
            final(self).spec_weights() =~= Seq::new(
                new_weights@.len(),
                |i: int| (new_weights@[i].0@, new_weights@[i].1),
            ),
            final(self).spec_votes() == old(self).spec_votes(),
            final(self).spec_threshold() == old(self).spec_threshold(),
            final(self).spec_heights() == old(self).spec_heights(),
            old(self).wf() ==> final(self).wf(),
    {
        self.weights = new_weights;
        proof {
            let tbl = Seq::new(new_weights@.len(), |i: int| (new_weights@[i].0@, new_weights@[i].1));
            assert(self.spec_weights() =~= tbl);
            assert(self.spec_weights() == tbl);
            assert(spec_total_weight(self.spec_weights()) == spec_total_weight(tbl));
            assert(self.spec_votes() == old(self).spec_votes());
            assert(self.spec_threshold() == old(self).spec_threshold());
            assert(self.spec_heights() == old(self).spec_heights());
        }
    }

    /// The current voted weight for a block hash (zero when unknown).
    fn voted_weight(&self, votes: &Vec<Vote>) -> (r: u128)
        ensures
            r == spec_votes_weight(vote_views(votes@), self.spec_weights()),
            r <= u128::MAX,
    {
        let n = votes.len();
        let mut sum: u128 = 0;
        let mut i: usize = 0;
        proof {
            assert(vote_views(votes@).skip(0) =~= vote_views(votes@));
            lemma_votes_weight_nonneg(vote_views(votes@), self.spec_weights());
        }
        while i < n
            invariant
                n == votes@.len(),
                0 <= i <= n,
                sum + spec_votes_weight(vote_views(votes@).skip(i as int), self.spec_weights())
                    == spec_votes_weight(vote_views(votes@), self.spec_weights()),
                sum <= (i as int) * 0xffff_ffff_ffff_ffff,
                sum >= 0,
            decreases n - i,
        {
            let w = self.weight_of(&votes[i].voter);
            proof {
                let vv = vote_views(votes@);
                assert(vv.skip(i as int)[0] == vv[i as int]);
                assert(vv.skip(i as int).skip(1) =~= vv.skip(i + 1));
                assert(vv[i as int].voter == votes@[i as int].voter@);
                lemma_votes_weight_nonneg(vv.skip(i + 1), self.spec_weights());
                assert((i as int) * 0xffff_ffff_ffff_ffff + 0xffff_ffff_ffff_ffff == (i + 1)
                    * 0xffff_ffff_ffff_ffff) by (nonlinear_arith);
                assert((i + 1) * 0xffff_ffff_ffff_ffff <= 0x1_0000_0000_0000_0000
                    * 0xffff_ffff_ffff_ffff) by (nonlinear_arith)
                    requires
                        i + 1 <= 0x1_0000_0000_0000_0000,
                ;
            }
            sum = sum + w as u128;
            i = i + 1;
        }
        proof {
            assert(vote_views(votes@).skip(n as int) =~= Seq::<VoteV>::empty());
        }
        sum
    }

    /// The weight of one voter under the current table.
    fn weight_of(&self, id: &ValidatorId) -> (r: u64)
        ensures
            r == spec_weight_of(self.spec_weights(), id@),
    {
        let n = self.weights.len();
        let mut i: usize = 0;
        while i < n
            invariant
                n == self.weights@.len(),
                self.spec_weights().len() == n,
                0 <= i <= n,
                forall|j: int| 0 <= j < i ==> self.spec_weights()[j].0 != id@,
                forall|j: int|
                    0 <= j < n ==> #[trigger] self.spec_weights()[j] == (
                    self.weights@[j].0@,
                    self.weights@[j].1,
                    ),
            decreases n - i,
        {
            let entry = vstd::std_specs::vec::vec_index(&self.weights, i);
            if entry.0.equals(id) {
                proof {
                    lemma_weight_at(self.spec_weights(), id@, i as int);
                }
                return entry.1;
            }
            i = i + 1;
        }
        proof {
            lemma_weight_none(self.spec_weights(), id@);
        }
        0
    }

    /// The total weight of the current table.
    fn total_weight(&self) -> (r: u128)
        ensures
            r == spec_total_weight(self.spec_weights()),
    {
        let n = self.weights.len();
        let mut sum: u128 = 0;
        let mut i: usize = 0;
        proof {
            assert(self.spec_weights().skip(0) =~= self.spec_weights());
        }
        while i < n
            invariant
                n == self.weights@.len(),
                self.spec_weights().len() == n,
                0 <= i <= n,
                sum + spec_total_weight(self.spec_weights().skip(i as int)) == spec_total_weight(
                    self.spec_weights(),
                ),
                sum >= 0,
                sum <= (i as int) * 0xffff_ffff_ffff_ffff,
                forall|j: int|
                    0 <= j < n ==> #[trigger] self.spec_weights()[j] == (
                    self.weights@[j].0@,
                    self.weights@[j].1,
                    ),
            decreases n - i,
        {
            proof {
                let ws = self.spec_weights();
                assert(ws.skip(i as int)[0] == ws[i as int]);
                assert(ws.skip(i as int).skip(1) =~= ws.skip(i + 1));
                lemma_total_weight_nonneg(ws.skip(i + 1));
                assert((i as int) * 0xffff_ffff_ffff_ffff + 0xffff_ffff_ffff_ffff == (i + 1)
                    * 0xffff_ffff_ffff_ffff) by (nonlinear_arith);
                assert((i + 1) * 0xffff_ffff_ffff_ffff <= 0x1_0000_0000_0000_0000
                    * 0xffff_ffff_ffff_ffff) by (nonlinear_arith)
                    requires
                        i + 1 <= 0x1_0000_0000_0000_0000,
                ;
            }
            let entry = vstd::std_specs::vec::vec_index(&self.weights, i);
            sum = sum + entry.1 as u128;
            i = i + 1;
        }
        proof {
            assert(self.spec_weights().skip(n as int) =~= Seq::<(Seq<u8>, u64)>::empty());
        }
        sum
    }

    /// Submits a vote. Rejects an empty signature and a duplicate voter
    /// for the same block, exactly; otherwise appends the vote to that
    /// block's list (other blocks untouched) and reports whether the
    /// voted weight now reaches the threshold fraction of the total.
    pub fn submit_vote(&mut self, block_hash: Fe, voter: ValidatorId, signature: Vec<u8>) -> (r:
        Result<bool, ConsensusError>)
        requires
            old(self).wf(),
        ensures
            final(self).wf(),
            final(self).spec_threshold() == old(self).spec_threshold(),
            final(self).spec_weights() == old(self).spec_weights(),
            final(self).spec_heights() == old(self).spec_heights(),
            signature@.len() == 0 ==> r is Err && *final(self) == *old(self),
            signature@.len() > 0 ==> ({
                let prior = match old(self).spec_votes_for(block_hash@) {
                    Some(vs) => vs,
                    None => Seq::<VoteV>::empty(),
                };
                if spec_has_voter(prior, voter@) {
                    r is Err && *final(self) == *old(self)
                } else {
                    let newv = VoteV {
                        voter: voter@,
                        block_hash: block_hash@,
                        signature: signature@,
                    };
                    let updated = prior.push(newv);
                    &&& final(self).spec_votes_for(block_hash@) == Some(updated)
                    &&& (forall|h2: Seq<u8>|
                        h2 != block_hash@ ==> #[trigger] final(self).spec_votes_for(h2) == old(
                            self,
                        ).spec_votes_for(h2))
                    &&& r matches Ok(b) && b == spec_reaches(
                        spec_votes_weight(updated, old(self).spec_weights()),
                        spec_total_weight(old(self).spec_weights()),
                        old(self).spec_threshold().num,
                        old(self).spec_threshold().den,
                    )
                }
            }),
    {
        if signature.len() == 0 {
            return Err(ConsensusError::VotingError("Invalid vote signature".to_string()));
        }
        let n = self.votes.len();
        let ghost h = block_hash@;
        let mut i: usize = 0;
        while i < n
            invariant
                *self == *old(self),
                old(self).wf(),
                signature@.len() > 0,
                h == block_hash@,
                n == self.votes@.len(),
                self.spec_votes().len() == n,
                0 <= i <= n,
                forall|j: int| 0 <= j < i ==> self.spec_votes()[j].0 != h,
                forall|j: int|
                    0 <= j < n ==> #[trigger] self.spec_votes()[j] == (
                    self.votes@[j].0@,
                    vote_views(self.votes@[j].1@),
                    ),
            decreases n - i,
        {
            let hit = self.votes[i].0.equals(&block_hash);
            if hit {
                proof {
                    lemma_table_get_at(self.spec_votes(), h, i as int);
                }
                return self.append_vote_at(i, block_hash, voter, signature);
            }
            i = i + 1;
        }
        proof {
            lemma_table_get_none(self.spec_votes(), h);
        }
        let ghost old_table = self.spec_votes();
        let fresh_list: Vec<Vote> = Vec::new();
        proof {
            assert(vote_views(fresh_list@) =~= Seq::<VoteV>::empty());
        }
        let entry: (Fe, Vec<Vote>) = (block_hash.duplicate(), fresh_list);
        self.votes.push(entry);
        proof {
            let new_table = self.spec_votes();
            assert(new_table[n as int] == (h, Seq::<VoteV>::empty()));
            assert(new_table =~= old_table.push((h, Seq::<VoteV>::empty())));
            assert(forall|j: int| 0 <= j < n ==> new_table[j] == old_table[j]);
            assert(new_table[n as int] == (h, Seq::<VoteV>::empty()));
            lemma_table_get_at(new_table, h, n as int);
            assert forall|h2: Seq<u8>| h2 != h implies #[trigger] spec_table_get(new_table, h2)
                == spec_table_get(old_table, h2) by {
                lemma_table_push_frame(old_table, (h, Seq::<VoteV>::empty()), h2);
            }
            assert(forall|j: int| 0 <= j < new_table.len() - 1 ==> new_table[j].0 != h);
            assert(self.spec_heights() == old(self).spec_heights());
            assert(self.wf());
        }
        self.append_vote_at(n, block_hash, voter, signature)
    }

    /// Appends a vote to the list at index `i`, rejecting a duplicate
    /// voter, and reports quorum.
    #[verifier::rlimit(60)]
    fn append_vote_at(&mut self, i: usize, block_hash: Fe, voter: ValidatorId, signature: Vec<u8>)
        -> (r: Result<bool, ConsensusError>)
        requires
            old(self).wf(),
            i < old(self).spec_votes().len(),
            old(self).spec_votes()[i as int].0 == block_hash@,
            signature@.len() > 0,
        ensures
            final(self).wf(),
            final(self).spec_threshold() == old(self).spec_threshold(),
            final(self).spec_weights() == old(self).spec_weights(),
            final(self).spec_heights() == old(self).spec_heights(),
            ({
                let prior = old(self).spec_votes()[i as int].1;
                if spec_has_voter(prior, voter@) {
                    r is Err && *final(self) == *old(self)
                } else {
                    let newv = VoteV {
                        voter: voter@,
                        block_hash: block_hash@,
                        signature: signature@,
                    };
                    let updated = prior.push(newv);
                    &&& final(self).spec_votes_for(block_hash@) == Some(updated)
                    &&& (forall|h2: Seq<u8>|
                        h2 != block_hash@ ==> #[trigger] final(self).spec_votes_for(h2) == old(
                            self,
                        ).spec_votes_for(h2))
                    &&& r matches Ok(b) && b == spec_reaches(
                        spec_votes_weight(updated, old(self).spec_weights()),
                        spec_total_weight(old(self).spec_weights()),
                        old(self).spec_threshold().num,
                        old(self).spec_threshold().den,
                    )
                }
            }),
    {
        let ghost h = block_hash@;
        let ghost prior = old(self).spec_votes()[i as int].1;
        let dup = Self::has_voter(&self.votes[i].1, &voter);
        if dup {
            return Err(ConsensusError::VotingError("Duplicate vote detected".to_string()));
        }
        let vote = Vote { voter, block_hash, signature };
        let ghost newv = VoteV { voter: vote.voter@, block_hash: vote.block_hash@, signature: vote.signature@ };
        let ghost old_table = self.spec_votes();
        vote_push(&mut self.votes, i, vote);
        proof {
            let new_table = self.spec_votes();
            assert(new_table.len() == old_table.len());
            assert(vote_views(self.votes@[i as int].1@) =~= prior.push(newv));
            assert(forall|j: int|
                0 <= j < new_table.len() && j != i ==> #[trigger] new_table[j] == old_table[j]);
            assert(new_table[i as int] == (h, prior.push(newv)));
            assert(forall|j: int| 0 <= j < i ==> old_table[j].0 != h);
            assert(forall|j: int| 0 <= j < i ==> new_table[j].0 != h);
            lemma_table_get_at(new_table, h, i as int);
            assert forall|h2: Seq<u8>| h2 != h implies #[trigger] spec_table_get(new_table, h2)
                == spec_table_get(old_table, h2) by {
                lemma_table_set_frame(old_table, new_table, i as int, h2);
            }
            assert(self.spec_heights() == old(self).spec_heights());
        }
        let s = self.voted_weight(&self.votes[i].1);
        let t = self.total_weight();
        let num = self.threshold.num;
        let den = self.threshold.den;
        proof {
            lemma_votes_weight_nonneg(prior.push(newv), self.spec_weights());
            lemma_total_weight_nonneg(self.spec_weights());
            assert(spec_voters_distinct(prior.push(newv))) by {
                assert(forall|a: int|
                    0 <= a < prior.len() ==> prior.push(newv)[a] == prior[a]);
                assert(prior.push(newv)[prior.len() as int] == newv);
            }
            lemma_distinct_votes_weight_le_total(prior.push(newv), self.spec_weights());
            assert(s <= t);
            assert(t <= u64::MAX);
            assert(s * (den as int) <= 0xffff_ffff_ffff_ffff * 0xffff_ffff_ffff_ffff)
                by (nonlinear_arith)
                requires
                    0 <= s <= 0xffff_ffff_ffff_ffff,
                    0 <= den <= 0xffff_ffff_ffff_ffff,
            ;
            assert(t * (num as int) <= 0xffff_ffff_ffff_ffff * 0xffff_ffff_ffff_ffff)
                by (nonlinear_arith)
                requires
                    0 <= t <= 0xffff_ffff_ffff_ffff,
                    0 <= num <= 0xffff_ffff_ffff_ffff,
            ;
        }
        let reached = t > 0 && s * (den as u128) >= t * (num as u128);
        Ok(reached)
    }

    /// Whether a voter already appears in a vote list.
    fn has_voter(votes: &Vec<Vote>, voter: &ValidatorId) -> (r: bool)
        ensures
            r == spec_has_voter(vote_views(votes@), voter@),
    {
        let n = votes.len();
        let mut i: usize = 0;
        while i < n
            invariant
                n == votes@.len(),
                0 <= i <= n,
                forall|j: int| 0 <= j < i ==> vote_views(votes@)[j].voter != voter@,
            decreases n - i,
        {
            let v = vstd::std_specs::vec::vec_index(votes, i);
            if v.voter.equals(voter) {
                proof {
                    assert(vote_views(votes@)[i as int].voter == voter@);
                }
                return true;
            }
            i = i + 1;
        }
        false
    }

    /// The votes recorded for a block, as a copy.
    pub fn get_block_votes(&self, block_hash: &Fe) -> (r: Option<Vec<Vote>>)
        ensures
            match spec_table_get(self.spec_votes(), block_hash@) {
                Some(vs) => r matches Some(out) && vote_views(out@) == vs,
                None => r is None,
            },
    {
        let n = self.votes.len();
        let mut i: usize = 0;
        while i < n
            invariant
                n == self.votes@.len(),
                self.spec_votes().len() == n,
                0 <= i <= n,
                forall|j: int| 0 <= j < i ==> self.spec_votes()[j].0 != block_hash@,
                forall|j: int|
                    0 <= j < n ==> #[trigger] self.spec_votes()[j] == (
                    self.votes@[j].0@,
                    vote_views(self.votes@[j].1@),
                    ),
            decreases n - i,
        {
            let hit = self.votes[i].0.equals(block_hash);
            if hit {
                proof {
                    lemma_table_get_at(self.spec_votes(), block_hash@, i as int);
                }
                let src_list = &self.votes[i].1;
                let out = clone_votes(src_list);
                return Some(out);
            }
            i = i + 1;
        }
        proof {
            lemma_table_get_none(self.spec_votes(), block_hash@);
        }
        None
    }

    /// Records the height of a block hash in the retention index,
    /// replacing any earlier record for the same hash; votes, weights and
    /// the threshold are untouched.
    pub fn register_block(&mut self, block_hash: Fe, height: u64)
        requires
            old(self).wf(),
        ensures
            final(self).wf(),
            spec_height_of(final(self).spec_heights(), block_hash@) == Some(height),
            forall|h2: Seq<u8>|
                h2 != block_hash@ ==> #[trigger] spec_height_of(final(self).spec_heights(), h2)
                    == spec_height_of(old(self).spec_heights(), h2),
            final(self).spec_votes() == old(self).spec_votes(),
            final(self).spec_weights() == old(self).spec_weights(),
            final(self).spec_threshold() == old(self).spec_threshold(),
    {
        let n = self.heights.len();
        let ghost hh = block_hash@;
        let mut i: usize = 0;
        while i < n
            invariant
                *self == *old(self),
                old(self).wf(),
                hh == block_hash@,
                n == self.heights@.len(),
                self.spec_heights().len() == n,
                0 <= i <= n,
                forall|j: int| 0 <= j < i ==> self.spec_heights()[j].0 != hh,
                forall|j: int|
                    0 <= j < n ==> #[trigger] self.spec_heights()[j] == (
                    self.heights@[j].0@,
                    self.heights@[j].1,
                    ),
            decreases n - i,
        {
            let hit = self.heights[i].0.equals(&block_hash);
            if hit {
                let ghost old_model = self.spec_heights();
                height_set(&mut self.heights, i, (block_hash, height));
                proof {
                    let new_model = self.spec_heights();
                    assert(old_model[i as int].0 == hh);
                    assert(new_model[i as int] == (hh, height));
                    assert(forall|j: int|
                        0 <= j < n && j != i ==> new_model[j] == old_model[j]);
                    assert(forall|j: int| 0 <= j < i ==> new_model[j].0 != hh);
                    lemma_height_at(new_model, hh, i as int);
                    assert forall|h2: Seq<u8>| h2 != hh implies #[trigger] spec_height_of(
                        new_model,
                        h2,
                    ) == spec_height_of(old_model, h2) by {
                        lemma_height_set_frame(old_model, new_model, i as int, h2);
                    }
                    assert(forall|a: int, b: int|
                        0 <= a < b < new_model.len() ==> new_model[a].0 != new_model[b].0);
                    assert(self.spec_votes() == old(self).spec_votes());
                    assert(self.spec_weights() == old(self).spec_weights());
                }
                return ;
            }
            i = i + 1;
        }
        let ghost old_model = self.spec_heights();
        self.heights.push((block_hash, height));
        proof {
            let new_model = self.spec_heights();
            assert(new_model =~= old_model.push((hh, height)));
            assert(forall|j: int| 0 <= j < n ==> old_model[j].0 != hh);
            assert(forall|j: int| 0 <= j < n ==> new_model[j] == old_model[j]);
            assert(new_model[n as int] == (hh, height));
            lemma_height_at(new_model, hh, n as int);
            assert forall|h2: Seq<u8>| h2 != hh implies #[trigger] spec_height_of(new_model, h2)
                == spec_height_of(old_model, h2) by {
                lemma_height_push_frame(old_model, (hh, height), h2);
            }
            assert(forall|a: int, b: int|
                0 <= a < b < new_model.len() ==> new_model[a].0 != new_model[b].0);
            assert(self.spec_votes() == old(self).spec_votes());
            assert(self.spec_weights() == old(self).spec_weights());
        }
    }

    /// The registered height of a block hash, if any.
    fn height_of(&self, block_hash: &Fe) -> (r: Option<u64>)
        ensures
            r == spec_height_of(self.spec_heights(), block_hash@),
    {
        let n = self.heights.len();
        let mut i: usize = 0;
        while i < n
            invariant
                n == self.heights@.len(),
                self.spec_heights().len() == n,
                0 <= i <= n,
                forall|j: int| 0 <= j < i ==> self.spec_heights()[j].0 != block_hash@,
                forall|j: int|
                    0 <= j < n ==> #[trigger] self.spec_heights()[j] == (
                    self.heights@[j].0@,
                    self.heights@[j].1,
                    ),
            decreases n - i,
        {
            let entry = vstd::std_specs::vec::vec_index(&self.heights, i);
            if entry.0.equals(block_hash) {
                proof {
                    lemma_height_at(self.spec_heights(), block_hash@, i as int);
                }
                return Some(entry.1);
            }
            i = i + 1;
        }
        proof {
            lemma_height_none(self.spec_heights(), block_hash@);
        }
        None
    }

    /// Clears old votes: removes exactly the vote lists of blocks whose
    /// registered height lies below `before_height`; votes for unregistered
    /// hashes and for blocks at or above the bound are retained unchanged,
    /// and the weight table, threshold and height index are untouched.
    pub fn clear_old_votes(&mut self, before_height: u64)
        requires
            old(self).wf(),
        ensures
            final(self).wf(),
            final(self).spec_votes() == spec_retain_votes(
                old(self).spec_votes(),
                old(self).spec_heights(),
                before_height,
            ),
            forall|h: Seq<u8>|
                #[trigger] final(self).spec_votes_for(h) == (if spec_keep(
                    h,
                    old(self).spec_heights(),
                    before_height,
                ) {
                    old(self).spec_votes_for(h)
                } else {
                    None
                }),
            final(self).spec_weights() == old(self).spec_weights(),
            final(self).spec_heights() == old(self).spec_heights(),
            final(self).spec_threshold() == old(self).spec_threshold(),
    {
        let ghost old_table = self.spec_votes();
        let ghost hts = self.spec_heights();
        let n = self.votes.len();
        let mut kept: Vec<(Fe, Vec<Vote>)> = Vec::new();
        let mut i: usize = 0;
        proof {
            assert(old_table.take(0int) =~= Seq::<(Seq<u8>, Seq<VoteV>)>::empty());
        }
        while i < n
            invariant
                *self == *old(self),
                old(self).wf(),
                old_table == self.spec_votes(),
                hts == self.spec_heights(),
                n == self.votes@.len(),
                old_table.len() == n,
                0 <= i <= n,
                Seq::new(kept@.len(), |a: int| (kept@[a].0@, vote_views(kept@[a].1@)))
                    == spec_retain_votes(old_table.take(i as int), hts, before_height),
            decreases n - i,
        {
            let entry_hash = self.votes[i].0.duplicate();
            let keep = match self.height_of(&entry_hash) {
                Some(ht) => ht >= before_height,
                None => true,
            };
            proof {
                assert(entry_hash@ == old_table[i as int].0);
                assert(keep == spec_keep(old_table[i as int].0, hts, before_height));
                lemma_retain_snoc(old_table.take(i as int), old_table[i as int], hts,
                    before_height);
                assert(old_table.take(i + 1) =~= old_table.take(i as int).push(
                    old_table[i as int],
                ));
            }
            if keep {
                let copied = clone_votes(&self.votes[i].1);
                let ghost old_kept = Seq::new(
                    kept@.len(),
                    |a: int| (kept@[a].0@, vote_views(kept@[a].1@)),
                );
                kept.push((entry_hash, copied));
                proof {
                    let new_kept = Seq::new(
                        kept@.len(),
                        |a: int| (kept@[a].0@, vote_views(kept@[a].1@)),
                    );
                    assert(new_kept =~= old_kept.push(old_table[i as int]));
                    assert(old_kept.push(old_table[i as int]) =~= old_kept + seq![
                        old_table[i as int],
                    ]);
                }
            }
            i = i + 1;
        }
        proof {
            assert(old_table.take(n as int) =~= old_table);
        }
        self.votes = kept;
        proof {
            let new_table = self.spec_votes();
            assert(new_table =~= spec_retain_votes(old_table, hts, before_height));
            lemma_retain_unique(old_table, hts, before_height);
            lemma_retain_lists_distinct(old_table, hts, before_height);
            assert forall|h: Seq<u8>|
                #[trigger] spec_table_get(new_table, h) == (if spec_keep(h, hts, before_height) {
                    spec_table_get(old_table, h)
                } else {
                    None
                }) by {
                lemma_retain_get(old_table, hts, before_height, h);
            }
        }
    }

    /// Statistics for one block hash: errors exactly when the block is
    /// unknown.
    pub fn get_voting_stats(&self, block_hash: &Fe) -> (r: Result<VotingStats, ConsensusError>)
        requires
            self.wf(),
        ensures
            r is Ok <==> spec_table_get(self.spec_votes(), block_hash@) is Some,
            r matches Ok(st) ==> ({
                let vs = spec_table_get(self.spec_votes(), block_hash@)->Some_0;
                &&& st.total_votes == vs.len()
                &&& st.total_weight == spec_votes_weight(vs, self.spec_weights())
                &&& st.possible_weight == spec_total_weight(self.spec_weights())
            }),
    {
        let n = self.votes.len();
        let mut i: usize = 0;
        while i < n
            invariant
                self.wf(),
                n == self.votes@.len(),
                self.spec_votes().len() == n,
                0 <= i <= n,
                forall|j: int| 0 <= j < i ==> self.spec_votes()[j].0 != block_hash@,
                forall|j: int|
                    0 <= j < n ==> #[trigger] self.spec_votes()[j] == (
                    self.votes@[j].0@,
                    vote_views(self.votes@[j].1@),
                    ),
            decreases n - i,
        {
            let hit = self.votes[i].0.equals(block_hash);
            if hit {
                proof {
                    lemma_table_get_at(self.spec_votes(), block_hash@, i as int);
                }
                let list = &self.votes[i].1;
                let total_votes = list.len();
                let s = self.voted_weight(list);
                let t = self.total_weight();
                proof {
                    assert(vote_views(list@) == self.spec_votes()[i as int].1);
                    assert(spec_voters_distinct(vote_views(list@)));
                    lemma_distinct_votes_weight_le_total(
                        vote_views(list@),
                        self.spec_weights(),
                    );
                    lemma_votes_weight_nonneg(vote_views(list@), self.spec_weights());
                    lemma_total_weight_nonneg(self.spec_weights());
                }
                return Ok(VotingStats {
                    total_votes,
                    total_weight: s as u64,
                    possible_weight: t as u64,
                });
            }
            i = i + 1;
        }
        proof {
            lemma_table_get_none(self.spec_votes(), block_hash@);
        }
        Err(ConsensusError::VotingError("Block not found".to_string()))
    }
}

/// Looks a block hash up in a vote table (first match).
pub open spec fn spec_table_get(t: Seq<(Seq<u8>, Seq<VoteV>)>, h: Seq<u8>) -> Option<Seq<VoteV>>
    decreases t.len(),
{
    if t.len() == 0 {
        None
    } else if t[0].0 == h {
        Some(t[0].1)
    } else {
        spec_table_get(t.skip(1), h)
    }
}

/// Pushes a vote onto the list at index `i`.
fn vote_push(votes: &mut Vec<(Fe, Vec<Vote>)>, i: usize, vote: Vote)
    requires
        i < old(votes)@.len(),
    ensures
        final(votes)@.len() == old(votes)@.len(),
        final(votes)@[i as int].0 == old(votes)@[i as int].0,
        final(votes)@[i as int].1@ == old(votes)@[i as int].1@.push(vote),
        forall|j: int|
            0 <= j < old(votes)@.len() && j != i ==> final(votes)@[j] == old(votes)@[j],
{
    let entry = &mut votes[i];
    entry.1.push(vote);
}

/// Table lookup at the first matching index.
pub proof fn lemma_table_get_at(t: Seq<(Seq<u8>, Seq<VoteV>)>, h: Seq<u8>, i: int)
    requires
        0 <= i < t.len(),
        forall|j: int| 0 <= j < i ==> t[j].0 != h,
        t[i].0 == h,
    ensures
        spec_table_get(t, h) == Some(t[i].1),
    decreases i,
{
    if i > 0 {
        lemma_table_get_at(t.skip(1), h, i - 1);
    }
}

/// Table lookup with no match.
pub proof fn lemma_table_get_none(t: Seq<(Seq<u8>, Seq<VoteV>)>, h: Seq<u8>)
    requires
        forall|j: int| 0 <= j < t.len() ==> t[j].0 != h,
    ensures
        spec_table_get(t, h) is None,
    decreases t.len(),
{
    if t.len() > 0 {
        lemma_table_get_none(t.skip(1), h);
    }
}

/// Replacing the entry at `i` under the same hash leaves other lookups
/// unchanged.
pub proof fn lemma_table_set_frame(
    t1: Seq<(Seq<u8>, Seq<VoteV>)>,
    t2: Seq<(Seq<u8>, Seq<VoteV>)>,
    i: int,
    h2: Seq<u8>,
)
    requires
        t1.len() == t2.len(),
        0 <= i < t1.len(),
        forall|j: int| 0 <= j < t1.len() && j != i ==> t1[j] == t2[j],
        t1[i].0 == t2[i].0,
        t1[i].0 != h2,
    ensures
        spec_table_get(t2, h2) == spec_table_get(t1, h2),
    decreases t1.len(),
{
    if t1.len() > 0 {
        if i == 0 {
            assert(t1.skip(1) =~= t2.skip(1));
        } else {
            assert(t1[0] == t2[0]);
            lemma_table_set_frame(t1.skip(1), t2.skip(1), i - 1, h2);
        }
    }
}

/// Appending a fresh hash leaves other lookups unchanged.
pub proof fn lemma_table_push_frame(
    t: Seq<(Seq<u8>, Seq<VoteV>)>,
    e: (Seq<u8>, Seq<VoteV>),
    h2: Seq<u8>,
)
    requires
        e.0 != h2,
    ensures
        spec_table_get(t.push(e), h2) == spec_table_get(t, h2),
    decreases t.len(),
{
    if t.len() == 0 {
        assert(t.push(e)[0] == e);
        assert(t.push(e).skip(1) =~= Seq::<(Seq<u8>, Seq<VoteV>)>::empty());
        assert(spec_table_get(Seq::<(Seq<u8>, Seq<VoteV>)>::empty(), h2) is None);
        assert(spec_table_get(t.push(e), h2) is None);
        assert(spec_table_get(t, h2) is None);
    } else {
        assert(t.push(e)[0] == t[0]);
        assert(t.push(e).skip(1) =~= t.skip(1).push(e));
        lemma_table_push_frame(t.skip(1), e, h2);
    }
}

/// Replaces the height entry at `i`.
fn height_set(heights: &mut Vec<(Fe, u64)>, i: usize, entry: (Fe, u64))
    requires
        i < old(heights)@.len(),
    ensures
        final(heights)@ == old(heights)@.update(i as int, entry),
{
    heights.set(i, entry);
}

/// Copies a vote list.
fn clone_votes(list: &Vec<Vote>) -> (r: Vec<Vote>)
    ensures
        vote_views(r@) == vote_views(list@),
{
    let m = list.len();
    let mut out: Vec<Vote> = Vec::new();
    let mut k: usize = 0;
    while k < m
        invariant
            m == list@.len(),
            0 <= k <= m,
            out@.len() == k,
            forall|j: int|
                0 <= j < k ==> #[trigger] out@[j].voter@ == list@[j].voter@ && out@[j].block_hash@
                    == list@[j].block_hash@ && out@[j].signature@ == list@[j].signature@,
        decreases m - k,
    {
        let v = vstd::std_specs::vec::vec_index(list, k);
        out.push(Vote {
            voter: v.voter.duplicate(),
            block_hash: v.block_hash.duplicate(),
            signature: copy_bytes(&v.signature),
        });
        k = k + 1;
    }
    proof {
        assert(vote_views(out@) =~= vote_views(list@));
    }
    out
}

/// The registered height of a block hash (first match).
pub open spec fn spec_height_of(t: Seq<(Seq<u8>, u64)>, h: Seq<u8>) -> Option<u64>
    decreases t.len(),
{
    if t.len() == 0 {
        None
    } else if t[0].0 == h {
        Some(t[0].1)
    } else {
        spec_height_of(t.skip(1), h)
    }
}

/// Whether a block hash survives clearing below `bound`: unregistered
/// hashes are kept, registered ones exactly when their height reaches the
/// bound.
pub open spec fn spec_keep(h: Seq<u8>, hts: Seq<(Seq<u8>, u64)>, bound: u64) -> bool {
    match spec_height_of(hts, h) {
        Some(ht) => ht >= bound,
        None => true,
    }
}

/// The vote table with every entry below the bound removed, in order.
pub open spec fn spec_retain_votes(
    t: Seq<(Seq<u8>, Seq<VoteV>)>,
    hts: Seq<(Seq<u8>, u64)>,
    bound: u64,
) -> Seq<(Seq<u8>, Seq<VoteV>)>
    decreases t.len(),
{
    if t.len() == 0 {
        Seq::empty()
    } else {
        (if spec_keep(t[0].0, hts, bound) {
            seq![t[0]]
        } else {
            Seq::empty()
        }) + spec_retain_votes(t.skip(1), hts, bound)
    }
}

/// Height lookup at the first matching index.
pub proof fn lemma_height_at(t: Seq<(Seq<u8>, u64)>, h: Seq<u8>, i: int)
    requires
        0 <= i < t.len(),
        forall|j: int| 0 <= j < i ==> t[j].0 != h,
        t[i].0 == h,
    ensures
        spec_height_of(t, h) == Some(t[i].1),
    decreases i,
{
    if i > 0 {
        lemma_height_at(t.skip(1), h, i - 1);
    }
}

/// Height lookup with no match.
pub proof fn lemma_height_none(t: Seq<(Seq<u8>, u64)>, h: Seq<u8>)
    requires
        forall|j: int| 0 <= j < t.len() ==> t[j].0 != h,
    ensures
        spec_height_of(t, h) is None,
    decreases t.len(),
{
    if t.len() > 0 {
        lemma_height_none(t.skip(1), h);
    }
}

/// Replacing the entry at `i` under the same hash leaves other height
/// lookups unchanged.
pub proof fn lemma_height_set_frame(
    t1: Seq<(Seq<u8>, u64)>,
    t2: Seq<(Seq<u8>, u64)>,
    i: int,
    h2: Seq<u8>,
)
    requires
        t1.len() == t2.len(),
        0 <= i < t1.len(),
        forall|j: int| 0 <= j < t1.len() && j != i ==> t1[j] == t2[j],
        t1[i].0 == t2[i].0,
        t1[i].0 != h2,
    ensures
        spec_height_of(t2, h2) == spec_height_of(t1, h2),
    decreases t1.len(),
{
    if t1.len() > 0 {
        if i == 0 {
            assert(t1.skip(1) =~= t2.skip(1));
        } else {
            assert(t1[0] == t2[0]);
            lemma_height_set_frame(t1.skip(1), t2.skip(1), i - 1, h2);
        }
    }
}

/// Appending a fresh hash leaves other height lookups unchanged.
pub proof fn lemma_height_push_frame(t: Seq<(Seq<u8>, u64)>, e: (Seq<u8>, u64), h2: Seq<u8>)
    requires
        e.0 != h2,
    ensures
        spec_height_of(t.push(e), h2) == spec_height_of(t, h2),
    decreases t.len(),
{
    if t.len() == 0 {
        assert(t.push(e)[0] == e);
        assert(t.push(e).skip(1) =~= Seq::<(Seq<u8>, u64)>::empty());
        assert(spec_height_of(Seq::<(Seq<u8>, u64)>::empty(), h2) is None);
        assert(spec_height_of(t.push(e), h2) is None);
        assert(spec_height_of(t, h2) is None);
    } else {
        assert(t.push(e)[0] == t[0]);
        assert(t.push(e).skip(1) =~= t.skip(1).push(e));
        lemma_height_push_frame(t.skip(1), e, h2);
    }
}

/// Retaining one more entry at the end keeps or drops exactly it.
pub proof fn lemma_retain_snoc(
    t: Seq<(Seq<u8>, Seq<VoteV>)>,
    e: (Seq<u8>, Seq<VoteV>),
    hts: Seq<(Seq<u8>, u64)>,
    bound: u64,
)
    ensures
        spec_retain_votes(t.push(e), hts, bound) == spec_retain_votes(t, hts, bound) + (
        if spec_keep(e.0, hts, bound) {
            seq![e]
        } else {
            Seq::<(Seq<u8>, Seq<VoteV>)>::empty()
        }),
    decreases t.len(),
{
    if t.len() == 0 {
        let tp: Seq<(Seq<u8>, Seq<VoteV>)> = if spec_keep(e.0, hts, bound) {
            seq![e]
        } else {
            Seq::empty()
        };
        assert(t.push(e)[0] == e);
        assert(t.push(e).skip(1) =~= Seq::<(Seq<u8>, Seq<VoteV>)>::empty());
        assert(spec_retain_votes(Seq::<(Seq<u8>, Seq<VoteV>)>::empty(), hts, bound)
            == Seq::<(Seq<u8>, Seq<VoteV>)>::empty());
        assert(spec_retain_votes(t.push(e), hts, bound) == tp + spec_retain_votes(
            t.push(e).skip(1),
            hts,
            bound,
        ));
        assert(tp + Seq::<(Seq<u8>, Seq<VoteV>)>::empty() =~= tp);
        assert(spec_retain_votes(t, hts, bound) == Seq::<(Seq<u8>, Seq<VoteV>)>::empty());
        assert(Seq::<(Seq<u8>, Seq<VoteV>)>::empty() + tp =~= tp);
    } else {
        assert(t.push(e)[0] == t[0]);
        assert(t.push(e).skip(1) =~= t.skip(1).push(e));
        lemma_retain_snoc(t.skip(1), e, hts, bound);
        let hp: Seq<(Seq<u8>, Seq<VoteV>)> = if spec_keep(t[0].0, hts, bound) {
            seq![t[0]]
        } else {
            Seq::empty()
        };
        let tp: Seq<(Seq<u8>, Seq<VoteV>)> = if spec_keep(e.0, hts, bound) {
            seq![e]
        } else {
            Seq::empty()
        };
        assert(spec_retain_votes(t.push(e), hts, bound) == hp + spec_retain_votes(
            t.skip(1).push(e),
            hts,
            bound,
        ));
        assert(spec_retain_votes(t.skip(1).push(e), hts, bound) == spec_retain_votes(
            t.skip(1),
            hts,
            bound,
        ) + tp);
        assert(spec_retain_votes(t, hts, bound) == hp + spec_retain_votes(t.skip(1), hts, bound));
        assert(hp + (spec_retain_votes(t.skip(1), hts, bound) + tp) =~= (hp + spec_retain_votes(
            t.skip(1),
            hts,
            bound,
        )) + tp);
    }
}

/// A hash absent from the table is absent from its retained part.
pub proof fn lemma_retain_keys(
    t: Seq<(Seq<u8>, Seq<VoteV>)>,
    hts: Seq<(Seq<u8>, u64)>,
    bound: u64,
    h: Seq<u8>,
)
    requires
        forall|j: int| 0 <= j < t.len() ==> t[j].0 != h,
    ensures
        forall|a: int|
            0 <= a < spec_retain_votes(t, hts, bound).len() ==> spec_retain_votes(
                t,
                hts,
                bound,
            )[a].0 != h,
    decreases t.len(),
{
    if t.len() > 0 {
        lemma_retain_keys(t.skip(1), hts, bound, h);
        let r = spec_retain_votes(t, hts, bound);
        let rest = spec_retain_votes(t.skip(1), hts, bound);
        if spec_keep(t[0].0, hts, bound) {
            assert(forall|a: int| 0 <= a < r.len() ==> r[a] == (if a == 0 {
                t[0]
            } else {
                rest[a - 1]
            }));
        } else {
            assert(r =~= rest);
        }
    }
}

/// Retention keeps the block hashes pairwise distinct.
pub proof fn lemma_retain_unique(
    t: Seq<(Seq<u8>, Seq<VoteV>)>,
    hts: Seq<(Seq<u8>, u64)>,
    bound: u64,
)
    requires
        forall|i: int, j: int| 0 <= i < j < t.len() ==> t[i].0 != t[j].0,
    ensures
        forall|i: int, j: int|
            0 <= i < j < spec_retain_votes(t, hts, bound).len() ==> spec_retain_votes(
                t,
                hts,
                bound,
            )[i].0 != spec_retain_votes(t, hts, bound)[j].0,
    decreases t.len(),
{
    if t.len() > 0 {
        assert(forall|i: int, j: int|
            0 <= i < j < t.skip(1).len() ==> t.skip(1)[i].0 != t.skip(1)[j].0);
        lemma_retain_unique(t.skip(1), hts, bound);
        let r = spec_retain_votes(t, hts, bound);
        let rest = spec_retain_votes(t.skip(1), hts, bound);
        if spec_keep(t[0].0, hts, bound) {
            assert(forall|j: int| 0 <= j < t.skip(1).len() ==> t.skip(1)[j].0 != t[0].0);
            lemma_retain_keys(t.skip(1), hts, bound, t[0].0);
            assert(forall|a: int| 0 <= a < r.len() ==> r[a] == (if a == 0 {
                t[0]
            } else {
                rest[a - 1]
            }));
        } else {
            assert(r =~= rest);
        }
    }
}

/// Retention keeps each vote list's voters pairwise distinct.
pub proof fn lemma_retain_lists_distinct(
    t: Seq<(Seq<u8>, Seq<VoteV>)>,
    hts: Seq<(Seq<u8>, u64)>,
    bound: u64,
)
    requires
        forall|i: int| 0 <= i < t.len() ==> spec_voters_distinct(#[trigger] t[i].1),
    ensures
        forall|a: int|
            0 <= a < spec_retain_votes(t, hts, bound).len() ==> spec_voters_distinct(
                #[trigger] spec_retain_votes(t, hts, bound)[a].1,
            ),
    decreases t.len(),
{
    if t.len() > 0 {
        assert(forall|i: int|
            0 <= i < t.skip(1).len() ==> spec_voters_distinct(#[trigger] t.skip(1)[i].1));
        lemma_retain_lists_distinct(t.skip(1), hts, bound);
        let r = spec_retain_votes(t, hts, bound);
        let rest = spec_retain_votes(t.skip(1), hts, bound);
        if spec_keep(t[0].0, hts, bound) {
            assert(forall|a: int| 0 <= a < r.len() ==> r[a] == (if a == 0 {
                t[0]
            } else {
                rest[a - 1]
            }));
        } else {
            assert(r =~= rest);
        }
    }
}

/// Retention seen through lookups: a kept hash keeps its list, a cleared
/// one is gone.
pub proof fn lemma_retain_get(
    t: Seq<(Seq<u8>, Seq<VoteV>)>,
    hts: Seq<(Seq<u8>, u64)>,
    bound: u64,
    h: Seq<u8>,
)
    requires
        forall|i: int, j: int| 0 <= i < j < t.len() ==> t[i].0 != t[j].0,
    ensures
        spec_table_get(spec_retain_votes(t, hts, bound), h) == (if spec_keep(h, hts, bound) {
            spec_table_get(t, h)
        } else {
            None
        }),
    decreases t.len(),
{
    let r = spec_retain_votes(t, hts, bound);
    if t.len() == 0 {
        assert(r =~= Seq::<(Seq<u8>, Seq<VoteV>)>::empty());
    } else {
        let rest = spec_retain_votes(t.skip(1), hts, bound);
        assert(forall|i: int, j: int|
            0 <= i < j < t.skip(1).len() ==> t.skip(1)[i].0 != t.skip(1)[j].0);
        if t[0].0 == h {
            if spec_keep(h, hts, bound) {
                assert(r == seq![t[0]] + rest);
                assert(r[0] == t[0]);
                assert(spec_table_get(r, h) == Some(t[0].1));
            } else {
                assert(r =~= rest);
                assert(forall|j: int| 0 <= j < t.skip(1).len() ==> t.skip(1)[j].0 != h);
                lemma_retain_keys(t.skip(1), hts, bound, h);
                lemma_table_get_none(rest, h);
            }
        } else {
            lemma_retain_get(t.skip(1), hts, bound, h);
            if spec_keep(t[0].0, hts, bound) {
                assert(r == seq![t[0]] + rest);
                assert(r[0] == t[0]);
                assert(r.skip(1) =~= rest);
            } else {
                assert(r =~= rest);
            }
        }
    }
}

/// The total weight is non-negative.
pub proof fn lemma_total_weight_nonneg(ws: Seq<(Seq<u8>, u64)>)
    ensures
        spec_total_weight(ws) >= 0,
    decreases ws.len(),
{
    if ws.len() > 0 {
        lemma_total_weight_nonneg(ws.skip(1));
    }
}



} // verus!
