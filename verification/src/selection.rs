//! Stake-weighted, identity-salted validator selection. Each validator is
//! included in the next epoch's committee independently, with probability
//! the product of its stake fraction, its uptime, and an identity weight
//! drawn from its commitment's digest — capped by the selection threshold.
//! Probabilities are held in 1/2^64 fixed point and the draws come from a
//! ChaCha20 stream, so the selected set is a pure function of the
//! validator set and the seed. When too few validators come out, the seed
//! is salted with an incrementing counter and rehashed, up to eight
//! attempts.

use vstd::prelude::*;
use rand::{RngCore, SeedableRng};
use vstd::bytes::{spec_u32_to_le_bytes, spec_u64_from_le_bytes, u32_to_le_bytes,
    u64_from_le_bytes};
use crate::errors::ConsensusError;
use crate::config::{ConsensusConfig, Ratio};
use crate::hash::{sha3_256_of, sha3_256_bytes};
use crate::validator::{Validator, ValidatorV, ValidatorSet, validator_views, spec_total_stake,
    spec_uptime_ppm, lemma_stake_le_total, lemma_total_stake_nonneg};

verus! {

/// The ChaCha20 word stream: the word at position `i` of the stream a
/// 32-byte seed generates.
pub uninterp spec fn chacha64(seed: Seq<u8>, i: int) -> u64;

/// Relies on `rand_chacha::ChaCha20Rng::from_seed` and
/// `rand::RngCore::next_u64`: the word stream is a pure function of the
/// seed, read in order.
#[verifier::external_body]
fn chacha_words(seed: &Vec<u8>, n: usize) -> (r: Vec<u64>)
    requires
        seed@.len() == 32,
    ensures
        r@.len() == n,
        forall|i: int| 0 <= i < n ==> r@[i] == chacha64(seed@, i),
{
    let mut arr = [0u8; 32];
    arr.copy_from_slice(seed);
    let mut rng = rand_chacha::ChaCha20Rng::from_seed(arr);
    let mut out = Vec::with_capacity(n);
    for _ in 0..n {
        out.push(rng.next_u64());
    }
    out
}

/// The identity weight of a commitment: the first eight bytes of its
/// digest, read little-endian, in units of 1/2^64.
pub open spec fn spec_identity_weight(commitment: Seq<u8>) -> int {
    spec_u64_from_le_bytes(sha3_256_of(commitment).subrange(0, 8)) as int
}

/// The selection probability of a validator, in units of 1/2^64: stake
/// fraction times identity weight times uptime, capped by the threshold.
pub open spec fn spec_p_x64(v: ValidatorV, total: int, thr: Ratio) -> int {
    if total <= 0 {
        0int
    } else {
        let stake_x64 = v.stake * 0x1_0000_0000_0000_0000 / total;
        let with_id = stake_x64 * spec_identity_weight(v.identity_commitment)
            / 0x1_0000_0000_0000_0000;
        let with_up = with_id * spec_uptime_ppm(v.blocks_produced, v.blocks_missed) / 1000000;
        let cap = (thr.num as int) * 0x1_0000_0000_0000_0000 / (thr.den as int);
        if with_up <= cap {
            with_up
        } else {
            cap
        }
    }
}

/// The validators selected from index `i` on, under the given attempt
/// seed: each is included exactly when its draw falls below its
/// probability.
pub open spec fn spec_select_from(
    vals: Seq<ValidatorV>,
    total: int,
    seed: Seq<u8>,
    thr: Ratio,
    i: int,
) -> Seq<ValidatorV>
    decreases vals.len() - i,
{
    if i < 0 || i >= vals.len() {
        Seq::empty()
    } else {
        (if chacha64(seed, i) < spec_p_x64(vals[i], total, thr) {
            seq![vals[i]]
        } else {
            Seq::empty()
        }) + spec_select_from(vals, total, seed, thr, i + 1)
    }
}

/// The seed of attempt `k`: the digest of the base seed followed by the
/// attempt counter, little-endian.
pub open spec fn spec_attempt_seed(seed: Seq<u8>, k: u32) -> Seq<u8> {
    sha3_256_of(seed + spec_u32_to_le_bytes(k))
}

/// The result of the attempts from `k` on: the first attempt that selects
/// at least `min_validators`, or nothing after the eighth.
pub open spec fn spec_select_rounds(
    vals: Seq<ValidatorV>,
    total: int,
    seed: Seq<u8>,
    thr: Ratio,
    min_validators: int,
    k: int,
) -> Option<Seq<ValidatorV>>
    decreases 8 - k,
{
    if k < 0 || k >= 8 {
        None
    } else {
        let sel = spec_select_from(vals, total, spec_attempt_seed(seed, k as u32), thr, 0);
        if sel.len() >= min_validators {
            Some(sel)
        } else {
            spec_select_rounds(vals, total, seed, thr, min_validators, k + 1)
        }
    }
}

/// An identifier absent from the remaining validators is absent from
/// their selection.
pub proof fn lemma_select_keys(
    vals: Seq<ValidatorV>,
    total: int,
    seed: Seq<u8>,
    thr: Ratio,
    i: int,
    id: Seq<u8>,
)
    requires
        forall|j: int| i <= j < vals.len() ==> vals[j].id != id,
    ensures
        forall|a: int|
            0 <= a < spec_select_from(vals, total, seed, thr, i).len() ==> spec_select_from(
                vals,
                total,
                seed,
                thr,
                i,
            )[a].id != id,
    decreases vals.len() - i,
{
    if 0 <= i < vals.len() {
        lemma_select_keys(vals, total, seed, thr, i + 1, id);
        let r = spec_select_from(vals, total, seed, thr, i);
        let rest = spec_select_from(vals, total, seed, thr, i + 1);
        if chacha64(seed, i) < spec_p_x64(vals[i], total, thr) {
            assert(forall|a: int| 0 <= a < r.len() ==> r[a] == (if a == 0 {
                vals[i]
            } else {
                rest[a - 1]
            }));
        } else {
            assert(r =~= rest);
        }
    }
}

/// With pairwise-distinct validators, the selection is pairwise distinct.
pub proof fn lemma_select_unique(
    vals: Seq<ValidatorV>,
    total: int,
    seed: Seq<u8>,
    thr: Ratio,
    i: int,
)
    requires
        forall|a: int, b: int| 0 <= a < b < vals.len() ==> vals[a].id != vals[b].id,
        0 <= i,
    ensures
        forall|a: int, b: int|
            0 <= a < b < spec_select_from(vals, total, seed, thr, i).len() ==> spec_select_from(
                vals,
                total,
                seed,
                thr,
                i,
            )[a].id != spec_select_from(vals, total, seed, thr, i)[b].id,
    decreases vals.len() - i,
{
    if i < vals.len() {
        lemma_select_unique(vals, total, seed, thr, i + 1);
        let r = spec_select_from(vals, total, seed, thr, i);
        let rest = spec_select_from(vals, total, seed, thr, i + 1);
        if chacha64(seed, i) < spec_p_x64(vals[i], total, thr) {
            assert(forall|j: int| i + 1 <= j < vals.len() ==> vals[j].id != vals[i].id);
            lemma_select_keys(vals, total, seed, thr, i + 1, vals[i].id);
            assert(forall|a: int| 0 <= a < r.len() ==> r[a] == (if a == 0 {
                vals[i]
            } else {
                rest[a - 1]
            }));
        } else {
            assert(r =~= rest);
        }
    }
}

/// A selection's stakes sum to at most the remaining validators' stakes.
pub proof fn lemma_select_sum(
    vals: Seq<ValidatorV>,
    total: int,
    seed: Seq<u8>,
    thr: Ratio,
    i: int,
)
    requires
        0 <= i <= vals.len(),
    ensures
        spec_total_stake(spec_select_from(vals, total, seed, thr, i)) <= spec_total_stake(
            vals.skip(i),
        ),
    decreases vals.len() - i,
{
    if i >= vals.len() {
        assert(vals.skip(i) =~= Seq::<ValidatorV>::empty());
        assert(spec_total_stake(Seq::<ValidatorV>::empty()) == 0);
    } else {
        lemma_select_sum(vals, total, seed, thr, i + 1);
        let r = spec_select_from(vals, total, seed, thr, i);
        let rest = spec_select_from(vals, total, seed, thr, i + 1);
        assert(vals.skip(i)[0] == vals[i]);
        assert(vals.skip(i).skip(1) =~= vals.skip(i + 1));
        assert(spec_total_stake(vals.skip(i)) == vals[i].stake + spec_total_stake(
            vals.skip(i + 1),
        ));
        if chacha64(seed, i) < spec_p_x64(vals[i], total, thr) {
            assert(r == seq![vals[i]] + rest);
            assert(r[0] == vals[i]);
            assert(r.skip(1) =~= rest);
            assert(spec_total_stake(r) == vals[i].stake + spec_total_stake(rest));
        } else {
            assert(r =~= rest);
        }
    }
}

/// Stake-weighted validator selection.
pub struct ValidatorSelector {
    config: ConsensusConfig,
}

impl ValidatorSelector {
    pub closed spec fn spec_config(&self) -> ConsensusConfig {
        self.config
    }

    /// A selector with the given configuration.
    pub fn new(config: ConsensusConfig) -> (r: ValidatorSelector)
        requires
            config.wf(),
        ensures
            r.spec_config() == config,
            r.spec_config().wf(),
    {
        ValidatorSelector { config }
    }

    /// Selects the next epoch's committee from the current set under the
    /// given seed. The outcome is a pure function of the validator set
    /// and the seed: the first of up to eight salted attempts that yields
    /// at least the minimum number of validators, or a selection error
    /// when none does.
    pub fn select_next_validators(&self, validators: &ValidatorSet, seed: &Vec<u8>) -> (r: Result<
        ValidatorSet,
        ConsensusError,
    >)
        requires
            validators.wf(),
            self.spec_config().wf(),
        ensures
            ({
                let rounds = spec_select_rounds(
                    validators.spec_validators(),
                    validators.spec_total() as int,
                    seed@,
                    self.spec_config().selection_threshold,
                    self.spec_config().min_validators as int,
                    0,
                );
                &&& (r is Ok <==> rounds is Some)
                &&& (r matches Ok(s) ==> rounds matches Some(sel) && s.spec_validators() == sel
                    && s.wf())
            }),
    {
        let ghost vals = validators.spec_validators();
        let ghost total_g = validators.spec_total() as int;
        let ghost thr = self.spec_config().selection_threshold;
        let ghost min_g = self.spec_config().min_validators as int;
        let mut k: u32 = 0;
        while k < 8
            invariant
                validators.wf(),
                self.spec_config().wf(),
                vals == validators.spec_validators(),
                total_g == validators.spec_total() as int,
                thr == self.spec_config().selection_threshold,
                min_g == self.spec_config().min_validators as int,
                0 <= k <= 8,
                spec_select_rounds(vals, total_g, seed@, thr, min_g, 0) == spec_select_rounds(
                    vals,
                    total_g,
                    seed@,
                    thr,
                    min_g,
                    k as int,
                ),
            decreases 8 - k,
        {
            let selected = self.attempt(validators, seed, k);
            proof {
                assert(validator_views(selected@) == spec_select_from(
                    vals,
                    total_g,
                    spec_attempt_seed(seed@, k),
                    thr,
                    0,
                ));
            }
            if selected.len() >= self.config.min_validators {
                let ghost sel = validator_views(selected@);
                proof {
                    let aseed = spec_attempt_seed(seed@, k);
                    lemma_select_unique(vals, total_g, aseed, thr, 0);
                    assert forall|a: int, b: int|
                        0 <= a < b < selected@.len() implies #[trigger] selected@[a]@.id
                        != #[trigger] selected@[b]@.id by {
                        assert(sel[a] == selected@[a]@ && sel[b] == selected@[b]@);
                    }
                    lemma_select_sum(vals, total_g, aseed, thr, 0);
                    assert(vals.skip(0) =~= vals);
                    assert(spec_total_stake(sel) <= validators.spec_total());
                }
                match ValidatorSet::from_members(selected) {
                    Ok(s) => {
                        proof {
                            assert(spec_select_rounds(vals, total_g, seed@, thr, min_g, k as int)
                                == Some(sel));
                        }
                        return Ok(s);
                    },
                    Err(_) => {
                        proof {
                            assert(false);
                        }
                        return Err(ConsensusError::SelectionError(
                            "selected set is malformed".to_string(),
                        ));
                    },
                }
            }
            k = k + 1;
        }
        Err(ConsensusError::SelectionError("Insufficient validators selected".to_string()))
    }

    /// Runs one selection attempt under the salted seed.
    fn attempt(&self, validators: &ValidatorSet, seed: &Vec<u8>, k: u32) -> (r: Vec<Validator>)
        requires
            validators.wf(),
            self.spec_config().wf(),
        ensures
            validator_views(r@) == spec_select_from(
                validators.spec_validators(),
                validators.spec_total() as int,
                spec_attempt_seed(seed@, k),
                self.spec_config().selection_threshold,
                0,
            ),
    {
        let ghost vals = validators.spec_validators();
        let ghost total_g = validators.spec_total() as int;
        let ghost thr = self.spec_config().selection_threshold;
        let mut salted: Vec<u8> = Vec::new();
        salted.extend_from_slice(seed.as_slice());
        let mut kb = u32_to_le_bytes(k);
        salted.append(&mut kb);
        proof {
            assert(salted@ =~= seed@ + spec_u32_to_le_bytes(k));
        }
        let derived = sha3_256_bytes(salted.as_slice());
        let ghost aseed = spec_attempt_seed(seed@, k);
        let n = validators.len();
        let draws = chacha_words(&derived, n);
        let total = validators.total_stake();
        let mut out: Vec<Validator> = Vec::new();
        let mut i: usize = 0;
        while i < n
            invariant
                validators.wf(),
                self.spec_config().wf(),
                vals == validators.spec_validators(),
                total_g == validators.spec_total() as int,
                thr == self.spec_config().selection_threshold,
                vals.len() == n,
                total == validators.spec_total(),
                draws@.len() == n,
                forall|j: int| 0 <= j < n ==> draws@[j] == chacha64(aseed, j),
                0 <= i <= n,
                validator_views(out@) + spec_select_from(vals, total_g, aseed, thr, i as int)
                    == spec_select_from(vals, total_g, aseed, thr, 0),
            decreases n - i,
        {
            let v = validators.validator_at(i);
            let take = self.below_probability(draws[i], v, total, i, validators);
            let ghost old_out = validator_views(out@);
            if take {
                out.push(v.duplicate());
            }
            proof {
                let elem: Seq<ValidatorV> = if chacha64(aseed, i as int) < spec_p_x64(
                    vals[i as int],
                    total_g,
                    thr,
                ) {
                    seq![vals[i as int]]
                } else {
                    Seq::empty()
                };
                let rest = spec_select_from(vals, total_g, aseed, thr, i + 1);
                assert(spec_select_from(vals, total_g, aseed, thr, i as int) == elem + rest);
                if take {
                    assert(validator_views(out@) =~= old_out + elem);
                } else {
                    assert(validator_views(out@) =~= old_out + elem);
                }
                assert((old_out + elem) + rest =~= old_out + (elem + rest));
            }
            i = i + 1;
        }
        proof {
            assert(spec_select_from(vals, total_g, aseed, thr, n as int) =~= Seq::<
                ValidatorV,
            >::empty());
            assert(validator_views(out@) + Seq::<ValidatorV>::empty() =~= validator_views(out@));
        }
        out
    }

    /// Whether a draw falls below the validator's selection probability.
    fn below_probability(
        &self,
        draw: u64,
        v: &Validator,
        total: u64,
        i: usize,
        validators: &ValidatorSet,
    ) -> (r: bool)
        requires
            validators.wf(),
            self.spec_config().wf(),
            i < validators.spec_validators().len(),
            v@ == validators.spec_validators()[i as int],
            total == validators.spec_total(),
        ensures
            r == (draw < spec_p_x64(
                v@,
                total as int,
                self.spec_config().selection_threshold,
            )),
    {
        if total == 0 {
            return false;
        }
        proof {
            lemma_stake_le_total(validators.spec_validators(), i as int);
        }
        let digest = sha3_256_bytes(v.identity_commitment.as_bytes().as_slice());
        let head = vstd::slice::slice_subrange(digest.as_slice(), 0, 8);
        let idw = u64_from_le_bytes(head);
        let up = v.performance.uptime_ppm();
        let stake_x64: u128 = (v.stake as u128) * 0x1_0000_0000_0000_0000u128 / (total as u128);
        proof {
            vstd::arithmetic::div_mod::lemma_div_is_ordered(
                (v.stake as int) * 0x1_0000_0000_0000_0000int,
                (total as int) * 0x1_0000_0000_0000_0000int,
                total as int,
            );
            assert((v.stake as int) * 0x1_0000_0000_0000_0000 <= (total as int)
                * 0x1_0000_0000_0000_0000) by (nonlinear_arith)
                requires
                    0 <= v.stake <= total,
            ;
            vstd::arithmetic::div_mod::lemma_div_multiples_vanish(
                0x1_0000_0000_0000_0000int,
                total as int,
            );
            assert((total as int) * 0x1_0000_0000_0000_0000 == (total as int)
                * 0x1_0000_0000_0000_0000);
            assert(stake_x64 <= 0x1_0000_0000_0000_0000) by {
                assert((total as int) * 0x1_0000_0000_0000_0000 / (total as int)
                    == 0x1_0000_0000_0000_0000);
            }
        }
        proof {
            assert((stake_x64 as int) * (idw as int) <= 0x1_0000_0000_0000_0000
                * 0xffff_ffff_ffff_ffff) by (nonlinear_arith)
                requires
                    0 <= stake_x64 <= 0x1_0000_0000_0000_0000,
                    0 <= idw <= 0xffff_ffff_ffff_ffff,
            ;
        }
        let with_id: u128 = stake_x64 * (idw as u128) / 0x1_0000_0000_0000_0000u128;
        proof {
            vstd::arithmetic::div_mod::lemma_div_is_ordered(
                (stake_x64 as int) * (idw as int),
                0x1_0000_0000_0000_0000int * 0xffff_ffff_ffff_ffffint,
                0x1_0000_0000_0000_0000int,
            );
            vstd::arithmetic::div_mod::lemma_div_multiples_vanish(
                0xffff_ffff_ffff_ffffint,
                0x1_0000_0000_0000_0000int,
            );
            assert(with_id <= 0xffff_ffff_ffff_ffff);
            assert((with_id as int) * (up as int) <= 0xffff_ffff_ffff_ffff * 1000000)
                by (nonlinear_arith)
                requires
                    0 <= with_id <= 0xffff_ffff_ffff_ffff,
                    0 <= up <= 1000000,
            ;
        }
        let with_up: u128 = with_id * (up as u128) / 1000000u128;
        let num = self.config.selection_threshold.num;
        let den = self.config.selection_threshold.den;
        let cap: u128 = (num as u128) * 0x1_0000_0000_0000_0000u128 / (den as u128);
        let p = if with_up <= cap {
            with_up
        } else {
            cap
        };
        proof {
            assert(digest@.subrange(0, 8) == sha3_256_of(v@.identity_commitment).subrange(0, 8));
        }
        (draw as u128) < p
    }
}

/// Selection is deterministic: the same validator set and seed always
/// yield the same selected committee.
pub proof fn lemma_selection_deterministic(
    vals: Seq<ValidatorV>,
    total: int,
    seed: Seq<u8>,
    thr: Ratio,
    min_validators: int,
    r1: Option<Seq<ValidatorV>>,
    r2: Option<Seq<ValidatorV>>,
)
    requires
        r1 == spec_select_rounds(vals, total, seed, thr, min_validators, 0),
        r2 == spec_select_rounds(vals, total, seed, thr, min_validators, 0),
    ensures
        r1 == r2,
{
}

} // verus!
