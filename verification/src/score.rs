//! The weighted scoring kernel: normalisation and per-criterion scores.
//!
//! A criterion value is normalised into `[0, SCALE]` fixed point against a
//! `[min, max]` interval, multiplied by the user's weight for the criterion
//! (0 to 9), and the ten scores summed.  Two interval spaces occur: limits
//! derived from the statistical boards carry plain values, while
//! user-supplied intervals carry fixed-point values (nine decimal places),
//! so each has its own normaliser.

use vstd::prelude::*;
use vstd::arithmetic::div_mod::{lemma_div_is_ordered, lemma_div_multiples_vanish,
    lemma_fundamental_div_mod};
use crate::stats::SCALE;
use crate::types::{ValidatorRecord, ValidatorRecordV};
use crate::wide::frac_scaled;

verus! {

/// Nominator count beyond which a validator is oversubscribed.
pub const NOMINATORS_OVERSUBSCRIBED_THRESHOLD: u32 = 256;

/// One commission unit: parts per billion of the reward.
pub const COMMISSION_PLANCK: u32 = 1_000_000_000;

/// `[min, max]` bounds for one criterion, in fixed point (nine decimal
/// places) when user-supplied.
#[derive(Clone, Copy, Debug, PartialEq, Eq, Structural)]
pub struct Interval {
    pub min: u128,
    pub max: u128,
}

impl View for Interval {
    type V = Interval;

    open spec fn view(&self) -> Interval {
        *self
    }
}

impl Default for Interval {
    fn default() -> (r: Interval)
        ensures
            r == (Interval { min: 0u128, max: 0u128 }),
    {
        Interval { min: 0, max: 0 }
    }
}

/// The ten per-criterion bounds a board is scored against, in criterion
/// order: inclusion rate, commission, nominators, average reward points,
/// reward staked, active, own stake, total stake, judgements, sub-accounts.
#[derive(Clone, Copy, Debug, PartialEq, Eq, Structural)]
pub struct BoardLimits {
    pub inclusion_rate: Interval,
    pub commission: Interval,
    pub nominators: Interval,
    pub avg_reward_points: Interval,
    pub reward_staked: Interval,
    pub active: Interval,
    pub own_stake: Interval,
    pub total_stake: Interval,
    pub judgements: Interval,
    pub sub_accounts: Interval,
}

impl View for BoardLimits {
    type V = BoardLimits;

    open spec fn view(&self) -> BoardLimits {
        *self
    }
}

impl Default for BoardLimits {
    fn default() -> (r: BoardLimits)
        ensures
            r == (BoardLimits {
                inclusion_rate: Interval { min: 0u128, max: 0u128 },
                commission: Interval { min: 0u128, max: 0u128 },
                nominators: Interval { min: 0u128, max: 0u128 },
                avg_reward_points: Interval { min: 0u128, max: 0u128 },
                reward_staked: Interval { min: 0u128, max: 0u128 },
                active: Interval { min: 0u128, max: 0u128 },
                own_stake: Interval { min: 0u128, max: 0u128 },
                total_stake: Interval { min: 0u128, max: 0u128 },
                judgements: Interval { min: 0u128, max: 0u128 },
                sub_accounts: Interval { min: 0u128, max: 0u128 },
            }),
    {
        BoardLimits {
            inclusion_rate: Interval { min: 0, max: 0 },
            commission: Interval { min: 0, max: 0 },
            nominators: Interval { min: 0, max: 0 },
            avg_reward_points: Interval { min: 0, max: 0 },
            reward_staked: Interval { min: 0, max: 0 },
            active: Interval { min: 0, max: 0 },
            own_stake: Interval { min: 0, max: 0 },
            total_stake: Interval { min: 0, max: 0 },
            judgements: Interval { min: 0, max: 0 },
            sub_accounts: Interval { min: 0, max: 0 },
        }
    }
}

impl BoardLimits {
    /// The ten user intervals as board limits: entry `i` bounds criterion
    /// `i`, and a missing entry leaves the default empty interval.
    pub fn from(data: &Vec<Interval>) -> (r: BoardLimits)
        ensures
            r == (BoardLimits {
                inclusion_rate: interval_or_default(data@, 0),
                commission: interval_or_default(data@, 1),
                nominators: interval_or_default(data@, 2),
                avg_reward_points: interval_or_default(data@, 3),
                reward_staked: interval_or_default(data@, 4),
                active: interval_or_default(data@, 5),
                own_stake: interval_or_default(data@, 6),
                total_stake: interval_or_default(data@, 7),
                judgements: interval_or_default(data@, 8),
                sub_accounts: interval_or_default(data@, 9),
            }),
    {
        BoardLimits {
            inclusion_rate: interval_at(data, 0),
            commission: interval_at(data, 1),
            nominators: interval_at(data, 2),
            avg_reward_points: interval_at(data, 3),
            reward_staked: interval_at(data, 4),
            active: interval_at(data, 5),
            own_stake: interval_at(data, 6),
            total_stake: interval_at(data, 7),
            judgements: interval_at(data, 8),
            sub_accounts: interval_at(data, 9),
        }
    }
}

/// The interval at the index, or the default when the list is shorter.
pub open spec fn interval_or_default(s: Seq<Interval>, i: int) -> Interval {
    if 0 <= i < s.len() {
        s[i]
    } else {
        Interval { min: 0, max: 0 }
    }
}

fn interval_at(data: &Vec<Interval>, i: usize) -> (r: Interval)
    ensures
        r == interval_or_default(data@, i as int),
{
    if i < data.len() {
        data[i]
    } else {
        Interval { min: 0, max: 0 }
    }
}

/// Normalisation against plain-value bounds: 0 when the value is zero or
/// below the bounds, `SCALE` above them, else the position inside the
/// interval in fixed point (and 0 for an empty interval).
pub open spec fn spec_norm(v: int, lo: int, hi: int) -> int {
    if v == 0 || v < lo {
        0
    } else if v > hi {
        SCALE as int
    } else if hi <= lo {
        0
    } else {
        (v - lo) * (SCALE as int) / (hi - lo)
    }
}

/// Normalisation of a plain value against fixed-point bounds.
pub open spec fn spec_norm_scaled(v: int, lo: int, hi: int) -> int {
    if v == 0 || v * (SCALE as int) < lo {
        0
    } else if v * (SCALE as int) > hi {
        SCALE as int
    } else if hi <= lo {
        0
    } else {
        (v * (SCALE as int) - lo) * (SCALE as int) / (hi - lo)
    }
}

/// 1 in fixed point for a set flag, 0 otherwise.
pub open spec fn spec_flag(b: bool) -> int {
    if b {
        SCALE as int
    } else {
        0
    }
}

/// Normalizes a value between plain-value bounds.
pub fn normalize_value(value: u128, min: u128, max: u128) -> (r: u64)
    ensures
        r == spec_norm(value as int, min as int, max as int),
        r <= SCALE,
{
    if value == 0 || value < min {
        0
    } else if value > max {
        SCALE
    } else if max <= min {
        0
    } else {
        frac_scaled(value - min, max - min)
    }
}

/// Reverse normalization: high values score low.
pub fn reverse_normalize_value(value: u128, min: u128, max: u128) -> (r: u64)
    ensures
        r == SCALE - spec_norm(value as int, min as int, max as int),
        r <= SCALE,
{
    SCALE - normalize_value(value, min, max)
}

/// `value * SCALE < bound`, exactly, for any `u128` value.
pub fn scaled_lt(value: u128, bound: u128) -> (r: bool)
    ensures
        r == (value * SCALE < bound),
{
    let cap = u128::MAX / (SCALE as u128);
    proof {
        lemma_scale_cap(value as int);
    }
    if value > cap {
        false
    } else {
        value * (SCALE as u128) < bound
    }
}

/// `value * SCALE > bound`, exactly, for any `u128` value.
pub fn scaled_gt(value: u128, bound: u128) -> (r: bool)
    ensures
        r == (value * SCALE > bound),
{
    let cap = u128::MAX / (SCALE as u128);
    proof {
        lemma_scale_cap(value as int);
    }
    if value > cap {
        true
    } else {
        value * (SCALE as u128) > bound
    }
}

/// A value above `u128::MAX / SCALE` overflows when scaled; one at or below
/// it does not.
proof fn lemma_scale_cap(v: int)
    ensures
        v > (u128::MAX as int) / (SCALE as int) ==> v * (SCALE as int) > u128::MAX,
        0 <= v <= (u128::MAX as int) / (SCALE as int) ==> v * (SCALE as int) <= u128::MAX,
{
    let cap = (u128::MAX as int) / (SCALE as int);
    lemma_fundamental_div_mod(u128::MAX as int, SCALE as int);
    if v > cap {
        assert(v * (SCALE as int) >= (cap + 1) * (SCALE as int)) by (nonlinear_arith)
            requires
                v >= cap + 1,
                SCALE > 0,
        ;
        assert((cap + 1) * (SCALE as int) > u128::MAX) by (nonlinear_arith)
            requires
                u128::MAX == (SCALE as int) * cap + (u128::MAX as int) % (SCALE as int),
                (u128::MAX as int) % (SCALE as int) < SCALE,
        ;
    } else if 0 <= v {
        assert(v * (SCALE as int) <= cap * (SCALE as int)) by (nonlinear_arith)
            requires
                0 <= v <= cap,
                SCALE > 0,
        ;
        assert(cap * (SCALE as int) <= u128::MAX) by (nonlinear_arith)
            requires
                u128::MAX == (SCALE as int) * cap + (u128::MAX as int) % (SCALE as int),
                (u128::MAX as int) % (SCALE as int) >= 0,
        ;
    }
}

/// Normalizes a plain value between fixed-point bounds.
pub fn normalize_value_scaled(value: u128, min: u128, max: u128) -> (r: u64)
    ensures
        r == spec_norm_scaled(value as int, min as int, max as int),
        r <= SCALE,
{
    if value == 0 {
        return 0;
    }
    if scaled_lt(value, min) {
        return 0;
    }
    if scaled_gt(value, max) {
        return SCALE;
    }
    if max <= min {
        return 0;
    }
    proof {
        lemma_scale_cap(value as int);
        assert(value * (SCALE as int) >= 0) by (nonlinear_arith)
            requires
                value >= 0,
        ;
    }
    let p = value * (SCALE as u128);
    frac_scaled(p - min, max - min)
}

/// Reverse normalization between fixed-point bounds.
pub fn reverse_normalize_value_scaled(value: u128, min: u128, max: u128) -> (r: u64)
    ensures
        r == SCALE - spec_norm_scaled(value as int, min as int, max as int),
        r <= SCALE,
{
    SCALE - normalize_value_scaled(value, min, max)
}

/// Normalizes a boolean flag to fixed-point 1 or 0.
pub fn normalize_flag(flag: bool) -> (r: u64)
    ensures
        r == spec_flag(flag),
        r <= SCALE,
{
    if flag {
        SCALE
    } else {
        0
    }
}

/// Score of criterion `i` against limits in plain-value space (the limits
/// derived from the statistical boards).
pub open spec fn score_at(v: ValidatorRecordV, l: BoardLimits, w: Seq<u32>, i: int) -> int {
    if i == 0 {
        spec_norm(
            v.inclusion_rate_scaled as int,
            l.inclusion_rate.min as int,
            l.inclusion_rate.max as int,
        ) * w[0]
    } else if i == 1 {
        ((SCALE as int) - spec_norm(
            v.commission as int,
            l.commission.min as int,
            l.commission.max as int,
        )) * w[1]
    } else if i == 2 {
        ((SCALE as int) - spec_norm(
            v.nominators as int,
            l.nominators.min as int,
            l.nominators.max as int,
        )) * w[2]
    } else if i == 3 {
        spec_norm(
            v.avg_reward_points_scaled as int,
            l.avg_reward_points.min as int,
            l.avg_reward_points.max as int,
        ) * w[3]
    } else if i == 4 {
        spec_flag(v.reward_staked) * w[4]
    } else if i == 5 {
        spec_flag(v.active) * w[5]
    } else if i == 6 {
        spec_norm(v.own_stake as int, l.own_stake.min as int, l.own_stake.max as int) * w[6]
    } else if i == 7 {
        ((SCALE as int) - spec_norm(
            v.own_stake + v.nominators_stake,
            l.total_stake.min as int,
            l.total_stake.max as int,
        )) * w[7]
    } else if i == 8 {
        spec_norm(v.judgements as int, l.judgements.min as int, l.judgements.max as int) * w[8]
    } else if i == 9 {
        ((SCALE as int) - spec_norm(
            v.sub_accounts as int,
            l.sub_accounts.min as int,
            l.sub_accounts.max as int,
        )) * w[9]
    } else {
        0
    }
}

/// Score of criterion `i` against user intervals in fixed-point space.
pub open spec fn score_at_scaled(v: ValidatorRecordV, l: BoardLimits, w: Seq<u32>, i: int) -> int {
    if i == 0 {
        spec_norm(
            v.inclusion_rate_scaled as int,
            l.inclusion_rate.min as int,
            l.inclusion_rate.max as int,
        ) * w[0]
    } else if i == 1 {
        ((SCALE as int) - spec_norm_scaled(
            v.commission as int,
            l.commission.min as int,
            l.commission.max as int,
        )) * w[1]
    } else if i == 2 {
        ((SCALE as int) - spec_norm_scaled(
            v.nominators as int,
            l.nominators.min as int,
            l.nominators.max as int,
        )) * w[2]
    } else if i == 3 {
        spec_norm(
            v.avg_reward_points_scaled as int,
            l.avg_reward_points.min as int,
            l.avg_reward_points.max as int,
        ) * w[3]
    } else if i == 4 {
        spec_flag(v.reward_staked) * w[4]
    } else if i == 5 {
        spec_flag(v.active) * w[5]
    } else if i == 6 {
        spec_norm_scaled(v.own_stake as int, l.own_stake.min as int, l.own_stake.max as int)
            * w[6]
    } else if i == 7 {
        ((SCALE as int) - spec_norm_scaled(
            v.own_stake + v.nominators_stake,
            l.total_stake.min as int,
            l.total_stake.max as int,
        )) * w[7]
    } else if i == 8 {
        spec_norm_scaled(v.judgements as int, l.judgements.min as int, l.judgements.max as int)
            * w[8]
    } else if i == 9 {
        ((SCALE as int) - spec_norm_scaled(
            v.sub_accounts as int,
            l.sub_accounts.min as int,
            l.sub_accounts.max as int,
        )) * w[9]
    } else {
        0
    }
}

/// Well-formed weights: one weight of at most 9 per criterion.
pub open spec fn weights_ok(w: Seq<u32>) -> bool {
    w.len() == 10 && forall|i: int| 0 <= i < 10 ==> w[i] <= 9
}

/// A validator record whose two stake attributes can be summed.
pub open spec fn stakes_ok(v: ValidatorRecordV) -> bool {
    v.own_stake + v.nominators_stake <= u128::MAX
}

/// The ten per-criterion scores against plain-value limits.
pub fn calculate_scores(validator: &ValidatorRecord, limits: &BoardLimits, weights: &Vec<u32>)
    -> (r: Vec<u64>)
    requires
        weights_ok(weights@),
        stakes_ok(validator@),
    ensures
        r@.len() == 10,
        forall|i: int| 0 <= i < 10 ==> r@[i] == score_at(validator@, *limits, weights@, i),
        forall|i: int| 0 <= i < 10 ==> r@[i] <= 9 * (SCALE as int),
{
    let mut scores: Vec<u64> = Vec::new();
    let n0 = normalize_value(
        validator.inclusion_rate_scaled as u128,
        limits.inclusion_rate.min,
        limits.inclusion_rate.max,
    );
    scores.push(weighted(n0, weights[0]));
    let n1 = reverse_normalize_value(
        validator.commission as u128,
        limits.commission.min,
        limits.commission.max,
    );
    scores.push(weighted(n1, weights[1]));
    let n2 = reverse_normalize_value(
        validator.nominators as u128,
        limits.nominators.min,
        limits.nominators.max,
    );
    scores.push(weighted(n2, weights[2]));
    let n3 = normalize_value(
        validator.avg_reward_points_scaled as u128,
        limits.avg_reward_points.min,
        limits.avg_reward_points.max,
    );
    scores.push(weighted(n3, weights[3]));
    let n4 = normalize_flag(validator.reward_staked);
    scores.push(weighted(n4, weights[4]));
    let n5 = normalize_flag(validator.active);
    scores.push(weighted(n5, weights[5]));
    let n6 = normalize_value(validator.own_stake, limits.own_stake.min, limits.own_stake.max);
    scores.push(weighted(n6, weights[6]));
    let n7 = reverse_normalize_value(
        validator.own_stake + validator.nominators_stake,
        limits.total_stake.min,
        limits.total_stake.max,
    );
    scores.push(weighted(n7, weights[7]));
    let n8 = normalize_value(
        validator.judgements as u128,
        limits.judgements.min,
        limits.judgements.max,
    );
    scores.push(weighted(n8, weights[8]));
    let n9 = reverse_normalize_value(
        validator.sub_accounts as u128,
        limits.sub_accounts.min,
        limits.sub_accounts.max,
    );
    scores.push(weighted(n9, weights[9]));
    scores
}

/// The ten per-criterion scores against user intervals in fixed point.
pub fn calculate_scores_scaled(
    validator: &ValidatorRecord,
    limits: &BoardLimits,
    weights: &Vec<u32>,
) -> (r: Vec<u64>)
    requires
        weights_ok(weights@),
        stakes_ok(validator@),
    ensures
        r@.len() == 10,
        forall|i: int| 0 <= i < 10 ==> r@[i] == score_at_scaled(validator@, *limits, weights@, i),
        forall|i: int| 0 <= i < 10 ==> r@[i] <= 9 * (SCALE as int),
{
    let mut scores: Vec<u64> = Vec::new();
    let n0 = normalize_value(
        validator.inclusion_rate_scaled as u128,
        limits.inclusion_rate.min,
        limits.inclusion_rate.max,
    );
    scores.push(weighted(n0, weights[0]));
    let n1 = reverse_normalize_value_scaled(
        validator.commission as u128,
        limits.commission.min,
        limits.commission.max,
    );
    scores.push(weighted(n1, weights[1]));
    let n2 = reverse_normalize_value_scaled(
        validator.nominators as u128,
        limits.nominators.min,
        limits.nominators.max,
    );
    scores.push(weighted(n2, weights[2]));
    let n3 = normalize_value(
        validator.avg_reward_points_scaled as u128,
        limits.avg_reward_points.min,
        limits.avg_reward_points.max,
    );
    scores.push(weighted(n3, weights[3]));
    let n4 = normalize_flag(validator.reward_staked);
    scores.push(weighted(n4, weights[4]));
    let n5 = normalize_flag(validator.active);
    scores.push(weighted(n5, weights[5]));
    let n6 = normalize_value_scaled(
        validator.own_stake,
        limits.own_stake.min,
        limits.own_stake.max,
    );
    scores.push(weighted(n6, weights[6]));
    let n7 = reverse_normalize_value_scaled(
        validator.own_stake + validator.nominators_stake,
        limits.total_stake.min,
        limits.total_stake.max,
    );
    scores.push(weighted(n7, weights[7]));
    let n8 = normalize_value_scaled(
        validator.judgements as u128,
        limits.judgements.min,
        limits.judgements.max,
    );
    scores.push(weighted(n8, weights[8]));
    let n9 = reverse_normalize_value_scaled(
        validator.sub_accounts as u128,
        limits.sub_accounts.min,
        limits.sub_accounts.max,
    );
    scores.push(weighted(n9, weights[9]));
    scores
}

/// One weighted criterion score: the normalised value times the weight.
fn weighted(n: u64, w: u32) -> (r: u64)
    requires
        n <= SCALE,
        w <= 9,
    ensures
        r == n * w,
        r <= 9 * (SCALE as int),
{
    proof {
        assert(n * w <= (SCALE as int) * 9) by (nonlinear_arith)
            requires
                n <= SCALE,
                w <= 9,
                n >= 0,
                w >= 0,
        ;
    }
    n * (w as u64)
}

/// Sum of a score vector.
pub open spec fn sum_scores(s: Seq<u64>) -> int
    decreases s.len(),
{
    if s.len() == 0 {
        0
    } else {
        sum_scores(s.drop_last()) + s.last()
    }
}

/// Adds up a score vector whose entries are single criterion scores.
pub fn total_score(scores: &Vec<u64>) -> (r: u64)
    requires
        scores@.len() <= 10,
        forall|i: int| 0 <= i < scores@.len() ==> scores@[i] <= 9 * (SCALE as int),
    ensures
        r == sum_scores(scores@),
{
    let mut total: u64 = 0;
    let mut i: usize = 0;
    while i < scores.len()
        invariant
            0 <= i <= scores@.len(),
            scores@.len() <= 10,
            forall|j: int| 0 <= j < scores@.len() ==> scores@[j] <= 9 * (SCALE as int),
            total == sum_scores(scores@.take(i as int)),
            total <= i * 9 * (SCALE as int),
        decreases scores@.len() - i,
    {
        proof {
            assert(scores@.take(i as int + 1).drop_last() =~= scores@.take(i as int));
        }
        total = total + scores[i];
        i += 1;
    }
    proof {
        assert(scores@.take(scores@.len() as int) =~= scores@);
    }
    total
}

/// With all weights zero every criterion score is zero, and so is the sum.
pub proof fn lemma_zero_weights_zero_scores(v: ValidatorRecordV, l: BoardLimits, w: Seq<u32>)
    requires
        weights_ok(w),
        forall|i: int| 0 <= i < 10 ==> w[i] == 0,
    ensures
        forall|i: int| 0 <= i < 10 ==> score_at(v, l, w, i) == 0,
        forall|i: int| 0 <= i < 10 ==> score_at_scaled(v, l, w, i) == 0,
{
    assert forall|i: int| 0 <= i < 10 implies score_at(v, l, w, i) == 0 by {
        assert(w[i] == 0);
    }
    assert forall|i: int| 0 <= i < 10 implies score_at_scaled(v, l, w, i) == 0 by {
        assert(w[i] == 0);
    }
}

} // verus!
