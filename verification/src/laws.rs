//! The crate's general guarantees, each proved from the public contracts.

use vstd::prelude::*;
use vstd::arithmetic::div_mod::{lemma_div_is_ordered, lemma_div_multiples_vanish};
use crate::board::{is_all_member, rec_or_default, sum_score_at};
use crate::cache::{board_score, val_of, Cache};
use crate::indexer::{
    boards_after_validators, expected_validator, needs_sync, nominated, targeted_count,
    targeted_stake, v_input_at, ValidatorInputV, NominatorInputV,
};
use crate::score::{score_at, weights_ok, BoardLimits};
use crate::stats::{sum_of, SCALE};
use crate::types::{EraRecord, ValidatorRecordV};

verus! {

/// A sequence bounded on both sides has a sum between `lo * len` and
/// `hi * len`.
proof fn lemma_sum_between(pts: Seq<u32>, lo: u32, hi: u32)
    requires
        forall|j: int| 0 <= j < pts.len() ==> lo <= #[trigger] pts[j] <= hi,
    ensures
        lo * pts.len() <= sum_of(pts) <= hi * pts.len(),
    decreases pts.len(),
{
    if pts.len() > 0 {
        lemma_sum_between(pts.drop_last(), lo, hi);
        assert(lo * pts.len() == lo * (pts.len() - 1) + lo) by (nonlinear_arith);
        assert(hi * pts.len() == hi * (pts.len() - 1) + hi) by (nonlinear_arith);
    }
}

/// A stamped era summary is internally consistent: its total equals the sum
/// of the recorded per-validator points when the chain reported that sum,
/// and the minimum, median, mean and maximum are ordered.
pub proof fn lemma_era_summary_consistent(r: EraRecord, pts: Seq<u32>, reported_total: u32)
    requires
        pts.len() > 0,
        r.total_reward_points == reported_total,
        reported_total == sum_of(pts),
        pts.contains(r.min_reward_points),
        pts.contains(r.max_reward_points),
        pts.to_multiset().contains(r.median_reward_points),
        forall|j: int|
            0 <= j < pts.len() ==> r.min_reward_points <= #[trigger] pts[j]
                <= r.max_reward_points,
        r.min_reward_points <= r.median_reward_points <= r.max_reward_points,
        r.avg_reward_points_scaled == sum_of(pts) * (SCALE as int) / pts.len() as int,
    ensures
        r.total_reward_points == sum_of(pts),
        r.min_reward_points <= r.median_reward_points <= r.max_reward_points,
        r.min_reward_points * (SCALE as int) <= r.avg_reward_points_scaled
            <= r.max_reward_points * (SCALE as int),
{
    let n = pts.len() as int;
    let mn = r.min_reward_points as int;
    let mx = r.max_reward_points as int;
    lemma_sum_between(pts, r.min_reward_points, r.max_reward_points);
    assert(mn * n * (SCALE as int) <= sum_of(pts) * (SCALE as int) <= mx * n * (SCALE as int))
        by (nonlinear_arith)
        requires
            mn * n <= sum_of(pts) <= mx * n,
    ;
    assert(mn * n * (SCALE as int) == n * (mn * (SCALE as int))) by (nonlinear_arith);
    assert(mx * n * (SCALE as int) == n * (mx * (SCALE as int))) by (nonlinear_arith);
    lemma_div_is_ordered(n * (mn * (SCALE as int)), sum_of(pts) * (SCALE as int), n);
    lemma_div_is_ordered(sum_of(pts) * (SCALE as int), n * (mx * (SCALE as int)), n);
    lemma_div_multiples_vanish(mn * (SCALE as int), n);
    lemma_div_multiples_vanish(mx * (SCALE as int), n);
}

/// A validator freshly written by the validators pass and then fed through
/// the nominators pass counts exactly the nominations that target it: its
/// nominator counter never exceeds what the nominator inputs hand out.
pub proof fn lemma_nominator_counters_exact(
    r: ValidatorRecordV,
    nv: Seq<NominatorInputV>,
    k: Seq<char>,
)
    requires
        r.nominators == 0,
        r.nominators_stake == 0,
        r.nominators + targeted_count(nv, k) <= u32::MAX,
        r.own_stake + r.nominators_stake + targeted_stake(nv, k) <= u128::MAX,
    ensures
        nominated(r, targeted_count(nv, k), targeted_stake(nv, k)).nominators == targeted_count(
            nv,
            k,
        ),
        nominated(r, targeted_count(nv, k), targeted_stake(nv, k)).nominators_stake
            == targeted_stake(nv, k),
{
    crate::indexer::lemma_targeted_nonneg(nv, k);
}

/// A stash placed on the era's `active` board by the active-set pass has an
/// active record afterwards, and its membership of the `all` board is
/// untouched by that pass.
pub proof fn lemma_active_board_consistent(
    c0: Cache,
    c1: Cache,
    session: Seq<Seq<char>>,
    era: u32,
    m: Seq<char>,
)
    requires
        forall|k: Seq<char>| #![auto]
            val_of(c1, k) == (if session.contains(k) {
                Some(crate::indexer::activate(val_of(c0, k)))
            } else {
                val_of(c0, k)
            }),
        forall|e: u32, n: Seq<char>, m2: Seq<char>| #![auto]
            board_score(c1, e, n, m2) == (if e == era && n == "active:val"@ && session.contains(
                m2,
            ) {
                Some(0u128)
            } else {
                board_score(c0, e, n, m2)
            }),
        board_score(c1, era, "active:val"@, m) is Some,
        board_score(c0, era, "active:val"@, m) is None,
    ensures
        val_of(c1, m) is Some && val_of(c1, m).unwrap().active,
        is_all_member(c1, era, m) == is_all_member(c0, era, m),
{
    assert(session.contains(m));
    reveal_strlit("active:val");
    reveal_strlit("all:val");
    assert("active:val"@.len() == 10);
    assert("all:val"@.len() == 7);
    assert(board_score(c1, era, "all:val"@, m) == board_score(c0, era, "all:val"@, m));
}

/// Over a fresh era (its `active` board still empty) whose session set sits
/// on the `all` board, the active-set pass leaves the era's `active` board a
/// subset of its `all` board, every member active.
pub proof fn lemma_active_subset_of_all(
    c0: Cache,
    c1: Cache,
    session: Seq<Seq<char>>,
    era: u32,
)
    requires
        forall|k: Seq<char>| #![auto]
            val_of(c1, k) == (if session.contains(k) {
                Some(crate::indexer::activate(val_of(c0, k)))
            } else {
                val_of(c0, k)
            }),
        forall|e: u32, n: Seq<char>, m2: Seq<char>| #![auto]
            board_score(c1, e, n, m2) == (if e == era && n == "active:val"@ && session.contains(
                m2,
            ) {
                Some(0u128)
            } else {
                board_score(c0, e, n, m2)
            }),
        forall|m: Seq<char>| #![auto] board_score(c0, era, "active:val"@, m) is None,
        forall|m: Seq<char>| #![auto]
            session.contains(m) ==> board_score(c0, era, "all:val"@, m) is Some,
    ensures
        forall|m: Seq<char>| #![auto]
            board_score(c1, era, "active:val"@, m) is Some ==> val_of(c1, m) is Some && val_of(
                c1,
                m,
            ).unwrap().active && board_score(c1, era, "all:val"@, m) is Some,
{
    reveal_strlit("active:val");
    reveal_strlit("all:val");
    assert("active:val"@.len() == 10);
    assert("all:val"@.len() == 7);
    assert forall|m: Seq<char>| #![auto]
        board_score(c1, era, "active:val"@, m) is Some implies val_of(c1, m) is Some && val_of(
        c1,
        m,
    ).unwrap().active && board_score(c1, era, "all:val"@, m) is Some by {
        assert(session.contains(m));
        assert(board_score(c1, era, "all:val"@, m) == board_score(c0, era, "all:val"@, m));
    }
}

/// A generated board member's total score is the sum of its cached
/// per-criterion scores.
pub proof fn lemma_board_score_is_sum(
    sc: Seq<u64>,
    v: ValidatorRecordV,
    l: BoardLimits,
    w: Seq<u32>,
)
    requires
        sc.len() == 10,
        forall|i: int| 0 <= i < 10 ==> sc[i] == score_at(v, l, w, i),
    ensures
        crate::score::sum_scores(sc) == sum_score_at(v, l, w, 10),
    decreases 10int,
{
    lemma_sum_prefix(sc, v, l, w, 10);
}

proof fn lemma_sum_prefix(sc: Seq<u64>, v: ValidatorRecordV, l: BoardLimits, w: Seq<u32>, k: int)
    requires
        0 <= k <= 10,
        sc.len() == k,
        forall|i: int| 0 <= i < k ==> sc[i] == score_at(v, l, w, i),
    ensures
        crate::score::sum_scores(sc) == sum_score_at(v, l, w, k),
    decreases k,
{
    if k > 0 {
        lemma_sum_prefix(sc.drop_last(), v, l, w, k - 1);
    }
}

/// Running the validators pass twice over the same inputs leaves every
/// validator record and board entry exactly as after the first run.
pub proof fn lemma_validators_idempotent(
    c0: Cache,
    c1: Cache,
    c2: Cache,
    iv: Seq<ValidatorInputV>,
    active_era: u32,
    era_min: u32,
)
    requires
        c1.active_eras@ == c0.active_eras@,
        c2.active_eras@ == c1.active_eras@,
        forall|k: Seq<char>| #![auto]
            val_of(c1, k) == (match v_input_at(iv, k) {
                Some(v) => Some(expected_validator(v, crate::cache::aeras_of(c0, k), era_min,
                    active_era)),
                None => val_of(c0, k),
            }),
        forall|k: Seq<char>| #![auto]
            val_of(c2, k) == (match v_input_at(iv, k) {
                Some(v) => Some(expected_validator(v, crate::cache::aeras_of(c1, k), era_min,
                    active_era)),
                None => val_of(c1, k),
            }),
        forall|e: u32, n: Seq<char>, m: Seq<char>| #![auto]
            board_score(c1, e, n, m) == boards_after_validators(c0, iv, active_era, e, n, m),
        forall|e: u32, n: Seq<char>, m: Seq<char>| #![auto]
            board_score(c2, e, n, m) == boards_after_validators(c1, iv, active_era, e, n, m),
    ensures
        forall|k: Seq<char>| #![auto] val_of(c2, k) == val_of(c1, k),
        forall|e: u32, n: Seq<char>, m: Seq<char>| #![auto]
            board_score(c2, e, n, m) == board_score(c1, e, n, m),
{
    assert forall|k: Seq<char>| #![auto] val_of(c2, k) == val_of(c1, k) by {
        assert(crate::cache::aeras_of(c1, k) == crate::cache::aeras_of(c0, k));
    }
    assert forall|e: u32, n: Seq<char>, m: Seq<char>| #![auto]
        board_score(c2, e, n, m) == board_score(c1, e, n, m) by {
        assert(boards_after_validators(c1, iv, active_era, e, n, m) == (
        if boards_after_validators(c0, iv, active_era, e, n, m) == board_score(c1, e, n, m)
            && v_input_at(iv, m) is None {
            board_score(c1, e, n, m)
        } else {
            boards_after_validators(c1, iv, active_era, e, n, m)
        }));
    }
}

/// A force-synced era is stamped, so replaying it without force changes
/// nothing: the era no longer needs a sync.
pub proof fn lemma_era_history_idempotent(c1: Cache, era: u32)
    requires
        crate::cache::era_of(c1, era) is Some,
        crate::cache::era_of(c1, era).unwrap().synced_at is Some,
    ensures
        !needs_sync(c1, era, None::<bool>),
        !needs_sync(c1, era, Some(false)),
{
}

/// With every weight zero, every criterion score and the total are zero.
pub proof fn lemma_zero_weights_zero_total(v: ValidatorRecordV, l: BoardLimits, w: Seq<u32>)
    requires
        weights_ok(w),
        forall|i: int| 0 <= i < 10 ==> w[i] == 0,
    ensures
        forall|i: int| 0 <= i < 10 ==> score_at(v, l, w, i) == 0,
        sum_score_at(v, l, w, 10) == 0,
{
    crate::score::lemma_zero_weights_zero_scores(v, l, w);
    lemma_zero_sum(v, l, w, 10);
}

proof fn lemma_zero_sum(v: ValidatorRecordV, l: BoardLimits, w: Seq<u32>, k: int)
    requires
        0 <= k <= 10,
        weights_ok(w),
        forall|i: int| 0 <= i < 10 ==> w[i] == 0,
    ensures
        sum_score_at(v, l, w, k) == 0,
    decreases k,
{
    if k > 0 {
        lemma_zero_sum(v, l, w, k - 1);
        crate::score::lemma_zero_weights_zero_scores(v, l, w);
    }
}

/// A blocked stash stays off a freshly generated scored board, while its
/// place on the `all` board is untouched by the generation.
pub proof fn lemma_blocked_not_scored(
    c0: Cache,
    c1: Cache,
    era: u32,
    name: Seq<char>,
    m: Seq<char>,
)
    requires
        rec_or_default(val_of(c0, m)).blocked,
        board_score(c0, era, name, m) is None,
        forall|e2: u32, n2: Seq<char>, m2: Seq<char>| #![auto]
            !(e2 == era && n2 == name && is_all_member(c0, era, m2) && !rec_or_default(
                val_of(c0, m2),
            ).blocked) ==> board_score(c1, e2, n2, m2) == board_score(c0, e2, n2, m2),
    ensures
        board_score(c1, era, name, m) is None,
        is_all_member(c1, era, m) == is_all_member(c0, era, m),
{
}

/// An empty window, or a stash active in none of its eras, reads as a zero
/// inclusion rate, never as a failed division.
pub proof fn lemma_inclusion_rate_zero(l: Option<Seq<(u32, u32)>>, era_min: u32, era_max: u32)
    requires
        era_max <= era_min || (match l {
            Some(s) => crate::indexer::count_window(s, era_min, era_max) == 0,
            None => true,
        }),
    ensures
        crate::indexer::spec_inclusion_rate(l, era_min, era_max) == 0,
{
}

/// The rendered weights split back into one decimal piece per weight.
proof fn lemma_weights_split(w: Seq<u32>)
    requires
        w.len() >= 1,
    ensures
        crate::num::split_at_sep(crate::params::weights_str(w), ',').len() == w.len(),
        forall|i: int| #![auto]
            0 <= i < w.len() ==> crate::num::split_at_sep(crate::params::weights_str(w), ',')[i]
                == crate::num::dec_str(w[i] as int),
    decreases w.len(),
{
    if w.len() == 1 {
        crate::num::lemma_dec_str_digits(w[0] as int);
        let d = crate::num::dec_str(w[0] as int);
        assert forall|j: int| 0 <= j < d.len() implies d[j] != ',' by {
            assert(crate::num::is_dec_digit(d[j]));
        }
        crate::num::lemma_split_whole(d, ',');
        assert(crate::params::weights_str(w) == d);
    } else {
        lemma_weights_split(w.drop_last());
        let a = crate::params::weights_str(w.drop_last());
        let d = crate::num::dec_str(w.last() as int);
        assert(crate::params::weights_str(w) == a + seq![','] + d);
        crate::num::lemma_split_concat(a, d, ',');
        crate::num::lemma_dec_str_digits(w.last() as int);
        assert forall|j: int| 0 <= j < d.len() implies d[j] != ',' by {
            assert(crate::num::is_dec_digit(d[j]));
        }
        crate::num::lemma_split_whole(d, ',');
        let parts = crate::num::split_at_sep(crate::params::weights_str(w), ',');
        assert(parts == crate::num::split_at_sep(a, ',') + seq![d]);
        assert forall|i: int| #![auto]
            0 <= i < w.len() implies parts[i] == crate::num::dec_str(w[i] as int) by {
            if i < w.len() - 1 {
                assert(parts[i] == crate::num::split_at_sep(a, ',')[i]);
                assert(w.drop_last()[i] == w[i]);
            } else {
                assert(parts[i] == d);
            }
        }
    }
}

/// Rendering weights as a board name and parsing the name back gives the
/// same ten weights: the weights grammar round-trips.
pub proof fn lemma_weights_round_trip(w: Seq<u32>)
    requires
        weights_ok(w),
    ensures
        forall|i: int| #![auto]
            0 <= i < 10 ==> crate::params::spec_weight_at(
                crate::num::split_at_sep(crate::params::weights_str(w), ','),
                i,
            ) == Some(w[i]),
{
    lemma_weights_split(w);
    let parts = crate::num::split_at_sep(crate::params::weights_str(w), ',');
    assert forall|i: int| #![auto]
        0 <= i < 10 implies crate::params::spec_weight_at(parts, i) == Some(w[i]) by {
        assert(parts[i] == crate::num::dec_str(w[i] as int));
        crate::num::lemma_dec_str_digits(w[i] as int);
        crate::num::lemma_digit_round_trip(w[i] as int);
    }
}

} // verus!
