//! The leaderboard engine: limits, score generation, and top-N queries.

use vstd::prelude::*;
use crate::cache::{board_score, limits_of, scores_of, val_of, wf, Cache};
use crate::score::{
    calculate_scores, calculate_scores_scaled, score_at, score_at_scaled, spec_flag, spec_norm,
    spec_norm_scaled, sum_scores, total_score, weights_ok, BoardLimits, Interval,
};
use crate::stats::SCALE;
use crate::types::{ApiError, ValidatorRecord, ValidatorRecordV};

verus! {

/// The members of a board with their scores, in table order.
pub open spec fn members_of(b: Seq<((u32, String, String), u128)>, e: u32, n: Seq<char>) -> Seq<
    (Seq<char>, u128),
>
    decreases b.len(),
{
    if b.len() == 0 {
        Seq::empty()
    } else {
        let rest = members_of(b.drop_last(), e, n);
        if b.last().0.0 == e && b.last().0.1@ == n {
            rest.push((b.last().0.2@, b.last().1))
        } else {
            rest
        }
    }
}

/// A board never lists more members than the table has entries.
pub proof fn lemma_members_len(b: Seq<((u32, String, String), u128)>, e: u32, n: Seq<char>)
    ensures
        members_of(b, e, n).len() <= b.len(),
    decreases b.len(),
{
    if b.len() > 0 {
        lemma_members_len(b.drop_last(), e, n);
    }
}

/// A board exists exactly when it has members.
pub proof fn lemma_members_exists(b: Seq<((u32, String, String), u128)>, e: u32, n: Seq<char>)
    ensures
        members_of(b, e, n).len() > 0 <==> exists|i: int|
            0 <= i < b.len() && b[i].0.0 == e && b[i].0.1@ == n,
    decreases b.len(),
{
    if b.len() > 0 {
        lemma_members_exists(b.drop_last(), e, n);
        if members_of(b, e, n).len() > 0 {
            if !(b.last().0.0 == e && b.last().0.1@ == n) {
                let i = choose|i: int|
                    0 <= i < b.drop_last().len() && b.drop_last()[i].0.0 == e && #[trigger] b.drop_last()[i].0.1@
                        == n;
                assert(b[i].0.0 == e && b[i].0.1@ == n);
            } else {
                assert(b[b.len() - 1].0.0 == e && b[b.len() - 1].0.1@ == n);
            }
        }
        if exists|i: int| 0 <= i < b.len() && b[i].0.0 == e && #[trigger] b[i].0.1@ == n {
            let i = choose|i: int| 0 <= i < b.len() && b[i].0.0 == e && #[trigger] b[i].0.1@ == n;
            if i < b.len() - 1 {
                assert(b.drop_last()[i].0.0 == e && b.drop_last()[i].0.1@ == n);
            }
        }
    }
}

/// On a well-formed table, each listed member's score is its lookup.
pub proof fn lemma_members_assoc(b: Seq<((u32, String, String), u128)>, e: u32, n: Seq<char>)
    requires
        crate::kv::distinct_esm(b),
    ensures
        forall|i: int| #![auto]
            0 <= i < members_of(b, e, n).len() ==> crate::kv::assoc_esm(
                b,
                e,
                n,
                members_of(b, e, n)[i].0,
            ) == Some(members_of(b, e, n)[i].1),
        forall|i: int, j: int| #![auto]
            0 <= i < j < members_of(b, e, n).len() ==> members_of(b, e, n)[i].0 != members_of(
                b,
                e,
                n,
            )[j].0,
    decreases b.len(),
{
    if b.len() > 0 {
        assert(crate::kv::distinct_esm(b.drop_last())) by {
            assert(forall|i: int, j: int|
                0 <= i < j < b.drop_last().len() ==> !(b.drop_last()[i].0.0
                    == b.drop_last()[j].0.0 && b.drop_last()[i].0.1@ == b.drop_last()[j].0.1@
                    && b.drop_last()[i].0.2@ == b.drop_last()[j].0.2@));
        }
        lemma_members_assoc(b.drop_last(), e, n);
        let rest = members_of(b.drop_last(), e, n);
        lemma_members_index(b.drop_last(), e, n);
        if b.last().0.0 == e && b.last().0.1@ == n {
            let m = b.last().0.2@;
            assert forall|i: int| #![auto]
                0 <= i < members_of(b, e, n).len() implies crate::kv::assoc_esm(
                b,
                e,
                n,
                members_of(b, e, n)[i].0,
            ) == Some(members_of(b, e, n)[i].1) by {
                if i < rest.len() {
                    let w = choose|w: int|
                        0 <= w < b.drop_last().len() && #[trigger] b.drop_last()[w].0.0 == e
                            && b.drop_last()[w].0.1@ == n && b.drop_last()[w].0.2@ == rest[i].0
                            && b.drop_last()[w].1 == rest[i].1;
                    assert(!(b[w].0.0 == b[b.len() - 1].0.0 && b[w].0.1@ == b[b.len() - 1].0.1@
                        && b[w].0.2@ == b[b.len() - 1].0.2@));
                    lemma_assoc_esm_snoc(b, e, n, rest[i].0);
                } else {
                    lemma_assoc_esm_last(b, e, n);
                }
            }
            assert forall|i: int, j: int| #![auto]
                0 <= i < j < members_of(b, e, n).len() implies members_of(b, e, n)[i].0
                != members_of(b, e, n)[j].0 by {
                if j == rest.len() {
                    let w = choose|w: int|
                        0 <= w < b.drop_last().len() && #[trigger] b.drop_last()[w].0.0 == e
                            && b.drop_last()[w].0.1@ == n && b.drop_last()[w].0.2@ == rest[i].0
                            && b.drop_last()[w].1 == rest[i].1;
                    assert(!(b[w].0.0 == b[b.len() - 1].0.0 && b[w].0.1@ == b[b.len() - 1].0.1@
                        && b[w].0.2@ == b[b.len() - 1].0.2@));
                }
            }
        } else {
            assert forall|i: int| #![auto]
                0 <= i < members_of(b, e, n).len() implies crate::kv::assoc_esm(
                b,
                e,
                n,
                members_of(b, e, n)[i].0,
            ) == Some(members_of(b, e, n)[i].1) by {
                lemma_assoc_esm_snoc(b, e, n, members_of(b, e, n)[i].0);
            }
        }
    }
}

/// Every listed member comes from a matching table entry.
proof fn lemma_members_index(b: Seq<((u32, String, String), u128)>, e: u32, n: Seq<char>)
    ensures
        forall|i: int|
            0 <= i < members_of(b, e, n).len() ==> exists|w: int|
                0 <= w < b.len() && #[trigger] b[w].0.0 == e && b[w].0.1@ == n && b[w].0.2@
                    == #[trigger] members_of(b, e, n)[i].0 && b[w].1 == members_of(b, e, n)[i].1,
    decreases b.len(),
{
    if b.len() > 0 {
        lemma_members_index(b.drop_last(), e, n);
        let rest = members_of(b.drop_last(), e, n);
        assert forall|i: int|
            0 <= i < members_of(b, e, n).len() implies exists|w: int|
                0 <= w < b.len() && #[trigger] b[w].0.0 == e && b[w].0.1@ == n && b[w].0.2@
                    == #[trigger] members_of(b, e, n)[i].0 && b[w].1 == members_of(b, e, n)[i].1 by {
            if i < rest.len() {
                let w = choose|w: int|
                    0 <= w < b.drop_last().len() && #[trigger] b.drop_last()[w].0.0 == e
                        && b.drop_last()[w].0.1@ == n && b.drop_last()[w].0.2@ == rest[i].0
                        && b.drop_last()[w].1 == rest[i].1;
                assert(b[w].0.0 == e && b[w].0.1@ == n && b[w].0.2@ == members_of(b, e, n)[i].0
                    && b[w].1 == members_of(b, e, n)[i].1);
            } else {
                assert(b[b.len() - 1].0.0 == e);
            }
        }
    }
}

/// With no earlier match, the lookup lands on the last entry.
proof fn lemma_assoc_esm_last(b: Seq<((u32, String, String), u128)>, e: u32, n: Seq<char>)
    requires
        b.len() > 0,
        b.last().0.0 == e && b.last().0.1@ == n,
        forall|i: int| #![auto]
            0 <= i < b.len() - 1 ==> !(b[i].0.0 == e && b[i].0.1@ == n && b[i].0.2@
                == b.last().0.2@),
    ensures
        crate::kv::assoc_esm(b, e, n, b.last().0.2@) == Some(b.last().1),
    decreases b.len(),
{
    if b[0].0.0 == e && b[0].0.1@ == n && b[0].0.2@ == b.last().0.2@ {
        assert(b.len() == 1);
    } else {
        if b.len() == 1 {
        } else {
            assert(b.drop_first().last() == b.last());
            assert(forall|i: int| #![auto]
                0 <= i < b.drop_first().len() - 1 ==> b.drop_first()[i] == b[i + 1]);
            lemma_assoc_esm_last(b.drop_first(), e, n);
        }
    }
}

/// A lookup for another member ignores the last entry.
proof fn lemma_assoc_esm_snoc(
    b: Seq<((u32, String, String), u128)>,
    e: u32,
    n: Seq<char>,
    m: Seq<char>,
)
    requires
        b.len() > 0,
        !(b.last().0.0 == e && b.last().0.1@ == n && b.last().0.2@ == m),
    ensures
        crate::kv::assoc_esm(b, e, n, m) == crate::kv::assoc_esm(b.drop_last(), e, n, m),
    decreases b.len(),
{
    if b.len() == 1 {
    } else if b[0].0.0 == e && b[0].0.1@ == n && b[0].0.2@ == m {
        assert(b.drop_last()[0] == b[0]);
    } else {
        assert(b.drop_first().last() == b.last());
        lemma_assoc_esm_snoc(b.drop_first(), e, n, m);
        assert(b.drop_first().drop_last() =~= b.drop_last().drop_first());
        assert(b.drop_last()[0] == b[0]);
    }
}

/// Collects a board's members and scores, in table order.
pub fn board_members(boards: &Vec<((u32, String, String), u128)>, e: u32, n: &String) -> (r: Vec<
    (String, u128),
>)
    ensures
        r@.len() == members_of(boards@, e, n@).len(),
        forall|i: int| #![auto]
            0 <= i < r@.len() ==> r@[i].0@ == members_of(boards@, e, n@)[i].0 && r@[i].1
                == members_of(boards@, e, n@)[i].1,
{
    let mut r: Vec<(String, u128)> = Vec::new();
    let mut i: usize = 0;
    proof {
        assert(members_of(boards@.take(0), e, n@) =~= Seq::<(Seq<char>, u128)>::empty());
    }
    while i < boards.len()
        invariant
            0 <= i <= boards@.len(),
            r@.len() == members_of(boards@.take(i as int), e, n@).len(),
            forall|j: int| #![auto]
                0 <= j < r@.len() ==> r@[j].0@ == members_of(boards@.take(i as int), e, n@)[j].0
                    && r@[j].1 == members_of(boards@.take(i as int), e, n@)[j].1,
        decreases boards@.len() - i,
    {
        proof {
            assert(boards@.take(i as int + 1).drop_last() =~= boards@.take(i as int));
            assert(boards@.take(i as int + 1).last() == boards@[i as int]);
        }
        if boards[i].0.0 == e && boards[i].0.1 == *n {
            r.push((boards[i].0.2.clone(), boards[i].1));
        }
        i += 1;
    }
    proof {
        assert(boards@.take(boards@.len() as int) =~= boards@);
    }
    r
}

/// Whether the board has any member.
pub fn board_exists_now(c: &Cache, e: u32, n: &String) -> (r: bool)
    ensures
        r == crate::cache::board_exists(*c, e, n@),
{
    let mut i: usize = 0;
    while i < c.boards.len()
        invariant
            0 <= i <= c.boards@.len(),
            forall|j: int| 0 <= j < i ==> !(c.boards@[j].0.0 == e && c.boards@[j].0.1@ == n@),
        decreases c.boards@.len() - i,
    {
        if c.boards[i].0.0 == e && c.boards[i].0.1 == *n {
            return true;
        }
        i += 1;
    }
    false
}

/// The smallest score on a statistical board, 0 when the board is empty.
pub open spec fn spec_min_limit(b: Seq<((u32, String, String), u128)>, n: Seq<char>) -> u128 {
    let ms = members_of(b, 0, n);
    min_score_of(ms)
}

/// The largest score on a statistical board, 0 when the board is empty.
pub open spec fn spec_max_limit(b: Seq<((u32, String, String), u128)>, n: Seq<char>) -> u128 {
    let ms = members_of(b, 0, n);
    max_score_of(ms)
}

/// Smallest score in a member list; 0 when empty.
pub open spec fn min_score_of(ms: Seq<(Seq<char>, u128)>) -> u128
    decreases ms.len(),
{
    if ms.len() == 0 {
        0
    } else if ms.len() == 1 {
        ms[0].1
    } else {
        let rest = min_score_of(ms.drop_last());
        if ms.last().1 < rest {
            ms.last().1
        } else {
            rest
        }
    }
}

/// Largest score in a member list; 0 when empty.
pub open spec fn max_score_of(ms: Seq<(Seq<char>, u128)>) -> u128
    decreases ms.len(),
{
    if ms.len() == 0 {
        0
    } else if ms.len() == 1 {
        ms[0].1
    } else {
        let rest = max_score_of(ms.drop_last());
        if ms.last().1 > rest {
            ms.last().1
        } else {
            rest
        }
    }
}

/// The smallest score on a statistical board under era 0.
pub fn calculate_min_limit(c: &Cache, name: &String) -> (r: u128)
    ensures
        r == spec_min_limit(c.boards@, name@),
{
    let ms = board_members(&c.boards, 0, name);
    let ghost msv = members_of(c.boards@, 0, name@);
    if ms.len() == 0 {
        return 0;
    }
    let mut r = ms[0].1;
    let mut i: usize = 1;
    while i < ms.len()
        invariant
            1 <= i <= ms@.len(),
            ms@.len() == msv.len(),
            msv.len() > 0,
            forall|j: int| #![auto] 0 <= j < ms@.len() ==> ms@[j].1 == msv[j].1,
            r == min_score_of(msv.take(i as int)),
        decreases ms@.len() - i,
    {
        proof {
            assert(msv.take(i as int + 1).drop_last() =~= msv.take(i as int));
            assert(msv.take(1) =~= seq![msv[0]]);
        }
        if ms[i].1 < r {
            r = ms[i].1;
        }
        i += 1;
    }
    proof {
        assert(msv.take(msv.len() as int) =~= msv);
    }
    r
}

/// The largest score on a statistical board under era 0.
pub fn calculate_max_limit(c: &Cache, name: &String) -> (r: u128)
    ensures
        r == spec_max_limit(c.boards@, name@),
{
    let ms = board_members(&c.boards, 0, name);
    let ghost msv = members_of(c.boards@, 0, name@);
    if ms.len() == 0 {
        return 0;
    }
    let mut r = ms[0].1;
    let mut i: usize = 1;
    while i < ms.len()
        invariant
            1 <= i <= ms@.len(),
            ms@.len() == msv.len(),
            msv.len() > 0,
            forall|j: int| #![auto] 0 <= j < ms@.len() ==> ms@[j].1 == msv[j].1,
            r == max_score_of(msv.take(i as int)),
        decreases ms@.len() - i,
    {
        proof {
            assert(msv.take(i as int + 1).drop_last() =~= msv.take(i as int));
            assert(msv.take(1) =~= seq![msv[0]]);
        }
        if ms[i].1 > r {
            r = ms[i].1;
        }
        i += 1;
    }
    proof {
        assert(msv.take(msv.len() as int) =~= msv);
    }
    r
}

/// Both bounds of a statistical board.
pub fn calculate_min_max_interval(c: &Cache, name: &String) -> (r: (u128, u128))
    ensures
        r.0 == spec_min_limit(c.boards@, name@),
        r.1 == spec_max_limit(c.boards@, name@),
{
    (calculate_min_limit(c, name), calculate_max_limit(c, name))
}

/// The limits derived from the statistical boards: fixed bounds for the
/// rates, flags and caps, observed bounds for points, stakes, judgements and
/// sub-accounts.
pub open spec fn derived_limits(b: Seq<((u32, String, String), u128)>) -> BoardLimits {
    BoardLimits {
        inclusion_rate: Interval { min: 0, max: SCALE as u128 },
        commission: Interval { min: 0, max: crate::score::COMMISSION_PLANCK as u128 },
        nominators: Interval {
            min: 0,
            max: crate::score::NOMINATORS_OVERSUBSCRIBED_THRESHOLD as u128,
        },
        avg_reward_points: Interval {
            min: spec_min_limit(b, "avg:points:era"@),
            max: spec_max_limit(b, "avg:points:era"@),
        },
        reward_staked: Interval { min: 0, max: SCALE as u128 },
        active: Interval { min: 0, max: SCALE as u128 },
        own_stake: Interval {
            min: spec_min_limit(b, "own:stake:val"@),
            max: spec_max_limit(b, "own:stake:val"@),
        },
        total_stake: Interval {
            min: spec_min_limit(b, "total:stake:val"@),
            max: spec_max_limit(b, "total:stake:val"@),
        },
        judgements: Interval {
            min: spec_min_limit(b, "judgements:val"@),
            max: spec_max_limit(b, "judgements:val"@),
        },
        sub_accounts: Interval {
            min: spec_min_limit(b, "sub:accounts:val"@),
            max: spec_max_limit(b, "sub:accounts:val"@),
        },
    }
}

/// Derives the limits from the statistical boards and caches them under the
/// board's `limits` key.
pub fn cache_board_limits(c: &mut Cache, era: u32, board_name: &String) -> (r: BoardLimits)
    requires
        wf(*old(c)),
    ensures
        wf(*final(c)),
        r == derived_limits(old(c).boards@),
        final(c).network == old(c).network,
        final(c).info == old(c).info,
        final(c).stats@ == old(c).stats@,
        final(c).active_era == old(c).active_era,
        final(c).eras@ == old(c).eras@,
        final(c).validators@ == old(c).validators@,
        final(c).eras_validators@ == old(c).eras_validators@,
        final(c).active_eras@ == old(c).active_eras@,
        final(c).boards@ == old(c).boards@,
        final(c).board_scores@ == old(c).board_scores@,
        forall|e2: u32, n2: Seq<char>| #![auto]
            limits_of(*final(c), e2, n2) == (if e2 == era && n2 == board_name@ {
                Some(derived_limits(old(c).boards@))
            } else {
                limits_of(*old(c), e2, n2)
            }),
{
    let avg_name = String::from_str("avg:points:era");
    let own_name = String::from_str("own:stake:val");
    let tot_name = String::from_str("total:stake:val");
    let judg_name = String::from_str("judgements:val");
    let subs_name = String::from_str("sub:accounts:val");
    let avg = calculate_min_max_interval(c, &avg_name);
    let own = calculate_min_max_interval(c, &own_name);
    let tot = calculate_min_max_interval(c, &tot_name);
    let judg = calculate_min_max_interval(c, &judg_name);
    let subs = calculate_min_max_interval(c, &subs_name);
    let limits = BoardLimits {
        inclusion_rate: Interval { min: 0, max: SCALE as u128 },
        commission: Interval { min: 0, max: crate::score::COMMISSION_PLANCK as u128 },
        nominators: Interval {
            min: 0,
            max: crate::score::NOMINATORS_OVERSUBSCRIBED_THRESHOLD as u128,
        },
        avg_reward_points: Interval { min: avg.0, max: avg.1 },
        reward_staked: Interval { min: 0, max: SCALE as u128 },
        active: Interval { min: 0, max: SCALE as u128 },
        own_stake: Interval { min: own.0, max: own.1 },
        total_stake: Interval { min: tot.0, max: tot.1 },
        judgements: Interval { min: judg.0, max: judg.1 },
        sub_accounts: Interval { min: subs.0, max: subs.1 },
    };
    crate::kv::set_es(&mut c.board_limits, era, board_name, limits);
    limits
}

/// A validator record as read back, with a missing hash reading as the
/// all-defaults record.
pub open spec fn rec_or_default(r: Option<ValidatorRecordV>) -> ValidatorRecordV {
    match r {
        Some(x) => x,
        None => ValidatorRecordV {
            active: false,
            commission: 0,
            blocked: false,
            controller: Seq::<char>::empty(),
            own_stake: 0,
            reward_staked: false,
            inclusion_rate_scaled: 0,
            avg_reward_points_scaled: 0,
            name: Seq::<char>::empty(),
            judgements: 0,
            sub_accounts: 0,
            nominators: 0,
            nominators_stake: 0,
        },
    }
}

/// Reads a validator record, or the defaults when none is cached.
pub fn read_record(c: &Cache, stash: &String) -> (r: ValidatorRecord)
    ensures
        r@ == rec_or_default(val_of(*c, stash@)),
{
    match crate::kv::get_s(&c.validators, stash) {
        Some(rec) => rec.clone_record(),
        None => crate::types::default_validator_record(false),
    }
}

/// The sum of the first `k` criterion scores in plain-limit space.
pub open spec fn sum_score_at(v: ValidatorRecordV, l: BoardLimits, w: Seq<u32>, k: int) -> int
    decreases k,
{
    if k <= 0 {
        0
    } else {
        sum_score_at(v, l, w, k - 1) + score_at(v, l, w, k - 1)
    }
}

/// The sum of the first `k` criterion scores in fixed-point-limit space.
pub open spec fn sum_score_at_scaled(v: ValidatorRecordV, l: BoardLimits, w: Seq<u32>, k: int)
    -> int
    decreases k,
{
    if k <= 0 {
        0
    } else {
        sum_score_at_scaled(v, l, w, k - 1) + score_at_scaled(v, l, w, k - 1)
    }
}

/// A score vector holding the criterion scores sums to their total.
proof fn lemma_total(s: Seq<u64>, v: ValidatorRecordV, l: BoardLimits, w: Seq<u32>, k: int)
    requires
        0 <= k <= 10,
        s.len() == k,
        forall|i: int| 0 <= i < k ==> s[i] == score_at(v, l, w, i),
    ensures
        sum_scores(s) == sum_score_at(v, l, w, k),
    decreases k,
{
    if k > 0 {
        lemma_total(s.drop_last(), v, l, w, k - 1);
    }
}

/// The same, in fixed-point-limit space.
proof fn lemma_total_scaled(s: Seq<u64>, v: ValidatorRecordV, l: BoardLimits, w: Seq<u32>, k: int)
    requires
        0 <= k <= 10,
        s.len() == k,
        forall|i: int| 0 <= i < k ==> s[i] == score_at_scaled(v, l, w, i),
    ensures
        sum_scores(s) == sum_score_at_scaled(v, l, w, k),
    decreases k,
{
    if k > 0 {
        lemma_total_scaled(s.drop_last(), v, l, w, k - 1);
    }
}

/// Whether a stash sits on the era's `all` board.
pub open spec fn is_all_member(c: Cache, era: u32, m: Seq<char>) -> bool {
    board_score(c, era, "all:val"@, m) is Some
}

/// A successful lookup comes from some table entry.
proof fn lemma_assoc_esm_present(
    b: Seq<((u32, String, String), u128)>,
    e: u32,
    n: Seq<char>,
    m: Seq<char>,
)
    requires
        crate::kv::assoc_esm(b, e, n, m) is Some,
    ensures
        exists|i: int|
            0 <= i < b.len() && #[trigger] b[i].0.0 == e && b[i].0.1@ == n && b[i].0.2@ == m,
    decreases b.len(),
{
    if b.len() > 0 {
        if b[0].0.0 == e && b[0].0.1@ == n && b[0].0.2@ == m {
        } else {
            lemma_assoc_esm_present(b.drop_first(), e, n, m);
            let i = choose|i: int|
                0 <= i < b.drop_first().len() && #[trigger] b.drop_first()[i].0.0 == e
                    && b.drop_first()[i].0.1@ == n && b.drop_first()[i].0.2@ == m;
            assert(b[i + 1].0.0 == e && b[i + 1].0.1@ == n && b[i + 1].0.2@ == m);
        }
    }
}

/// On the `all` board, being a member and being listed coincide.
proof fn lemma_member_listed(c: Cache, era: u32, m: Seq<char>)
    requires
        crate::kv::distinct_esm(c.boards@),
    ensures
        is_all_member(c, era, m) <==> exists|i: int|
            0 <= i < members_of(c.boards@, era, "all:val"@).len() && #[trigger] members_of(
                c.boards@,
                era,
                "all:val"@,
            )[i].0 == m,
{
    let ms = members_of(c.boards@, era, "all:val"@);
    lemma_members_assoc(c.boards@, era, "all:val"@);
    if is_all_member(c, era, m) {
        lemma_assoc_esm_present(c.boards@, era, "all:val"@, m);
        lemma_listed_index(c.boards@, era, "all:val"@, m);
    }
}

/// A matching table entry is listed among the members.
proof fn lemma_listed_index(
    b: Seq<((u32, String, String), u128)>,
    e: u32,
    n: Seq<char>,
    m: Seq<char>,
)
    requires
        exists|i: int|
            0 <= i < b.len() && #[trigger] b[i].0.0 == e && b[i].0.1@ == n && b[i].0.2@ == m,
    ensures
        exists|i: int|
            0 <= i < members_of(b, e, n).len() && #[trigger] members_of(b, e, n)[i].0 == m,
    decreases b.len(),
{
    let w = choose|i: int|
        0 <= i < b.len() && #[trigger] b[i].0.0 == e && b[i].0.1@ == n && b[i].0.2@ == m;
    if w == b.len() - 1 {
        let ms = members_of(b, e, n);
        assert(ms[ms.len() - 1].0 == m);
    } else {
        assert(b.drop_last()[w].0.0 == e && b.drop_last()[w].0.1@ == n && b.drop_last()[w].0.2@
            == m);
        lemma_listed_index(b.drop_last(), e, n, m);
        let i = choose|i: int|
            0 <= i < members_of(b.drop_last(), e, n).len() && #[trigger] members_of(
                b.drop_last(),
                e,
                n,
            )[i].0 == m;
        if b.last().0.0 == e && b.last().0.1@ == n {
            assert(members_of(b, e, n)[i].0 == m);
        } else {
            assert(members_of(b, e, n)[i].0 == m);
        }
    }
}

/// The message refused while a resync is running.
pub fn syncing_message() -> (r: String)
    ensures
        r@ == "The system is currently syncing. Usually doesn't take long 5 - 10min. Please just wait a few minutes before you try again. Thank you."@,
{
    String::from_str(
        "The system is currently syncing. Usually doesn't take long 5 - 10min. Please just wait a few minutes before you try again. Thank you.",
    )
}

/// Generates the unfiltered board for the weights: with the board already
/// cached nothing happens; during a resync nothing is written and the
/// request is refused; otherwise the limits are derived and cached and every
/// unblocked member of the era's `all` board is scored onto the board.
#[verifier::rlimit(60)]
#[verifier::spinoff_prover]
pub fn generate_board_scores(c: &mut Cache, era: u32, weights: &Vec<u32>) -> (r: Result<
    (),
    ApiError,
>)
    requires
        wf(*old(c)),
        weights_ok(weights@),
    ensures
        wf(*final(c)),
        final(c).network == old(c).network,
        final(c).info == old(c).info,
        final(c).stats@ == old(c).stats@,
        final(c).active_era == old(c).active_era,
        final(c).eras@ == old(c).eras@,
        final(c).validators@ == old(c).validators@,
        final(c).eras_validators@ == old(c).eras_validators@,
        final(c).active_eras@ == old(c).active_eras@,
        crate::cache::board_exists(
            *old(c),
            era,
            crate::params::board_name(weights@, None::<Seq<Interval>>),
        ) ==> r is Ok && *final(c) == *old(c),
        !crate::cache::board_exists(
            *old(c),
            era,
            crate::params::board_name(weights@, None::<Seq<Interval>>),
        ) && old(c).info.syncing ==> r is Err && *final(c) == *old(c) && (match r {
            Err(ApiError::NotFound(m)) => m@
                == "The system is currently syncing. Usually doesn't take long 5 - 10min. Please just wait a few minutes before you try again. Thank you."@,
            _ => false,
        }),
        !crate::cache::board_exists(
            *old(c),
            era,
            crate::params::board_name(weights@, None::<Seq<Interval>>),
        ) && !old(c).info.syncing ==> r is Ok && ({
            let name = crate::params::board_name(weights@, None::<Seq<Interval>>);
            let lims = derived_limits(old(c).boards@);
            &&& (forall|e2: u32, n2: Seq<char>| #![auto]
                limits_of(*final(c), e2, n2) == (if e2 == era && n2 == name {
                    Some(lims)
                } else {
                    limits_of(*old(c), e2, n2)
                }))
            &&& (forall|m: Seq<char>| #![auto]
                is_all_member(*old(c), era, m) && !rec_or_default(
                    val_of(*old(c), m),
                ).blocked ==> board_score(*final(c), era, name, m) == Some(
                    sum_score_at(rec_or_default(val_of(*old(c), m)), lims, weights@, 10) as u128,
                ) && scores_of(*final(c), era, name, m) is Some && ({
                    let sc = scores_of(*final(c), era, name, m).unwrap();
                    sc.len() == 10 && forall|i: int|
                        0 <= i < 10 ==> sc[i] == score_at(
                            rec_or_default(val_of(*old(c), m)),
                            lims,
                            weights@,
                            i,
                        )
                }))
            &&& (forall|e2: u32, n2: Seq<char>, m: Seq<char>| #![auto]
                !(e2 == era && n2 == name && is_all_member(*old(c), era, m) && !rec_or_default(
                    val_of(*old(c), m),
                ).blocked) ==> board_score(*final(c), e2, n2, m) == board_score(
                    *old(c),
                    e2,
                    n2,
                    m,
                ) && scores_of(*final(c), e2, n2, m) == scores_of(*old(c), e2, n2, m))
        }),
{
    let name = crate::params::get_board_name(weights, None);
    if board_exists_now(c, era, &name) {
        return Ok(());
    }
    if crate::indexer::is_syncing(c) {
        return Err(ApiError::NotFound(syncing_message()));
    }
    let limits = cache_board_limits(c, era, &name);
    let ghost c0 = *c;
    let all_name = String::from_str("all:val");
    let ms = board_members(&c.boards, era, &all_name);
    let ghost msv = members_of(old(c).boards@, era, "all:val"@);
    proof {
        assert(members_of(c.boards@, era, "all:val"@) == msv);
        lemma_members_assoc(old(c).boards@, era, "all:val"@);
    }
    let mut i: usize = 0;
    while i < ms.len()
        invariant
            0 <= i <= ms@.len(),
            ms@.len() == msv.len(),
            msv == members_of(old(c).boards@, era, "all:val"@),
            forall|j: int| #![auto]
                0 <= j < ms@.len() ==> ms@[j].0@ == msv[j].0 && ms@[j].1 == msv[j].1,
            forall|j1: int, j2: int| #![auto] 0 <= j1 < j2 < msv.len() ==> msv[j1].0 != msv[j2].0,
            weights_ok(weights@),
            wf(*c),
            limits == derived_limits(old(c).boards@),
            c.network == old(c).network,
            c.info == old(c).info,
            c.stats@ == old(c).stats@,
            c.active_era == old(c).active_era,
            c.eras@ == old(c).eras@,
            c.validators@ == old(c).validators@,
            c.eras_validators@ == old(c).eras_validators@,
            c.active_eras@ == old(c).active_eras@,
            c.board_limits@ == c0.board_limits@,
            forall|m: Seq<char>| #![auto]
                (exists|j: int| 0 <= j < i && #[trigger] msv[j].0 == m) && !rec_or_default(
                    val_of(*old(c), m),
                ).blocked ==> board_score(*c, era, name@, m) == Some(
                    sum_score_at(rec_or_default(val_of(*old(c), m)), limits, weights@, 10) as u128,
                ) && scores_of(*c, era, name@, m) is Some && ({
                    let sc = scores_of(*c, era, name@, m).unwrap();
                    sc.len() == 10 && forall|q: int|
                        0 <= q < 10 ==> sc[q] == score_at(
                            rec_or_default(val_of(*old(c), m)),
                            limits,
                            weights@,
                            q,
                        )
                }),
            forall|e2: u32, n2: Seq<char>, m: Seq<char>| #![auto]
                !(e2 == era && n2 == name@ && (exists|j: int|
                    0 <= j < i && #[trigger] msv[j].0 == m) && !rec_or_default(
                    val_of(*old(c), m),
                ).blocked) ==> board_score(*c, e2, n2, m) == board_score(c0, e2, n2, m)
                    && scores_of(*c, e2, n2, m) == scores_of(c0, e2, n2, m),
        decreases ms@.len() - i,
    {
        let stash = &ms[i].0;
        let rec = read_record(c, stash);
        proof {
            crate::cache::lemma_wf_val_stakes_or_default(*c, stash@);
            assert(val_of(*c, stash@) == val_of(*old(c), stash@));
        }
        if !rec.blocked {
            let scores = calculate_scores(&rec, &limits, weights);
            let total = total_score(&scores);
            let ghost chead = *c;
            crate::kv::set_esm(&mut c.boards, era, &name, stash, total as u128);
            crate::kv::set_esm(&mut c.board_scores, era, &name, stash, scores);
            proof {
                lemma_total(
                    crate::cache::scores_of(*c, era, name@, stash@).unwrap(),
                    rec@,
                    limits,
                    weights@,
                    10,
                );
                assert forall|m: Seq<char>| #![auto]
                    (exists|j: int| 0 <= j < i + 1 && #[trigger] msv[j].0 == m)
                        && !rec_or_default(val_of(*old(c), m)).blocked implies board_score(
                    *c,
                    era,
                    name@,
                    m,
                ) == Some(
                    sum_score_at(rec_or_default(val_of(*old(c), m)), limits, weights@, 10) as u128,
                ) && scores_of(*c, era, name@, m) is Some && ({
                    let sc = scores_of(*c, era, name@, m).unwrap();
                    sc.len() == 10 && forall|q: int|
                        0 <= q < 10 ==> sc[q] == score_at(
                            rec_or_default(val_of(*old(c), m)),
                            limits,
                            weights@,
                            q,
                        )
                }) by {
                    if m == stash@ {
                    } else {
                        assert(exists|j: int| 0 <= j < i && #[trigger] msv[j].0 == m);
                        assert(board_score(*c, era, name@, m) == board_score(
                            chead,
                            era,
                            name@,
                            m,
                        ));
                        assert(scores_of(*c, era, name@, m) == scores_of(chead, era, name@, m));
                    }
                }
                assert forall|e2: u32, n2: Seq<char>, m: Seq<char>| #![auto]
                    !(e2 == era && n2 == name@ && (exists|j: int|
                        0 <= j < i + 1 && #[trigger] msv[j].0 == m) && !rec_or_default(
                        val_of(*old(c), m),
                    ).blocked) implies board_score(*c, e2, n2, m) == board_score(c0, e2, n2, m)
                    && scores_of(*c, e2, n2, m) == scores_of(c0, e2, n2, m) by {
                    if !(e2 == era && n2 == name@ && m == stash@) {
                        assert(board_score(*c, e2, n2, m) == board_score(chead, e2, n2, m));
                        assert(scores_of(*c, e2, n2, m) == scores_of(chead, e2, n2, m));
                        assert(!(e2 == era && n2 == name@ && (exists|j: int|
                            0 <= j < i && #[trigger] msv[j].0 == m) && !rec_or_default(
                            val_of(*old(c), m),
                        ).blocked));
                    } else {
                        assert(msv[i as int].0 == m);
                        assert(false);
                    }
                }
            }
        } else {
            proof {
                assert forall|e2: u32, n2: Seq<char>, m: Seq<char>| #![auto]
                    !(e2 == era && n2 == name@ && (exists|j: int|
                        0 <= j < i + 1 && #[trigger] msv[j].0 == m) && !rec_or_default(
                        val_of(*old(c), m),
                    ).blocked) implies board_score(*c, e2, n2, m) == board_score(c0, e2, n2, m)
                    && scores_of(*c, e2, n2, m) == scores_of(c0, e2, n2, m) by {
                    if !(e2 == era && n2 == name@ && (exists|j: int|
                        0 <= j < i && #[trigger] msv[j].0 == m) && !rec_or_default(
                        val_of(*old(c), m),
                    ).blocked) {
                    }
                }
                assert forall|m: Seq<char>| #![auto]
                    (exists|j: int| 0 <= j < i + 1 && #[trigger] msv[j].0 == m)
                        && !rec_or_default(val_of(*old(c), m)).blocked implies board_score(
                    *c,
                    era,
                    name@,
                    m,
                ) == Some(
                    sum_score_at(rec_or_default(val_of(*old(c), m)), limits, weights@, 10) as u128,
                ) && scores_of(*c, era, name@, m) is Some && ({
                    let sc = scores_of(*c, era, name@, m).unwrap();
                    sc.len() == 10 && forall|q: int|
                        0 <= q < 10 ==> sc[q] == score_at(
                            rec_or_default(val_of(*old(c), m)),
                            limits,
                            weights@,
                            q,
                        )
                }) by {
                    if m == stash@ {
                        assert(rec_or_default(val_of(*old(c), m)).blocked);
                        assert(false);
                    } else {
                        assert(exists|j: int| 0 <= j < i && #[trigger] msv[j].0 == m);
                    }
                }
            }
        }
        i += 1;
    }
    proof {
        let lims = derived_limits(old(c).boards@);
        assert(c0.boards@ == old(c).boards@);
        assert(c0.board_scores@ == old(c).board_scores@);
        assert forall|e2: u32, n2: Seq<char>| #![auto]
            limits_of(*c, e2, n2) == (if e2 == era && n2 == name@ {
                Some(lims)
            } else {
                limits_of(*old(c), e2, n2)
            }) by {
            assert(limits_of(*c, e2, n2) == limits_of(c0, e2, n2));
        }
        assert forall|m: Seq<char>| #![auto]
            is_all_member(*old(c), era, m) && !rec_or_default(
                val_of(*old(c), m),
            ).blocked implies board_score(*c, era, name@, m) == Some(
            sum_score_at(rec_or_default(val_of(*old(c), m)), lims, weights@, 10) as u128,
        ) && scores_of(*c, era, name@, m) is Some && ({
            let sc = scores_of(*c, era, name@, m).unwrap();
            sc.len() == 10 && forall|q: int|
                0 <= q < 10 ==> sc[q] == score_at(
                    rec_or_default(val_of(*old(c), m)),
                    lims,
                    weights@,
                    q,
                )
        }) by {
            lemma_member_listed(*old(c), era, m);
            assert(exists|j: int| 0 <= j < msv.len() && #[trigger] msv[j].0 == m);
        }
        assert forall|e2: u32, n2: Seq<char>, m: Seq<char>| #![auto]
            !(e2 == era && n2 == name@ && is_all_member(*old(c), era, m) && !rec_or_default(
                val_of(*old(c), m),
            ).blocked) implies board_score(*c, e2, n2, m) == board_score(*old(c), e2, n2, m)
            && scores_of(*c, e2, n2, m) == scores_of(*old(c), e2, n2, m) by {
            if exists|j: int| 0 <= j < msv.len() && #[trigger] msv[j].0 == m {
                if e2 == era && n2 == name@ {
                    lemma_member_listed(*old(c), era, m);
                    let w = choose|w: int| 0 <= w < msv.len() && #[trigger] msv[w].0 == m;
                    lemma_members_assoc(old(c).boards@, era, "all:val"@);
                    assert(crate::kv::assoc_esm(old(c).boards@, era, "all:val"@, m) == Some(
                        msv[w].1,
                    ));
                    assert(is_all_member(*old(c), era, m));
                    assert(rec_or_default(val_of(*old(c), m)).blocked);
                    assert(!(e2 == era && n2 == name@ && (exists|j: int|
                        0 <= j < msv.len() && #[trigger] msv[j].0 == m) && !rec_or_default(
                        val_of(*old(c), m),
                    ).blocked));
                } else {
                    assert(!(e2 == era && n2 == name@));
                }
            }
            assert(board_score(*c, e2, n2, m) == board_score(c0, e2, n2, m));
            assert(scores_of(*c, e2, n2, m) == scores_of(c0, e2, n2, m));
        }
    }
    Ok(())
}

/// Whether a record's attributes all lie inside the user's intervals: the
/// rates and counts inside their fixed-point bounds, a degenerate interval
/// on a flag constraining it exactly, nominators capped only below the
/// oversubscription threshold, and stakes compared against the truncated
/// bounds.
pub open spec fn spec_passes(v: ValidatorRecordV, l: BoardLimits) -> bool {
    &&& !(v.inclusion_rate_scaled < l.inclusion_rate.min || v.inclusion_rate_scaled
        > l.inclusion_rate.max)
    &&& !((v.commission as int) * (SCALE as int) < l.commission.min || (v.commission as int) * (
    SCALE as int) > l.commission.max)
    &&& !((v.nominators as int) * (SCALE as int) < l.nominators.min || ((v.nominators as int) * (
    SCALE as int) > l.nominators.max && l.nominators.max < 256 * (SCALE as int)))
    &&& !(v.avg_reward_points_scaled < l.avg_reward_points.min || v.avg_reward_points_scaled
        > l.avg_reward_points.max)
    &&& !(spec_flag(v.reward_staked) != l.reward_staked.min && l.reward_staked.min
        == l.reward_staked.max)
    &&& !(spec_flag(v.active) != l.active.min && l.active.min == l.active.max)
    &&& !(v.own_stake < (l.own_stake.min as int) / (SCALE as int) || v.own_stake > (
    l.own_stake.max as int) / (SCALE as int))
    &&& !(v.own_stake + v.nominators_stake < (l.total_stake.min as int) / (SCALE as int)
        || v.own_stake + v.nominators_stake > (l.total_stake.max as int) / (SCALE as int))
    &&& !((v.judgements as int) * (SCALE as int) < l.judgements.min || (v.judgements as int) * (
    SCALE as int) > l.judgements.max)
    &&& !((v.sub_accounts as int) * (SCALE as int) < l.sub_accounts.min || (
    v.sub_accounts as int) * (SCALE as int) > l.sub_accounts.max)
}

/// Tests a record against the user's intervals.
pub fn passes_intervals(v: &ValidatorRecord, l: &BoardLimits) -> (r: bool)
    requires
        crate::score::stakes_ok(v@),
    ensures
        r == spec_passes(v@, *l),
{
    let scale = SCALE as u128;
    if (v.inclusion_rate_scaled as u128) < l.inclusion_rate.min || (v.inclusion_rate_scaled
        as u128) > l.inclusion_rate.max {
        return false;
    }
    if crate::score::scaled_lt(v.commission as u128, l.commission.min)
        || crate::score::scaled_gt(v.commission as u128, l.commission.max) {
        return false;
    }
    if crate::score::scaled_lt(v.nominators as u128, l.nominators.min) || (
    crate::score::scaled_gt(v.nominators as u128, l.nominators.max) && l.nominators.max < 256
        * scale) {
        return false;
    }
    if (v.avg_reward_points_scaled as u128) < l.avg_reward_points.min || (
    v.avg_reward_points_scaled as u128) > l.avg_reward_points.max {
        return false;
    }
    let rs = crate::score::normalize_flag(v.reward_staked) as u128;
    if rs != l.reward_staked.min && l.reward_staked.min == l.reward_staked.max {
        return false;
    }
    let ac = crate::score::normalize_flag(v.active) as u128;
    if ac != l.active.min && l.active.min == l.active.max {
        return false;
    }
    if v.own_stake < l.own_stake.min / scale || v.own_stake > l.own_stake.max / scale {
        return false;
    }
    let total = v.own_stake + v.nominators_stake;
    if total < l.total_stake.min / scale || total > l.total_stake.max / scale {
        return false;
    }
    if crate::score::scaled_lt(v.judgements as u128, l.judgements.min)
        || crate::score::scaled_gt(v.judgements as u128, l.judgements.max) {
        return false;
    }
    if crate::score::scaled_lt(v.sub_accounts as u128, l.sub_accounts.min)
        || crate::score::scaled_gt(v.sub_accounts as u128, l.sub_accounts.max) {
        return false;
    }
    true
}

/// Generates the filtered board for the weights and intervals: during a
/// resync, with the board absent, nothing is written and the request is
/// refused; otherwise every unblocked member of the era's `all` board whose
/// attributes lie inside the intervals is scored onto the board against the
/// intervals themselves.  An existing board is re-scored in place.
#[verifier::rlimit(60)]
#[verifier::spinoff_prover]
pub fn generate_board_filtered_by_intervals(
    c: &mut Cache,
    era: u32,
    weights: &Vec<u32>,
    intervals: &Vec<Interval>,
) -> (r: Result<(), ApiError>)
    requires
        wf(*old(c)),
        weights_ok(weights@),
    ensures
        wf(*final(c)),
        final(c).network == old(c).network,
        final(c).info == old(c).info,
        final(c).stats@ == old(c).stats@,
        final(c).active_era == old(c).active_era,
        final(c).eras@ == old(c).eras@,
        final(c).validators@ == old(c).validators@,
        final(c).eras_validators@ == old(c).eras_validators@,
        final(c).active_eras@ == old(c).active_eras@,
        final(c).board_limits@ == old(c).board_limits@,
        !crate::cache::board_exists(
            *old(c),
            era,
            crate::params::board_name(weights@, Some(intervals@)),
        ) && old(c).info.syncing ==> r is Err && *final(c) == *old(c) && (match r {
            Err(ApiError::NotFound(m)) => m@
                == "The system is currently syncing. Usually doesn't take long 5 - 10min. Please just wait a few minutes before you try again. Thank you."@,
            _ => false,
        }),
        (crate::cache::board_exists(
            *old(c),
            era,
            crate::params::board_name(weights@, Some(intervals@)),
        ) || !old(c).info.syncing) ==> r is Ok && ({
            let name = crate::params::board_name(weights@, Some(intervals@));
            let lims = BoardLimits {
                inclusion_rate: crate::score::interval_or_default(intervals@, 0),
                commission: crate::score::interval_or_default(intervals@, 1),
                nominators: crate::score::interval_or_default(intervals@, 2),
                avg_reward_points: crate::score::interval_or_default(intervals@, 3),
                reward_staked: crate::score::interval_or_default(intervals@, 4),
                active: crate::score::interval_or_default(intervals@, 5),
                own_stake: crate::score::interval_or_default(intervals@, 6),
                total_stake: crate::score::interval_or_default(intervals@, 7),
                judgements: crate::score::interval_or_default(intervals@, 8),
                sub_accounts: crate::score::interval_or_default(intervals@, 9),
            };
            &&& (forall|m: Seq<char>| #![auto]
                is_all_member(*old(c), era, m) && !rec_or_default(val_of(*old(c), m)).blocked
                    && spec_passes(rec_or_default(val_of(*old(c), m)), lims) ==> board_score(
                    *final(c),
                    era,
                    name,
                    m,
                ) == Some(
                    sum_score_at_scaled(
                        rec_or_default(val_of(*old(c), m)),
                        lims,
                        weights@,
                        10,
                    ) as u128,
                ) && scores_of(*final(c), era, name, m) is Some && ({
                    let sc = scores_of(*final(c), era, name, m).unwrap();
                    sc.len() == 10 && forall|q: int|
                        0 <= q < 10 ==> sc[q] == score_at_scaled(
                            rec_or_default(val_of(*old(c), m)),
                            lims,
                            weights@,
                            q,
                        )
                }))
            &&& (forall|e2: u32, n2: Seq<char>, m: Seq<char>| #![auto]
                !(e2 == era && n2 == name && is_all_member(*old(c), era, m) && !rec_or_default(
                    val_of(*old(c), m),
                ).blocked && spec_passes(rec_or_default(val_of(*old(c), m)), lims))
                    ==> board_score(*final(c), e2, n2, m) == board_score(*old(c), e2, n2, m)
                    && scores_of(*final(c), e2, n2, m) == scores_of(*old(c), e2, n2, m))
        }),
{
    let name = crate::params::get_board_name(weights, Some(intervals));
    let exists_already = board_exists_now(c, era, &name);
    if !exists_already && crate::indexer::is_syncing(c) {
        return Err(ApiError::NotFound(syncing_message()));
    }
    let limits = BoardLimits::from(intervals);
    let ghost c0 = *c;
    let all_name = String::from_str("all:val");
    let ms = board_members(&c.boards, era, &all_name);
    let ghost msv = members_of(old(c).boards@, era, "all:val"@);
    proof {
        assert(members_of(c.boards@, era, "all:val"@) == msv);
        lemma_members_assoc(old(c).boards@, era, "all:val"@);
    }
    let mut i: usize = 0;
    while i < ms.len()
        invariant
            0 <= i <= ms@.len(),
            ms@.len() == msv.len(),
            msv == members_of(old(c).boards@, era, "all:val"@),
            forall|j: int| #![auto]
                0 <= j < ms@.len() ==> ms@[j].0@ == msv[j].0 && ms@[j].1 == msv[j].1,
            forall|j1: int, j2: int| #![auto] 0 <= j1 < j2 < msv.len() ==> msv[j1].0 != msv[j2].0,
            weights_ok(weights@),
            wf(*c),
            limits == (BoardLimits {
                inclusion_rate: crate::score::interval_or_default(intervals@, 0),
                commission: crate::score::interval_or_default(intervals@, 1),
                nominators: crate::score::interval_or_default(intervals@, 2),
                avg_reward_points: crate::score::interval_or_default(intervals@, 3),
                reward_staked: crate::score::interval_or_default(intervals@, 4),
                active: crate::score::interval_or_default(intervals@, 5),
                own_stake: crate::score::interval_or_default(intervals@, 6),
                total_stake: crate::score::interval_or_default(intervals@, 7),
                judgements: crate::score::interval_or_default(intervals@, 8),
                sub_accounts: crate::score::interval_or_default(intervals@, 9),
            }),
            c.network == old(c).network,
            c.info == old(c).info,
            c.stats@ == old(c).stats@,
            c.active_era == old(c).active_era,
            c.eras@ == old(c).eras@,
            c.validators@ == old(c).validators@,
            c.eras_validators@ == old(c).eras_validators@,
            c.active_eras@ == old(c).active_eras@,
            c.board_limits@ == old(c).board_limits@,
            forall|m: Seq<char>| #![auto]
                (exists|j: int| 0 <= j < i && #[trigger] msv[j].0 == m) && !rec_or_default(
                    val_of(*old(c), m),
                ).blocked && spec_passes(rec_or_default(val_of(*old(c), m)), limits)
                    ==> board_score(*c, era, name@, m) == Some(
                    sum_score_at_scaled(
                        rec_or_default(val_of(*old(c), m)),
                        limits,
                        weights@,
                        10,
                    ) as u128,
                ) && scores_of(*c, era, name@, m) is Some && ({
                    let sc = scores_of(*c, era, name@, m).unwrap();
                    sc.len() == 10 && forall|q: int|
                        0 <= q < 10 ==> sc[q] == score_at_scaled(
                            rec_or_default(val_of(*old(c), m)),
                            limits,
                            weights@,
                            q,
                        )
                }),
            forall|e2: u32, n2: Seq<char>, m: Seq<char>| #![auto]
                !(e2 == era && n2 == name@ && (exists|j: int|
                    0 <= j < i && #[trigger] msv[j].0 == m) && !rec_or_default(
                    val_of(*old(c), m),
                ).blocked && spec_passes(rec_or_default(val_of(*old(c), m)), limits))
                    ==> board_score(*c, e2, n2, m) == board_score(c0, e2, n2, m) && scores_of(
                    *c,
                    e2,
                    n2,
                    m,
                ) == scores_of(c0, e2, n2, m),
        decreases ms@.len() - i,
    {
        let stash = &ms[i].0;
        let rec = read_record(c, stash);
        proof {
            crate::cache::lemma_wf_val_stakes_or_default(*c, stash@);
            assert(val_of(*c, stash@) == val_of(*old(c), stash@));
        }
        if !rec.blocked && passes_intervals(&rec, &limits) {
            let scores = calculate_scores_scaled(&rec, &limits, weights);
            let total = total_score(&scores);
            let ghost chead = *c;
            crate::kv::set_esm(&mut c.boards, era, &name, stash, total as u128);
            crate::kv::set_esm(&mut c.board_scores, era, &name, stash, scores);
            proof {
                lemma_total_scaled(
                    crate::cache::scores_of(*c, era, name@, stash@).unwrap(),
                    rec@,
                    limits,
                    weights@,
                    10,
                );
                assert forall|m: Seq<char>| #![auto]
                    (exists|j: int| 0 <= j < i + 1 && #[trigger] msv[j].0 == m)
                        && !rec_or_default(val_of(*old(c), m)).blocked && spec_passes(
                    rec_or_default(val_of(*old(c), m)),
                    limits,
                ) implies board_score(*c, era, name@, m) == Some(
                    sum_score_at_scaled(
                        rec_or_default(val_of(*old(c), m)),
                        limits,
                        weights@,
                        10,
                    ) as u128,
                ) && scores_of(*c, era, name@, m) is Some && ({
                    let sc = scores_of(*c, era, name@, m).unwrap();
                    sc.len() == 10 && forall|q: int|
                        0 <= q < 10 ==> sc[q] == score_at_scaled(
                            rec_or_default(val_of(*old(c), m)),
                            limits,
                            weights@,
                            q,
                        )
                }) by {
                    if m == stash@ {
                    } else {
                        assert(exists|j: int| 0 <= j < i && #[trigger] msv[j].0 == m);
                        assert(board_score(*c, era, name@, m) == board_score(
                            chead,
                            era,
                            name@,
                            m,
                        ));
                        assert(scores_of(*c, era, name@, m) == scores_of(chead, era, name@, m));
                    }
                }
                assert forall|e2: u32, n2: Seq<char>, m: Seq<char>| #![auto]
                    !(e2 == era && n2 == name@ && (exists|j: int|
                        0 <= j < i + 1 && #[trigger] msv[j].0 == m) && !rec_or_default(
                        val_of(*old(c), m),
                    ).blocked && spec_passes(rec_or_default(val_of(*old(c), m)), limits))
                    implies board_score(*c, e2, n2, m) == board_score(c0, e2, n2, m)
                    && scores_of(*c, e2, n2, m) == scores_of(c0, e2, n2, m) by {
                    if !(e2 == era && n2 == name@ && m == stash@) {
                        assert(board_score(*c, e2, n2, m) == board_score(chead, e2, n2, m));
                        assert(scores_of(*c, e2, n2, m) == scores_of(chead, e2, n2, m));
                        assert(!(e2 == era && n2 == name@ && (exists|j: int|
                            0 <= j < i && #[trigger] msv[j].0 == m) && !rec_or_default(
                            val_of(*old(c), m),
                        ).blocked && spec_passes(rec_or_default(val_of(*old(c), m)), limits)));
                    } else {
                        assert(msv[i as int].0 == m);
                        assert(false);
                    }
                }
            }
        } else {
            proof {
                assert forall|m: Seq<char>| #![auto]
                    (exists|j: int| 0 <= j < i + 1 && #[trigger] msv[j].0 == m)
                        && !rec_or_default(val_of(*old(c), m)).blocked && spec_passes(
                    rec_or_default(val_of(*old(c), m)),
                    limits,
                ) implies board_score(*c, era, name@, m) == Some(
                    sum_score_at_scaled(
                        rec_or_default(val_of(*old(c), m)),
                        limits,
                        weights@,
                        10,
                    ) as u128,
                ) && scores_of(*c, era, name@, m) is Some && ({
                    let sc = scores_of(*c, era, name@, m).unwrap();
                    sc.len() == 10 && forall|q: int|
                        0 <= q < 10 ==> sc[q] == score_at_scaled(
                            rec_or_default(val_of(*old(c), m)),
                            limits,
                            weights@,
                            q,
                        )
                }) by {
                    if m == stash@ {
                        assert(false);
                    } else {
                        assert(exists|j: int| 0 <= j < i && #[trigger] msv[j].0 == m);
                    }
                }
            }
        }
        i += 1;
    }
    proof {
        assert forall|m: Seq<char>| #![auto]
            is_all_member(*old(c), era, m) && !rec_or_default(val_of(*old(c), m)).blocked
                && spec_passes(rec_or_default(val_of(*old(c), m)), limits) implies board_score(
            *c,
            era,
            name@,
            m,
        ) == Some(
            sum_score_at_scaled(rec_or_default(val_of(*old(c), m)), limits, weights@, 10) as u128,
        ) && scores_of(*c, era, name@, m) is Some && ({
            let sc = scores_of(*c, era, name@, m).unwrap();
            sc.len() == 10 && forall|q: int|
                0 <= q < 10 ==> sc[q] == score_at_scaled(
                    rec_or_default(val_of(*old(c), m)),
                    limits,
                    weights@,
                    q,
                )
        }) by {
            lemma_member_listed(*old(c), era, m);
            assert(exists|j: int| 0 <= j < msv.len() && #[trigger] msv[j].0 == m);
        }
        assert forall|e2: u32, n2: Seq<char>, m: Seq<char>| #![auto]
            !(e2 == era && n2 == name@ && is_all_member(*old(c), era, m) && !rec_or_default(
                val_of(*old(c), m),
            ).blocked && spec_passes(rec_or_default(val_of(*old(c), m)), limits))
            implies board_score(*c, e2, n2, m) == board_score(*old(c), e2, n2, m) && scores_of(
            *c,
            e2,
            n2,
            m,
        ) == scores_of(*old(c), e2, n2, m) by {
            if exists|j: int| 0 <= j < msv.len() && #[trigger] msv[j].0 == m {
                if e2 == era && n2 == name@ {
                    lemma_member_listed(*old(c), era, m);
                    let w = choose|w: int| 0 <= w < msv.len() && #[trigger] msv[w].0 == m;
                    lemma_members_assoc(old(c).boards@, era, "all:val"@);
                    assert(crate::kv::assoc_esm(old(c).boards@, era, "all:val"@, m) == Some(
                        msv[w].1,
                    ));
                    assert(is_all_member(*old(c), era, m));
                }
            }
            assert(board_score(*c, e2, n2, m) == board_score(c0, e2, n2, m));
            assert(scores_of(*c, e2, n2, m) == scores_of(c0, e2, n2, m));
        }
    }
    Ok(())
}

} // verus!
