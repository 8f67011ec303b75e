//! The synchroniser: the passes that mirror chain state into the cache.
//!
//! Chain reads happen outside this crate; each pass takes the fetched values
//! as plain inputs and performs the cache writes.  The contracts characterise
//! every table a pass touches, pointwise by key, and state that everything
//! else is untouched.

use vstd::prelude::*;
use vstd::arithmetic::div_mod::{lemma_div_is_ordered, lemma_div_multiples_vanish};
use vstd::set_lib::lemma_int_range;
use crate::cache::{aeras_of, era_of, wf, Cache};
use crate::identity::IdentityInput;
use crate::stats::SCALE;
use crate::types::{EraRecord, InfoRecord, NetworkRecord, SyncError};

verus! {

/// Everything the chain answers about one validator.
pub struct ValidatorInput {
    /// The validator's stash account.
    pub stash: String,
    /// Commission in parts per billion.
    pub commission: u32,
    /// Whether the validator blocks nominations.
    pub blocked: bool,
    /// The controller account, when the stash is bonded.
    pub controller: Option<String>,
    /// The active amount of the controller's staking ledger.
    pub ledger_active: Option<u128>,
    /// Whether rewards are paid back into the stake.
    pub payee_staked: bool,
    /// The identity lookups for the stash.
    pub identity: IdentityInput,
}

/// View of a validator input.
pub struct ValidatorInputV {
    pub stash: Seq<char>,
    pub commission: u32,
    pub blocked: bool,
    pub controller: Option<Seq<char>>,
    pub ledger_active: Option<u128>,
    pub payee_staked: bool,
    pub identity: crate::identity::IdentityInputV,
}

impl View for ValidatorInput {
    type V = ValidatorInputV;

    open spec fn view(&self) -> ValidatorInputV {
        ValidatorInputV {
            stash: self.stash@,
            commission: self.commission,
            blocked: self.blocked,
            controller: match self.controller {
                Some(c) => Some(c@),
                None => None,
            },
            ledger_active: self.ledger_active,
            payee_staked: self.payee_staked,
            identity: self.identity@,
        }
    }
}

/// Everything the chain answers about one nominator.
pub struct NominatorInput {
    /// The nominator's stash account.
    pub stash: String,
    /// The controller account, when the stash is bonded.
    pub controller: Option<String>,
    /// The active amount of the controller's staking ledger.
    pub ledger_active: Option<u128>,
    /// The validator stashes the nominator targets.
    pub targets: Vec<String>,
}

/// View of a nominator input.
pub struct NominatorInputV {
    pub stash: Seq<char>,
    pub controller: Option<Seq<char>>,
    pub ledger_active: Option<u128>,
    pub targets: Seq<Seq<char>>,
}

impl View for NominatorInput {
    type V = NominatorInputV;

    open spec fn view(&self) -> NominatorInputV {
        NominatorInputV {
            stash: self.stash@,
            controller: match self.controller {
                Some(c) => Some(c@),
                None => None,
            },
            ledger_active: self.ledger_active,
            targets: self.targets@.map_values(|t: String| t@),
        }
    }
}

/// The bonded amount behind a controller: the ledger's active amount, or 0
/// without a ledger.
pub open spec fn spec_controller_stake(ledger_active: Option<u128>) -> u128 {
    match ledger_active {
        Some(a) => a,
        None => 0,
    }
}

/// The stake a controller has bonded.
pub fn get_controller_stake(ledger_active: &Option<u128>) -> (r: u128)
    ensures
        r == spec_controller_stake(*ledger_active),
{
    match ledger_active {
        Some(a) => *a,
        None => 0,
    }
}

/// How many recorded eras fall inside `[era_min, era_max)`.
pub open spec fn count_window(l: Seq<(u32, u32)>, era_min: u32, era_max: u32) -> int
    decreases l.len(),
{
    if l.len() == 0 {
        0
    } else {
        count_window(l.drop_last(), era_min, era_max) + (if era_min <= l.last().0
            < era_max {
            1int
        } else {
            0int
        })
    }
}

/// Total points earned in the eras inside `[era_min, era_max)`.
pub open spec fn points_sum_window(l: Seq<(u32, u32)>, era_min: u32, era_max: u32) -> int
    decreases l.len(),
{
    if l.len() == 0 {
        0
    } else {
        points_sum_window(l.drop_last(), era_min, era_max) + (if era_min <= l.last().0
            < era_max {
            l.last().1 as int
        } else {
            0int
        })
    }
}

/// The set of distinct eras matched inside the window.
spec fn matched_eras(l: Seq<(u32, u32)>, era_min: u32, era_max: u32) -> Set<int>
    decreases l.len(),
{
    if l.len() == 0 {
        Set::empty()
    } else {
        let rest = matched_eras(l.drop_last(), era_min, era_max);
        if era_min <= l.last().0 < era_max {
            rest.insert(l.last().0 as int)
        } else {
            rest
        }
    }
}

/// An era in the matched set is the era of some entry.
proof fn lemma_matched_eras_member(l: Seq<(u32, u32)>, era_min: u32, era_max: u32, e: int)
    requires
        matched_eras(l, era_min, era_max).contains(e),
    ensures
        exists|i: int| 0 <= i < l.len() && l[i].0 == e,
        era_min <= e < era_max,
    decreases l.len(),
{
    if l.len() > 0 {
        let rest = matched_eras(l.drop_last(), era_min, era_max);
        if era_min <= l.last().0 < era_max && e == l.last().0 {
            assert(l[l.len() - 1].0 == e);
        } else {
            lemma_matched_eras_member(l.drop_last(), era_min, era_max, e);
            let i = choose|i: int| 0 <= i < l.drop_last().len() && l.drop_last()[i].0 == e;
            assert(l[i].0 == e);
        }
    }
}

/// With distinct eras the count equals the number of matched eras, which is
/// bounded by the window's width.
proof fn lemma_count_window_bound(l: Seq<(u32, u32)>, era_min: u32, era_max: u32)
    requires
        crate::kv::distinct_u(l),
        era_min <= era_max,
    ensures
        0 <= count_window(l, era_min, era_max) <= era_max - era_min,
    decreases l.len(),
{
    lemma_count_is_card(l, era_min, era_max);
    let m = matched_eras(l, era_min, era_max);
    let range = vstd::set_lib::set_int_range(era_min as int, era_max as int);
    lemma_int_range(era_min as int, era_max as int);
    assert forall|e: int| m.contains(e) implies range.contains(e) by {
        lemma_matched_eras_member(l, era_min, era_max, e);
    }
    assert(m.subset_of(range));
    vstd::set_lib::lemma_len_subset(m, range);
}

/// With distinct eras the matched-era count is the matched set's size.
proof fn lemma_count_is_card(l: Seq<(u32, u32)>, era_min: u32, era_max: u32)
    requires
        crate::kv::distinct_u(l),
    ensures
        matched_eras(l, era_min, era_max).finite(),
        count_window(l, era_min, era_max) == matched_eras(l, era_min, era_max).len(),
    decreases l.len(),
{
    if l.len() > 0 {
        assert(crate::kv::distinct_u(l.drop_last())) by {
            assert(forall|i: int, j: int|
                0 <= i < j < l.drop_last().len() ==> l.drop_last()[i].0 != l.drop_last()[j].0);
        }
        lemma_count_is_card(l.drop_last(), era_min, era_max);
        let rest = matched_eras(l.drop_last(), era_min, era_max);
        if era_min <= l.last().0 < era_max {
            assert(!rest.contains(l.last().0 as int)) by {
                if rest.contains(l.last().0 as int) {
                    lemma_matched_eras_member(l.drop_last(), era_min, era_max, l.last().0 as int);
                    let i = choose|i: int|
                        0 <= i < l.drop_last().len() && l.drop_last()[i].0 == l.last().0 as int;
                    assert(l[i].0 == l[l.len() - 1].0);
                }
            }
        }
    }
}

/// Inclusion rate over the window, in fixed point: the number of recorded
/// eras inside `[era_min, era_max)` over the window's width; 0 for an empty
/// window.
pub open spec fn spec_inclusion_rate(
    l: Option<Seq<(u32, u32)>>,
    era_min: u32,
    era_max: u32,
) -> int {
    let c = match l {
        Some(s) => count_window(s, era_min, era_max),
        None => 0,
    };
    if era_max <= era_min {
        0
    } else {
        c * (SCALE as int) / (era_max - era_min)
    }
}

/// Average points over the window, in fixed point: total points inside the
/// window over the number of recorded eras there; 0 when none is recorded.
pub open spec fn spec_avg_points(l: Option<Seq<(u32, u32)>>, era_min: u32, era_max: u32) -> int {
    match l {
        Some(s) => {
            let c = count_window(s, era_min, era_max);
            if c == 0 {
                0
            } else {
                points_sum_window(s, era_min, era_max) * (SCALE as int) / c
            }
        },
        None => 0,
    }
}

/// Counts eras and points inside the window.
fn window_stats(l: &Vec<(u32, u32)>, era_min: u32, era_max: u32) -> (r: (u64, u128))
    ensures
        r.0 == count_window(l@, era_min, era_max),
        r.1 == points_sum_window(l@, era_min, era_max),
        r.0 <= l@.len(),
{
    let mut count: u64 = 0;
    let mut sum: u128 = 0;
    let mut i: usize = 0;
    while i < l.len()
        invariant
            0 <= i <= l@.len(),
            count == count_window(l@.take(i as int), era_min, era_max),
            sum == points_sum_window(l@.take(i as int), era_min, era_max),
            count <= i,
            sum <= i * 0xffff_ffff,
        decreases l@.len() - i,
    {
        proof {
            assert(l@.take(i as int + 1).drop_last() =~= l@.take(i as int));
            assert((i + 1) * 0xffff_ffff == i * 0xffff_ffff + 0xffff_ffff) by (nonlinear_arith);
            assert((i + 1) * 0xffff_ffff < 0x1_0000_0000_0000_0000_0000_0000) by (nonlinear_arith)
                requires
                    i < 0x1_0000_0000_0000_0000,
            ;
        }
        let e = l[i].0;
        if era_min <= e && e < era_max {
            count = count + 1;
            sum = sum + l[i].1 as u128;
        }
        i += 1;
    }
    proof {
        assert(l@.take(l@.len() as int) =~= l@);
    }
    (count, sum)
}

/// The fraction of the window's eras in which the stash was active, in
/// fixed point; an empty window, or a stash with no recorded eras there,
/// reads as 0 rather than failing.
pub fn calculate_inclusion_rate(
    ae: &Vec<(String, Vec<(u32, u32)>)>,
    stash: &String,
    era_min: u32,
    era_max: u32,
) -> (r: u64)
    requires
        forall|i: int| 0 <= i < ae@.len() ==> crate::kv::distinct_u(#[trigger] ae@[i].1@),
        era_min <= era_max,
    ensures
        r == spec_inclusion_rate(crate::kv::assoc_s(ae@, stash@), era_min, era_max),
        r <= SCALE,
{
    let window = (era_max - era_min) as u128;
    match crate::kv::get_s(ae, stash) {
        Some(l) => {
            proof {
                crate::cache::lemma_assoc_s_indexes(ae@, stash@);
                lemma_count_window_bound(l@, era_min, era_max);
            }
            let (count, _) = window_stats(l, era_min, era_max);
            if window == 0 {
                return 0;
            }
            let scaled = (count as u128) * (SCALE as u128);
            proof {
                assert(count * (SCALE as int) <= window * (SCALE as int)) by (nonlinear_arith)
                    requires
                        0 <= count <= window,
                        SCALE > 0,
                ;
                lemma_div_is_ordered(
                    count * (SCALE as int),
                    window * (SCALE as int),
                    window as int,
                );
                lemma_div_multiples_vanish(SCALE as int, window as int);
            }
            let r = scaled / window;
            r as u64
        },
        None => 0,
    }
}

/// The average points the stash earned over the window's recorded eras, in
/// fixed point; a stash active in none of them reads as 0, not a failure.
pub fn calculate_avg_reward_points(
    ae: &Vec<(String, Vec<(u32, u32)>)>,
    stash: &String,
    era_min: u32,
    era_max: u32,
) -> (r: u64)
    ensures
        r == spec_avg_points(crate::kv::assoc_s(ae@, stash@), era_min, era_max),
{
    match crate::kv::get_s(ae, stash) {
        Some(l) => {
            let (count, sum) = window_stats(l, era_min, era_max);
            if count == 0 {
                return 0;
            }
            proof {
                lemma_window_sum_bound(l@, era_min, era_max);
                assert(sum * (SCALE as int) <= (count as int) * (0xffff_ffff * (SCALE as int)))
                    by (nonlinear_arith)
                    requires
                        0 <= sum <= (count as int) * 0xffff_ffff,
                ;
                assert((count as int) * (0xffff_ffff * (SCALE as int))
                    < 0x1_0000_0000_0000_0000_0000_0000_0000_0000) by (nonlinear_arith)
                    requires
                        count < 0x1_0000_0000_0000_0000,
                ;
            }
            let scaled = sum * (SCALE as u128);
            let avg = scaled / (count as u128);
            proof {
                lemma_div_is_ordered(
                    scaled as int,
                    (count as int) * (0xffff_ffff * (SCALE as int)),
                    count as int,
                );
                lemma_div_multiples_vanish(0xffff_ffff * (SCALE as int), count as int);
            }
            avg as u64
        },
        None => 0,
    }
}

/// The points inside the window sum to at most the matched count times the
/// largest point value.
proof fn lemma_window_sum_bound(l: Seq<(u32, u32)>, era_min: u32, era_max: u32)
    ensures
        0 <= points_sum_window(l, era_min, era_max) <= count_window(l, era_min, era_max)
            * 0xffff_ffff,
        count_window(l, era_min, era_max) >= 0,
    decreases l.len(),
{
    if l.len() > 0 {
        lemma_window_sum_bound(l.drop_last(), era_min, era_max);
        let c = count_window(l.drop_last(), era_min, era_max);
        if era_min <= l.last().0 < era_max {
            assert((c + 1) * 0xffff_ffff == c * 0xffff_ffff + 0xffff_ffff) by (nonlinear_arith);
        }
    }
}

/// Caches the chain metadata under the `network` key.
pub fn network(c: &mut Cache, record: NetworkRecord)
    ensures
        final(c).network == Some(record),
        final(c).info == old(c).info,
        final(c).stats@ == old(c).stats@,
        final(c).active_era == old(c).active_era,
        final(c).eras@ == old(c).eras@,
        final(c).validators@ == old(c).validators@,
        final(c).eras_validators@ == old(c).eras_validators@,
        final(c).active_eras@ == old(c).active_eras@,
        final(c).boards@ == old(c).boards@,
        final(c).board_scores@ == old(c).board_scores@,
        final(c).board_limits@ == old(c).board_limits@,
        wf(*old(c)) ==> wf(*final(c)),
{
    c.network = Some(record);
}

/// A synchronisation phase: a resync announces itself and stamps when it
/// finished.
pub enum Status {
    Started,
    Finished,
}

/// Stamps the synchronisation status: `Started` raises the syncing flag and
/// records the start time, `Finished` clears it and records the end time.
pub fn status(c: &mut Cache, s: Status, now: u64)
    ensures
        final(c).info == (match s {
            Status::Started => InfoRecord {
                syncing: true,
                syncing_started_at: now,
                ..old(c).info
            },
            Status::Finished => InfoRecord {
                syncing: false,
                syncing_finished_at: now,
                ..old(c).info
            },
        }),
        final(c).network == old(c).network,
        final(c).stats@ == old(c).stats@,
        final(c).active_era == old(c).active_era,
        final(c).eras@ == old(c).eras@,
        final(c).validators@ == old(c).validators@,
        final(c).eras_validators@ == old(c).eras_validators@,
        final(c).active_eras@ == old(c).active_eras@,
        final(c).boards@ == old(c).boards@,
        final(c).board_scores@ == old(c).board_scores@,
        final(c).board_limits@ == old(c).board_limits@,
        wf(*old(c)) ==> wf(*final(c)),
{
    match s {
        Status::Started => {
            c.info.syncing = true;
            c.info.syncing_started_at = now;
        },
        Status::Finished => {
            c.info.syncing = false;
            c.info.syncing_finished_at = now;
        },
    }
}

/// Whether a full resync is under way.
pub fn is_syncing(c: &Cache) -> (r: bool)
    ensures
        r == c.info.syncing,
{
    c.info.syncing
}

/// Caches the current era; the chain answering none is an error.
pub fn active_era(c: &mut Cache, index: Option<u32>) -> (r: Result<u32, SyncError>)
    ensures
        match r {
            Ok(e) => index == Some(e) && final(c).active_era == Some(e),
            Err(_) => index is None && final(c).active_era == old(c).active_era,
        },
        r is Err <==> index is None,
        final(c).network == old(c).network,
        final(c).info == old(c).info,
        final(c).stats@ == old(c).stats@,
        final(c).eras@ == old(c).eras@,
        final(c).validators@ == old(c).validators@,
        final(c).eras_validators@ == old(c).eras_validators@,
        final(c).active_eras@ == old(c).active_eras@,
        final(c).boards@ == old(c).boards@,
        final(c).board_scores@ == old(c).board_scores@,
        final(c).board_limits@ == old(c).board_limits@,
        wf(*old(c)) ==> wf(*final(c)),
{
    match index {
        Some(e) => {
            c.active_era = Some(e);
            Ok(e)
        },
        None => Err(SyncError::Other(String::from_str("Active era not available"))),
    }
}


/// The views of a list of validator inputs.
pub open spec fn views_of_inputs(s: Seq<ValidatorInput>) -> Seq<ValidatorInputV> {
    s.map_values(|v: ValidatorInput| v@)
}

/// The input selected for a stash: the last entry with that stash and a
/// controller.
pub open spec fn v_input_at(inp: Seq<ValidatorInputV>, k: Seq<char>) -> Option<ValidatorInputV>
    decreases inp.len(),
{
    if inp.len() == 0 {
        None
    } else if inp.last().stash == k && inp.last().controller is Some {
        Some(inp.last())
    } else {
        v_input_at(inp.drop_last(), k)
    }
}

/// How many inputs carry a controller.
pub open spec fn count_controller(inp: Seq<ValidatorInputV>) -> int
    decreases inp.len(),
{
    if inp.len() == 0 {
        0
    } else {
        count_controller(inp.drop_last()) + (if inp.last().controller is Some {
            1int
        } else {
            0int
        })
    }
}

/// No two inputs share a stash.
pub open spec fn distinct_stashes(inp: Seq<ValidatorInputV>) -> bool {
    forall|i: int, j: int| 0 <= i < j < inp.len() ==> inp[i].stash != inp[j].stash
}

/// The record the validators pass writes for one input: the chain
/// attributes, the rates computed over the recorded active eras, the
/// resolved identity, and the nominator counters reset to zero.
pub open spec fn expected_validator(
    v: ValidatorInputV,
    aeras: Option<Seq<(u32, u32)>>,
    era_min: u32,
    era_max: u32,
) -> crate::types::ValidatorRecordV {
    crate::types::ValidatorRecordV {
        active: false,
        commission: v.commission,
        blocked: v.blocked,
        controller: v.controller.unwrap(),
        own_stake: spec_controller_stake(v.ledger_active),
        reward_staked: v.payee_staked,
        inclusion_rate_scaled: spec_inclusion_rate(aeras, era_min, era_max) as u64,
        avg_reward_points_scaled: spec_avg_points(aeras, era_min, era_max) as u64,
        name: crate::identity::name_of(v.identity),
        judgements: crate::identity::judgements_of(v.identity) as u32,
        sub_accounts: crate::identity::subs_of(v.identity),
        nominators: 0,
        nominators_stake: 0,
    }
}

/// The board entry for `(e, n, m)` after the validators pass over the
/// inputs, against the boards of the cache `c` before the pass.
pub open spec fn boards_after_validators(
    c: Cache,
    inp: Seq<ValidatorInputV>,
    active_era: u32,
    e: u32,
    n: Seq<char>,
    m: Seq<char>,
) -> Option<u128> {
    let sel = v_input_at(inp, m);
    if e == active_era && n == "all:val"@ && sel is Some {
        Some(0u128)
    } else if e == 0 && n == "own:stake:val"@ && sel is Some && spec_controller_stake(
        sel.unwrap().ledger_active,
    ) != 0 {
        Some(spec_controller_stake(sel.unwrap().ledger_active))
    } else if e == 0 && n == "judgements:val"@ && sel is Some {
        Some(crate::identity::judgements_of(sel.unwrap().identity) as u128)
    } else if e == 0 && n == "sub:accounts:val"@ && sel is Some {
        Some(crate::identity::subs_of(sel.unwrap().identity) as u128)
    } else {
        crate::cache::board_score(c, e, n, m)
    }
}

/// Extending the inputs by one changes the selection only for that stash.
proof fn lemma_v_input_at_step(inp: Seq<ValidatorInputV>, i: int)
    requires
        0 <= i < inp.len(),
    ensures
        forall|k: Seq<char>| #![auto]
            v_input_at(inp.take(i + 1), k) == (if inp[i].stash == k && inp[i].controller
                is Some {
                Some(inp[i])
            } else {
                v_input_at(inp.take(i), k)
            }),
{
    assert(inp.take(i + 1).drop_last() =~= inp.take(i));
    assert(inp.take(i + 1).last() == inp[i]);
}

/// Counting controllers grows one input at a time.
proof fn lemma_count_controller_step(inp: Seq<ValidatorInputV>, i: int)
    requires
        0 <= i < inp.len(),
    ensures
        count_controller(inp.take(i + 1)) == count_controller(inp.take(i)) + (
        if inp[i].controller is Some {
            1int
        } else {
            0int
        }),
{
    assert(inp.take(i + 1).drop_last() =~= inp.take(i));
    assert(inp.take(i + 1).last() == inp[i]);
}

/// Without a matching stash there is no selection.
proof fn lemma_v_input_none(inp: Seq<ValidatorInputV>, k: Seq<char>)
    requires
        forall|j: int| 0 <= j < inp.len() ==> inp[j].stash != k,
    ensures
        v_input_at(inp, k) == None::<ValidatorInputV>,
    decreases inp.len(),
{
    if inp.len() > 0 {
        lemma_v_input_none(inp.drop_last(), k);
    }
}

/// Judgement lists short enough to count, for every input.
pub open spec fn inputs_ok(inp: Seq<ValidatorInputV>) -> bool {
    forall|i: int|
        0 <= i < inp.len() ==> crate::identity::judgements_ok(#[trigger] inp[i].identity)
}

/// Refreshes every bonded validator's record: attributes and rates are
/// recomputed, nominator counters reset, and the validator is entered on the
/// `all` board and the own-stake, judgements and sub-accounts statistical
/// boards.  Inputs without a controller are skipped.  `Info.validators`
/// records how many were written.
#[verifier::rlimit(60)]
#[verifier::spinoff_prover]
pub fn validators(
    c: &mut Cache,
    input: &Vec<ValidatorInput>,
    active_era: u32,
    history_depth: u32,
)
    requires
        wf(*old(c)),
        distinct_stashes(views_of_inputs(input@)),
        inputs_ok(views_of_inputs(input@)),
        input@.len() <= u32::MAX,
        history_depth <= active_era,
    ensures
        wf(*final(c)),
        final(c).network == old(c).network,
        final(c).stats@ == old(c).stats@,
        final(c).active_era == old(c).active_era,
        final(c).eras@ == old(c).eras@,
        final(c).eras_validators@ == old(c).eras_validators@,
        final(c).active_eras@ == old(c).active_eras@,
        final(c).board_scores@ == old(c).board_scores@,
        final(c).board_limits@ == old(c).board_limits@,
        final(c).info == (InfoRecord {
            validators: count_controller(views_of_inputs(input@)) as u32,
            ..old(c).info
        }),
        forall|k: Seq<char>| #![auto]
            crate::cache::val_of(*final(c), k) == (match v_input_at(
                views_of_inputs(input@),
                k,
            ) {
                Some(v) => Some(
                    expected_validator(
                        v,
                        aeras_of(*old(c), k),
                        (active_era - history_depth) as u32,
                        active_era,
                    ),
                ),
                None => crate::cache::val_of(*old(c), k),
            }),
        forall|e: u32, n: Seq<char>, m: Seq<char>| #![auto]
            crate::cache::board_score(*final(c), e, n, m) == boards_after_validators(
                *old(c),
                views_of_inputs(input@),
                active_era,
                e,
                n,
                m,
            ),
{
    let ghost iv = views_of_inputs(input@);
    let era_min = active_era - history_depth;
    let all_name = String::from_str("all:val");
    let own_name = String::from_str("own:stake:val");
    let judg_name = String::from_str("judgements:val");
    let subs_name = String::from_str("sub:accounts:val");
    let mut count: u32 = 0;
    let mut i: usize = 0;
    proof {
        assert(iv.take(0) =~= Seq::<ValidatorInputV>::empty());
    }
    while i < input.len()
        invariant
            0 <= i <= input@.len(),
            input@.len() <= u32::MAX,
            iv == views_of_inputs(input@),
            iv.len() == input@.len(),
            distinct_stashes(iv),
            inputs_ok(iv),
            history_depth <= active_era,
            era_min == active_era - history_depth,
            all_name@ == "all:val"@,
            own_name@ == "own:stake:val"@,
            judg_name@ == "judgements:val"@,
            subs_name@ == "sub:accounts:val"@,
            wf(*c),
            c.network == old(c).network,
            c.info == old(c).info,
            c.stats@ == old(c).stats@,
            c.active_era == old(c).active_era,
            c.eras@ == old(c).eras@,
            c.eras_validators@ == old(c).eras_validators@,
            c.active_eras@ == old(c).active_eras@,
            c.board_scores@ == old(c).board_scores@,
            c.board_limits@ == old(c).board_limits@,
            count == count_controller(iv.take(i as int)),
            count <= i,
            forall|k: Seq<char>| #![auto]
                crate::cache::val_of(*c, k) == (match v_input_at(iv.take(i as int), k) {
                    Some(v) => Some(
                        expected_validator(v, aeras_of(*old(c), k), era_min, active_era),
                    ),
                    None => crate::cache::val_of(*old(c), k),
                }),
            forall|e: u32, n: Seq<char>, m: Seq<char>| #![auto]
                crate::cache::board_score(*c, e, n, m) == boards_after_validators(
                    *old(c),
                    iv.take(i as int),
                    active_era,
                    e,
                    n,
                    m,
                ),
        decreases input@.len() - i,
    {
        proof {
            assert(iv[i as int] == input@[i as int]@);
            lemma_v_input_at_step(iv, i as int);
            lemma_count_controller_step(iv, i as int);
        }
        let inp = &input[i];
        let ghost c0 = *c;
        match &inp.controller {
            Some(ctl) => {
                proof {
                    assert(crate::identity::judgements_ok(iv[i as int].identity));
                    assert(forall|j: int|
                        0 <= j < i ==> iv[j].stash != iv[i as int].stash);
                    lemma_v_input_none(iv.take(i as int), iv[i as int].stash);
                }
                let own_stake = get_controller_stake(&inp.ledger_active);
                if own_stake != 0 {
                    crate::kv::set_esm(&mut c.boards, 0, &own_name, &inp.stash, own_stake);
                }
                let incl = calculate_inclusion_rate(&c.active_eras, &inp.stash, era_min,
                    active_era);
                let avg = calculate_avg_reward_points(&c.active_eras, &inp.stash, era_min,
                    active_era);
                let ident = crate::identity::get_identity(&inp.identity);
                let judgements = ident.judgements;
                let sub_accounts = ident.sub_accounts;
                let rec = crate::types::ValidatorRecord {
                    active: false,
                    commission: inp.commission,
                    blocked: inp.blocked,
                    controller: ctl.clone(),
                    own_stake,
                    reward_staked: inp.payee_staked,
                    inclusion_rate_scaled: incl,
                    avg_reward_points_scaled: avg,
                    name: ident.name,
                    judgements,
                    sub_accounts,
                    nominators: 0,
                    nominators_stake: 0,
                };
                proof {
                    assert(rec@ == expected_validator(
                        iv[i as int],
                        aeras_of(*old(c), inp.stash@),
                        era_min,
                        active_era,
                    ));
                }
                crate::kv::set_s(&mut c.validators, &inp.stash, rec);
                let ghost c1 = *c;
                crate::kv::set_esm(&mut c.boards, active_era, &all_name, &inp.stash, 0u128);
                let ghost c2 = *c;
                crate::kv::set_esm(
                    &mut c.boards,
                    0,
                    &judg_name,
                    &inp.stash,
                    judgements as u128,
                );
                let ghost c3 = *c;
                crate::kv::set_esm(
                    &mut c.boards,
                    0,
                    &subs_name,
                    &inp.stash,
                    sub_accounts as u128,
                );
                count = count + 1;
                proof {
                    reveal_strlit("all:val");
                    reveal_strlit("own:stake:val");
                    reveal_strlit("judgements:val");
                    reveal_strlit("sub:accounts:val");
                    let t = iv.take(i as int + 1);
                    let stash = iv[i as int].stash;
                    assert("all:val"@.len() == 7);
                    assert("own:stake:val"@.len() == 13);
                    assert("judgements:val"@.len() == 14);
                    assert("sub:accounts:val"@.len() == 16);
                    assert("all:val"@ != "judgements:val"@);
                    assert("all:val"@ != "sub:accounts:val"@);
                    assert("all:val"@ != "own:stake:val"@);
                    assert("judgements:val"@ != "sub:accounts:val"@);
                    assert("judgements:val"@ != "own:stake:val"@);
                    assert("sub:accounts:val"@ != "own:stake:val"@);
                    assert(inp.stash@ == stash);
                    assert forall|e: u32, n: Seq<char>, m: Seq<char>|
                        crate::cache::board_score(*c, e, n, m) == boards_after_validators(
                        *old(c),
                        t,
                        active_era,
                        e,
                        n,
                        m,
                    ) by {
                        if m == stash {
                            assert(v_input_at(t, m) == Some(iv[i as int]));
                            assert(v_input_at(iv.take(i as int), m) == None::<ValidatorInputV>);
                            if e == active_era && n == "all:val"@ {
                                assert(crate::cache::board_score(c2, e, n, m) == Some(0u128));
                                assert(crate::cache::board_score(c3, e, n, m)
                                    == crate::cache::board_score(c2, e, n, m));
                                assert(crate::cache::board_score(*c, e, n, m)
                                    == crate::cache::board_score(c3, e, n, m));
                            } else if e == 0 && n == "own:stake:val"@ {
                                if spec_controller_stake(iv[i as int].ledger_active) != 0 {
                                    assert(crate::cache::board_score(c1, e, n, m) == Some(
                                        spec_controller_stake(iv[i as int].ledger_active),
                                    ));
                                    assert(crate::cache::board_score(c2, e, n, m)
                                        == crate::cache::board_score(c1, e, n, m));
                                    assert(crate::cache::board_score(c3, e, n, m)
                                        == crate::cache::board_score(c2, e, n, m));
                                    assert(crate::cache::board_score(*c, e, n, m)
                                        == crate::cache::board_score(c3, e, n, m));
                                } else {
                                    assert(crate::cache::board_score(*c, e, n, m)
                                        == crate::cache::board_score(c0, e, n, m));
                                    assert(boards_after_validators(
                                        *old(c),
                                        iv.take(i as int),
                                        active_era,
                                        e,
                                        n,
                                        m,
                                    ) == crate::cache::board_score(*old(c), e, n, m));
                                }
                            } else if e == 0 && n == "judgements:val"@ {
                                assert(crate::cache::board_score(*c, e, n, m) == Some(
                                    crate::identity::judgements_of(iv[i as int].identity)
                                        as u128,
                                ));
                            } else if e == 0 && n == "sub:accounts:val"@ {
                                assert(crate::cache::board_score(*c, e, n, m) == Some(
                                    crate::identity::subs_of(iv[i as int].identity) as u128,
                                ));
                            } else {
                                assert(crate::cache::board_score(*c, e, n, m)
                                    == crate::cache::board_score(c0, e, n, m));
                                assert(boards_after_validators(
                                    *old(c),
                                    iv.take(i as int),
                                    active_era,
                                    e,
                                    n,
                                    m,
                                ) == crate::cache::board_score(*old(c), e, n, m));
                            }
                        } else {
                            assert(v_input_at(t, m) == v_input_at(iv.take(i as int), m));
                            assert(crate::cache::board_score(*c, e, n, m)
                                == crate::cache::board_score(c0, e, n, m));
                        }
                    }
                    assert forall|k: Seq<char>|
                        crate::cache::val_of(*c, k) == (match v_input_at(t, k) {
                            Some(v) => Some(
                                expected_validator(v, aeras_of(*old(c), k), era_min, active_era),
                            ),
                            None => crate::cache::val_of(*old(c), k),
                        }) by {
                        if k == stash {
                            assert(v_input_at(t, k) == Some(iv[i as int]));
                            assert(crate::cache::val_of(*c, k) == Some(rec@));
                        } else {
                            assert(v_input_at(t, k) == v_input_at(iv.take(i as int), k));
                            assert(crate::cache::val_of(*c, k) == crate::cache::val_of(c0, k));
                        }
                    }
                }
            },
            None => {
                proof {
                    assert forall|k: Seq<char>|
                        v_input_at(iv.take(i as int + 1), k) == v_input_at(
                        iv.take(i as int),
                        k,
                    ) by {}
                }
            },
        }
        i += 1;
    }
    proof {
        assert(iv.take(iv.len() as int) =~= iv);
    }
    let ghost cfin = *c;
    c.info.validators = count;
    proof {
        assert(c.validators@ == cfin.validators@);
        assert(c.boards@ == cfin.boards@);
        assert forall|k: Seq<char>| #![auto]
            crate::cache::val_of(*c, k) == (match v_input_at(iv, k) {
                Some(v) => Some(
                    expected_validator(
                        v,
                        aeras_of(*old(c), k),
                        (active_era - history_depth) as u32,
                        active_era,
                    ),
                ),
                None => crate::cache::val_of(*old(c), k),
            }) by {
            assert(crate::cache::val_of(*c, k) == crate::cache::val_of(cfin, k));
            assert(crate::cache::val_of(cfin, k) == (match v_input_at(
                iv.take(iv.len() as int),
                k,
            ) {
                Some(v) => Some(expected_validator(v, aeras_of(*old(c), k), era_min, active_era)),
                None => crate::cache::val_of(*old(c), k),
            }));
        }
        assert forall|e: u32, n: Seq<char>, m: Seq<char>| #![auto]
            crate::cache::board_score(*c, e, n, m) == boards_after_validators(
                *old(c),
                iv,
                active_era,
                e,
                n,
                m,
            ) by {
            assert(crate::cache::board_score(*c, e, n, m) == crate::cache::board_score(
                cfin,
                e,
                n,
                m,
            ));
            assert(crate::cache::board_score(cfin, e, n, m) == boards_after_validators(
                *old(c),
                iv.take(iv.len() as int),
                active_era,
                e,
                n,
                m,
            ));
        }
    }
}

/// The views of a list of nominator inputs.
pub open spec fn views_of_noms(s: Seq<NominatorInput>) -> Seq<NominatorInputV> {
    s.map_values(|v: NominatorInput| v@)
}

/// How many times a stash occurs in a target list.
pub open spec fn count_in(t: Seq<Seq<char>>, k: Seq<char>) -> int
    decreases t.len(),
{
    if t.len() == 0 {
        0
    } else {
        count_in(t.drop_last(), k) + (if t.last() == k {
            1int
        } else {
            0int
        })
    }
}

/// The times a bonded nominator hits the stash; an unbonded one is skipped.
pub open spec fn nom_count_for(n: NominatorInputV, k: Seq<char>) -> int {
    if n.controller is Some {
        count_in(n.targets, k)
    } else {
        0
    }
}

/// How often the processed nominators hit the stash.
pub open spec fn targeted_count(inp: Seq<NominatorInputV>, k: Seq<char>) -> int
    decreases inp.len(),
{
    if inp.len() == 0 {
        0
    } else {
        targeted_count(inp.drop_last(), k) + nom_count_for(inp.last(), k)
    }
}

/// The stake the processed nominators add onto the stash.
pub open spec fn targeted_stake(inp: Seq<NominatorInputV>, k: Seq<char>) -> int
    decreases inp.len(),
{
    if inp.len() == 0 {
        0
    } else {
        targeted_stake(inp.drop_last(), k) + nom_count_for(inp.last(), k)
            * spec_controller_stake(inp.last().ledger_active)
    }
}

/// A validator record with the nominator counters raised.
pub open spec fn nominated(r: crate::types::ValidatorRecordV, cnt: int, stk: int)
    -> crate::types::ValidatorRecordV {
    crate::types::ValidatorRecordV {
        nominators: (r.nominators + cnt) as u32,
        nominators_stake: (r.nominators_stake + stk) as u128,
        ..r
    }
}

/// Counter sums that stay inside their types, for every indexed validator.
pub open spec fn nominator_sums_ok(c: Cache, inp: Seq<NominatorInputV>) -> bool {
    forall|k: Seq<char>|
        match #[trigger] crate::cache::val_of(c, k) {
            Some(r) => r.nominators + targeted_count(inp, k) <= u32::MAX && r.own_stake
                + r.nominators_stake + targeted_stake(inp, k) <= u128::MAX,
            None => true,
        }
}

/// The board entry for `(e, n, m)` after the nominators pass.
pub open spec fn boards_after_nominators(
    c: Cache,
    inp: Seq<NominatorInputV>,
    e: u32,
    n: Seq<char>,
    m: Seq<char>,
) -> Option<u128> {
    if e == 0 && n == "total:stake:val"@ && crate::cache::val_of(c, m) is Some
        && targeted_count(inp, m) > 0 && crate::cache::val_of(c, m).unwrap().own_stake
        + crate::cache::val_of(c, m).unwrap().nominators_stake + targeted_stake(inp, m) != 0 {
        Some(
            (crate::cache::val_of(c, m).unwrap().own_stake + crate::cache::val_of(
                c,
                m,
            ).unwrap().nominators_stake + targeted_stake(inp, m)) as u128,
        )
    } else {
        crate::cache::board_score(c, e, n, m)
    }
}

/// Counts and stakes never shrink as more targets are processed.
proof fn lemma_count_in_nonneg(t: Seq<Seq<char>>, k: Seq<char>)
    ensures
        count_in(t, k) >= 0,
    decreases t.len(),
{
    if t.len() > 0 {
        lemma_count_in_nonneg(t.drop_last(), k);
    }
}

/// Prefix sums of targeted counts and stakes are bounded by the full sums.
pub proof fn lemma_targeted_nonneg(inp: Seq<NominatorInputV>, k: Seq<char>)
    ensures
        targeted_count(inp, k) >= 0,
        targeted_stake(inp, k) >= 0,
    decreases inp.len(),
{
    if inp.len() > 0 {
        lemma_targeted_nonneg(inp.drop_last(), k);
        lemma_count_in_nonneg(inp.last().targets, k);
        assert(nom_count_for(inp.last(), k) * spec_controller_stake(inp.last().ledger_active)
            >= 0) by (nonlinear_arith)
            requires
                nom_count_for(inp.last(), k) >= 0,
                spec_controller_stake(inp.last().ledger_active) >= 0,
        ;
    }
}

/// One more input adds its own hits.
proof fn lemma_targeted_step(inp: Seq<NominatorInputV>, j: int)
    requires
        0 <= j < inp.len(),
    ensures
        forall|k: Seq<char>| #![auto]
            targeted_count(inp.take(j + 1), k) == targeted_count(inp.take(j), k)
                + nom_count_for(inp[j], k),
        forall|k: Seq<char>| #![auto]
            targeted_stake(inp.take(j + 1), k) == targeted_stake(inp.take(j), k)
                + nom_count_for(inp[j], k) * spec_controller_stake(inp[j].ledger_active),
{
    assert(inp.take(j + 1).drop_last() =~= inp.take(j));
    assert(inp.take(j + 1).last() == inp[j]);
}

/// One more target adds one hit on it.
proof fn lemma_count_in_step(t: Seq<Seq<char>>, j: int)
    requires
        0 <= j < t.len(),
    ensures
        forall|k: Seq<char>| #![auto]
            count_in(t.take(j + 1), k) == count_in(t.take(j), k) + (if t[j] == k {
                1int
            } else {
                0int
            }),
{
    assert(t.take(j + 1).drop_last() =~= t.take(j));
    assert(t.take(j + 1).last() == t[j]);
}

/// Prefixes never exceed the full sums.
proof fn lemma_targeted_prefix(inp: Seq<NominatorInputV>, j: int, k: Seq<char>)
    requires
        0 <= j <= inp.len(),
    ensures
        targeted_count(inp.take(j), k) <= targeted_count(inp, k),
        targeted_stake(inp.take(j), k) <= targeted_stake(inp, k),
    decreases inp.len() - j,
{
    if j < inp.len() {
        lemma_targeted_prefix(inp, j + 1, k);
        lemma_targeted_step(inp, j);
        lemma_count_in_nonneg(inp[j].targets, k);
        assert(nom_count_for(inp[j], k) * spec_controller_stake(inp[j].ledger_active) >= 0)
            by (nonlinear_arith)
            requires
                nom_count_for(inp[j], k) >= 0,
                spec_controller_stake(inp[j].ledger_active) >= 0,
        ;
    } else {
        assert(inp.take(j) =~= inp);
    }
}

/// A prefix of the targets never exceeds the whole list's hits.
proof fn lemma_count_in_prefix(t: Seq<Seq<char>>, j: int, k: Seq<char>)
    requires
        0 <= j <= t.len(),
    ensures
        count_in(t.take(j), k) <= count_in(t, k),
    decreases t.len() - j,
{
    if j < t.len() {
        lemma_count_in_prefix(t, j + 1, k);
        lemma_count_in_step(t, j);
    } else {
        assert(t.take(j) =~= t);
    }
}

/// Accumulates every bonded nominator's stake and count onto the validators
/// it targets, and refreshes the total-stake statistical board; a target
/// without a record is skipped.  `Info.nominators` records how many
/// nominators were seen, bonded or not.
#[verifier::rlimit(60)]
#[verifier::spinoff_prover]
pub fn nominators(c: &mut Cache, input: &Vec<NominatorInput>)
    requires
        wf(*old(c)),
        nominator_sums_ok(*old(c), views_of_noms(input@)),
        input@.len() <= u32::MAX,
    ensures
        wf(*final(c)),
        final(c).network == old(c).network,
        final(c).stats@ == old(c).stats@,
        final(c).active_era == old(c).active_era,
        final(c).eras@ == old(c).eras@,
        final(c).eras_validators@ == old(c).eras_validators@,
        final(c).active_eras@ == old(c).active_eras@,
        final(c).board_scores@ == old(c).board_scores@,
        final(c).board_limits@ == old(c).board_limits@,
        final(c).info == (InfoRecord { nominators: input@.len() as u32, ..old(c).info }),
        forall|k: Seq<char>| #![auto]
            crate::cache::val_of(*final(c), k) == (match crate::cache::val_of(*old(c), k) {
                Some(r) => Some(
                    nominated(
                        r,
                        targeted_count(views_of_noms(input@), k),
                        targeted_stake(views_of_noms(input@), k),
                    ),
                ),
                None => None::<crate::types::ValidatorRecordV>,
            }),
        forall|e: u32, n: Seq<char>, m: Seq<char>| #![auto]
            crate::cache::board_score(*final(c), e, n, m) == boards_after_nominators(
                *old(c),
                views_of_noms(input@),
                e,
                n,
                m,
            ),
{
    let ghost nv = views_of_noms(input@);
    let tot_name = String::from_str("total:stake:val");
    let mut j: usize = 0;
    proof {
        assert(nv.take(0) =~= Seq::<NominatorInputV>::empty());
    }
    while j < input.len()
        invariant
            0 <= j <= input@.len(),
            input@.len() <= u32::MAX,
            nv == views_of_noms(input@),
            nv.len() == input@.len(),
            nominator_sums_ok(*old(c), nv),
            tot_name@ == "total:stake:val"@,
            wf(*c),
            c.network == old(c).network,
            c.info == old(c).info,
            c.stats@ == old(c).stats@,
            c.active_era == old(c).active_era,
            c.eras@ == old(c).eras@,
            c.eras_validators@ == old(c).eras_validators@,
            c.active_eras@ == old(c).active_eras@,
            c.board_scores@ == old(c).board_scores@,
            c.board_limits@ == old(c).board_limits@,
            forall|k: Seq<char>| #![auto]
                crate::cache::val_of(*c, k) == (match crate::cache::val_of(*old(c), k) {
                    Some(r) => Some(
                        nominated(
                            r,
                            targeted_count(nv.take(j as int), k),
                            targeted_stake(nv.take(j as int), k),
                        ),
                    ),
                    None => None::<crate::types::ValidatorRecordV>,
                }),
            forall|e: u32, n: Seq<char>, m: Seq<char>| #![auto]
                crate::cache::board_score(*c, e, n, m) == boards_after_nominators(
                    *old(c),
                    nv.take(j as int),
                    e,
                    n,
                    m,
                ),
        decreases input@.len() - j,
    {
        proof {
            assert(nv[j as int] == input@[j as int]@);
            lemma_targeted_step(nv, j as int);
        }
        let nom = &input[j];
        match &nom.controller {
            Some(_ctl) => {
                let stake = get_controller_stake(&nom.ledger_active);
                let ghost tv = nv[j as int].targets;
                let mut t: usize = 0;
                proof {
                    assert(tv.take(0) =~= Seq::<Seq<char>>::empty());
                }
                while t < nom.targets.len()
                    invariant
                        0 <= t <= nom.targets@.len(),
                        nv == views_of_noms(input@),
                        nv.len() == input@.len(),
                        0 <= j < input@.len(),
                        nv[j as int] == input@[j as int]@,
                        nom == &input@[j as int],
                        tv == nv[j as int].targets,
                        tv.len() == nom.targets@.len(),
                        nv[j as int].controller is Some,
                        stake == spec_controller_stake(nv[j as int].ledger_active),
                        nominator_sums_ok(*old(c), nv),
                        tot_name@ == "total:stake:val"@,
                        wf(*c),
                        c.network == old(c).network,
                        c.info == old(c).info,
                        c.stats@ == old(c).stats@,
                        c.active_era == old(c).active_era,
                        c.eras@ == old(c).eras@,
                        c.eras_validators@ == old(c).eras_validators@,
                        c.active_eras@ == old(c).active_eras@,
                        c.board_scores@ == old(c).board_scores@,
                        c.board_limits@ == old(c).board_limits@,
                        forall|k: Seq<char>| #![auto]
                            crate::cache::val_of(*c, k) == (match crate::cache::val_of(
                                *old(c),
                                k,
                            ) {
                                Some(r) => Some(
                                    nominated(
                                        r,
                                        targeted_count(nv.take(j as int), k) + count_in(
                                            tv.take(t as int),
                                            k,
                                        ),
                                        targeted_stake(nv.take(j as int), k) + count_in(
                                            tv.take(t as int),
                                            k,
                                        ) * stake,
                                    ),
                                ),
                                None => None::<crate::types::ValidatorRecordV>,
                            }),
                        forall|e: u32, n: Seq<char>, m: Seq<char>| #![auto]
                            crate::cache::board_score(*c, e, n, m) == (if e == 0 && n
                                == "total:stake:val"@ && crate::cache::val_of(*old(c), m)
                                is Some && targeted_count(nv.take(j as int), m) + count_in(
                                tv.take(t as int),
                                m,
                            ) > 0 && crate::cache::val_of(*old(c), m).unwrap().own_stake
                                + crate::cache::val_of(*old(c), m).unwrap().nominators_stake
                                + targeted_stake(nv.take(j as int), m) + count_in(
                                tv.take(t as int),
                                m,
                            ) * stake != 0 {
                                Some(
                                    (crate::cache::val_of(*old(c), m).unwrap().own_stake
                                        + crate::cache::val_of(
                                        *old(c),
                                        m,
                                    ).unwrap().nominators_stake + targeted_stake(
                                        nv.take(j as int),
                                        m,
                                    ) + count_in(tv.take(t as int), m) * stake) as u128,
                                )
                            } else {
                                crate::cache::board_score(*old(c), e, n, m)
                            }),
                    decreases nom.targets@.len() - t,
                {
                    proof {
                        lemma_count_in_step(tv, t as int);
                        assert(tv[t as int] == nom.targets@[t as int]@);
                    }
                    let ghost chead = *c;
                    let target = &nom.targets[t];
                    let found = match crate::kv::get_s(&c.validators, target) {
                        Some(r) => Some(r.clone_record()),
                        None => None,
                    };
                    match found {
                        Some(mut rec) => {
                            proof {
                                // the accumulated counters stay inside their types
                                let k = target@;
                                lemma_targeted_step(nv, j as int);
                                lemma_count_in_prefix(tv, t as int + 1, k);
                                lemma_targeted_prefix(nv, j as int + 1, k);
                                assert(tv[t as int] == k);
                                assert(count_in(tv.take(t as int + 1), k) == count_in(
                                    tv.take(t as int),
                                    k,
                                ) + 1);
                                assert(targeted_count(nv.take(j as int), k) + count_in(
                                    tv.take(t as int),
                                    k,
                                ) + 1 <= targeted_count(nv, k));
                                lemma_targeted_nonneg(nv.take(j as int), k);
                                lemma_count_in_nonneg(tv.take(t as int), k);
                                assert(count_in(tv.take(t as int), k) * stake >= 0 && count_in(
                                    tv.take(t as int),
                                    k,
                                ) * stake + stake <= count_in(tv, k) * stake) by (nonlinear_arith)
                                    requires
                                        0 <= count_in(tv.take(t as int), k),
                                        count_in(tv.take(t as int), k) + 1 <= count_in(tv, k),
                                        stake >= 0,
                                ;
                                assert(count_in(tv, k) * stake <= targeted_stake(nv, k)
                                    - targeted_stake(nv.take(j as int), k));
                                assert(crate::cache::val_of(*c, k) == Some(rec@));
                                assert(crate::cache::val_of(*old(c), k) is Some);
                                let r_old = crate::cache::val_of(*old(c), k).unwrap();
                                assert(r_old.nominators + targeted_count(nv, k) <= u32::MAX
                                    && r_old.own_stake + r_old.nominators_stake
                                    + targeted_stake(nv, k) <= u128::MAX);
                                assert(rec@ == nominated(
                                    r_old,
                                    targeted_count(nv.take(j as int), k) + count_in(
                                        tv.take(t as int),
                                        k,
                                    ),
                                    targeted_stake(nv.take(j as int), k) + count_in(
                                        tv.take(t as int),
                                        k,
                                    ) * stake,
                                ));
                                assert(rec.nominators + 1 <= u32::MAX);
                                assert(rec.nominators_stake + stake <= u128::MAX);
                            }
                            let ghost kk = target@;
                            let ghost r_old = crate::cache::val_of(*old(c), kk).unwrap();
                            rec.nominators = rec.nominators + 1;
                            rec.nominators_stake = rec.nominators_stake + stake;
                            let ghost recv = rec@;
                            proof {
                                assert(count_in(tv.take(t as int + 1), kk) == count_in(
                                    tv.take(t as int),
                                    kk,
                                ) + 1);
                                assert(count_in(tv.take(t as int + 1), kk) * stake == count_in(
                                    tv.take(t as int),
                                    kk,
                                ) * stake + stake) by (nonlinear_arith)
                                    requires
                                        count_in(tv.take(t as int + 1), kk) == count_in(
                                            tv.take(t as int),
                                            kk,
                                        ) + 1,
                                ;
                                assert(recv == nominated(
                                    r_old,
                                    targeted_count(nv.take(j as int), kk) + count_in(
                                        tv.take(t as int + 1),
                                        kk,
                                    ),
                                    targeted_stake(nv.take(j as int), kk) + count_in(
                                        tv.take(t as int + 1),
                                        kk,
                                    ) * stake,
                                ));
                                assert(rec.own_stake + rec.nominators_stake <= u128::MAX);
                            }
                            let total = rec.own_stake + rec.nominators_stake;
                            crate::kv::set_s(&mut c.validators, target, rec);
                            if total != 0 {
                                crate::kv::set_esm(&mut c.boards, 0, &tot_name, target, total);
                            }
                            proof {
                                let k = kk;
                                lemma_targeted_nonneg(nv.take(j as int), k);
                                lemma_count_in_nonneg(tv.take(t as int), k);
                                assert forall|k2: Seq<char>|
                                    crate::cache::val_of(*c, k2) == (match crate::cache::val_of(
                                    *old(c),
                                    k2,
                                ) {
                                    Some(r) => Some(
                                        nominated(
                                            r,
                                            targeted_count(nv.take(j as int), k2) + count_in(
                                                tv.take(t as int + 1),
                                                k2,
                                            ),
                                            targeted_stake(nv.take(j as int), k2) + count_in(
                                                tv.take(t as int + 1),
                                                k2,
                                            ) * stake,
                                        ),
                                    ),
                                    None => None::<crate::types::ValidatorRecordV>,
                                }) by {
                                    if k2 == k {
                                        assert(crate::cache::val_of(*c, k2) == Some(recv));
                                    } else {
                                        assert(crate::cache::val_of(*c, k2)
                                            == crate::cache::val_of(chead, k2));
                                        assert(crate::cache::val_of(chead, k2) == (
                                        match crate::cache::val_of(*old(c), k2) {
                                            Some(r) => Some(
                                                nominated(
                                                    r,
                                                    targeted_count(nv.take(j as int), k2)
                                                        + count_in(tv.take(t as int), k2),
                                                    targeted_stake(nv.take(j as int), k2)
                                                        + count_in(tv.take(t as int), k2)
                                                        * stake,
                                                ),
                                            ),
                                            None => None::<crate::types::ValidatorRecordV>,
                                        }));
                                        assert(count_in(tv.take(t as int + 1), k2) == count_in(
                                            tv.take(t as int),
                                            k2,
                                        ));
                                    }
                                }
                                reveal_strlit("total:stake:val");
                                assert forall|e: u32, n: Seq<char>, m: Seq<char>|
                                    crate::cache::board_score(*c, e, n, m) == (if e == 0 && n
                                    == "total:stake:val"@ && crate::cache::val_of(*old(c), m)
                                    is Some && targeted_count(nv.take(j as int), m) + count_in(
                                    tv.take(t as int + 1),
                                    m,
                                ) > 0 && crate::cache::val_of(*old(c), m).unwrap().own_stake
                                    + crate::cache::val_of(*old(c), m).unwrap().nominators_stake
                                    + targeted_stake(nv.take(j as int), m) + count_in(
                                    tv.take(t as int + 1),
                                    m,
                                ) * stake != 0 {
                                    Some(
                                        (crate::cache::val_of(*old(c), m).unwrap().own_stake
                                            + crate::cache::val_of(
                                            *old(c),
                                            m,
                                        ).unwrap().nominators_stake + targeted_stake(
                                            nv.take(j as int),
                                            m,
                                        ) + count_in(tv.take(t as int + 1), m) * stake) as u128,
                                    )
                                } else {
                                    crate::cache::board_score(*old(c), e, n, m)
                                }) by {
                                    assert(crate::cache::board_score(chead, e, n, m) == (
                                    if e == 0 && n == "total:stake:val"@
                                        && crate::cache::val_of(*old(c), m) is Some
                                        && targeted_count(nv.take(j as int), m) + count_in(
                                        tv.take(t as int),
                                        m,
                                    ) > 0 && crate::cache::val_of(*old(c), m).unwrap().own_stake
                                        + crate::cache::val_of(
                                        *old(c),
                                        m,
                                    ).unwrap().nominators_stake + targeted_stake(
                                        nv.take(j as int),
                                        m,
                                    ) + count_in(tv.take(t as int), m) * stake != 0 {
                                        Some(
                                            (crate::cache::val_of(*old(c), m).unwrap().own_stake
                                                + crate::cache::val_of(
                                                *old(c),
                                                m,
                                            ).unwrap().nominators_stake + targeted_stake(
                                                nv.take(j as int),
                                                m,
                                            ) + count_in(tv.take(t as int), m) * stake) as u128,
                                        )
                                    } else {
                                        crate::cache::board_score(*old(c), e, n, m)
                                    }));
                                    if m == k {
                                        assert(count_in(tv.take(t as int + 1), m) == count_in(
                                            tv.take(t as int),
                                            m,
                                        ) + 1);
                                        assert(total == r_old.own_stake + r_old.nominators_stake
                                            + targeted_stake(nv.take(j as int), m) + count_in(
                                            tv.take(t as int + 1),
                                            m,
                                        ) * stake) by (nonlinear_arith)
                                            requires
                                                total == r_old.own_stake + recv.nominators_stake,
                                                recv.nominators_stake == r_old.nominators_stake
                                                    + targeted_stake(nv.take(j as int), m)
                                                    + count_in(tv.take(t as int + 1), m) * stake,
                                        ;
                                        if total != 0 {
                                            assert(crate::cache::board_score(*c, 0,
                                                "total:stake:val"@, m) == Some(total));
                                        } else {
                                            assert(count_in(tv.take(t as int), m) * stake >= 0
                                                && targeted_stake(nv.take(j as int), m) >= 0);
                                            assert(count_in(tv.take(t as int + 1), m) * stake
                                                == count_in(tv.take(t as int), m) * stake + stake)
                                                by (nonlinear_arith)
                                                requires
                                                    count_in(tv.take(t as int + 1), m) == count_in(
                                                        tv.take(t as int),
                                                        m,
                                                    ) + 1,
                                            ;
                                        }
                                    } else {
                                        assert(crate::cache::board_score(*c, e, n, m)
                                            == crate::cache::board_score(chead, e, n, m));
                                        assert(count_in(tv.take(t as int + 1), m) == count_in(
                                            tv.take(t as int),
                                            m,
                                        ));
                                    }
                                }
                            }
                        },
                        None => {
                            proof {
                                let k = target@;
                                assert(crate::cache::val_of(*c, k)
                                    == None::<crate::types::ValidatorRecordV>);
                                assert(crate::cache::val_of(*old(c), k)
                                    is None);
                                assert forall|k2: Seq<char>|
                                    k2 != k implies count_in(tv.take(t as int + 1), k2)
                                    == count_in(tv.take(t as int), k2) by {}
                            }
                        },
                    }
                    t += 1;
                }
                proof {
                    assert(tv.take(tv.len() as int) =~= tv);
                    assert(nv.take(j as int + 1).drop_last() =~= nv.take(j as int));
                    assert(nv.take(j as int + 1).last() == nv[j as int]);
                    assert forall|k: Seq<char>| #![auto]
                        targeted_count(nv.take(j as int + 1), k) == targeted_count(
                        nv.take(j as int),
                        k,
                    ) + count_in(tv, k) && targeted_stake(nv.take(j as int + 1), k)
                        == targeted_stake(nv.take(j as int), k) + count_in(tv, k) * stake by {
                        assert(nom_count_for(nv[j as int], k) == count_in(tv, k));
                    }
                }
            },
            None => {
                proof {
                    assert(nv.take(j as int + 1).drop_last() =~= nv.take(j as int));
                    assert(nv.take(j as int + 1).last() == nv[j as int]);
                    assert forall|k: Seq<char>| #![auto]
                        targeted_count(nv.take(j as int + 1), k) == targeted_count(
                        nv.take(j as int),
                        k,
                    ) && targeted_stake(nv.take(j as int + 1), k) == targeted_stake(
                        nv.take(j as int),
                        k,
                    ) by {
                        assert(nom_count_for(nv[j as int], k) == 0);
                        assert(nom_count_for(nv[j as int], k) * spec_controller_stake(
                            nv[j as int].ledger_active,
                        ) == 0) by (nonlinear_arith)
                            requires
                                nom_count_for(nv[j as int], k) == 0,
                        ;
                    }
                }
            },
        }
        j += 1;
    }
    proof {
        assert(nv.take(nv.len() as int) =~= nv);
    }
    let count = input.len() as u32;
    let ghost cfin = *c;
    c.info.nominators = count;
    proof {
        assert(c.validators@ == cfin.validators@);
        assert(c.boards@ == cfin.boards@);
        assert forall|k: Seq<char>| #![auto]
            crate::cache::val_of(*c, k) == (match crate::cache::val_of(*old(c), k) {
                Some(r) => Some(
                    nominated(r, targeted_count(nv, k), targeted_stake(nv, k)),
                ),
                None => None::<crate::types::ValidatorRecordV>,
            }) by {
            assert(crate::cache::val_of(*c, k) == crate::cache::val_of(cfin, k));
            assert(crate::cache::val_of(cfin, k) == (match crate::cache::val_of(*old(c), k) {
                Some(r) => Some(
                    nominated(
                        r,
                        targeted_count(nv.take(nv.len() as int), k),
                        targeted_stake(nv.take(nv.len() as int), k),
                    ),
                ),
                None => None::<crate::types::ValidatorRecordV>,
            }));
        }
        assert forall|e: u32, n: Seq<char>, m: Seq<char>| #![auto]
            crate::cache::board_score(*c, e, n, m) == boards_after_nominators(
                *old(c),
                nv,
                e,
                n,
                m,
            ) by {
            assert(crate::cache::board_score(*c, e, n, m) == crate::cache::board_score(
                cfin,
                e,
                n,
                m,
            ));
            assert(crate::cache::board_score(cfin, e, n, m) == boards_after_nominators(
                *old(c),
                nv.take(nv.len() as int),
                e,
                n,
                m,
            ));
        }
    }
}

/// The views of a list of stashes.
pub open spec fn views_of_strings(s: Seq<String>) -> Seq<Seq<char>> {
    s.map_values(|t: String| t@)
}

/// A record with its active flag raised; a missing record materialises with
/// only that flag set, as a single-field hash write does.
pub open spec fn activate(r: Option<crate::types::ValidatorRecordV>)
    -> crate::types::ValidatorRecordV {
    match r {
        Some(x) => crate::types::ValidatorRecordV { active: true, ..x },
        None => crate::types::ValidatorRecordV {
            active: true,
            commission: 0,
            blocked: false,
            controller: Seq::<char>::empty(),
            own_stake: 0,
            reward_staked: false,
            inclusion_rate_scaled: 0,
            avg_reward_points_scaled: 0,
            name: Seq::<char>::empty(),
            judgements: 0,
            sub_accounts: 0,
            nominators: 0,
            nominators_stake: 0,
        },
    }
}

/// One more stash extends what the prefix contains.
proof fn lemma_contains_step(s: Seq<Seq<char>>, i: int)
    requires
        0 <= i < s.len(),
    ensures
        forall|k: Seq<char>| #![auto]
            s.take(i + 1).contains(k) == (s.take(i).contains(k) || s[i] == k),
{
    assert forall|k: Seq<char>| #![auto]
        s.take(i + 1).contains(k) == (s.take(i).contains(k) || s[i] == k) by {
        if s.take(i).contains(k) {
            let w = choose|w: int| 0 <= w < i && #[trigger] s.take(i)[w] == k;
            assert(s.take(i + 1)[w] == k);
        }
        if s[i] == k {
            assert(s.take(i + 1)[i] == k);
        }
        if s.take(i + 1).contains(k) {
            let w = choose|w: int| 0 <= w < i + 1 && #[trigger] s.take(i + 1)[w] == k;
            if w < i {
                assert(s.take(i)[w] == k);
            }
        }
    }
}

/// Marks the session's validators active: each gets `active = true` on its
/// record (created bare when missing) and a place on the era's `active`
/// board.
#[verifier::rlimit(60)]
#[verifier::spinoff_prover]
pub fn active_validators(c: &mut Cache, session: &Vec<String>, active_era: u32)
    requires
        wf(*old(c)),
    ensures
        wf(*final(c)),
        final(c).network == old(c).network,
        final(c).info == old(c).info,
        final(c).stats@ == old(c).stats@,
        final(c).active_era == old(c).active_era,
        final(c).eras@ == old(c).eras@,
        final(c).eras_validators@ == old(c).eras_validators@,
        final(c).active_eras@ == old(c).active_eras@,
        final(c).board_scores@ == old(c).board_scores@,
        final(c).board_limits@ == old(c).board_limits@,
        forall|k: Seq<char>| #![auto]
            crate::cache::val_of(*final(c), k) == (if views_of_strings(session@).contains(k) {
                Some(activate(crate::cache::val_of(*old(c), k)))
            } else {
                crate::cache::val_of(*old(c), k)
            }),
        forall|e: u32, n: Seq<char>, m: Seq<char>| #![auto]
            crate::cache::board_score(*final(c), e, n, m) == (if e == active_era && n
                == "active:val"@ && views_of_strings(session@).contains(m) {
                Some(0u128)
            } else {
                crate::cache::board_score(*old(c), e, n, m)
            }),
{
    let ghost sv = views_of_strings(session@);
    let active_name = String::from_str("active:val");
    let mut i: usize = 0;
    proof {
        assert(sv.take(0) =~= Seq::<Seq<char>>::empty());
    }
    while i < session.len()
        invariant
            0 <= i <= session@.len(),
            sv == views_of_strings(session@),
            sv.len() == session@.len(),
            active_name@ == "active:val"@,
            wf(*c),
            c.network == old(c).network,
            c.info == old(c).info,
            c.stats@ == old(c).stats@,
            c.active_era == old(c).active_era,
            c.eras@ == old(c).eras@,
            c.eras_validators@ == old(c).eras_validators@,
            c.active_eras@ == old(c).active_eras@,
            c.board_scores@ == old(c).board_scores@,
            c.board_limits@ == old(c).board_limits@,
            forall|k: Seq<char>| #![auto]
                crate::cache::val_of(*c, k) == (if sv.take(i as int).contains(k) {
                    Some(activate(crate::cache::val_of(*old(c), k)))
                } else {
                    crate::cache::val_of(*old(c), k)
                }),
            forall|e: u32, n: Seq<char>, m: Seq<char>| #![auto]
                crate::cache::board_score(*c, e, n, m) == (if e == active_era && n
                    == "active:val"@ && sv.take(i as int).contains(m) {
                    Some(0u128)
                } else {
                    crate::cache::board_score(*old(c), e, n, m)
                }),
        decreases session@.len() - i,
    {
        proof {
            lemma_contains_step(sv, i as int);
            assert(sv[i as int] == session@[i as int]@);
        }
        let stash = &session[i];
        let found = match crate::kv::get_s(&c.validators, stash) {
            Some(r) => Some(r.clone_record()),
            None => None,
        };
        let rec = match found {
            Some(mut r) => {
                r.active = true;
                r
            },
            None => crate::types::default_validator_record(true),
        };
        let ghost recv = rec@;
        proof {
            if sv.take(i as int).contains(stash@) {
                assert(crate::cache::val_of(*c, stash@) == Some(
                    activate(crate::cache::val_of(*old(c), stash@)),
                ));
            } else {
                assert(crate::cache::val_of(*c, stash@) == crate::cache::val_of(
                    *old(c),
                    stash@,
                ));
            }
            assert(recv == activate(crate::cache::val_of(*old(c), stash@)));
            if crate::cache::val_of(*c, stash@) is Some {
                crate::cache::lemma_wf_val_stakes(*c, stash@);
            }
            assert(crate::score::stakes_ok(recv));
        }
        let ghost chead = *c;
        crate::kv::set_s(&mut c.validators, stash, rec);
        crate::kv::set_esm(&mut c.boards, active_era, &active_name, stash, 0u128);
        proof {
            assert forall|k: Seq<char>| #![auto]
                crate::cache::val_of(*c, k) == (if sv.take(i as int + 1).contains(k) {
                    Some(activate(crate::cache::val_of(*old(c), k)))
                } else {
                    crate::cache::val_of(*old(c), k)
                }) by {
                if k != stash@ {
                    assert(crate::cache::val_of(*c, k) == crate::cache::val_of(chead, k));
                    assert(sv.take(i as int + 1).contains(k) == sv.take(i as int).contains(k));
                } else {
                    assert(crate::cache::val_of(*c, k) == Some(recv));
                    assert(sv.take(i as int + 1).contains(k));
                }
            }
            assert forall|e: u32, n: Seq<char>, m: Seq<char>| #![auto]
                crate::cache::board_score(*c, e, n, m) == (if e == active_era && n
                    == "active:val"@ && sv.take(i as int + 1).contains(m) {
                    Some(0u128)
                } else {
                    crate::cache::board_score(*old(c), e, n, m)
                }) by {
                if m != stash@ {
                    assert(crate::cache::board_score(*c, e, n, m)
                        == crate::cache::board_score(chead, e, n, m));
                    assert(sv.take(i as int + 1).contains(m) == sv.take(i as int).contains(m));
                } else {
                    assert(sv.take(i as int + 1).contains(m));
                    if !(e == active_era && n == "active:val"@) {
                        assert(crate::cache::board_score(*c, e, n, m)
                            == crate::cache::board_score(chead, e, n, m));
                    }
                }
            }
        }
        i += 1;
    }
    proof {
        assert(sv.take(sv.len() as int) =~= sv);
    }
}

/// One validator's chain data for an era being synced.
pub struct EraStashInput {
    /// The validator's stash.
    pub stash: String,
    /// Reward points earned in the era.
    pub points: u32,
    /// Commission in the era, parts per billion.
    pub commission: u32,
    /// Whether nominations were blocked in the era.
    pub blocked: bool,
    /// Total exposure behind the validator.
    pub exposure_total: u128,
    /// The validator's own exposure.
    pub exposure_own: u128,
    /// The individual nominator exposures.
    pub exposure_others: Vec<u128>,
    /// The individual exposures that fit under the payout cap.
    pub clipped_others: Vec<u128>,
}

/// View of an era stash input.
pub struct EraStashInputV {
    pub stash: Seq<char>,
    pub points: u32,
    pub commission: u32,
    pub blocked: bool,
    pub exposure_total: u128,
    pub exposure_own: u128,
    pub exposure_others: Seq<u128>,
    pub clipped_others: Seq<u128>,
}

impl View for EraStashInput {
    type V = EraStashInputV;

    open spec fn view(&self) -> EraStashInputV {
        EraStashInputV {
            stash: self.stash@,
            points: self.points,
            commission: self.commission,
            blocked: self.blocked,
            exposure_total: self.exposure_total,
            exposure_own: self.exposure_own,
            exposure_others: self.exposure_others@,
            clipped_others: self.clipped_others@,
        }
    }
}

/// Everything the chain answers about one era.
pub struct EraInput {
    /// The era's total validator reward, when already known.
    pub reward: Option<u128>,
    /// The era's total stake.
    pub total_stake: u128,
    /// The era's total reward points.
    pub points_total: u32,
    /// The per-validator data of the era.
    pub individual: Vec<EraStashInput>,
}

/// The views of the per-validator era data.
pub open spec fn views_of_estash(s: Seq<EraStashInput>) -> Seq<EraStashInputV> {
    s.map_values(|v: EraStashInput| v@)
}

/// The entry for a stash, when the era data holds one.
pub open spec fn e_input_at(inp: Seq<EraStashInputV>, k: Seq<char>) -> Option<EraStashInputV>
    decreases inp.len(),
{
    if inp.len() == 0 {
        None
    } else if inp.last().stash == k {
        Some(inp.last())
    } else {
        e_input_at(inp.drop_last(), k)
    }
}

/// The reward points of the era data, in order.
pub open spec fn points_of(inp: Seq<EraStashInputV>) -> Seq<u32> {
    inp.map_values(|e: EraStashInputV| e.points)
}

/// Sum of a list of exposures.
pub open spec fn sum_u128s(s: Seq<u128>) -> int
    decreases s.len(),
{
    if s.len() == 0 {
        0
    } else {
        sum_u128s(s.drop_last()) + s.last()
    }
}

/// A sum of exposures is never negative.
proof fn lemma_sum_u128s_nonneg(s: Seq<u128>)
    ensures
        sum_u128s(s) >= 0,
    decreases s.len(),
{
    if s.len() > 0 {
        lemma_sum_u128s_nonneg(s.drop_last());
    }
}

/// Prefix sums of exposures never exceed the total.
proof fn lemma_sum_u128s_prefix(s: Seq<u128>, j: int)
    requires
        0 <= j <= s.len(),
    ensures
        0 <= sum_u128s(s.take(j)) <= sum_u128s(s),
    decreases s.len() - j,
{
    lemma_sum_u128s_nonneg(s.take(j));
    if j < s.len() {
        lemma_sum_u128s_prefix(s, j + 1);
        assert(s.take(j + 1).drop_last() =~= s.take(j));
    } else {
        assert(s.take(j) =~= s);
    }
}

/// Adds up a list of exposures.
fn sum_stakes(v: &Vec<u128>) -> (r: u128)
    requires
        sum_u128s(v@) <= u128::MAX,
    ensures
        r == sum_u128s(v@),
{
    let mut sum: u128 = 0;
    let mut i: usize = 0;
    while i < v.len()
        invariant
            0 <= i <= v@.len(),
            sum == sum_u128s(v@.take(i as int)),
            sum_u128s(v@) <= u128::MAX,
        decreases v@.len() - i,
    {
        proof {
            assert(v@.take(i as int + 1).drop_last() =~= v@.take(i as int));
            lemma_sum_u128s_prefix(v@, i as int + 1);
        }
        sum = sum + v[i];
        i += 1;
    }
    proof {
        assert(v@.take(v@.len() as int) =~= v@);
    }
    sum
}

/// The per-era snapshot written for one entry of the era data.
pub open spec fn expected_vera(e: EraStashInputV) -> crate::types::ValidatorEraRecord {
    crate::types::ValidatorEraRecord {
        active: true,
        reward_points: e.points,
        commission: e.commission,
        blocked: e.blocked,
        own_stake: e.exposure_own,
        total_stake: e.exposure_total,
        others_stake: sum_u128s(e.exposure_others) as u128,
        stakers: e.exposure_others.len() as u32,
        others_stake_clipped: sum_u128s(e.clipped_others) as u128,
        stakers_clipped: e.clipped_others.len() as u32,
    }
}

/// No two entries of the era data share a stash.
pub open spec fn distinct_estash(inp: Seq<EraStashInputV>) -> bool {
    forall|i: int, j: int| 0 <= i < j < inp.len() ==> inp[i].stash != inp[j].stash
}

/// Exposure lists whose sums and lengths fit their record fields.
pub open spec fn estash_ok(inp: Seq<EraStashInputV>) -> bool {
    forall|i: int| #![auto]
        0 <= i < inp.len() ==> sum_u128s(inp[i].exposure_others) <= u128::MAX && sum_u128s(
            inp[i].clipped_others,
        ) <= u128::MAX && inp[i].exposure_others.len() <= u32::MAX
            && inp[i].clipped_others.len() <= u32::MAX
}

/// Extending the era data by one entry changes the selection only for that
/// stash.
proof fn lemma_e_input_at_step(inp: Seq<EraStashInputV>, i: int)
    requires
        0 <= i < inp.len(),
    ensures
        forall|k: Seq<char>| #![auto]
            e_input_at(inp.take(i + 1), k) == (if inp[i].stash == k {
                Some(inp[i])
            } else {
                e_input_at(inp.take(i), k)
            }),
{
    assert(inp.take(i + 1).drop_last() =~= inp.take(i));
    assert(inp.take(i + 1).last() == inp[i]);
}

/// Without a matching stash there is no entry.
proof fn lemma_e_input_none(inp: Seq<EraStashInputV>, k: Seq<char>)
    requires
        forall|j: int| 0 <= j < inp.len() ==> inp[j].stash != k,
    ensures
        e_input_at(inp, k) == None::<EraStashInputV>,
    decreases inp.len(),
{
    if inp.len() > 0 {
        lemma_e_input_none(inp.drop_last(), k);
    }
}

/// Syncs the era's reward points: for every entry a per-era snapshot, an
/// active-era record and a place on the era's points board; then the era's
/// summary statistics and the three per-era statistical boards.
#[verifier::rlimit(60)]
#[verifier::spinoff_prover]
pub fn eras_reward_points(c: &mut Cache, era: u32, points_total: u32, individual: &Vec<
    EraStashInput,
>)
    requires
        wf(*old(c)),
        distinct_estash(views_of_estash(individual@)),
        estash_ok(views_of_estash(individual@)),
    ensures
        wf(*final(c)),
        final(c).network == old(c).network,
        final(c).info == old(c).info,
        final(c).stats@ == old(c).stats@,
        final(c).active_era == old(c).active_era,
        final(c).validators@ == old(c).validators@,
        final(c).board_scores@ == old(c).board_scores@,
        final(c).board_limits@ == old(c).board_limits@,
        // per-era snapshots
        forall|e2: u32, k: Seq<char>| #![auto]
            crate::cache::vera_of(*final(c), e2, k) == (if e2 == era && e_input_at(
                views_of_estash(individual@),
                k,
            ) is Some {
                Some(expected_vera(e_input_at(views_of_estash(individual@), k).unwrap()))
            } else {
                crate::cache::vera_of(*old(c), e2, k)
            }),
        // active-era lists
        forall|k: Seq<char>| #![auto]
            e_input_at(views_of_estash(individual@), k) is None ==> aeras_of(*final(c), k)
                == aeras_of(*old(c), k),
        forall|k: Seq<char>, e2: u32| #![auto]
            e_input_at(views_of_estash(individual@), k) is Some ==> crate::cache::aera_points(
                *final(c),
                k,
                e2,
            ) == (if e2 == era {
                Some(e_input_at(views_of_estash(individual@), k).unwrap().points)
            } else {
                crate::cache::aera_points(*old(c), k, e2)
            }),
        // boards: the points board exactly, the three statistical entries by
        // their properties, and everything else untouched
        forall|e: u32, n: Seq<char>, m: Seq<char>| #![auto]
            !(e == 0 && (n == "total:points:era"@ || n == "max:points:era"@ || n
                == "min:points:era"@) && m == crate::num::dec_str(era as int))
                ==> crate::cache::board_score(*final(c), e, n, m) == (if e == era && n
                == "points:val"@ && e_input_at(views_of_estash(individual@), m) is Some {
                Some(e_input_at(views_of_estash(individual@), m).unwrap().points as u128)
            } else {
                crate::cache::board_score(*old(c), e, n, m)
            }),
        crate::cache::board_score(*final(c), 0, "total:points:era"@, crate::num::dec_str(
            era as int,
        )) == Some(points_total as u128),
        ({
            let b = crate::cache::board_score(*final(c), 0, "max:points:era"@,
                crate::num::dec_str(era as int));
            let pts = points_of(views_of_estash(individual@));
            b is Some && (pts.len() == 0 ==> b.unwrap() == 0) && (pts.len() > 0 ==> pts.contains(
                b.unwrap() as u32,
            ) && forall|j: int| 0 <= j < pts.len() ==> pts[j] <= b.unwrap())
        }),
        ({
            let b = crate::cache::board_score(*final(c), 0, "min:points:era"@,
                crate::num::dec_str(era as int));
            let pts = points_of(views_of_estash(individual@));
            b is Some && (pts.len() == 0 ==> b.unwrap() == 0) && (pts.len() > 0 ==> pts.contains(
                b.unwrap() as u32,
            ) && forall|j: int| 0 <= j < pts.len() ==> b.unwrap() <= pts[j])
        }),
        // the era summary
        forall|e2: u32| #![auto]
            e2 != era ==> era_of(*final(c), e2) == era_of(*old(c), e2),
        era_of(*final(c), era) is Some,
        ({
            let r = era_of(*final(c), era).unwrap();
            let old_r = match era_of(*old(c), era) {
                Some(x) => x,
                None => crate::types::EraRecord {
                    total_reward: 0,
                    total_stake: 0,
                    total_reward_points: 0,
                    min_reward_points: 0,
                    max_reward_points: 0,
                    avg_reward_points_scaled: 0,
                    median_reward_points: 0,
                    synced_at: None,
                },
            };
            let pts = points_of(views_of_estash(individual@));
            r.total_reward == old_r.total_reward && r.total_stake == old_r.total_stake
                && r.synced_at == old_r.synced_at && r.total_reward_points == points_total && (
            pts.len() == 0 ==> r.min_reward_points == 0 && r.max_reward_points == 0
                && r.median_reward_points == 0 && r.avg_reward_points_scaled == 0) && (pts.len()
                > 0 ==> pts.contains(r.min_reward_points) && pts.contains(r.max_reward_points)
                && pts.to_multiset().contains(r.median_reward_points) && (forall|j: int|
                0 <= j < pts.len() ==> r.min_reward_points <= pts[j] && pts[j]
                    <= r.max_reward_points) && r.min_reward_points <= r.median_reward_points
                <= r.max_reward_points && r.avg_reward_points_scaled == crate::stats::sum_of(pts)
                * (crate::stats::SCALE as int) / pts.len() as int)
        }),
{
    let ghost ev = views_of_estash(individual@);
    let points_name = String::from_str("points:val");
    let mut pts: Vec<u32> = Vec::new();
    let mut i: usize = 0;
    proof {
        assert(ev.take(0) =~= Seq::<EraStashInputV>::empty());
        assert(pts@ =~= points_of(ev.take(0)));
    }
    while i < individual.len()
        invariant
            0 <= i <= individual@.len(),
            ev == views_of_estash(individual@),
            ev.len() == individual@.len(),
            distinct_estash(ev),
            estash_ok(ev),
            points_name@ == "points:val"@,
            pts@ == points_of(ev.take(i as int)),
            wf(*c),
            c.network == old(c).network,
            c.info == old(c).info,
            c.stats@ == old(c).stats@,
            c.active_era == old(c).active_era,
            c.validators@ == old(c).validators@,
            c.board_scores@ == old(c).board_scores@,
            c.board_limits@ == old(c).board_limits@,
            c.eras@ == old(c).eras@,
            forall|e2: u32, k: Seq<char>| #![auto]
                crate::cache::vera_of(*c, e2, k) == (if e2 == era && e_input_at(
                    ev.take(i as int),
                    k,
                ) is Some {
                    Some(expected_vera(e_input_at(ev.take(i as int), k).unwrap()))
                } else {
                    crate::cache::vera_of(*old(c), e2, k)
                }),
            forall|k: Seq<char>| #![auto]
                e_input_at(ev.take(i as int), k) is None ==> aeras_of(*c, k) == aeras_of(
                    *old(c),
                    k,
                ),
            forall|k: Seq<char>, e2: u32| #![auto]
                e_input_at(ev.take(i as int), k) is Some ==> crate::cache::aera_points(
                    *c,
                    k,
                    e2,
                ) == (if e2 == era {
                    Some(e_input_at(ev.take(i as int), k).unwrap().points)
                } else {
                    crate::cache::aera_points(*old(c), k, e2)
                }),
            forall|e: u32, n: Seq<char>, m: Seq<char>| #![auto]
                crate::cache::board_score(*c, e, n, m) == (if e == era && n == "points:val"@
                    && e_input_at(ev.take(i as int), m) is Some {
                    Some(e_input_at(ev.take(i as int), m).unwrap().points as u128)
                } else {
                    crate::cache::board_score(*old(c), e, n, m)
                }),
        decreases individual@.len() - i,
    {
        proof {
            assert(ev[i as int] == individual@[i as int]@);
            lemma_e_input_at_step(ev, i as int);
            assert(forall|j: int| 0 <= j < i ==> ev[j].stash != ev[i as int].stash);
            lemma_e_input_none(ev.take(i as int), ev[i as int].stash);
            assert(estash_ok(ev));
            assert(sum_u128s(ev[i as int].exposure_others) <= u128::MAX);
        }
        let entry = &individual[i];
        let others_stake = sum_stakes(&entry.exposure_others);
        let clipped_stake = sum_stakes(&entry.clipped_others);
        let rec = crate::types::ValidatorEraRecord {
            active: true,
            reward_points: entry.points,
            commission: entry.commission,
            blocked: entry.blocked,
            own_stake: entry.exposure_own,
            total_stake: entry.exposure_total,
            others_stake,
            stakers: entry.exposure_others.len() as u32,
            others_stake_clipped: clipped_stake,
            stakers_clipped: entry.clipped_others.len() as u32,
        };
        proof {
            assert(rec == expected_vera(ev[i as int]));
        }
        let ghost chead = *c;
        crate::kv::set_es(&mut c.eras_validators, era, &entry.stash, rec);
        let ghost c_es = *c;
        crate::cache::zadd_active_era(c, &entry.stash, era, entry.points);
        let ghost c_z = *c;
        crate::kv::set_esm(
            &mut c.boards,
            era,
            &points_name,
            &entry.stash,
            entry.points as u128,
        );
        pts.push(entry.points);
        proof {
            let t = ev.take(i as int + 1);
            let stash = ev[i as int].stash;
            assert(pts@ =~= points_of(t));
            assert forall|e2: u32, k: Seq<char>| #![auto]
                crate::cache::vera_of(*c, e2, k) == (if e2 == era && e_input_at(t, k)
                    is Some {
                    Some(expected_vera(e_input_at(t, k).unwrap()))
                } else {
                    crate::cache::vera_of(*old(c), e2, k)
                }) by {
                if k == stash {
                    if e2 == era {
                        assert(crate::cache::vera_of(*c, e2, k) == Some(rec));
                    } else {
                        assert(crate::cache::vera_of(*c, e2, k) == crate::cache::vera_of(
                            chead,
                            e2,
                            k,
                        ));
                    }
                } else {
                    assert(crate::cache::vera_of(*c, e2, k) == crate::cache::vera_of(
                        chead,
                        e2,
                        k,
                    ));
                    assert(e_input_at(t, k) == e_input_at(ev.take(i as int), k));
                }
            }
            assert(chead.active_eras@ == c_es.active_eras@);
            assert(c.active_eras@ == c_z.active_eras@);
            assert forall|k: Seq<char>| #![auto]
                e_input_at(t, k) is None implies aeras_of(*c, k) == aeras_of(*old(c), k) by {
                assert(k != stash);
                assert(aeras_of(c_z, k) == aeras_of(c_es, k));
                assert(aeras_of(*c, k) == aeras_of(c_z, k));
                assert(aeras_of(c_es, k) == aeras_of(chead, k));
                assert(e_input_at(t, k) == e_input_at(ev.take(i as int), k));
            }
            assert forall|k: Seq<char>, e2: u32| #![auto]
                e_input_at(t, k) is Some implies crate::cache::aera_points(*c, k, e2) == (
            if e2 == era {
                Some(e_input_at(t, k).unwrap().points)
            } else {
                crate::cache::aera_points(*old(c), k, e2)
            }) by {
                if k == stash {
                    assert(crate::cache::aera_points(*c, k, e2) == crate::cache::aera_points(
                        c_z,
                        k,
                        e2,
                    ));
                    assert(crate::cache::aera_points(c_z, k, e2) == (if e2 == era {
                        Some(ev[i as int].points)
                    } else {
                        crate::cache::aera_points(c_es, k, e2)
                    }));
                    if e2 != era {
                        assert(crate::cache::aera_points(c_es, k, e2)
                            == crate::cache::aera_points(chead, k, e2));
                        if e_input_at(ev.take(i as int), k) is Some {
                        } else {
                            assert(aeras_of(chead, k) == aeras_of(*old(c), k));
                        }
                    }
                } else {
                    assert(e_input_at(t, k) == e_input_at(ev.take(i as int), k));
                    assert(crate::cache::aera_points(*c, k, e2) == crate::cache::aera_points(
                        c_z,
                        k,
                        e2,
                    ));
                    assert(crate::cache::aera_points(c_z, k, e2) == crate::cache::aera_points(
                        c_es,
                        k,
                        e2,
                    ));
                    assert(crate::cache::aera_points(c_es, k, e2)
                        == crate::cache::aera_points(chead, k, e2));
                }
            }
            assert forall|e: u32, n: Seq<char>, m: Seq<char>| #![auto]
                crate::cache::board_score(*c, e, n, m) == (if e == era && n == "points:val"@
                    && e_input_at(t, m) is Some {
                    Some(e_input_at(t, m).unwrap().points as u128)
                } else {
                    crate::cache::board_score(*old(c), e, n, m)
                }) by {
                if m == stash {
                    if !(e == era && n == "points:val"@) {
                        assert(crate::cache::board_score(*c, e, n, m)
                            == crate::cache::board_score(chead, e, n, m));
                    }
                } else {
                    assert(e_input_at(t, m) == e_input_at(ev.take(i as int), m));
                    assert(crate::cache::board_score(*c, e, n, m)
                        == crate::cache::board_score(chead, e, n, m));
                }
            }
        }
        i += 1;
    }
    proof {
        assert(ev.take(ev.len() as int) =~= ev);
    }
    let ghost cexit = *c;
    // era summary statistics
    let mn = crate::stats::min(&pts);
    let mx = crate::stats::max(&pts);
    let avg = crate::stats::mean_scaled(&pts);
    let ghost pts0 = pts@;
    let md = crate::stats::median(&mut pts);
    proof {
        vstd::seq_lib::to_multiset_contains(pts0, md);
        if pts0.len() > 0 {
            vstd::seq_lib::to_multiset_contains(pts@, md);
            assert(pts@.contains(md));
            let w = choose|w: int| 0 <= w < pts@.len() && pts@[w] == md;
            assert(pts@.to_multiset().count(md) > 0);
            assert(pts0.to_multiset().contains(md));
        }
    }
    let mut rec = match crate::kv::get_u(&c.eras, era) {
        Some(r) => *r,
        None => crate::types::EraRecord {
            total_reward: 0,
            total_stake: 0,
            total_reward_points: 0,
            min_reward_points: 0,
            max_reward_points: 0,
            avg_reward_points_scaled: 0,
            median_reward_points: 0,
            synced_at: None,
        },
    };
    rec.total_reward_points = points_total;
    rec.min_reward_points = mn;
    rec.max_reward_points = mx;
    rec.avg_reward_points_scaled = avg;
    rec.median_reward_points = md;
    crate::kv::set_u(&mut c.eras, era, rec);
    let era_str = crate::num::u32_to_string(era);
    let tot_name = String::from_str("total:points:era");
    let max_name = String::from_str("max:points:era");
    let min_name = String::from_str("min:points:era");
    let ghost cmid = *c;
    proof {
        assert(cmid.boards@ == cexit.boards@);
        assert(cmid.eras_validators@ == cexit.eras_validators@);
        assert(cmid.active_eras@ == cexit.active_eras@);
    }
    crate::kv::set_esm(&mut c.boards, 0, &tot_name, &era_str, points_total as u128);
    crate::kv::set_esm(&mut c.boards, 0, &max_name, &era_str, mx as u128);
    crate::kv::set_esm(&mut c.boards, 0, &min_name, &era_str, mn as u128);
    proof {
        reveal_strlit("total:points:era");
        reveal_strlit("max:points:era");
        reveal_strlit("min:points:era");
        reveal_strlit("points:val");
        assert("total:points:era"@.len() == 16);
        assert("max:points:era"@.len() == 14);
        assert("min:points:era"@.len() == 14);
        assert("points:val"@.len() == 10);
        assert("max:points:era"@ != "min:points:era"@) by {
            assert("max:points:era"@[1] == 'a');
            assert("min:points:era"@[1] == 'i');
        }
        assert forall|e: u32, n: Seq<char>, m: Seq<char>| #![auto]
            !(e == 0 && (n == "total:points:era"@ || n == "max:points:era"@ || n
                == "min:points:era"@) && m == crate::num::dec_str(era as int))
                implies crate::cache::board_score(*c, e, n, m) == (if e == era && n
                == "points:val"@ && e_input_at(ev, m) is Some {
                Some(e_input_at(ev, m).unwrap().points as u128)
            } else {
                crate::cache::board_score(*old(c), e, n, m)
            }) by {
            assert(crate::cache::board_score(*c, e, n, m) == crate::cache::board_score(
                cmid,
                e,
                n,
                m,
            ));
            assert(crate::cache::board_score(cmid, e, n, m) == crate::cache::board_score(
                cexit,
                e,
                n,
                m,
            ));
            assert(crate::cache::board_score(cexit, e, n, m) == (if e == era && n
                == "points:val"@ && e_input_at(ev.take(ev.len() as int), m) is Some {
                Some(e_input_at(ev.take(ev.len() as int), m).unwrap().points as u128)
            } else {
                crate::cache::board_score(*old(c), e, n, m)
            }));
        }
        assert forall|e2: u32, k: Seq<char>| #![auto]
            crate::cache::vera_of(*c, e2, k) == (if e2 == era && e_input_at(ev, k) is Some {
                Some(expected_vera(e_input_at(ev, k).unwrap()))
            } else {
                crate::cache::vera_of(*old(c), e2, k)
            }) by {
            assert(crate::cache::vera_of(*c, e2, k) == crate::cache::vera_of(cexit, e2, k));
            assert(crate::cache::vera_of(cexit, e2, k) == (if e2 == era && e_input_at(
                ev.take(ev.len() as int),
                k,
            ) is Some {
                Some(expected_vera(e_input_at(ev.take(ev.len() as int), k).unwrap()))
            } else {
                crate::cache::vera_of(*old(c), e2, k)
            }));
        }
        assert forall|k: Seq<char>| #![auto]
            e_input_at(ev, k) is None implies aeras_of(*c, k) == aeras_of(*old(c), k) by {
            assert(aeras_of(*c, k) == aeras_of(cexit, k));
            assert(e_input_at(ev.take(ev.len() as int), k) is None);
        }
        assert forall|k: Seq<char>, e2: u32| #![auto]
            e_input_at(ev, k) is Some implies crate::cache::aera_points(*c, k, e2) == (
        if e2 == era {
            Some(e_input_at(ev, k).unwrap().points)
        } else {
            crate::cache::aera_points(*old(c), k, e2)
        }) by {
            assert(crate::cache::aera_points(*c, k, e2) == crate::cache::aera_points(
                cexit,
                k,
                e2,
            ));
            assert(e_input_at(ev.take(ev.len() as int), k) is Some);
            assert(crate::cache::aera_points(cexit, k, e2) == (if e2 == era {
                Some(e_input_at(ev.take(ev.len() as int), k).unwrap().points)
            } else {
                crate::cache::aera_points(*old(c), k, e2)
            }));
        }
        assert(era_of(*c, era) is Some);
    }
}

/// The era summary before any write: the stored record or a blank one.
pub open spec fn era_or_default(r: Option<EraRecord>) -> EraRecord {
    match r {
        Some(x) => x,
        None => EraRecord {
            total_reward: 0,
            total_stake: 0,
            total_reward_points: 0,
            min_reward_points: 0,
            max_reward_points: 0,
            avg_reward_points_scaled: 0,
            median_reward_points: 0,
            synced_at: None,
        },
    }
}

/// Reads the stored era summary, or a blank one.
fn get_era_record(c: &Cache, era: u32) -> (r: EraRecord)
    ensures
        r == era_or_default(era_of(*c, era)),
{
    match crate::kv::get_u(&c.eras, era) {
        Some(r) => *r,
        None => crate::types::EraRecord {
            total_reward: 0,
            total_stake: 0,
            total_reward_points: 0,
            min_reward_points: 0,
            max_reward_points: 0,
            avg_reward_points_scaled: 0,
            median_reward_points: 0,
            synced_at: None,
        },
    }
}

/// Caches the era's total validator reward; an unanswered reward reads as 0.
pub fn eras_validator_reward(c: &mut Cache, era: u32, reward: &Option<u128>)
    requires
        wf(*old(c)),
    ensures
        wf(*final(c)),
        final(c).network == old(c).network,
        final(c).info == old(c).info,
        final(c).stats@ == old(c).stats@,
        final(c).active_era == old(c).active_era,
        final(c).validators@ == old(c).validators@,
        final(c).eras_validators@ == old(c).eras_validators@,
        final(c).active_eras@ == old(c).active_eras@,
        final(c).boards@ == old(c).boards@,
        final(c).board_scores@ == old(c).board_scores@,
        final(c).board_limits@ == old(c).board_limits@,
        forall|e2: u32| #![auto]
            era_of(*final(c), e2) == (if e2 == era {
                Some(
                    EraRecord {
                        total_reward: spec_controller_stake(*reward),
                        ..era_or_default(era_of(*old(c), era))
                    },
                )
            } else {
                era_of(*old(c), e2)
            }),
{
    let mut rec = get_era_record(c, era);
    rec.total_reward = match reward {
        Some(v) => *v,
        None => 0,
    };
    crate::kv::set_u(&mut c.eras, era, rec);
}

/// Caches the era's total stake.
pub fn eras_total_stake(c: &mut Cache, era: u32, total_stake: u128)
    requires
        wf(*old(c)),
    ensures
        wf(*final(c)),
        final(c).network == old(c).network,
        final(c).info == old(c).info,
        final(c).stats@ == old(c).stats@,
        final(c).active_era == old(c).active_era,
        final(c).validators@ == old(c).validators@,
        final(c).eras_validators@ == old(c).eras_validators@,
        final(c).active_eras@ == old(c).active_eras@,
        final(c).boards@ == old(c).boards@,
        final(c).board_scores@ == old(c).board_scores@,
        final(c).board_limits@ == old(c).board_limits@,
        forall|e2: u32| #![auto]
            era_of(*final(c), e2) == (if e2 == era {
                Some(
                    EraRecord { total_stake: total_stake, ..era_or_default(era_of(*old(c), era)) },
                )
            } else {
                era_of(*old(c), e2)
            }),
{
    let mut rec = get_era_record(c, era);
    rec.total_stake = total_stake;
    crate::kv::set_u(&mut c.eras, era, rec);
}

/// Whether an era still has to be fetched: it does when the caller forces
/// it, or when no `synced_at` stamp is recorded.
pub open spec fn needs_sync(c: Cache, era: u32, force: Option<bool>) -> bool {
    force == Some(true) || (match era_of(c, era) {
        Some(r) => r.synced_at is None,
        None => true,
    })
}

/// Syncs one era's history: with `force`, or while the era carries no
/// `synced_at` stamp, the reward, stake and reward points are written and
/// the era stamped; an already synced era is left exactly as it is.
#[verifier::rlimit(60)]
#[verifier::spinoff_prover]
pub fn eras_history(c: &mut Cache, era: u32, force: Option<bool>, input: &EraInput, now: u64)
    requires
        wf(*old(c)),
        distinct_estash(views_of_estash(input.individual@)),
        estash_ok(views_of_estash(input.individual@)),
    ensures
        wf(*final(c)),
        final(c).network == old(c).network,
        final(c).info == old(c).info,
        final(c).stats@ == old(c).stats@,
        final(c).active_era == old(c).active_era,
        final(c).validators@ == old(c).validators@,
        final(c).board_scores@ == old(c).board_scores@,
        final(c).board_limits@ == old(c).board_limits@,
        !needs_sync(*old(c), era, force) ==> *final(c) == *old(c),
        needs_sync(*old(c), era, force) ==> ({
            &&& era_of(*final(c), era) is Some
            &&& ({
                let r = era_of(*final(c), era).unwrap();
                let pts = points_of(views_of_estash(input.individual@));
                &&& r.total_reward == spec_controller_stake(input.reward)
                &&& r.total_stake == input.total_stake
                &&& r.total_reward_points == input.points_total
                &&& r.synced_at == Some(now)
                &&& (pts.len() > 0 ==> pts.contains(r.min_reward_points) && pts.contains(
                    r.max_reward_points,
                ) && pts.to_multiset().contains(r.median_reward_points) && (forall|j: int|
                    0 <= j < pts.len() ==> r.min_reward_points <= pts[j] && pts[j]
                        <= r.max_reward_points) && r.min_reward_points
                    <= r.median_reward_points <= r.max_reward_points
                    && r.avg_reward_points_scaled == crate::stats::sum_of(pts) * (
                crate::stats::SCALE as int) / pts.len() as int)
                &&& (pts.len() == 0 ==> r.min_reward_points == 0 && r.max_reward_points == 0
                    && r.median_reward_points == 0 && r.avg_reward_points_scaled == 0)
            })
            &&& (forall|e2: u32| #![auto] e2 != era ==> era_of(*final(c), e2) == era_of(*old(c), e2))
            &&& (forall|e2: u32, k: Seq<char>| #![auto]
                crate::cache::vera_of(*final(c), e2, k) == (if e2 == era && e_input_at(
                    views_of_estash(input.individual@),
                    k,
                ) is Some {
                    Some(expected_vera(e_input_at(views_of_estash(input.individual@), k).unwrap()))
                } else {
                    crate::cache::vera_of(*old(c), e2, k)
                }))
            &&& (forall|k: Seq<char>| #![auto]
                e_input_at(views_of_estash(input.individual@), k) is None ==> aeras_of(
                    *final(c),
                    k,
                ) == aeras_of(*old(c), k))
            &&& (forall|k: Seq<char>, e2: u32| #![auto]
                e_input_at(views_of_estash(input.individual@), k) is Some
                    ==> crate::cache::aera_points(*final(c), k, e2) == (if e2 == era {
                    Some(e_input_at(views_of_estash(input.individual@), k).unwrap().points)
                } else {
                    crate::cache::aera_points(*old(c), k, e2)
                }))
            &&& (forall|e: u32, n: Seq<char>, m: Seq<char>| #![auto]
                !(e == 0 && (n == "total:points:era"@ || n == "max:points:era"@ || n
                    == "min:points:era"@) && m == crate::num::dec_str(era as int))
                    ==> crate::cache::board_score(*final(c), e, n, m) == (if e == era && n
                    == "points:val"@ && e_input_at(views_of_estash(input.individual@), m)
                    is Some {
                    Some(
                        e_input_at(views_of_estash(input.individual@), m).unwrap().points as u128,
                    )
                } else {
                    crate::cache::board_score(*old(c), e, n, m)
                }))
            &&& crate::cache::board_score(*final(c), 0, "total:points:era"@, crate::num::dec_str(
                era as int,
            )) == Some(input.points_total as u128)
        }),
{
    let need = match force {
        Some(true) => true,
        _ => {
            match crate::kv::get_u(&c.eras, era) {
                Some(r) => r.synced_at.is_none(),
                None => true,
            }
        },
    };
    if !need {
        return;
    }
    eras_validator_reward(c, era, &input.reward);
    let ghost c1 = *c;
    eras_total_stake(c, era, input.total_stake);
    let ghost c2 = *c;
    eras_reward_points(c, era, input.points_total, &input.individual);
    let ghost c3 = *c;
    let mut rec = get_era_record(c, era);
    rec.synced_at = Some(now);
    crate::kv::set_u(&mut c.eras, era, rec);
    proof {
        let ev = views_of_estash(input.individual@);
        assert(era_of(c1, era) == Some(
            EraRecord {
                total_reward: spec_controller_stake(input.reward),
                ..era_or_default(era_of(*old(c), era))
            },
        ));
        assert(era_of(c2, era) == Some(
            EraRecord { total_stake: input.total_stake, ..era_or_default(era_of(c1, era)) },
        ));
        assert(era_of(*c, era) == Some(rec));
        assert forall|e2: u32| #![auto]
            e2 != era implies era_of(*c, e2) == era_of(*old(c), e2) by {
            assert(era_of(*c, e2) == era_of(c3, e2));
            assert(era_of(c3, e2) == era_of(c2, e2));
            assert(era_of(c2, e2) == era_of(c1, e2));
            assert(era_of(c1, e2) == era_of(*old(c), e2));
        }
        assert(c.eras_validators@ == c3.eras_validators@);
        assert(c.active_eras@ == c3.active_eras@);
        assert(c.boards@ == c3.boards@);
        assert(c2.eras_validators@ == old(c).eras_validators@);
        assert(c2.active_eras@ == old(c).active_eras@);
        assert(c2.boards@ == old(c).boards@);
        assert forall|e2: u32, k: Seq<char>| #![auto]
            crate::cache::vera_of(*c, e2, k) == (if e2 == era && e_input_at(ev, k) is Some {
                Some(expected_vera(e_input_at(ev, k).unwrap()))
            } else {
                crate::cache::vera_of(*old(c), e2, k)
            }) by {
            assert(crate::cache::vera_of(*c, e2, k) == crate::cache::vera_of(c3, e2, k));
            assert(crate::cache::vera_of(c2, e2, k) == crate::cache::vera_of(*old(c), e2, k));
        }
        assert forall|k: Seq<char>| #![auto]
            e_input_at(ev, k) is None implies aeras_of(*c, k) == aeras_of(*old(c), k) by {
            assert(aeras_of(*c, k) == aeras_of(c3, k));
            assert(aeras_of(c3, k) == aeras_of(c2, k));
            assert(aeras_of(c2, k) == aeras_of(*old(c), k));
        }
        assert forall|k: Seq<char>, e2: u32| #![auto]
            e_input_at(ev, k) is Some implies crate::cache::aera_points(*c, k, e2) == (
        if e2 == era {
            Some(e_input_at(ev, k).unwrap().points)
        } else {
            crate::cache::aera_points(*old(c), k, e2)
        }) by {
            assert(crate::cache::aera_points(*c, k, e2) == crate::cache::aera_points(
                c3,
                k,
                e2,
            ));
            assert(crate::cache::aera_points(c2, k, e2) == crate::cache::aera_points(
                *old(c),
                k,
                e2,
            ));
        }
        assert forall|e: u32, n: Seq<char>, m: Seq<char>| #![auto]
            !(e == 0 && (n == "total:points:era"@ || n == "max:points:era"@ || n
                == "min:points:era"@) && m == crate::num::dec_str(era as int))
                implies crate::cache::board_score(*c, e, n, m) == (if e == era && n
                == "points:val"@ && e_input_at(ev, m) is Some {
                Some(e_input_at(ev, m).unwrap().points as u128)
            } else {
                crate::cache::board_score(*old(c), e, n, m)
            }) by {
            assert(crate::cache::board_score(*c, e, n, m) == crate::cache::board_score(
                c3,
                e,
                n,
                m,
            ));
            assert(crate::cache::board_score(c2, e, n, m) == crate::cache::board_score(
                *old(c),
                e,
                n,
                m,
            ));
        }
        assert(crate::cache::board_score(*c, 0, "total:points:era"@, crate::num::dec_str(
            era as int,
        )) == crate::cache::board_score(c3, 0, "total:points:era"@, crate::num::dec_str(
            era as int,
        )));
    }
}

/// Valid per-era inputs: distinct stashes and summable exposures, era by era.
pub open spec fn era_inputs_ok(inputs: Seq<EraInput>) -> bool {
    forall|i: int| #![auto]
        0 <= i < inputs.len() ==> distinct_estash(views_of_estash(inputs[i].individual@))
            && estash_ok(views_of_estash(inputs[i].individual@))
}

/// Backfills the window `[active_era - history_depth, active_era)`: entry
/// `i` of the inputs carries era `active_era - history_depth + i`.  Every
/// era of the window ends up stamped; eras outside it are untouched.
#[verifier::rlimit(60)]
#[verifier::spinoff_prover]
pub fn eras_history_depth(
    c: &mut Cache,
    active_era: u32,
    history_depth: u32,
    inputs: &Vec<EraInput>,
    now: u64,
)
    requires
        wf(*old(c)),
        history_depth <= active_era,
        inputs@.len() == history_depth,
        era_inputs_ok(inputs@),
    ensures
        wf(*final(c)),
        final(c).network == old(c).network,
        final(c).info == old(c).info,
        final(c).stats@ == old(c).stats@,
        final(c).active_era == old(c).active_era,
        final(c).validators@ == old(c).validators@,
        final(c).board_scores@ == old(c).board_scores@,
        final(c).board_limits@ == old(c).board_limits@,
        forall|e2: u32| #![auto]
            !(active_era - history_depth <= e2 < active_era) ==> era_of(*final(c), e2) == era_of(
                *old(c),
                e2,
            ),
        forall|e2: u32| #![auto]
            active_era - history_depth <= e2 < active_era ==> era_of(*final(c), e2) is Some
                && era_of(*final(c), e2).unwrap().synced_at is Some,
{
    let era_min = active_era - history_depth;
    let mut i: usize = 0;
    while i < inputs.len()
        invariant
            0 <= i <= inputs@.len(),
            inputs@.len() == history_depth,
            era_min == active_era - history_depth,
            history_depth <= active_era,
            era_inputs_ok(inputs@),
            wf(*c),
            c.network == old(c).network,
            c.info == old(c).info,
            c.stats@ == old(c).stats@,
            c.active_era == old(c).active_era,
            c.validators@ == old(c).validators@,
            c.board_scores@ == old(c).board_scores@,
            c.board_limits@ == old(c).board_limits@,
            forall|e2: u32| #![auto]
                !(era_min <= e2 < era_min + i) ==> era_of(*c, e2) == era_of(*old(c), e2),
            forall|e2: u32| #![auto]
                era_min <= e2 < era_min + i ==> era_of(*c, e2) is Some && era_of(
                    *c,
                    e2,
                ).unwrap().synced_at is Some,
        decreases inputs@.len() - i,
    {
        let era = era_min + (i as u32);
        let ghost chead = *c;
        proof {
            assert(distinct_estash(views_of_estash(inputs@[i as int].individual@))
                && estash_ok(views_of_estash(inputs@[i as int].individual@)));
        }
        eras_history(c, era, None, &inputs[i], now);
        proof {
            if needs_sync(chead, era, None::<bool>) {
            } else {
                assert(*c == chead);
                assert(era_of(chead, era) is Some && era_of(chead, era).unwrap().synced_at
                    is Some);
            }
            assert(era_of(*c, era) is Some && era_of(*c, era).unwrap().synced_at is Some);
            assert forall|e2: u32| #![auto]
                !(era_min <= e2 < era_min + i + 1) implies era_of(*c, e2) == era_of(
                *old(c),
                e2,
            ) by {
                assert(era_of(*c, e2) == era_of(chead, e2));
            }
            assert forall|e2: u32| #![auto]
                era_min <= e2 < era_min + i + 1 implies era_of(*c, e2) is Some && era_of(
                *c,
                e2,
            ).unwrap().synced_at is Some by {
                if e2 != era {
                    assert(era_of(*c, e2) == era_of(chead, e2));
                }
            }
        }
        i += 1;
    }
}

/// Sums on validator and nominator inputs that fit the counter types, so
/// that the nominators pass can run after the validators pass.
pub open spec fn nominator_inputs_ok(
    c: Cache,
    vv: Seq<ValidatorInputV>,
    nv: Seq<NominatorInputV>,
) -> bool {
    &&& (forall|k: Seq<char>|
        match #[trigger] crate::cache::val_of(c, k) {
            Some(r) => r.nominators + targeted_count(nv, k) <= u32::MAX && r.own_stake
                + r.nominators_stake + targeted_stake(nv, k) <= u128::MAX,
            None => true,
        })
    &&& (forall|i: int| #![auto]
        0 <= i < vv.len() ==> spec_controller_stake(vv[i].ledger_active) + targeted_stake(
            nv,
            vv[i].stash,
        ) <= u128::MAX)
    &&& (forall|k: Seq<char>| #![auto]
        targeted_count(nv, k) <= u32::MAX && 0 <= targeted_stake(nv, k) <= u128::MAX)
}

/// A selected input is one of the inputs, under its stash.
proof fn lemma_v_input_member(inp: Seq<ValidatorInputV>, k: Seq<char>)
    requires
        v_input_at(inp, k) is Some,
    ensures
        exists|i: int|
            0 <= i < inp.len() && #[trigger] inp[i] == v_input_at(inp, k).unwrap() && inp[i].stash
                == k,
    decreases inp.len(),
{
    if inp.len() > 0 {
        if inp.last().stash == k && inp.last().controller is Some {
            assert(inp[inp.len() - 1] == v_input_at(inp, k).unwrap());
        } else {
            lemma_v_input_member(inp.drop_last(), k);
            let i = choose|i: int|
                0 <= i < inp.drop_last().len() && #[trigger] inp.drop_last()[i] == v_input_at(
                    inp.drop_last(),
                    k,
                ).unwrap() && inp.drop_last()[i].stash == k;
            assert(inp[i] == v_input_at(inp, k).unwrap() && inp[i].stash == k);
        }
    }
}

/// One full synchronisation: announce, cache the network, read the active
/// era, backfill the history window, then refresh validators, nominators
/// and the active set, and stamp the finish.  A chain without an active era
/// aborts with the syncing flag still raised, as a supervisor retry would
/// find it.
#[verifier::rlimit(60)]
#[verifier::spinoff_prover]
pub fn history(
    c: &mut Cache,
    props: NetworkRecord,
    active_index: Option<u32>,
    history_depth: u32,
    era_inputs: &Vec<EraInput>,
    validator_inputs: &Vec<ValidatorInput>,
    nominator_inputs: &Vec<NominatorInput>,
    session: &Vec<String>,
    now: u64,
) -> (r: Result<(), SyncError>)
    requires
        wf(*old(c)),
        match active_index {
            Some(a) => history_depth <= a && era_inputs@.len() == history_depth,
            None => true,
        },
        era_inputs_ok(era_inputs@),
        distinct_stashes(views_of_inputs(validator_inputs@)),
        inputs_ok(views_of_inputs(validator_inputs@)),
        validator_inputs@.len() <= u32::MAX,
        nominator_inputs@.len() <= u32::MAX,
        nominator_inputs_ok(
            *old(c),
            views_of_inputs(validator_inputs@),
            views_of_noms(nominator_inputs@),
        ),
    ensures
        wf(*final(c)),
        r is Ok <==> active_index is Some,
        final(c).network == Some(props),
        final(c).info.syncing_started_at == now,
        r is Err ==> final(c).info.syncing,
        r is Ok ==> !final(c).info.syncing && final(c).info.syncing_finished_at == now
            && final(c).active_era == active_index && final(c).info.validators
            == count_controller(views_of_inputs(validator_inputs@)) as u32
            && final(c).info.nominators == nominator_inputs@.len() as u32 && (forall|e2: u32|
            #![auto]
            active_index.unwrap() - history_depth <= e2 < active_index.unwrap() ==> era_of(
                *final(c),
                e2,
            ) is Some && era_of(*final(c), e2).unwrap().synced_at is Some),
{
    let ghost vv = views_of_inputs(validator_inputs@);
    let ghost nv = views_of_noms(nominator_inputs@);
    status(c, Status::Started, now);
    network(c, props);
    let active = match active_era(c, active_index) {
        Ok(a) => a,
        Err(e) => {
            return Err(e);
        },
    };
    eras_history_depth(c, active, history_depth, era_inputs, now);
    let ghost c_eras = *c;
    validators(c, validator_inputs, active, history_depth);
    let ghost c_vals = *c;
    proof {
        assert forall|k: Seq<char>|
            match #[trigger] crate::cache::val_of(c_vals, k) {
                Some(r) => r.nominators + targeted_count(nv, k) <= u32::MAX && r.own_stake
                    + r.nominators_stake + targeted_stake(nv, k) <= u128::MAX,
                None => true,
            } by {
            lemma_targeted_nonneg(nv, k);
            match v_input_at(vv, k) {
                Some(v) => {
                    lemma_v_input_member(vv, k);
                },
                None => {
                    assert(crate::cache::val_of(c_vals, k) == crate::cache::val_of(c_eras, k));
                    assert(crate::cache::val_of(c_eras, k) == crate::cache::val_of(*old(c), k));
                },
            }
        }
    }
    nominators(c, nominator_inputs);
    active_validators(c, session, active);
    status(c, Status::Finished, now);
    proof {
        assert forall|e2: u32| #![auto]
            active - history_depth <= e2 < active implies era_of(*c, e2) is Some && era_of(
            *c,
            e2,
        ).unwrap().synced_at is Some by {
            assert(era_of(*c, e2) == era_of(c_eras, e2));
        }
    }
    Ok(())
}

/// One event-driven resync for a paid era: skipped while a resync is under
/// way, otherwise the era is force-synced and validators, the active set and
/// nominators refreshed.  Returns whether the event was acted on.
#[verifier::rlimit(60)]
#[verifier::spinoff_prover]
pub fn on_era_paid(
    c: &mut Cache,
    era_paid: u32,
    active_index: Option<u32>,
    history_depth: u32,
    era_input: &EraInput,
    validator_inputs: &Vec<ValidatorInput>,
    nominator_inputs: &Vec<NominatorInput>,
    session: &Vec<String>,
    now: u64,
) -> (r: Result<bool, SyncError>)
    requires
        wf(*old(c)),
        match active_index {
            Some(a) => history_depth <= a,
            None => true,
        },
        distinct_estash(views_of_estash(era_input.individual@)),
        estash_ok(views_of_estash(era_input.individual@)),
        distinct_stashes(views_of_inputs(validator_inputs@)),
        inputs_ok(views_of_inputs(validator_inputs@)),
        validator_inputs@.len() <= u32::MAX,
        nominator_inputs@.len() <= u32::MAX,
        nominator_inputs_ok(
            *old(c),
            views_of_inputs(validator_inputs@),
            views_of_noms(nominator_inputs@),
        ),
    ensures
        wf(*final(c)),
        old(c).info.syncing ==> r == Ok::<bool, SyncError>(false) && *final(c) == *old(c),
        !old(c).info.syncing ==> (r is Ok <==> active_index is Some),
        !old(c).info.syncing && r is Ok ==> r == Ok::<bool, SyncError>(true)
            && !final(c).info.syncing && final(c).info.syncing_started_at == now
            && final(c).info.syncing_finished_at == now && final(c).active_era == active_index
            && era_of(*final(c), era_paid) is Some && era_of(*final(c), era_paid).unwrap().synced_at
            == Some(now),
        !old(c).info.syncing && r is Err ==> final(c).info.syncing,
{
    if is_syncing(c) {
        return Ok(false);
    }
    let ghost vv = views_of_inputs(validator_inputs@);
    let ghost nv = views_of_noms(nominator_inputs@);
    status(c, Status::Started, now);
    let active = match active_era(c, active_index) {
        Ok(a) => a,
        Err(e) => {
            return Err(e);
        },
    };
    eras_history(c, era_paid, Some(true), era_input, now);
    let ghost c_eras = *c;
    validators(c, validator_inputs, active, history_depth);
    let ghost c_vals = *c;
    active_validators(c, session, active);
    let ghost c_act = *c;
    proof {
        assert forall|k: Seq<char>|
            match #[trigger] crate::cache::val_of(c_act, k) {
                Some(r) => r.nominators + targeted_count(nv, k) <= u32::MAX && r.own_stake
                    + r.nominators_stake + targeted_stake(nv, k) <= u128::MAX,
                None => true,
            } by {
            lemma_targeted_nonneg(nv, k);
            if views_of_strings(session@).contains(k) {
                // an activated record keeps its counters, or starts at zero
                match crate::cache::val_of(c_vals, k) {
                    Some(rv) => {
                        match v_input_at(vv, k) {
                            Some(v) => {
                                lemma_v_input_member(vv, k);
                            },
                            None => {
                                assert(crate::cache::val_of(c_vals, k)
                                    == crate::cache::val_of(c_eras, k));
                                assert(crate::cache::val_of(c_eras, k)
                                    == crate::cache::val_of(*old(c), k));
                            },
                        }
                    },
                    None => {},
                }
            } else {
                assert(crate::cache::val_of(c_act, k) == crate::cache::val_of(c_vals, k));
                match v_input_at(vv, k) {
                    Some(v) => {
                        lemma_v_input_member(vv, k);
                    },
                    None => {
                        assert(crate::cache::val_of(c_vals, k) == crate::cache::val_of(
                            c_eras,
                            k,
                        ));
                        assert(crate::cache::val_of(c_eras, k) == crate::cache::val_of(
                            *old(c),
                            k,
                        ));
                    },
                }
            }
        }
    }
    nominators(c, nominator_inputs);
    status(c, Status::Finished, now);
    proof {
        assert(era_of(*c, era_paid) == era_of(c_eras, era_paid));
    }
    Ok(true)
}

} // verus!
