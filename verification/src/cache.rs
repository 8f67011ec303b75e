//! The in-memory model of the cache: every table the service keeps.
//!
//! Each table is an association list from `kv`; the indexer and the
//! leaderboard engine mutate it through the `set` primitives, so every
//! contract below speaks in terms of `assoc` lookups.

use vstd::prelude::*;
use crate::kv::{
    assoc_es, assoc_esm, assoc_s, assoc_u, distinct_es, distinct_esm, distinct_s, distinct_u,
    get_s, set_s, set_u,
};
use crate::score::BoardLimits;
use crate::types::{EraRecord, InfoRecord, NetworkRecord, ValidatorEraRecord, ValidatorRecord,
    ValidatorRecordV};

verus! {

/// The whole cached state.
pub struct Cache {
    /// Chain metadata, under `network`.
    pub network: Option<NetworkRecord>,
    /// Sync status and counts, under `info`.
    pub info: InfoRecord,
    /// Board generation counters, under `stats`, keyed by board key string.
    pub stats: Vec<(String, u64)>,
    /// The current era index, under `era:active`.
    pub active_era: Option<u32>,
    /// Era summaries, under `{era}:era`.
    pub eras: Vec<(u32, EraRecord)>,
    /// Validator snapshots, under `{stash}:val`.
    pub validators: Vec<(String, ValidatorRecord)>,
    /// Per-era validator snapshots, under `{era}:era:{stash}:val`.
    pub eras_validators: Vec<((u32, String), ValidatorEraRecord)>,
    /// Active eras per validator with the points earned, under
    /// `{stash}:val:eras:active`.
    pub active_eras: Vec<(String, Vec<(u32, u32)>)>,
    /// Sorted-set boards: `(era, name, member) -> score`, under
    /// `{era}:era:{name}:board`.
    pub boards: Vec<((u32, String, String), u128)>,
    /// Per-criterion scores of generated boards:
    /// `(era, name, stash) -> scores`.
    pub board_scores: Vec<((u32, String, String), Vec<u64>)>,
    /// The limits a generated board was scored against.
    pub board_limits: Vec<((u32, String), BoardLimits)>,
}

/// The validator record of a stash.
pub open spec fn val_of(c: Cache, stash: Seq<char>) -> Option<ValidatorRecordV> {
    assoc_s(c.validators@, stash)
}

/// The era summary of an era.
pub open spec fn era_of(c: Cache, era: u32) -> Option<EraRecord> {
    assoc_u(c.eras@, era)
}

/// The per-era snapshot of a stash.
pub open spec fn vera_of(c: Cache, era: u32, stash: Seq<char>) -> Option<ValidatorEraRecord> {
    assoc_es(c.eras_validators@, era, stash)
}

/// The era/points list of a stash.
pub open spec fn aeras_of(c: Cache, stash: Seq<char>) -> Option<Seq<(u32, u32)>> {
    assoc_s(c.active_eras@, stash)
}

/// The points a stash earned in an era, when recorded.
pub open spec fn aera_points(c: Cache, stash: Seq<char>, era: u32) -> Option<u32> {
    match aeras_of(c, stash) {
        Some(l) => assoc_u(l, era),
        None => None,
    }
}

/// The score of a member on a board.
pub open spec fn board_score(c: Cache, era: u32, name: Seq<char>, member: Seq<char>) -> Option<
    u128,
> {
    assoc_esm(c.boards@, era, name, member)
}

/// The per-criterion scores of a stash on a generated board.
pub open spec fn scores_of(c: Cache, era: u32, name: Seq<char>, stash: Seq<char>) -> Option<
    Seq<u64>,
> {
    assoc_esm(c.board_scores@, era, name, stash)
}

/// The limits a generated board was scored against.
pub open spec fn limits_of(c: Cache, era: u32, name: Seq<char>) -> Option<BoardLimits> {
    assoc_es(c.board_limits@, era, name)
}

/// A board generation counter.
pub open spec fn stat_of(c: Cache, key: Seq<char>) -> Option<u64> {
    assoc_s(c.stats@, key)
}

/// A board exists exactly when it has a member.
pub open spec fn board_exists(c: Cache, era: u32, name: Seq<char>) -> bool {
    exists|i: int|
        0 <= i < c.boards@.len() && c.boards@[i].0.0 == era && c.boards@[i].0.1@ == name
}

/// Well-formed cache: no table holds two entries for one key, and the two
/// stake attributes of every validator can be summed.
pub open spec fn wf(c: Cache) -> bool {
    &&& distinct_s(c.stats@)
    &&& distinct_u(c.eras@)
    &&& distinct_s(c.validators@)
    &&& distinct_es(c.eras_validators@)
    &&& distinct_s(c.active_eras@)
    &&& distinct_esm(c.boards@)
    &&& distinct_esm(c.board_scores@)
    &&& distinct_es(c.board_limits@)
    &&& (forall|i: int|
        0 <= i < c.active_eras@.len() ==> distinct_u(#[trigger] c.active_eras@[i].1@))
    &&& (forall|i: int|
        0 <= i < c.validators@.len() ==> crate::score::stakes_ok(#[trigger] c.validators@[i].1@))
}

/// Looking a stash up lands on a record with summable stakes.
pub proof fn lemma_wf_val_stakes(c: Cache, stash: Seq<char>)
    requires
        wf(c),
        val_of(c, stash) is Some,
    ensures
        crate::score::stakes_ok(val_of(c, stash).unwrap()),
{
    lemma_assoc_s_indexes(c.validators@, stash);
}

/// A successful lookup returns the value at some index.
pub proof fn lemma_assoc_s_indexes<V: View>(s: Seq<(String, V)>, key: Seq<char>)
    requires
        assoc_s(s, key) is Some,
    ensures
        exists|i: int|
            0 <= i < s.len() && s[i].0@ == key && assoc_s(s, key) == Some(#[trigger] s[i].1@),
    decreases s.len(),
{
    if s.len() > 0 {
        if s[0].0@ == key {
            assert(assoc_s(s, key) == Some(s[0].1@));
        } else {
            lemma_assoc_s_indexes(s.drop_first(), key);
            let i = choose|i: int|
                0 <= i < s.drop_first().len() && s.drop_first()[i].0@ == key && assoc_s(
                    s.drop_first(),
                    key,
                ) == Some(#[trigger] s.drop_first()[i].1@);
            assert(s[i + 1].0@ == key && assoc_s(s, key) == Some(s[i + 1].1@));
        }
    }
}

/// A record read back from a well-formed cache (or the defaults) has
/// summable stakes.
pub proof fn lemma_wf_val_stakes_or_default(c: Cache, stash: Seq<char>)
    requires
        wf(c),
    ensures
        crate::score::stakes_ok(crate::board::rec_or_default(val_of(c, stash))),
{
    if val_of(c, stash) is Some {
        lemma_wf_val_stakes(c, stash);
    }
}

impl Cache {
    /// A cache with nothing in it.
    pub fn new() -> (c: Cache)
        ensures
            wf(c),
            c.network is None,
            c.active_era is None,
            c.info == (InfoRecord {
                syncing: false,
                syncing_started_at: 0,
                syncing_finished_at: 0,
                validators: 0,
                nominators: 0,
            }),
            c.stats@.len() == 0,
            c.eras@.len() == 0,
            c.validators@.len() == 0,
            c.eras_validators@.len() == 0,
            c.active_eras@.len() == 0,
            c.boards@.len() == 0,
            c.board_scores@.len() == 0,
            c.board_limits@.len() == 0,
    {
        Cache {
            network: None,
            info: InfoRecord {
                syncing: false,
                syncing_started_at: 0,
                syncing_finished_at: 0,
                validators: 0,
                nominators: 0,
            },
            stats: Vec::new(),
            active_era: None,
            eras: Vec::new(),
            validators: Vec::new(),
            eras_validators: Vec::new(),
            active_eras: Vec::new(),
            boards: Vec::new(),
            board_scores: Vec::new(),
            board_limits: Vec::new(),
        }
    }
}

/// Records the points a stash earned in an era: the era's entry in the
/// stash's active-eras list is bound to the points, and every other list is
/// untouched.
pub fn zadd_active_era(c: &mut Cache, stash: &String, era: u32, points: u32)
    requires
        wf(*old(c)),
    ensures
        wf(*final(c)),
        final(c).network == old(c).network,
        final(c).info == old(c).info,
        final(c).stats@ == old(c).stats@,
        final(c).active_era == old(c).active_era,
        final(c).eras@ == old(c).eras@,
        final(c).validators@ == old(c).validators@,
        final(c).eras_validators@ == old(c).eras_validators@,
        final(c).boards@ == old(c).boards@,
        final(c).board_scores@ == old(c).board_scores@,
        final(c).board_limits@ == old(c).board_limits@,
        forall|k: Seq<char>| #![auto]
            k != stash@ ==> aeras_of(*final(c), k) == aeras_of(*old(c), k),
        aeras_of(*final(c), stash@) is Some,
        forall|e2: u32| #![auto]
            aera_points(*final(c), stash@, e2) == (if e2 == era {
                Some(points)
            } else {
                aera_points(*old(c), stash@, e2)
            }),
{
    let mut i: usize = 0;
    while i < c.active_eras.len()
        invariant
            0 <= i <= c.active_eras@.len(),
            *c == *old(c),
            wf(*old(c)),
            forall|j: int| 0 <= j < i ==> c.active_eras@[j].0@ != stash@,
        decreases c.active_eras@.len() - i,
    {
        if c.active_eras[i].0 == *stash {
            let ghost olds = c.active_eras@;
            let mut pair = c.active_eras.remove(i);
            set_u(&mut pair.1, era, points);
            let ghost newpair = pair;
            c.active_eras.insert(i, pair);
            proof {
                assert(c.active_eras@ =~= olds.update(i as int, newpair));
                assert(newpair.0@ == stash@);
                crate::kv::lemma_assoc_s_skip(olds, i as int, stash@);
                assert(olds.skip(i as int)[0] == olds[i as int]);
                assert(assoc_s(olds, stash@) == Some(olds[i as int].1@));
                crate::kv::lemma_assoc_s_update(olds, i as int, newpair);
                assert(forall|j: int| #![auto]
                    0 <= j < c.active_eras@.len() ==> c.active_eras@[j].0@ == olds[j].0@);
                assert forall|a: int, b: int|
                    0 <= a < b < c.active_eras@.len() implies c.active_eras@[a].0@
                    != c.active_eras@[b].0@ by {
                    assert(olds[a].0@ != olds[b].0@);
                }
                assert forall|j: int|
                    0 <= j < c.active_eras@.len() implies distinct_u(
                    #[trigger] c.active_eras@[j].1@,
                ) by {
                    if j != i {
                        assert(c.active_eras@[j].1@ == olds[j].1@);
                    }
                }
            }
            return;
        }
        i += 1;
    }
    let ghost olds = c.active_eras@;
    let mut l: Vec<(u32, u32)> = Vec::new();
    l.push((era, points));
    c.active_eras.push((stash.clone(), l));
    proof {
        assert(c.active_eras@ =~= olds.push(c.active_eras@[olds.len() as int]));
        assert(c.active_eras@[olds.len() as int].0@ == stash@);
        crate::kv::lemma_assoc_s_skip(olds, olds.len() as int, stash@);
        assert(olds.skip(olds.len() as int) =~= Seq::<(String, Vec<(u32, u32)>)>::empty());
        crate::kv::lemma_assoc_s_push(olds, c.active_eras@[olds.len() as int]);
        assert forall|a: int, b: int|
            0 <= a < b < c.active_eras@.len() implies c.active_eras@[a].0@
            != c.active_eras@[b].0@ by {
            if b < olds.len() {
                assert(olds[a].0@ != olds[b].0@);
            } else {
                assert(olds[a].0@ != stash@);
            }
        }
        let nl = c.active_eras@[olds.len() as int].1@;
        assert(nl.len() == 1);
        assert(distinct_u(nl));
        assert forall|j: int|
            0 <= j < c.active_eras@.len() implies distinct_u(
            #[trigger] c.active_eras@[j].1@,
        ) by {
            if j < olds.len() {
                assert(c.active_eras@[j].1@ == olds[j].1@);
            }
        }
        assert(assoc_u(c.active_eras@[olds.len() as int].1@, era) == Some(points));
        assert forall|e2: u32| e2 != era implies assoc_u(nl, e2) == None::<u32> by {
            assert(nl[0].0 == era);
            assert(nl.drop_first() =~= Seq::<(u32, u32)>::empty());
            assert(assoc_u(nl.drop_first(), e2) == None::<u32>);
        }
    }
}

/// Raises a board generation counter by one (staying put at the top of the
/// range).
pub fn incr_stat(c: &mut Cache, key: &String)
    requires
        wf(*old(c)),
    ensures
        wf(*final(c)),
        final(c).network == old(c).network,
        final(c).info == old(c).info,
        final(c).active_era == old(c).active_era,
        final(c).eras@ == old(c).eras@,
        final(c).validators@ == old(c).validators@,
        final(c).eras_validators@ == old(c).eras_validators@,
        final(c).active_eras@ == old(c).active_eras@,
        final(c).boards@ == old(c).boards@,
        final(c).board_scores@ == old(c).board_scores@,
        final(c).board_limits@ == old(c).board_limits@,
        forall|k: Seq<char>| #![auto]
            k != key@ ==> stat_of(*final(c), k) == stat_of(*old(c), k),
        stat_of(*final(c), key@) == Some(
            match stat_of(*old(c), key@) {
                Some(v) => if v < u64::MAX {
                    (v + 1) as u64
                } else {
                    v
                },
                None => 1u64,
            },
        ),
{
    let cur: u64 = match get_s(&c.stats, key) {
        Some(v) => *v,
        None => 0,
    };
    let next = if cur < u64::MAX {
        cur + 1
    } else {
        cur
    };
    set_s(&mut c.stats, key, next);
}

} // verus!
