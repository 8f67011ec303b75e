//! The read-side query surface: eras, validators, ranks and boards.

use vstd::prelude::*;
use crate::cache::{board_score, era_of, scores_of, val_of, vera_of, wf, Cache};
use crate::fields::{field_flag, field_str, field_uint, get_field_bool, get_field_string,
    get_field_u128, get_field_u32, get_field_u64, get_field_u8, Fields};
use crate::board::{board_exists_now, board_members, members_of};
use crate::params::{board_name, get_board_name, Queries};
use crate::score::Interval;
use crate::types::ApiError;

verus! {

/// An era summary as served to clients.
pub struct EraResponse {
    pub era_index: u32,
    pub total_reward: u128,
    pub total_stake: u128,
    pub total_reward_points: u32,
    pub min_reward_points: u32,
    pub max_reward_points: u32,
    pub avg_reward_points: u32,
}

impl EraResponse {
    /// Reads an era summary out of a cache hash, absent or unparsable
    /// fields reading as zero.
    pub fn from(data: &Fields) -> (r: EraResponse)
        ensures
            r.era_index == field_uint(data@, "era_index"@, u32::MAX as int),
            r.total_reward == field_uint(data@, "total_reward"@, u128::MAX as int),
            r.total_stake == field_uint(data@, "total_stake"@, u128::MAX as int),
            r.total_reward_points == field_uint(data@, "total_reward_points"@, u32::MAX as int),
            r.min_reward_points == field_uint(data@, "min_reward_points"@, u32::MAX as int),
            r.max_reward_points == field_uint(data@, "max_reward_points"@, u32::MAX as int),
            r.avg_reward_points == field_uint(data@, "avg_reward_points"@, u32::MAX as int),
    {
        EraResponse {
            era_index: get_field_u32(data, &String::from_str("era_index")),
            total_reward: get_field_u128(data, &String::from_str("total_reward")),
            total_stake: get_field_u128(data, &String::from_str("total_stake")),
            total_reward_points: get_field_u32(data, &String::from_str("total_reward_points")),
            min_reward_points: get_field_u32(data, &String::from_str("min_reward_points")),
            max_reward_points: get_field_u32(data, &String::from_str("max_reward_points")),
            avg_reward_points: get_field_u32(data, &String::from_str("avg_reward_points")),
        }
    }
}

/// Chain metadata as served to clients.
pub struct ChainDetailsResponse {
    pub name: String,
    pub token_symbol: String,
    pub token_decimals: u8,
    pub ss58_format: u8,
    pub substrate_node_url: String,
}

impl ChainDetailsResponse {
    /// Reads the chain details out of a cache hash.
    pub fn from(data: &Fields) -> (r: ChainDetailsResponse)
        ensures
            r.name@ == field_str(data@, "name"@),
            r.token_symbol@ == field_str(data@, "token_symbol"@),
            r.token_decimals == field_uint(data@, "token_decimals"@, u8::MAX as int),
            r.ss58_format == field_uint(data@, "ss58_format"@, u8::MAX as int),
            r.substrate_node_url@ == field_str(data@, "substrate_node_url"@),
    {
        ChainDetailsResponse {
            name: get_field_string(data, &String::from_str("name")),
            token_symbol: get_field_string(data, &String::from_str("token_symbol")),
            token_decimals: get_field_u8(data, &String::from_str("token_decimals")),
            ss58_format: get_field_u8(data, &String::from_str("ss58_format")),
            substrate_node_url: get_field_string(data, &String::from_str("substrate_node_url")),
        }
    }
}

/// Synchronisation status as served to clients.
pub struct CacheInfoResponse {
    pub syncing: bool,
    pub syncing_started_at: u32,
    pub syncing_finished_at: u32,
    pub validators: u32,
    pub nominators: u32,
}

impl CacheInfoResponse {
    /// Reads the sync status out of a cache hash.
    pub fn from(data: &Fields) -> (r: CacheInfoResponse)
        ensures
            r.syncing == field_flag(data@, "syncing"@),
            r.syncing_started_at == field_uint(data@, "syncing_started_at"@, u32::MAX as int),
            r.syncing_finished_at == field_uint(data@, "syncing_finished_at"@, u32::MAX as int),
            r.validators == field_uint(data@, "validators"@, u32::MAX as int),
            r.nominators == field_uint(data@, "nominators"@, u32::MAX as int),
    {
        CacheInfoResponse {
            syncing: get_field_bool(data, &String::from_str("syncing")),
            syncing_started_at: get_field_u32(data, &String::from_str("syncing_started_at")),
            syncing_finished_at: get_field_u32(data, &String::from_str("syncing_finished_at")),
            validators: get_field_u32(data, &String::from_str("validators")),
            nominators: get_field_u32(data, &String::from_str("nominators")),
        }
    }
}

/// Service metadata: the package, the chain and the cache status.
pub struct InfoResponse {
    pub pkg_name: String,
    pub pkg_version: String,
    pub api_path: String,
    pub chain: ChainDetailsResponse,
    pub cache: CacheInfoResponse,
}

/// Builds the service metadata from the cached network record and sync
/// status; the package name and version come from the embedding binary.
pub fn get_info(c: &Cache, pkg_name: String, pkg_version: String) -> (r: InfoResponse)
    ensures
        r.pkg_name == pkg_name,
        r.pkg_version == pkg_version,
        r.api_path@ == "/api/v1"@,
        r.cache.syncing == c.info.syncing,
        r.cache.validators == c.info.validators,
        r.cache.nominators == c.info.nominators,
        r.cache.syncing_started_at == (if c.info.syncing_started_at > u32::MAX {
            u32::MAX as int
        } else {
            c.info.syncing_started_at as int
        }),
        r.cache.syncing_finished_at == (if c.info.syncing_finished_at > u32::MAX {
            u32::MAX as int
        } else {
            c.info.syncing_finished_at as int
        }),
        match c.network {
            Some(nr) => r.chain.name@ == nr.name@ && r.chain.token_symbol@ == nr.token_symbol@
                && r.chain.token_decimals == nr.token_decimals && r.chain.ss58_format
                == nr.ss58_format && r.chain.substrate_node_url@ == nr.substrate_node_url@,
            None => r.chain.name@ == Seq::<char>::empty() && r.chain.token_symbol@ == Seq::<
                char,
            >::empty() && r.chain.token_decimals == 0 && r.chain.ss58_format == 0
                && r.chain.substrate_node_url@ == Seq::<char>::empty(),
        },
{
    let chain = match &c.network {
        Some(nr) => ChainDetailsResponse {
            name: nr.name.clone(),
            token_symbol: nr.token_symbol.clone(),
            token_decimals: nr.token_decimals,
            ss58_format: nr.ss58_format,
            substrate_node_url: nr.substrate_node_url.clone(),
        },
        None => {
            let r = ChainDetailsResponse {
                name: String::new(),
                token_symbol: String::new(),
                token_decimals: 0,
                ss58_format: 0,
                substrate_node_url: String::new(),
            };
            proof {
                assert(r.name@ =~= Seq::<char>::empty());
                assert(r.token_symbol@ =~= Seq::<char>::empty());
                assert(r.substrate_node_url@ =~= Seq::<char>::empty());
            }
            r
        },
    };
    let syncing = c.info.syncing;
    let started = if c.info.syncing_started_at > u32::MAX as u64 {
        u32::MAX
    } else {
        c.info.syncing_started_at as u32
    };
    let finished = if c.info.syncing_finished_at > u32::MAX as u64 {
        u32::MAX
    } else {
        c.info.syncing_finished_at as u32
    };
    InfoResponse {
        pkg_name,
        pkg_version,
        api_path: String::from_str("/api/v1"),
        chain,
        cache: CacheInfoResponse {
            syncing,
            syncing_started_at: started,
            syncing_finished_at: finished,
            validators: c.info.validators,
            nominators: c.info.nominators,
        },
    }
}

/// Serves one era summary; an era the cache does not hold is not found.
pub fn get_era(c: &Cache, era_index: u32) -> (r: Result<EraResponse, ApiError>)
    ensures
        match r {
            Ok(resp) => era_of(*c, era_index) is Some && ({
                let rec = era_of(*c, era_index).unwrap();
                resp.era_index == era_index && resp.total_reward == rec.total_reward
                    && resp.total_stake == rec.total_stake && resp.total_reward_points
                    == rec.total_reward_points && resp.min_reward_points == rec.min_reward_points
                    && resp.max_reward_points == rec.max_reward_points && resp.avg_reward_points
                    == ((rec.avg_reward_points_scaled as int) / (crate::stats::SCALE as int))
                    % 0x1_0000_0000
            }),
            Err(e) => era_of(*c, era_index) is None && (match e {
                ApiError::NotFound(m) => m@ == "era index "@ + crate::num::dec_str(
                    era_index as int,
                ) + " not available"@,
                _ => false,
            }),
        },
{
    proof {
        reveal_strlit("era index ");
        reveal_strlit(" not available");
    }
    match crate::kv::get_u(&c.eras, era_index) {
        Some(rec) => {
            let avg_units = rec.avg_reward_points_scaled / crate::stats::SCALE;
            Ok(EraResponse {
                era_index,
                total_reward: rec.total_reward,
                total_stake: rec.total_stake,
                total_reward_points: rec.total_reward_points,
                min_reward_points: rec.min_reward_points,
                max_reward_points: rec.max_reward_points,
                avg_reward_points: (avg_units % 0x1_0000_0000) as u32,
            })
        },
        None => {
            let mut msg = String::from_str("era index ");
            let t = crate::num::u32_to_string(era_index);
            msg.append(t.as_str());
            msg.append(" not available");
            Err(ApiError::NotFound(msg))
        },
    }
}

/// A validator as served to clients; the fractional rates are fixed point
/// with nine decimal places.
pub struct Validator {
    pub stash: String,
    pub controller: String,
    pub name: String,
    pub own_stake: u128,
    pub nominators: u32,
    pub nominators_stake: u128,
    pub inclusion_rate: u64,
    pub avg_reward_points: u64,
    pub commission: u32,
    pub blocked: bool,
    pub active: bool,
    pub reward_staked: bool,
    pub judgements: u32,
    pub sub_accounts: u32,
}

impl Validator {
    /// Reads a validator out of a cache hash, absent or unparsable fields
    /// reading as their zero values.
    pub fn from(data: &Fields) -> (r: Validator)
        ensures
            r.stash@ == field_str(data@, "stash"@),
            r.controller@ == field_str(data@, "controller"@),
            r.name@ == field_str(data@, "name"@),
            r.own_stake == field_uint(data@, "own_stake"@, u128::MAX as int),
            r.nominators == field_uint(data@, "nominators"@, u32::MAX as int),
            r.nominators_stake == field_uint(data@, "nominators_stake"@, u128::MAX as int),
            r.inclusion_rate == field_uint(data@, "inclusion_rate"@, u64::MAX as int),
            r.avg_reward_points == field_uint(data@, "avg_reward_points"@, u64::MAX as int),
            r.commission == field_uint(data@, "commission"@, u32::MAX as int),
            r.blocked == field_flag(data@, "blocked"@),
            r.active == field_flag(data@, "active"@),
            r.reward_staked == field_flag(data@, "reward_staked"@),
            r.judgements == field_uint(data@, "judgements"@, u32::MAX as int),
            r.sub_accounts == field_uint(data@, "sub_accounts"@, u32::MAX as int),
    {
        Validator {
            stash: get_field_string(data, &String::from_str("stash")),
            controller: get_field_string(data, &String::from_str("controller")),
            name: get_field_string(data, &String::from_str("name")),
            own_stake: get_field_u128(data, &String::from_str("own_stake")),
            nominators: get_field_u32(data, &String::from_str("nominators")),
            nominators_stake: get_field_u128(data, &String::from_str("nominators_stake")),
            inclusion_rate: get_field_u64(data, &String::from_str("inclusion_rate")),
            avg_reward_points: get_field_u64(data, &String::from_str("avg_reward_points")),
            commission: get_field_u32(data, &String::from_str("commission")),
            blocked: get_field_bool(data, &String::from_str("blocked")),
            active: get_field_bool(data, &String::from_str("active")),
            reward_staked: get_field_bool(data, &String::from_str("reward_staked")),
            judgements: get_field_u32(data, &String::from_str("judgements")),
            sub_accounts: get_field_u32(data, &String::from_str("sub_accounts")),
        }
    }
}

/// Serves one validator; a stash the cache does not hold is not found, with
/// a message naming the address.
pub fn get_validator(c: &Cache, stash: &String) -> (r: Result<Validator, ApiError>)
    ensures
        match r {
            Ok(resp) => val_of(*c, stash@) is Some && ({
                let rec = val_of(*c, stash@).unwrap();
                resp.stash@ == stash@ && resp.controller@ == rec.controller
                    && resp.name@ == rec.name && resp.own_stake == rec.own_stake
                    && resp.nominators == rec.nominators && resp.nominators_stake
                    == rec.nominators_stake && resp.inclusion_rate == rec.inclusion_rate_scaled
                    && resp.avg_reward_points == rec.avg_reward_points_scaled && resp.commission
                    == rec.commission && resp.blocked == rec.blocked && resp.active == rec.active
                    && resp.reward_staked == rec.reward_staked && resp.judgements
                    == rec.judgements && resp.sub_accounts == rec.sub_accounts
            }),
            Err(e) => val_of(*c, stash@) is None && (match e {
                ApiError::NotFound(m) => m@ == "Validator account with address "@ + stash@
                    + " not found"@,
                _ => false,
            }),
        },
{
    match crate::kv::get_s(&c.validators, stash) {
        Some(rec) => Ok(
            Validator {
                stash: stash.clone(),
                controller: rec.controller.clone(),
                name: rec.name.clone(),
                own_stake: rec.own_stake,
                nominators: rec.nominators,
                nominators_stake: rec.nominators_stake,
                inclusion_rate: rec.inclusion_rate_scaled,
                avg_reward_points: rec.avg_reward_points_scaled,
                commission: rec.commission,
                blocked: rec.blocked,
                active: rec.active,
                reward_staked: rec.reward_staked,
                judgements: rec.judgements,
                sub_accounts: rec.sub_accounts,
            },
        ),
        None => {
            let mut msg = String::from_str("Validator account with address ");
            msg.append(stash.as_str());
            msg.append(" not found");
            Err(ApiError::NotFound(msg))
        },
    }
}

/// A validator's snapshot in one era, as served to clients.
pub struct ValidatorEra {
    pub era_index: u32,
    pub own_stake: u128,
    pub total_stake: u128,
    pub others_stake: u128,
    pub stakers: u32,
    pub others_stake_clipped: u128,
    pub stakers_clipped: u32,
    pub reward_points: u32,
    pub commission: u32,
    pub blocked: bool,
    pub active: bool,
}

impl ValidatorEra {
    /// Reads a per-era snapshot out of a cache hash.
    pub fn from(data: &Fields) -> (r: ValidatorEra)
        ensures
            r.era_index == field_uint(data@, "era_index"@, u32::MAX as int),
            r.own_stake == field_uint(data@, "own_stake"@, u128::MAX as int),
            r.total_stake == field_uint(data@, "total_stake"@, u128::MAX as int),
            r.others_stake == field_uint(data@, "others_stake"@, u128::MAX as int),
            r.stakers == field_uint(data@, "stakers"@, u32::MAX as int),
            r.others_stake_clipped == field_uint(data@, "others_stake_clipped"@, u128::MAX as int),
            r.stakers_clipped == field_uint(data@, "stakers_clipped"@, u32::MAX as int),
            r.reward_points == field_uint(data@, "reward_points"@, u32::MAX as int),
            r.commission == field_uint(data@, "commission"@, u32::MAX as int),
            r.blocked == field_flag(data@, "blocked"@),
            r.active == field_flag(data@, "active"@),
    {
        ValidatorEra {
            era_index: get_field_u32(data, &String::from_str("era_index")),
            own_stake: get_field_u128(data, &String::from_str("own_stake")),
            total_stake: get_field_u128(data, &String::from_str("total_stake")),
            others_stake: get_field_u128(data, &String::from_str("others_stake")),
            stakers: get_field_u32(data, &String::from_str("stakers")),
            others_stake_clipped: get_field_u128(data, &String::from_str("others_stake_clipped")),
            stakers_clipped: get_field_u32(data, &String::from_str("stakers_clipped")),
            reward_points: get_field_u32(data, &String::from_str("reward_points")),
            commission: get_field_u32(data, &String::from_str("commission")),
            blocked: get_field_bool(data, &String::from_str("blocked")),
            active: get_field_bool(data, &String::from_str("active")),
        }
    }
}

/// A validator's per-era history, most recent era first.
pub struct ValidatorEraResponse {
    pub stash: String,
    pub eras: Vec<ValidatorEra>,
}

/// The per-era snapshots of one stash, as a snapshot struct.
fn era_entry(era: u32, rec: &crate::types::ValidatorEraRecord) -> (r: ValidatorEra)
    ensures
        r.era_index == era,
        r.own_stake == rec.own_stake,
        r.total_stake == rec.total_stake,
        r.others_stake == rec.others_stake,
        r.stakers == rec.stakers,
        r.others_stake_clipped == rec.others_stake_clipped,
        r.stakers_clipped == rec.stakers_clipped,
        r.reward_points == rec.reward_points,
        r.commission == rec.commission,
        r.blocked == rec.blocked,
        r.active == rec.active,
{
    ValidatorEra {
        era_index: era,
        own_stake: rec.own_stake,
        total_stake: rec.total_stake,
        others_stake: rec.others_stake,
        stakers: rec.stakers,
        others_stake_clipped: rec.others_stake_clipped,
        stakers_clipped: rec.stakers_clipped,
        reward_points: rec.reward_points,
        commission: rec.commission,
        blocked: rec.blocked,
        active: rec.active,
    }
}

/// Serves a validator's per-era history: every cached snapshot of the
/// stash, ordered by era from most recent to oldest.
/// Whether an era appears among the served entries.
pub open spec fn era_listed(s: Seq<ValidatorEra>, e: u32) -> bool {
    exists|k: int| 0 <= k < s.len() && (#[trigger] s[k]).era_index == e
}

/// The served entry carries exactly the cached snapshot's fields.
pub open spec fn entry_matches(e: ValidatorEra, rec: crate::types::ValidatorEraRecord) -> bool {
    &&& e.own_stake == rec.own_stake
    &&& e.total_stake == rec.total_stake
    &&& e.others_stake == rec.others_stake
    &&& e.stakers == rec.stakers
    &&& e.others_stake_clipped == rec.others_stake_clipped
    &&& e.stakers_clipped == rec.stakers_clipped
    &&& e.reward_points == rec.reward_points
    &&& e.commission == rec.commission
    &&& e.blocked == rec.blocked
    &&& e.active == rec.active
}

/// A table entry guarantees the lookup answers.
proof fn lemma_assoc_es_some(
    b: Seq<((u32, String), crate::types::ValidatorEraRecord)>,
    e: u32,
    k: Seq<char>,
)
    requires
        exists|i: int| 0 <= i < b.len() && (#[trigger] b[i]).0.0 == e && b[i].0.1@ == k,
    ensures
        crate::kv::assoc_es(b, e, k) is Some,
    decreases b.len(),
{
    let i = choose|i: int| 0 <= i < b.len() && (#[trigger] b[i]).0.0 == e && b[i].0.1@ == k;
    if b[0].0.0 == e && b[0].0.1@ == k {
    } else {
        assert(b.drop_first()[i - 1].0.0 == e && b.drop_first()[i - 1].0.1@ == k);
        lemma_assoc_es_some(b.drop_first(), e, k);
    }
}

/// A successful per-era lookup comes from some table entry.
proof fn lemma_assoc_es_present(
    b: Seq<((u32, String), crate::types::ValidatorEraRecord)>,
    e: u32,
    k: Seq<char>,
)
    requires
        crate::kv::assoc_es(b, e, k) is Some,
    ensures
        exists|i: int| 0 <= i < b.len() && (#[trigger] b[i]).0.0 == e && b[i].0.1@ == k,
    decreases b.len(),
{
    if b.len() > 0 {
        if b[0].0.0 == e && b[0].0.1@ == k {
        } else {
            lemma_assoc_es_present(b.drop_first(), e, k);
            let i = choose|i: int|
                0 <= i < b.drop_first().len() && (#[trigger] b.drop_first()[i]).0.0 == e
                    && b.drop_first()[i].0.1@ == k;
            assert(b[i + 1].0.0 == e && b[i + 1].0.1@ == k);
        }
    }
}

pub fn get_validator_eras(c: &Cache, stash: &String) -> (r: ValidatorEraResponse)
    requires
        wf(*c),
    ensures
        r.stash@ == stash@,
        forall|i: int, j: int|
            0 <= i < j < r.eras@.len() ==> #[trigger] r.eras@[i].era_index >= #[trigger] r.eras@[j].era_index,
        forall|i: int, j: int|
            0 <= i < j < r.eras@.len() ==> #[trigger] r.eras@[i].era_index != #[trigger] r.eras@[j].era_index,
        forall|i: int| #![auto]
            0 <= i < r.eras@.len() ==> vera_of(*c, r.eras@[i].era_index, stash@) is Some
                && entry_matches(
                r.eras@[i],
                vera_of(*c, r.eras@[i].era_index, stash@).unwrap(),
            ),
        forall|e: u32| #![auto]
            vera_of(*c, e, stash@) is Some ==> era_listed(r.eras@, e),
{
    let ghost table = c.eras_validators@;
    let mut found: Vec<ValidatorEra> = Vec::new();
    let mut i: usize = 0;
    while i < c.eras_validators.len()
        invariant
            0 <= i <= c.eras_validators@.len(),
            wf(*c),
            table == c.eras_validators@,
            forall|j: int| #![auto]
                0 <= j < found@.len() ==> vera_of(*c, found@[j].era_index, stash@) is Some
                    && entry_matches(
                    found@[j],
                    vera_of(*c, found@[j].era_index, stash@).unwrap(),
                ),
            forall|j: int|
                0 <= j < found@.len() ==> exists|w: int|
                    0 <= w < i && (#[trigger] table[w]).0.0 == (#[trigger] found@[j]).era_index
                        && table[w].0.1@ == stash@,
            forall|j1: int, j2: int|
                0 <= j1 < j2 < found@.len() ==> #[trigger] found@[j1].era_index
                    != #[trigger] found@[j2].era_index,
            forall|w: int|
                0 <= w < i && (#[trigger] table[w]).0.1@ == stash@ ==> era_listed(
                    found@,
                    table[w].0.0,
                ),
        decreases c.eras_validators@.len() - i,
    {
        let ghost old_found = found@;
        if c.eras_validators[i].0.1 == *stash {
            let era = c.eras_validators[i].0.0;
            match crate::kv::get_es(&c.eras_validators, era, stash) {
                Some(rec) => {
                    let e = era_entry(era, rec);
                    proof {
                        // a second entry for the same era would break the
                        // table's distinct keys
                        if era_listed(old_found, era) {
                            let j = choose|k: int|
                                0 <= k < old_found.len() && (#[trigger] old_found[k]).era_index
                                    == era;
                            let w = choose|w: int|
                                0 <= w < i && (#[trigger] table[w]).0.0 == old_found[j].era_index
                                    && table[w].0.1@ == stash@;
                            assert(!(table[w].0.0 == table[i as int].0.0 && table[w].0.1@
                                == table[i as int].0.1@));
                            assert(false);
                        }
                    }
                    found.push(e);
                    proof {
                        assert(found@[found@.len() - 1].era_index == era);
                        assert(table[i as int].0.0 == era && table[i as int].0.1@ == stash@);
                        assert forall|w: int|
                            0 <= w < i + 1 && (#[trigger] table[w]).0.1@ == stash@
                            implies era_listed(found@, table[w].0.0) by {
                            if w < i {
                                assert(era_listed(old_found, table[w].0.0));
                                let k = choose|k: int|
                                    0 <= k < old_found.len() && (#[trigger] old_found[k]).era_index
                                        == table[w].0.0;
                                assert(found@[k].era_index == table[w].0.0);
                            } else {
                                assert(found@[found@.len() - 1].era_index == table[w].0.0);
                            }
                        }
                    }
                },
                None => {
                    proof {
                        assert(table[i as int].0.0 == era && table[i as int].0.1@ == stash@);
                        lemma_assoc_es_some(table, era, stash@);
                        assert(false);
                    }
                },
            }
        }
        i += 1;
    }
    proof {
        assert forall|e: u32| #![auto]
            vera_of(*c, e, stash@) is Some implies era_listed(found@, e) by {
            lemma_assoc_es_present(table, e, stash@);
            let w = choose|w: int|
                0 <= w < table.len() && (#[trigger] table[w]).0.0 == e && table[w].0.1@
                    == stash@;
        }
    }
    // order by era, most recent first
    let mut eras: Vec<ValidatorEra> = Vec::new();
    while found.len() > 0
        invariant
            wf(*c),
            forall|j: int| #![auto]
                0 <= j < eras@.len() ==> vera_of(*c, eras@[j].era_index, stash@) is Some
                    && entry_matches(
                    eras@[j],
                    vera_of(*c, eras@[j].era_index, stash@).unwrap(),
                ),
            forall|j: int| #![auto]
                0 <= j < found@.len() ==> vera_of(*c, found@[j].era_index, stash@) is Some
                    && entry_matches(
                    found@[j],
                    vera_of(*c, found@[j].era_index, stash@).unwrap(),
                ),
            forall|a: int, b: int|
                0 <= a < b < eras@.len() ==> #[trigger] eras@[a].era_index >= #[trigger] eras@[b].era_index,
            forall|a: int, b: int| #![auto]
                0 <= a < eras@.len() && 0 <= b < found@.len() ==> eras@[a].era_index
                    >= found@[b].era_index,
            forall|a: int, b: int|
                0 <= a < b < eras@.len() ==> #[trigger] eras@[a].era_index != #[trigger] eras@[b].era_index,
            forall|a: int, b: int| #![auto]
                0 <= a < eras@.len() && 0 <= b < found@.len() ==> eras@[a].era_index
                    != found@[b].era_index,
            forall|a: int, b: int|
                0 <= a < b < found@.len() ==> #[trigger] found@[a].era_index != #[trigger] found@[b].era_index,
            forall|e: u32| #![auto]
                vera_of(*c, e, stash@) is Some ==> era_listed(eras@, e) || era_listed(
                    found@,
                    e,
                ),
        decreases found@.len(),
    {
        let mut idx: usize = 0;
        let mut k: usize = 1;
        while k < found.len()
            invariant
                0 <= idx < k <= found@.len(),
                forall|j: int| #![auto]
                    0 <= j < k ==> found@[j].era_index <= found@[idx as int].era_index,
            decreases found@.len() - k,
        {
            if found[k].era_index > found[idx].era_index {
                idx = k;
            }
            k += 1;
        }
        let ghost old_found = found@;
        let ghost old_eras = eras@;
        let e = found.remove(idx);
        eras.push(e);
        proof {
            assert forall|e2: u32| #![auto]
                vera_of(*c, e2, stash@) is Some implies era_listed(eras@, e2) || era_listed(
                found@,
                e2,
            ) by {
                if era_listed(old_eras, e2) {
                    let j = choose|j: int|
                        0 <= j < old_eras.len() && (#[trigger] old_eras[j]).era_index == e2;
                    assert(eras@[j].era_index == e2);
                } else if era_listed(old_found, e2) {
                    let j = choose|j: int|
                        0 <= j < old_found.len() && (#[trigger] old_found[j]).era_index == e2;
                    if j == idx {
                        assert(eras@[eras@.len() - 1].era_index == e2);
                    } else if j < idx {
                        assert(found@[j].era_index == e2);
                    } else {
                        assert(found@[j - 1].era_index == e2);
                    }
                }
            }
        }
    }
    ValidatorEraResponse { stash: stash.clone(), eras }
}

/// Whether a member name appears among the answered addresses.
pub open spec fn listed(r: Seq<String>, m: Seq<char>) -> bool {
    exists|i: int| 0 <= i < r.len() && (#[trigger] r[i])@ == m
}

/// No addresses at all.
spec fn out_empty() -> Seq<String> {
    Seq::empty()
}

/// A member still accounted for: answered already, or waiting among the
/// candidates with its score.
spec fn covered(out: Seq<String>, cands: Seq<(String, u128)>, m: (Seq<char>, u128)) -> bool {
    listed(out, m.0) || (exists|j: int|
        0 <= j < cands.len() && (#[trigger] cands[j]).0@ == m.0 && cands[j].1 == m.1)
}

/// What a top-N answer on a board is: as many entries as the board allows
/// (at most `n`), each a distinct member carrying its cached score, in
/// falling score order, and no member outside the answer scoring above the
/// answer's last entry.
pub open spec fn is_top_of_board(
    c: Cache,
    era: u32,
    name: Seq<char>,
    n: u32,
    r: Seq<String>,
) -> bool {
    &&& r.len() == (if n as int <= members_of(c.boards@, era, name).len() {
        n as int
    } else {
        members_of(c.boards@, era, name).len() as int
    })
    &&& (forall|i: int| #![auto] 0 <= i < r.len() ==> board_score(c, era, name, r[i]@) is Some)
    &&& (forall|i: int, j: int| #![auto]
        0 <= i < j < r.len() ==> board_score(c, era, name, r[i]@).unwrap() >= board_score(
            c,
            era,
            name,
            r[j]@,
        ).unwrap())
    &&& (forall|i: int, j: int| #![auto] 0 <= i < j < r.len() ==> r[i]@ != r[j]@)
    &&& (forall|mi: int|
        0 <= mi < members_of(c.boards@, era, name).len() && r.len() > 0
            && (#[trigger] members_of(c.boards@, era, name)[mi]).1 > board_score(
            c,
            era,
            name,
            r[r.len() - 1]@,
        ).unwrap() ==> listed(r, members_of(c.boards@, era, name)[mi].0))
}

/// The members of a board ranked from the highest score down, cut to `n`
/// entries.
pub fn get_validators_stashes(c: &Cache, era: u32, name: &String, n: u32) -> (r: Vec<String>)
    requires
        wf(*c),
    ensures
        is_top_of_board(*c, era, name@, n, r@),
{
    let mut cands = board_members(&c.boards, era, name);
    let ghost msv = members_of(c.boards@, era, name@);
    proof {
        lemma_cands_from(c.boards@, era, name@);
        crate::board::lemma_members_assoc(c.boards@, era, name@);
        assert forall|mi: int|
            0 <= mi < msv.len() implies #[trigger] covered(out_empty(), cands@, msv[mi]) by {
            assert(cands@[mi].0@ == msv[mi].0 && cands@[mi].1 == msv[mi].1);
        }
    }
    let mut out: Vec<String> = Vec::new();
    proof {
        assert(out@ =~= out_empty());
    }
    let ghost mut out_scores: Seq<u128> = Seq::empty();
    while out.len() < (n as usize) && cands.len() > 0
        invariant
            wf(*c),
            out@.len() + cands@.len() >= msv.len() || out@.len() == n,
            out@.len() + cands@.len() <= msv.len(),
            out@.len() <= n,
            out_scores.len() == out@.len(),
            msv == members_of(c.boards@, era, name@),
            forall|j: int| #![auto]
                0 <= j < cands@.len() ==> board_score(*c, era, name@, cands@[j].0@) == Some(
                    cands@[j].1,
                ),
            forall|j: int| #![auto]
                0 <= j < out@.len() ==> board_score(*c, era, name@, out@[j]@) == Some(
                    out_scores[j],
                ),
            forall|a: int, b: int| 0 <= a < b < out@.len() ==> #[trigger] out_scores[a] >= #[trigger] out_scores[b],
            forall|a: int, b: int| #![auto]
                0 <= a < out@.len() && 0 <= b < cands@.len() ==> out_scores[a] >= cands@[b].1,
            forall|a: int, b: int| #![auto] 0 <= a < b < out@.len() ==> out@[a]@ != out@[b]@,
            forall|a: int, b: int| #![auto]
                0 <= a < out@.len() && 0 <= b < cands@.len() ==> out@[a]@ != cands@[b].0@,
            forall|a: int, b: int| #![auto]
                0 <= a < b < cands@.len() ==> cands@[a].0@ != cands@[b].0@,
            forall|mi: int| 0 <= mi < msv.len() ==> #[trigger] covered(out@, cands@, msv[mi]),
        decreases cands@.len(),
    {
        let mut idx: usize = 0;
        let mut k: usize = 1;
        while k < cands.len()
            invariant
                0 <= idx < k <= cands@.len(),
                forall|j: int| #![auto] 0 <= j < k ==> cands@[j].1 <= cands@[idx as int].1,
            decreases cands@.len() - k,
        {
            if cands[k].1 > cands[idx].1 {
                idx = k;
            }
            k += 1;
        }
        let ghost old_out = out@;
        let ghost old_cands = cands@;
        let (m, s) = cands.remove(idx);
        out.push(m);
        proof {
            out_scores = out_scores.push(s);
            assert forall|mi: int|
                0 <= mi < msv.len() implies #[trigger] covered(out@, cands@, msv[mi]) by {
                assert(covered(old_out, old_cands, msv[mi]));
                if listed(old_out, msv[mi].0) {
                    let i = choose|i: int|
                        0 <= i < old_out.len() && (#[trigger] old_out[i])@ == msv[mi].0;
                    assert(out@[i]@ == msv[mi].0);
                    assert(listed(out@, msv[mi].0));
                } else {
                    let j = choose|j: int|
                        0 <= j < old_cands.len() && (#[trigger] old_cands[j]).0@ == msv[mi].0
                            && old_cands[j].1 == msv[mi].1;
                    if j == idx {
                        assert(out@[out@.len() - 1]@ == msv[mi].0);
                        assert(listed(out@, msv[mi].0));
                    } else if j < idx {
                        assert(cands@[j].0@ == msv[mi].0 && cands@[j].1 == msv[mi].1);
                    } else {
                        assert(cands@[j - 1].0@ == msv[mi].0 && cands@[j - 1].1 == msv[mi].1);
                    }
                }
            }
        }
    }
    proof {
        assert forall|i: int| #![auto]
            0 <= i < out@.len() implies board_score(*c, era, name@, out@[i]@) is Some by {
            assert(board_score(*c, era, name@, out@[i]@) == Some(out_scores[i]));
        }
        assert forall|i: int, j: int| #![auto]
            0 <= i < j < out@.len() implies board_score(*c, era, name@, out@[i]@).unwrap()
            >= board_score(*c, era, name@, out@[j]@).unwrap() by {
            assert(board_score(*c, era, name@, out@[i]@) == Some(out_scores[i]));
            assert(board_score(*c, era, name@, out@[j]@) == Some(out_scores[j]));
        }
        assert forall|mi: int|
            0 <= mi < msv.len() && out@.len() > 0 && (#[trigger] msv[mi]).1 > board_score(
            *c,
            era,
            name@,
            out@[out@.len() - 1]@,
        ).unwrap() implies listed(out@, msv[mi].0) by {
            assert(covered(out@, cands@, msv[mi]));
            if !listed(out@, msv[mi].0) {
                // the member still sits among the candidates, so its score is
                // at most the answer's last score
                let j = choose|j: int|
                    0 <= j < cands@.len() && (#[trigger] cands@[j]).0@ == msv[mi].0 && cands@[j].1
                        == msv[mi].1;
                assert(out_scores[out@.len() - 1] >= cands@[j].1);
                assert(board_score(*c, era, name@, out@[out@.len() - 1]@) == Some(
                    out_scores[out@.len() - 1],
                ));
            }
        }
    }
    out
}

/// Collected members come with their scores on a well-formed table.
proof fn lemma_cands_from(b: Seq<((u32, String, String), u128)>, e: u32, n: Seq<char>)
    requires
        crate::kv::distinct_esm(b),
    ensures
        forall|j: int| #![auto]
            0 <= j < members_of(b, e, n).len() ==> crate::kv::assoc_esm(
                b,
                e,
                n,
                members_of(b, e, n)[j].0,
            ) == Some(members_of(b, e, n)[j].1),
{
    crate::board::lemma_members_assoc(b, e, n);
}

/// How a rank request ended.
pub enum Status {
    Ranked,
    NotReady,
    NotFound,
}

/// A validator's rank on a board, with its per-criterion scores.
pub struct ValidatorRankResponse {
    pub stash: String,
    pub rank: i64,
    pub scores: Vec<u64>,
    pub status: Status,
    pub status_msg: String,
}

/// How many members outscore the given score.
pub open spec fn count_higher(ms: Seq<(Seq<char>, u128)>, s: u128) -> int
    decreases ms.len(),
{
    if ms.len() == 0 {
        0
    } else {
        count_higher(ms.drop_last(), s) + (if ms.last().1 > s {
            1int
        } else {
            0int
        })
    }
}

/// Serves a validator's rank on a board: only board queries carry ranks;
/// an absent board or missing scores answer `NotReady`, a stash off the
/// board answers `NotFound`, and otherwise the rank counts the members
/// scoring strictly higher, plus one.
pub fn get_validator_rank(
    c: &Cache,
    stash: &String,
    q: &Queries,
    weights: &Vec<u32>,
    intervals: &Vec<Interval>,
) -> (r: Result<ValidatorRankResponse, ApiError>)
    requires
        wf(*c),
        c.boards@.len() < 0x7fff_ffff_ffff_ffff,
    ensures
        !(q is Board) ==> r is Err && (match r {
            Err(e) => e is BadRequest,
            _ => false,
        }),
        q is Board && c.active_era is None ==> r is Err && (match r {
            Err(e) => e is InternalServerError,
            _ => false,
        }),
        q is Board && c.active_era is Some ==> ({
            let era = c.active_era.unwrap();
            let name = board_name(weights@, Some(intervals@));
            match r {
                Ok(resp) => resp.stash@ == stash@ && (if !crate::cache::board_exists(
                    *c,
                    era,
                    name,
                ) {
                    resp.status is NotReady && resp.rank == 0 && resp.scores@.len() == 0
                        && resp.status_msg@ == "The rank for stash "@ + stash@
                        + " is not yet available. Wait a second and try again."@
                } else if board_score(*c, era, name, stash@) is None {
                    resp.status is NotFound && resp.rank == 0 && resp.scores@.len() == 0
                        && resp.status_msg@ == "The rank for stash "@ + stash@
                        + " is not found."@
                } else if scores_of(*c, era, name, stash@) is None {
                    resp.status is NotReady && resp.rank == 0 && resp.scores@.len() == 0
                        && resp.status_msg@ == "The scores for stash "@ + stash@
                        + " are not yet available. Wait a second and try again."@
                } else {
                    resp.status is Ranked && resp.rank == 1 + count_higher(
                        members_of(c.boards@, era, name),
                        board_score(*c, era, name, stash@).unwrap(),
                    ) && resp.scores@ == scores_of(*c, era, name, stash@).unwrap()
                        && resp.status_msg@ == Seq::<char>::empty()
                }),
                Err(_) => false,
            }
        }),
{
    match q {
        Queries::Board => {},
        _ => {
            return Err(
                ApiError::BadRequest(
                    String::from_str("Parameter q must be equal to one of the options: [Board]"),
                ),
            );
        },
    }
    let era = match c.active_era {
        Some(e) => e,
        None => {
            return Err(
                ApiError::InternalServerError(String::from_str("Active era not available")),
            );
        },
    };
    let name = get_board_name(weights, Some(intervals));
    if !board_exists_now(c, era, &name) {
        let mut msg = String::from_str("The rank for stash ");
        msg.append(stash.as_str());
        msg.append(" is not yet available. Wait a second and try again.");
        return Ok(
            ValidatorRankResponse {
                stash: stash.clone(),
                rank: 0,
                scores: Vec::new(),
                status: Status::NotReady,
                status_msg: msg,
            },
        );
    }
    let score = match crate::kv::get_esm(&c.boards, era, &name, stash) {
        Some(s) => *s,
        None => {
            let mut msg = String::from_str("The rank for stash ");
            msg.append(stash.as_str());
            msg.append(" is not found.");
            return Ok(
                ValidatorRankResponse {
                    stash: stash.clone(),
                    rank: 0,
                    scores: Vec::new(),
                    status: Status::NotFound,
                    status_msg: msg,
                },
            );
        },
    };
    let scores = match crate::kv::get_esm(&c.board_scores, era, &name, stash) {
        Some(sc) => sc.clone(),
        None => {
            let mut msg = String::from_str("The scores for stash ");
            msg.append(stash.as_str());
            msg.append(" are not yet available. Wait a second and try again.");
            return Ok(
                ValidatorRankResponse {
                    stash: stash.clone(),
                    rank: 0,
                    scores: Vec::new(),
                    status: Status::NotReady,
                    status_msg: msg,
                },
            );
        },
    };
    let ms = board_members(&c.boards, era, &name);
    let ghost msv = members_of(c.boards@, era, name@);
    proof {
        crate::board::lemma_members_len(c.boards@, era, name@);
    }
    let mut count: i64 = 0;
    let mut i: usize = 0;
    proof {
        assert(msv.take(0) =~= Seq::<(Seq<char>, u128)>::empty());
    }
    while i < ms.len()
        invariant
            0 <= i <= ms@.len(),
            ms@.len() == msv.len(),
            msv.len() < 0x7fff_ffff_ffff_ffff,
            msv == members_of(c.boards@, era, name@),
            forall|j: int| #![auto]
                0 <= j < ms@.len() ==> ms@[j].0@ == msv[j].0 && ms@[j].1 == msv[j].1,
            count == count_higher(msv.take(i as int), score),
            0 <= count <= i,
        decreases ms@.len() - i,
    {
        proof {
            assert(msv.take(i as int + 1).drop_last() =~= msv.take(i as int));
        }
        if ms[i].1 > score {
            count = count + 1;
        }
        i += 1;
    }
    proof {
        assert(msv.take(msv.len() as int) =~= msv);
    }
    let status_msg = String::new();
    proof {
        assert(status_msg@ =~= Seq::<char>::empty());
    }
    Ok(
        ValidatorRankResponse {
            stash: stash.clone(),
            rank: 1 + count,
            scores,
            status: Status::Ranked,
            status_msg,
        },
    )
}

/// The limits string of a board response.
pub struct MetaResponse {
    pub limits: String,
}

impl Default for MetaResponse {
    fn default() -> (r: MetaResponse)
        ensures
            r.limits@ == Seq::<char>::empty(),
    {
        let limits = String::new();
        proof {
            assert(limits@ =~= Seq::<char>::empty());
        }
        MetaResponse { limits }
    }
}

/// A list of validator addresses and board metadata.
pub struct ValidatorsResponse {
    pub addresses: Vec<String>,
    pub meta: MetaResponse,
}

/// Reads the cached limits of the unfiltered board; absent limits are not
/// yet available.
pub fn get_board_limits(c: &Cache, era: u32, weights: &Vec<u32>) -> (r: Result<
    crate::score::BoardLimits,
    ApiError,
>)
    ensures
        match r {
            Ok(l) => crate::cache::limits_of(
                *c,
                era,
                board_name(weights@, None::<Seq<Interval>>),
            ) == Some(l),
            Err(e) => crate::cache::limits_of(
                *c,
                era,
                board_name(weights@, None::<Seq<Interval>>),
            ) is None && (match e {
                ApiError::NotFound(m) => m@
                    == "Limits not yet available for the leaderboard. Wait a second and try again."@,
                _ => false,
            }),
        },
{
    let name = get_board_name(weights, None);
    match crate::kv::get_es(&c.board_limits, era, &name) {
        Some(l) => Ok(*l),
        None => Err(
            ApiError::NotFound(
                String::from_str(
                    "Limits not yet available for the leaderboard. Wait a second and try again.",
                ),
            ),
        ),
    }
}

/// Raises the generation counter of a board key.
pub fn increase_board_stats(c: &mut Cache, era: u32, name: &String)
    requires
        wf(*old(c)),
    ensures
        wf(*final(c)),
        final(c).network == old(c).network,
        final(c).info == old(c).info,
        final(c).active_era == old(c).active_era,
        final(c).eras@ == old(c).eras@,
        final(c).validators@ == old(c).validators@,
        final(c).eras_validators@ == old(c).eras_validators@,
        final(c).active_eras@ == old(c).active_eras@,
        final(c).boards@ == old(c).boards@,
        final(c).board_scores@ == old(c).board_scores@,
        final(c).board_limits@ == old(c).board_limits@,
        forall|k: Seq<char>| #![auto]
            k != crate::keys::key_str(crate::keys::Key::BoardAtEra(era, *name))
                ==> crate::cache::stat_of(*final(c), k) == crate::cache::stat_of(*old(c), k),
        crate::cache::stat_of(
            *final(c),
            crate::keys::key_str(crate::keys::Key::BoardAtEra(era, *name)),
        ) == Some(
            match crate::cache::stat_of(
                *old(c),
                crate::keys::key_str(crate::keys::Key::BoardAtEra(era, *name)),
            ) {
                Some(v) => if v < u64::MAX {
                    (v + 1) as u64
                } else {
                    v
                },
                None => 1u64,
            },
        ),
{
    let key = crate::keys::Key::BoardAtEra(era, name.clone()).to_key_string();
    proof {
        assert(key@ == crate::keys::key_str(crate::keys::Key::BoardAtEra(era, *name)));
    }
    crate::cache::incr_stat(c, &key);
}

/// Serves the era's active validators, best placed first.
pub fn get_active_validators(c: &Cache, era: u32, n: u32) -> (r: ValidatorsResponse)
    requires
        wf(*c),
    ensures
        r.meta.limits@ == Seq::<char>::empty(),
        is_top_of_board(*c, era, "active:val"@, n, r.addresses@),
{
    let name = String::from_str("active:val");
    ValidatorsResponse {
        addresses: get_validators_stashes(c, era, &name, n),
        meta: MetaResponse::default(),
    }
}

/// Serves the era's full validator list.
pub fn get_all_validators(c: &Cache, era: u32, n: u32) -> (r: ValidatorsResponse)
    requires
        wf(*c),
    ensures
        r.meta.limits@ == Seq::<char>::empty(),
        is_top_of_board(*c, era, "all:val"@, n, r.addresses@),
{
    let name = String::from_str("all:val");
    ValidatorsResponse {
        addresses: get_validators_stashes(c, era, &name, n),
        meta: MetaResponse::default(),
    }
}

/// The whole outcome of a board query against the caches before (`c0`) and
/// after (`c1`): a refusal while syncing leaves the cache untouched;
/// otherwise the boards are (re)generated, the query counted under the
/// board's key, and the answer carries the unfiltered board's cached limits
/// with the top `n` of the filtered board — or the limits-missing refusal.
pub open spec fn board_query_outcome(
    c0: Cache,
    c1: Cache,
    era: u32,
    w: Seq<u32>,
    iv: Seq<Interval>,
    n: u32,
    r: Result<ValidatorsResponse, ApiError>,
) -> bool {
    let uname = board_name(w, None::<Seq<Interval>>);
    let fname = board_name(w, Some(iv));
    let skey = crate::keys::board_key_str(era, fname);
    &&& (c0.info.syncing && !(crate::cache::board_exists(c0, era, uname)
        && crate::cache::board_exists(c0, era, fname)) ==> (match r {
        Err(ApiError::NotFound(m)) => m@
            == "The system is currently syncing. Usually doesn't take long 5 - 10min. Please just wait a few minutes before you try again. Thank you."@,
        _ => false,
    }) && c1 == c0)
    &&& ((!c0.info.syncing || (crate::cache::board_exists(c0, era, uname)
        && crate::cache::board_exists(c0, era, fname))) ==> ({
        &&& (forall|k: Seq<char>| #![auto]
            k != skey ==> crate::cache::stat_of(c1, k) == crate::cache::stat_of(c0, k))
        &&& crate::cache::stat_of(c1, skey) == Some(
            match crate::cache::stat_of(c0, skey) {
                Some(v) => if v < u64::MAX {
                    (v + 1) as u64
                } else {
                    v
                },
                None => 1u64,
            },
        )
        &&& (!crate::cache::board_exists(c0, era, uname) ==> crate::cache::limits_of(
            c1,
            era,
            uname,
        ) == Some(crate::board::derived_limits(c0.boards@)))
        &&& (crate::cache::board_exists(c0, era, uname) ==> crate::cache::limits_of(
            c1,
            era,
            uname,
        ) == crate::cache::limits_of(c0, era, uname))
        &&& (match r {
            Ok(resp) => crate::cache::limits_of(c1, era, uname) is Some && resp.meta.limits@
                == crate::params::limits_str(crate::cache::limits_of(c1, era, uname).unwrap())
                && is_top_of_board(c1, era, fname, n, resp.addresses@),
            Err(e) => crate::cache::limits_of(c1, era, uname) is None && (match e {
                ApiError::NotFound(m) => m@
                    == "Limits not yet available for the leaderboard. Wait a second and try again."@,
                _ => false,
            }),
        })
    }))
}

/// Serves a board query: generates the unfiltered and filtered boards when
/// the cache allows it, counts the query, and answers the top `n` addresses
/// with the unfiltered limits as metadata.
#[verifier::rlimit(100)]
#[verifier::spinoff_prover]
pub fn get_board_validators(
    c: &mut Cache,
    era: u32,
    weights: &Vec<u32>,
    intervals: &Vec<Interval>,
    n: u32,
) -> (r: Result<ValidatorsResponse, ApiError>)
    requires
        wf(*old(c)),
        crate::score::weights_ok(weights@),
    ensures
        wf(*final(c)),
        final(c).network == old(c).network,
        final(c).info == old(c).info,
        final(c).active_era == old(c).active_era,
        final(c).eras@ == old(c).eras@,
        final(c).validators@ == old(c).validators@,
        final(c).eras_validators@ == old(c).eras_validators@,
        final(c).active_eras@ == old(c).active_eras@,
        board_query_outcome(*old(c), *final(c), era, weights@, intervals@, n, r),
{
    let ghost uname = board_name(weights@, None::<Seq<Interval>>);
    let ghost fname = board_name(weights@, Some(intervals@));
    match crate::board::generate_board_scores(c, era, weights) {
        Ok(()) => {},
        Err(e) => {
            proof {
                // the unfiltered refusal happens only while syncing with the
                // board absent
                if crate::cache::board_exists(*old(c), era, uname) || !old(c).info.syncing {
                    assert(false);
                }
            }
            return Err(e);
        },
    }
    let ghost c1 = *c;
    match crate::board::generate_board_filtered_by_intervals(c, era, weights, intervals) {
        Ok(()) => {},
        Err(e) => {
            proof {
                // the filtered refusal happens only while syncing, with the
                // unfiltered board cached and the filtered one absent
                if !old(c).info.syncing {
                    assert(false);
                }
                assert(c1 == *old(c));
                if crate::cache::board_exists(*old(c), era, fname) {
                    assert(false);
                }
                assert(*c == *old(c));
            }
            return Err(e);
        },
    }
    let ghost c2 = *c;
    let name = get_board_name(weights, Some(intervals));
    increase_board_stats(c, era, &name);
    let ghost c3 = *c;
    proof {
        let skey = crate::keys::board_key_str(era, fname);
        assert(crate::keys::key_str(crate::keys::Key::BoardAtEra(era, name)) == skey);
        assert(c1.stats@ == old(c).stats@ && c2.stats@ == old(c).stats@);
        assert(c3.board_limits@ == c2.board_limits@);
        assert(c2.board_limits@ == c1.board_limits@);
        assert forall|k: Seq<char>| #![auto]
            k != skey implies crate::cache::stat_of(c3, k) == crate::cache::stat_of(
            *old(c),
            k,
        ) by {
            assert(crate::cache::stat_of(c3, k) == crate::cache::stat_of(c2, k));
            assert(crate::cache::stat_of(c2, k) == crate::cache::stat_of(*old(c), k));
        }
        assert(crate::cache::stat_of(c2, skey) == crate::cache::stat_of(*old(c), skey));
        assert(crate::cache::stat_of(c3, skey) == Some(
            match crate::cache::stat_of(*old(c), skey) {
                Some(v) => if v < u64::MAX {
                    (v + 1) as u64
                } else {
                    v
                },
                None => 1u64,
            },
        ));
        // the cached limits of the unfiltered board survive the later steps
        if crate::cache::board_exists(*old(c), era, uname) {
            assert(c1 == *old(c));
            assert(crate::cache::limits_of(c3, era, uname) == crate::cache::limits_of(
                *old(c),
                era,
                uname,
            ));
        } else {
            assert(!old(c).info.syncing);
            assert(crate::cache::limits_of(c1, era, uname) == Some(
                crate::board::derived_limits(old(c).boards@),
            ));
            assert(crate::cache::limits_of(c3, era, uname) == crate::cache::limits_of(
                c1,
                era,
                uname,
            ));
        }
    }
    let limits = match get_board_limits(c, era, weights) {
        Ok(l) => l,
        Err(e) => {
            return Err(e);
        },
    };
    let addresses = get_validators_stashes(c, era, &name, n);
    Ok(
        ValidatorsResponse {
            addresses,
            meta: MetaResponse { limits: crate::params::limits_string(&limits) },
        },
    )
}

/// Dispatches a validators query: the active set, the full list, or a
/// generated board; anything else is a bad request.
pub fn get_validators(
    c: &mut Cache,
    q: &Queries,
    weights: &Vec<u32>,
    intervals: &Vec<Interval>,
    n: u32,
) -> (r: Result<ValidatorsResponse, ApiError>)
    requires
        wf(*old(c)),
        crate::score::weights_ok(weights@),
    ensures
        wf(*final(c)),
        final(c).network == old(c).network,
        final(c).info == old(c).info,
        final(c).active_era == old(c).active_era,
        final(c).eras@ == old(c).eras@,
        final(c).validators@ == old(c).validators@,
        final(c).eras_validators@ == old(c).eras_validators@,
        final(c).active_eras@ == old(c).active_eras@,
        q is Other ==> r is Err && (match r {
            Err(e) => e is BadRequest,
            _ => false,
        }) && *final(c) == *old(c),
        old(c).active_era is None && !(q is Other) ==> r is Err && (match r {
            Err(e) => e is InternalServerError,
            _ => false,
        }) && *final(c) == *old(c),
        q is Active && old(c).active_era is Some ==> *final(c) == *old(c) && (match r {
            Ok(resp) => is_top_of_board(
                *old(c),
                old(c).active_era.unwrap(),
                "active:val"@,
                n,
                resp.addresses@,
            ) && resp.meta.limits@ == Seq::<char>::empty(),
            Err(_) => false,
        }),
        q is All && old(c).active_era is Some ==> *final(c) == *old(c) && (match r {
            Ok(resp) => is_top_of_board(
                *old(c),
                old(c).active_era.unwrap(),
                "all:val"@,
                n,
                resp.addresses@,
            ) && resp.meta.limits@ == Seq::<char>::empty(),
            Err(_) => false,
        }),
        q is Board && old(c).active_era is Some ==> board_query_outcome(
            *old(c),
            *final(c),
            old(c).active_era.unwrap(),
            weights@,
            intervals@,
            n,
            r,
        ),
{
    let era = match c.active_era {
        Some(e) => e,
        None => {
            match q {
                Queries::Other => {
                    return Err(bad_query_message(q));
                },
                _ => {
                    return Err(
                        ApiError::InternalServerError(
                            String::from_str("Active era not available"),
                        ),
                    );
                },
            }
        },
    };
    match q {
        Queries::Active => Ok(get_active_validators(c, era, n)),
        Queries::All => Ok(get_all_validators(c, era, n)),
        Queries::Board => get_board_validators(c, era, weights, intervals, n),
        Queries::Other => Err(bad_query_message(q)),
    }
}

/// The refusal for an unsupported query kind.
fn bad_query_message(q: &Queries) -> (r: ApiError)
    ensures
        r is BadRequest,
{
    let mut msg = String::from_str("Parameter q=");
    let qs = crate::params::queries_string(q);
    msg.append(qs.as_str());
    msg.append(" must be equal to one of the options: [Active, All, Board]");
    ApiError::BadRequest(msg)
}

} // verus!
