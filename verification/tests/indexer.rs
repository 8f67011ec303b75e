use turboflakes::api::{get_era, get_validator, get_validator_eras};
use turboflakes::cache::Cache;
use turboflakes::identity::{
    get_identity, parse_display_name, parse_identity_data, IdentityData, IdentityInput,
    IdentityRegistration, Judgement, ParentIdentity,
};
use turboflakes::indexer::{
    active_validators, calculate_avg_reward_points, calculate_inclusion_rate, eras_history,
    eras_reward_points, history, nominators, on_era_paid, validators, EraInput, EraStashInput,
    NominatorInput, ValidatorInput,
};
use turboflakes::types::NetworkRecord;

const SCALE: u64 = 1_000_000_000;

fn no_identity() -> IdentityInput {
    IdentityInput { own: None, parent: None }
}

fn vinput(stash: &str, commission: u32, own: u128) -> ValidatorInput {
    ValidatorInput {
        stash: String::from(stash),
        commission,
        blocked: false,
        controller: Some(format!("{}-controller", stash)),
        ledger_active: Some(own),
        payee_staked: true,
        identity: no_identity(),
    }
}

fn estash(stash: &str, points: u32) -> EraStashInput {
    EraStashInput {
        stash: String::from(stash),
        points,
        commission: 0,
        blocked: false,
        exposure_total: 100,
        exposure_own: 40,
        exposure_others: vec![30, 30],
        clipped_others: vec![30],
    }
}

fn era_input(points: Vec<(&str, u32)>) -> EraInput {
    EraInput {
        reward: Some(1_000),
        total_stake: 5_000,
        points_total: points.iter().map(|p| p.1).sum(),
        individual: points.into_iter().map(|(s, p)| estash(s, p)).collect(),
    }
}

fn network() -> NetworkRecord {
    NetworkRecord {
        name: String::from("Kusama"),
        token_symbol: String::from("KSM"),
        token_decimals: 12,
        ss58_format: 2,
        substrate_node_url: String::from("ws://localhost:9944"),
    }
}

#[test]
fn backfill_syncs_the_window_and_clears_the_flag() {
    let mut c = Cache::new();
    let eras = vec![era_input(vec![("v1", 10)]), era_input(vec![("v1", 20)])];
    let vals = vec![vinput("v1", 0, 7)];
    let noms: Vec<NominatorInput> = vec![];
    let session = vec![String::from("v1")];
    history(&mut c, network(), Some(100), 2, &eras, &vals, &noms, &session, 77).unwrap();
    assert!(!c.info.syncing);
    assert_eq!(c.info.syncing_started_at, 77);
    assert_eq!(c.info.syncing_finished_at, 77);
    assert_eq!(c.active_era, Some(100));
    assert_eq!(c.info.validators, 1);
    assert!(get_era(&c, 98).is_ok());
    assert!(get_era(&c, 99).is_ok());
    // the stash landed on the era's `all` board and is marked active
    let v = get_validator(&c, &String::from("v1")).unwrap();
    assert!(v.active);
    // era 98 and 99 carry its points, so the inclusion rate over the two-era
    // window is 1 and the average is 15
    assert_eq!(v.inclusion_rate, SCALE);
    assert_eq!(v.avg_reward_points, 15 * SCALE);
}

#[test]
fn era_paid_resyncs_once_and_skips_while_syncing() {
    let mut c = Cache::new();
    let eras = vec![era_input(vec![("v1", 10)]), era_input(vec![("v1", 20)])];
    let vals = vec![vinput("v1", 0, 7)];
    let noms: Vec<NominatorInput> = vec![];
    let session = vec![String::from("v1")];
    history(&mut c, network(), Some(100), 2, &eras, &vals, &noms, &session, 77).unwrap();
    let paid = era_input(vec![("v1", 40)]);
    let acted = on_era_paid(&mut c, 100, Some(101), 2, &paid, &vals, &noms, &session, 99)
        .unwrap();
    assert!(acted);
    assert!(!c.info.syncing);
    let e = get_era(&c, 100).unwrap();
    assert_eq!(e.total_reward_points, 40);
    // while a resync runs the event is skipped untouched
    c.info.syncing = true;
    let skipped = on_era_paid(&mut c, 101, Some(102), 2, &paid, &vals, &noms, &session, 100)
        .unwrap();
    assert!(!skipped);
}

#[test]
fn replaying_a_synced_era_changes_nothing() {
    let mut c = Cache::new();
    let first = era_input(vec![("v1", 10)]);
    eras_history(&mut c, 42, Some(true), &first, 7);
    let before = get_era(&c, 42).unwrap();
    // a later replay without force carries different chain data: it is
    // skipped because the era is already stamped
    let second = era_input(vec![("v1", 999)]);
    eras_history(&mut c, 42, None, &second, 8);
    let after = get_era(&c, 42).unwrap();
    assert_eq!(before.total_reward_points, after.total_reward_points);
    assert_eq!(after.total_reward_points, 10);
}

#[test]
fn validators_twice_is_byte_identical() {
    let mut c = Cache::new();
    let vals = vec![vinput("v1", 123, 7), vinput("v2", 456, 0)];
    validators(&mut c, &vals, 100, 2);
    let first: Vec<(String, String)> = c
        .validators
        .iter()
        .map(|(s, r)| (s.clone(), format!("{}|{}|{}|{}", r.commission, r.own_stake, r.nominators, r.nominators_stake)))
        .collect();
    let boards_first = c.boards.clone();
    validators(&mut c, &vals, 100, 2);
    let second: Vec<(String, String)> = c
        .validators
        .iter()
        .map(|(s, r)| (s.clone(), format!("{}|{}|{}|{}", r.commission, r.own_stake, r.nominators, r.nominators_stake)))
        .collect();
    assert_eq!(first, second);
    assert_eq!(boards_first.len(), c.boards.len());
    for (k, v) in boards_first.iter() {
        assert!(c.boards.iter().any(|(k2, v2)| k2 == k && v2 == v));
    }
}

#[test]
fn nominators_accumulate_counts_and_stakes() {
    let mut c = Cache::new();
    let vals = vec![vinput("target", 0, 5)];
    validators(&mut c, &vals, 100, 2);
    let noms = vec![
        NominatorInput {
            stash: String::from("n1"),
            controller: Some(String::from("n1-controller")),
            ledger_active: Some(10),
            targets: vec![String::from("target"), String::from("ghost")],
        },
        NominatorInput {
            stash: String::from("n2"),
            controller: Some(String::from("n2-controller")),
            ledger_active: Some(20),
            targets: vec![String::from("target")],
        },
    ];
    nominators(&mut c, &noms);
    assert_eq!(c.info.nominators, 2);
    let v = get_validator(&c, &String::from("target")).unwrap();
    assert_eq!(v.nominators, 2);
    assert_eq!(v.nominators_stake, 30);
    // the total-stake board carries own + nominated stake
    let total_board = String::from("total:stake:val");
    let members = turboflakes::board::board_members(&c.boards, 0, &total_board);
    assert_eq!(members.len(), 1);
    assert_eq!(members[0].0, "target");
    assert_eq!(members[0].1, 35);
}

#[test]
fn era_points_summary_statistics() {
    let mut c = Cache::new();
    let individual = vec![estash("a", 10), estash("b", 20), estash("c", 30)];
    eras_reward_points(&mut c, 5, 60, &individual);
    let e = get_era(&c, 5).unwrap();
    assert_eq!(e.total_reward_points, 60);
    assert_eq!(e.min_reward_points, 10);
    assert_eq!(e.max_reward_points, 30);
    // per-era snapshots exist for every stash and carry the exposures
    let eras = get_validator_eras(&c, &String::from("b"));
    assert_eq!(eras.eras.len(), 1);
    assert_eq!(eras.eras[0].era_index, 5);
    assert_eq!(eras.eras[0].reward_points, 20);
    assert_eq!(eras.eras[0].others_stake, 60);
    assert_eq!(eras.eras[0].stakers, 2);
    assert_eq!(eras.eras[0].others_stake_clipped, 30);
    assert_eq!(eras.eras[0].stakers_clipped, 1);
    // the era landed in each stash's active-era list
    assert!(turboflakes::kv::get_s(&c.active_eras, &String::from("a")).is_some());
    // a second era lists both snapshots, most recent first, exactly once each
    let individual6 = vec![estash("b", 7)];
    eras_reward_points(&mut c, 6, 7, &individual6);
    let eras = get_validator_eras(&c, &String::from("b"));
    assert_eq!(eras.eras.len(), 2);
    assert_eq!(eras.eras[0].era_index, 6);
    assert_eq!(eras.eras[1].era_index, 5);
    assert_eq!(eras.eras[0].reward_points, 7);
}

#[test]
fn inclusion_rate_window_arithmetic() {
    let ae: Vec<(String, Vec<(u32, u32)>)> = vec![(
        String::from("v1"),
        vec![(98, 10), (99, 20)],
    )];
    let v1 = String::from("v1");
    assert_eq!(calculate_inclusion_rate(&ae, &v1, 98, 100), SCALE);
    assert_eq!(calculate_inclusion_rate(&ae, &v1, 96, 100), SCALE / 2);
    // no active eras in the window, and an empty window, both read as zero
    assert_eq!(calculate_inclusion_rate(&ae, &v1, 10, 20), 0);
    assert_eq!(calculate_inclusion_rate(&ae, &v1, 98, 98), 0);
    let nobody = String::from("nobody");
    assert_eq!(calculate_inclusion_rate(&ae, &nobody, 98, 100), 0);
    assert_eq!(calculate_avg_reward_points(&ae, &v1, 98, 100), 15 * SCALE);
    assert_eq!(calculate_avg_reward_points(&ae, &v1, 10, 20), 0);
}

#[test]
fn active_pass_marks_and_boards() {
    let mut c = Cache::new();
    let vals = vec![vinput("v1", 0, 7)];
    validators(&mut c, &vals, 100, 2);
    let v = get_validator(&c, &String::from("v1")).unwrap();
    assert!(!v.active);
    active_validators(&mut c, &vec![String::from("v1")], 100);
    let v = get_validator(&c, &String::from("v1")).unwrap();
    assert!(v.active);
    let active_board = String::from("active:val");
    let members = turboflakes::board::board_members(&c.boards, 100, &active_board);
    assert_eq!(members.len(), 1);
}

#[test]
fn identity_names_resolve() {
    assert_eq!(
        parse_identity_data(IdentityData::Raw(b"Turbo".to_vec())),
        "Turbo"
    );
    // control characters are stripped, other encodings show as ???
    assert_eq!(
        parse_display_name(b"Tur\x00bo".to_vec()),
        "Turbo"
    );
    assert_eq!(parse_display_name(vec![0xff, 0xfe]), "");
    assert_eq!(
        parse_identity_data(IdentityData::BlakeTwo256(vec![0u8; 32])),
        "???"
    );
    let parent = IdentityInput {
        own: None,
        parent: Some(ParentIdentity {
            stash: String::from("parent-stash"),
            sub_name: IdentityData::Raw(b"kusama".to_vec()),
            registration: Some(IdentityRegistration {
                display: IdentityData::Raw(b"Parent".to_vec()),
                judgements: vec![Judgement::Reasonable, Judgement::KnownGood, Judgement::OutOfDate],
                sub_accounts: 4,
            }),
        }),
    };
    let fields = get_identity(&parent);
    assert_eq!(fields.name, "Parent/kusama");
    assert_eq!(fields.judgements, 2);
    assert_eq!(fields.sub_accounts, 4);
}
