use turboflakes::api::{
    get_validator_rank, get_validators, get_validators_stashes, Status,
};
use turboflakes::board::{board_exists_now, generate_board_scores};
use turboflakes::cache::Cache;
use turboflakes::kv::{set_esm, set_s};
use turboflakes::params::{default_intervals, parse_weights, Queries};
use turboflakes::score::calculate_scores;
use turboflakes::score::{BoardLimits, Interval};
use turboflakes::types::{default_validator_record, ApiError, ValidatorRecord};

const SCALE: u64 = 1_000_000_000;

fn validator(incl: u64, commission: u32, blocked: bool) -> ValidatorRecord {
    let mut v = default_validator_record(false);
    v.inclusion_rate_scaled = incl;
    v.commission = commission;
    v.blocked = blocked;
    v
}

fn seed_board(c: &mut Cache, era: u32) {
    // three validators on the `all` board with falling inclusion rates and
    // rising commissions; everything else zeroed
    let all = String::from("all:val");
    for (stash, incl, com) in [
        ("stash1", SCALE, 0u32),
        ("stash2", SCALE / 2, 500_000_000),
        ("stash3", 0, 1_000_000_000),
    ] {
        let s = String::from(stash);
        set_s(&mut c.validators, &s, validator(incl, com, false));
        set_esm(&mut c.boards, era, &all, &s, 0u128);
    }
}

#[test]
fn weighted_board_orders_by_score() {
    let mut c = Cache::new();
    c.active_era = Some(100);
    seed_board(&mut c, 100);
    let w = parse_weights("5,5,5,5,5,5,5,5,5,5").unwrap();
    let i = default_intervals();
    let resp = get_validators(&mut c, &Queries::Board, &w, &i, 3).unwrap();
    assert_eq!(resp.addresses, vec!["stash1", "stash2", "stash3"]);

    // the member scores carry the two non-degenerate criteria: inclusion
    // rate and commission, five points each, in fixed point
    let name = String::from("5,5,5,5,5,5,5,5,5,5");
    let top = get_validators_stashes(&c, 100, &name, 3);
    assert_eq!(top, vec!["stash1", "stash2", "stash3"]);
    let rank1 = get_validator_rank(&c, &String::from("stash1"), &Queries::Board, &w, &i).unwrap();
    assert_eq!(rank1.rank, 1);
    let rank2 = get_validator_rank(&c, &String::from("stash2"), &Queries::Board, &w, &i).unwrap();
    assert_eq!(rank2.rank, 2);
    let rank3 = get_validator_rank(&c, &String::from("stash3"), &Queries::Board, &w, &i).unwrap();
    assert_eq!(rank3.rank, 3);
    // inclusion rate and commission: full marks, half marks, none; the
    // reverse-normalized criteria over empty statistics award every member
    // the same offset, so the totals differ by exactly those two criteria
    assert_eq!(rank1.scores[0], 5 * SCALE);
    assert_eq!(rank1.scores[1], 5 * SCALE);
    assert_eq!(rank2.scores[0], 5 * SCALE / 2);
    assert_eq!(rank2.scores[1], 5 * SCALE / 2);
    assert_eq!(rank3.scores[0], 0);
    assert_eq!(rank3.scores[1], 0);
    let t1 = rank1.scores.iter().sum::<u64>();
    let t2 = rank2.scores.iter().sum::<u64>();
    let t3 = rank3.scores.iter().sum::<u64>();
    assert_eq!(t1 - t3, 10 * SCALE);
    assert_eq!(t2 - t3, 5 * SCALE);
}

#[test]
fn zero_weights_zero_scores() {
    let mut c = Cache::new();
    c.active_era = Some(100);
    seed_board(&mut c, 100);
    let w = vec![0u32; 10];
    generate_board_scores(&mut c, 100, &w).unwrap();
    let name = String::from("0,0,0,0,0,0,0,0,0,0");
    let i = default_intervals();
    for stash in ["stash1", "stash2", "stash3"] {
        let r = get_validator_rank(&c, &String::from(stash), &Queries::Board, &w, &i).unwrap();
        assert_eq!(r.scores.iter().sum::<u64>(), 0);
    }
}

#[test]
fn blocked_stash_left_off_scored_board_but_kept_in_all() {
    let mut c = Cache::new();
    c.active_era = Some(100);
    seed_board(&mut c, 100);
    let blocked = String::from("blocked1");
    set_s(&mut c.validators, &blocked, validator(SCALE, 0, true));
    let all = String::from("all:val");
    set_esm(&mut c.boards, 100, &all, &blocked, 0u128);
    let w = parse_weights("5,5,5,5,5,5,5,5,5,5").unwrap();
    generate_board_scores(&mut c, 100, &w).unwrap();
    let name = String::from("5,5,5,5,5,5,5,5,5,5");
    let members = get_validators_stashes(&c, 100, &name, 100);
    assert!(!members.contains(&String::from("blocked1")));
    let everyone = get_validators_stashes(&c, 100, &all, 100);
    assert!(everyone.contains(&String::from("blocked1")));
}

#[test]
fn top_n_cuts_and_empties() {
    let mut c = Cache::new();
    c.active_era = Some(100);
    seed_board(&mut c, 100);
    let w = parse_weights("5,5,5,5,5,5,5,5,5,5").unwrap();
    generate_board_scores(&mut c, 100, &w).unwrap();
    let name = String::from("5,5,5,5,5,5,5,5,5,5");
    assert_eq!(get_validators_stashes(&c, 100, &name, 0).len(), 0);
    assert_eq!(get_validators_stashes(&c, 100, &name, 2).len(), 2);
    // more than the board holds answers the whole board
    assert_eq!(get_validators_stashes(&c, 100, &name, 50).len(), 3);
}

#[test]
fn syncing_refuses_generation_and_writes_nothing() {
    let mut c = Cache::new();
    c.active_era = Some(100);
    seed_board(&mut c, 100);
    c.info.syncing = true;
    let w = parse_weights("5,5,5,5,5,5,5,5,5,5").unwrap();
    let before = c.boards.len();
    match generate_board_scores(&mut c, 100, &w) {
        Err(ApiError::NotFound(msg)) => {
            assert!(msg.contains("currently syncing"));
        }
        _ => panic!("generation must be refused while syncing"),
    }
    assert_eq!(c.boards.len(), before);
    let name = String::from("5,5,5,5,5,5,5,5,5,5");
    assert!(!board_exists_now(&c, 100, &name));
}

#[test]
fn rank_for_absent_stash_is_not_found() {
    let mut c = Cache::new();
    c.active_era = Some(100);
    seed_board(&mut c, 100);
    let w = parse_weights("5,5,5,5,5,5,5,5,5,5").unwrap();
    generate_board_scores(&mut c, 100, &w).unwrap();
    let i = default_intervals();
    let r = get_validator_rank(&c, &String::from("nobody"), &Queries::Board, &w, &i).unwrap();
    assert!(matches!(r.status, Status::NotFound));
    assert_eq!(r.rank, 0);
    assert_eq!(r.scores.len(), 0);
}

#[test]
fn rank_before_generation_is_not_ready() {
    let mut c = Cache::new();
    c.active_era = Some(100);
    seed_board(&mut c, 100);
    let w = parse_weights("5,5,5,5,5,5,5,5,5,5").unwrap();
    let i = default_intervals();
    let r = get_validator_rank(&c, &String::from("stash1"), &Queries::Board, &w, &i).unwrap();
    assert!(matches!(r.status, Status::NotReady));
}

#[test]
fn generating_twice_keeps_the_ranking_and_counts_queries() {
    let mut c = Cache::new();
    c.active_era = Some(100);
    seed_board(&mut c, 100);
    let w = parse_weights("5,5,5,5,5,5,5,5,5,5").unwrap();
    let i = default_intervals();
    let first = get_validators(&mut c, &Queries::Board, &w, &i, 3).unwrap();
    let stats_after_first = c.stats.clone();
    let second = get_validators(&mut c, &Queries::Board, &w, &i, 3).unwrap();
    assert_eq!(first.addresses, second.addresses);
    assert_eq!(stats_after_first.len(), 1);
    assert_eq!(c.stats.len(), 1);
    assert_eq!(c.stats[0].1, stats_after_first[0].1 + 1);
}

#[test]
fn intervals_filter_members() {
    let mut c = Cache::new();
    c.active_era = Some(100);
    seed_board(&mut c, 100);
    let w = parse_weights("5,5,5,5,5,5,5,5,5,5").unwrap();
    // keep only validators with an inclusion rate of at least 0.75
    let i = turboflakes::params::parse_intervals(
        "0.75:1,0:1000000000,0:256,0:0,0:1,0:1,0:0,0:0,0:0,0:0",
    )
    .unwrap();
    let resp = get_validators(&mut c, &Queries::Board, &w, &i, 10).unwrap();
    assert_eq!(resp.addresses, vec!["stash1"]);
}

#[test]
fn commission_scores_reverse_normalized() {
    // commission 0 earns the full weight, the top of the range none
    let limits = BoardLimits {
        inclusion_rate: Interval { min: 0, max: SCALE as u128 },
        commission: Interval { min: 0, max: 1_000_000_000 },
        nominators: Interval { min: 0, max: 256 },
        avg_reward_points: Interval { min: 0, max: 0 },
        reward_staked: Interval { min: 0, max: SCALE as u128 },
        active: Interval { min: 0, max: SCALE as u128 },
        own_stake: Interval { min: 0, max: 0 },
        total_stake: Interval { min: 0, max: 0 },
        judgements: Interval { min: 0, max: 0 },
        sub_accounts: Interval { min: 0, max: 0 },
    };
    let w = vec![0, 9, 0, 0, 0, 0, 0, 0, 0, 0];
    let cheap = validator(0, 0, false);
    let dear = validator(0, 1_000_000_000, false);
    let s_cheap = calculate_scores(&cheap, &limits, &w);
    let s_dear = calculate_scores(&dear, &limits, &w);
    assert_eq!(s_cheap[1], 9 * SCALE);
    assert_eq!(s_dear[1], 0);
}
