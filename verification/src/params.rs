//! Query parameters: the `q`, `w`, `i` grammar and board naming.
//!
//! A board's cached identity is its name: the weights as a comma-separated
//! list, followed for a filtered board by `|` and the intervals as
//! `min:max` pairs.  Parsing pads or cuts both lists to ten entries, clamps
//! each weight to 9, and rejects malformed numbers.

use vstd::prelude::*;
use crate::num::{
    all_dec_digits, dec_str, dec_val, scaled_str, scaled_val, split_at_sep, split_string,
    u32_to_string, fmt_scaled, parse_u32, parse_scaled,
};
use crate::score::{BoardLimits, Interval};

verus! {

/// The validator list views a query can ask for.
pub enum Queries {
    All,
    Active,
    Board,
    Other,
}

/// The query kind assumed when none is given.
pub fn default_queries() -> (r: Queries)
    ensures
        r == Queries::Other,
{
    Queries::Other
}

/// The name of a query kind.
pub fn queries_string(q: &Queries) -> (r: String)
    ensures
        match q {
            Queries::All => r@ == "all"@,
            Queries::Active => r@ == "active"@,
            Queries::Board => r@ == "board"@,
            Queries::Other => r@ == "other"@,
        },
{
    match q {
        Queries::All => String::from_str("all"),
        Queries::Active => String::from_str("active"),
        Queries::Board => String::from_str("board"),
        Queries::Other => String::from_str("other"),
    }
}

/// The weights assumed when none are given: zero for every criterion.
pub fn default_weights() -> (r: Vec<u32>)
    ensures
        r@.len() == 10,
        forall|i: int| 0 <= i < 10 ==> r@[i] == 0u32,
{
    let mut w: Vec<u32> = Vec::new();
    let mut i: usize = 0;
    while i < 10
        invariant
            0 <= i <= 10,
            w@.len() == i,
            forall|j: int| 0 <= j < i ==> w@[j] == 0u32,
        decreases 10 - i,
    {
        w.push(0);
        i += 1;
    }
    w
}

/// The intervals assumed when none are given: none at all.
pub fn default_intervals() -> (r: Vec<Interval>)
    ensures
        r@.len() == 0,
{
    Vec::new()
}

/// Weight for criterion `i` of the comma-separated pieces: a missing piece
/// reads as 5, a decimal above 9 is clamped to 9, and anything else is a
/// parse failure.
pub open spec fn spec_weight_at(parts: Seq<Seq<char>>, i: int) -> Option<u32> {
    if i >= parts.len() {
        Some(5u32)
    } else if all_dec_digits(parts[i]) && dec_val(parts[i]) <= u32::MAX {
        if dec_val(parts[i]) > 9 {
            Some(9u32)
        } else {
            Some(dec_val(parts[i]) as u32)
        }
    } else {
        None
    }
}

/// Parses the `w` parameter: ten weights, each clamped to at most 9;
/// `None` when an entry is not a decimal number.
pub fn parse_weights(s: &str) -> (r: Option<Vec<u32>>)
    ensures
        match r {
            Some(ws) => ws@.len() == 10 && forall|i: int|
                0 <= i < 10 ==> Some(ws@[i]) == spec_weight_at(split_at_sep(s@, ','), i),
            None => exists|i: int|
                0 <= i < 10 && spec_weight_at(split_at_sep(s@, ','), i) == None::<u32>,
        },
        r is Some ==> crate::score::weights_ok(r.unwrap()@),
{
    let parts = split_string(s, ',');
    let ghost pv = split_at_sep(s@, ',');
    let mut ws: Vec<u32> = Vec::new();
    let mut i: usize = 0;
    while i < 10
        invariant
            0 <= i <= 10,
            ws@.len() == i,
            pv == split_at_sep(s@, ','),
            pv.len() == parts@.len(),
            forall|j: int| 0 <= j < parts@.len() ==> parts@[j]@ == pv[j],
            forall|j: int| 0 <= j < i ==> Some(ws@[j]) == spec_weight_at(pv, j),
            forall|j: int| 0 <= j < i ==> ws@[j] <= 9,
        decreases 10 - i,
    {
        if i < parts.len() {
            match parse_u32(parts[i].as_str()) {
                Some(v) => {
                    let w = if v > 9 {
                        9
                    } else {
                        v
                    };
                    ws.push(w);
                },
                None => {
                    proof {
                        assert(spec_weight_at(pv, i as int) == None::<u32>);
                        assert(exists|j: int|
                            0 <= j < 10 && #[trigger] spec_weight_at(
                                split_at_sep(s@, ','),
                                j,
                            ) == None::<u32>) by {
                            assert(0 <= (i as int) < 10 && spec_weight_at(
                                split_at_sep(s@, ','),
                                i as int,
                            ) == None::<u32>);
                        }
                    }
                    return None;
                },
            }
        } else {
            ws.push(5);
        }
        i += 1;
    }
    Some(ws)
}

/// Interval for criterion `i` of the comma-separated pieces: a missing
/// piece reads as the empty interval; a piece is `min`, `min:max`, or
/// `min:max:…` with the rest ignored; a malformed bound is a parse failure.
pub open spec fn spec_interval_at(parts: Seq<Seq<char>>, i: int) -> Option<Interval> {
    if i >= parts.len() {
        Some(Interval { min: 0, max: 0 })
    } else {
        let sub = split_at_sep(parts[i], ':');
        let m = scaled_val(sub[0]);
        let x = if sub.len() >= 2 {
            scaled_val(sub[1])
        } else {
            Some(0)
        };
        if m is Some && x is Some {
            Some(Interval { min: m.unwrap() as u128, max: x.unwrap() as u128 })
        } else {
            None
        }
    }
}

/// Parses the `i` parameter: ten `min:max` intervals in fixed point;
/// `None` when a bound is not a decimal number.
pub fn parse_intervals(s: &str) -> (r: Option<Vec<Interval>>)
    ensures
        match r {
            Some(iv) => iv@.len() == 10 && forall|i: int|
                0 <= i < 10 ==> Some(iv@[i]) == spec_interval_at(split_at_sep(s@, ','), i),
            None => exists|i: int|
                0 <= i < 10 && spec_interval_at(split_at_sep(s@, ','), i) == None::<Interval>,
        },
{
    let parts = split_string(s, ',');
    let ghost pv = split_at_sep(s@, ',');
    let mut iv: Vec<Interval> = Vec::new();
    let mut i: usize = 0;
    while i < 10
        invariant
            0 <= i <= 10,
            iv@.len() == i,
            pv == split_at_sep(s@, ','),
            pv.len() == parts@.len(),
            forall|j: int| 0 <= j < parts@.len() ==> parts@[j]@ == pv[j],
            forall|j: int| 0 <= j < i ==> Some(iv@[j]) == spec_interval_at(pv, j),
        decreases 10 - i,
    {
        if i < parts.len() {
            let sub = split_string(parts[i].as_str(), ':');
            let ghost sv = split_at_sep(pv[i as int], ':');
            proof {
                assert(sv.len() >= 1) by {
                    lemma_split_nonempty(pv[i as int]);
                }
            }
            let m = match parse_scaled(sub[0].as_str()) {
                Some(v) => v,
                None => {
                    proof {
                        assert(sub@[0]@ == sv[0]);
                        assert(spec_interval_at(pv, i as int) == None::<Interval>);
                        assert(exists|j: int|
                            0 <= j < 10 && #[trigger] spec_interval_at(
                                split_at_sep(s@, ','),
                                j,
                            ) == None::<Interval>) by {
                            assert(0 <= (i as int) < 10 && spec_interval_at(
                                split_at_sep(s@, ','),
                                i as int,
                            ) == None::<Interval>);
                        }
                    }
                    return None;
                },
            };
            let x = if sub.len() >= 2 {
                match parse_scaled(sub[1].as_str()) {
                    Some(v) => v,
                    None => {
                        proof {
                            assert(sub@[1]@ == sv[1]);
                            assert(spec_interval_at(pv, i as int) == None::<Interval>);
                            assert(exists|j: int|
                                0 <= j < 10 && #[trigger] spec_interval_at(
                                    split_at_sep(s@, ','),
                                    j,
                                ) == None::<Interval>) by {
                                assert(0 <= (i as int) < 10 && spec_interval_at(
                                    split_at_sep(s@, ','),
                                    i as int,
                                ) == None::<Interval>);
                            }
                        }
                        return None;
                    },
                }
            } else {
                0
            };
            iv.push(Interval { min: m, max: x });
        } else {
            iv.push(Interval { min: 0, max: 0 });
        }
        i += 1;
    }
    Some(iv)
}

/// Splitting always yields at least one piece.
proof fn lemma_split_nonempty(s: Seq<char>)
    ensures
        split_at_sep(s, ':').len() >= 1,
{
}

/// The weights as a comma-separated decimal list.
pub open spec fn weights_str(w: Seq<u32>) -> Seq<char>
    decreases w.len(),
{
    if w.len() == 0 {
        Seq::empty()
    } else if w.len() == 1 {
        dec_str(w[0] as int)
    } else {
        weights_str(w.drop_last()) + seq![','] + dec_str(w.last() as int)
    }
}

/// Writes the weights as a comma-separated list.
pub fn weights_to_string(weights: &Vec<u32>) -> (r: String)
    ensures
        r@ == weights_str(weights@),
{
    proof {
        reveal_strlit(",");
        assert(","@ =~= seq![',']);
    }
    let mut s = String::new();
    let mut i: usize = 0;
    while i < weights.len()
        invariant
            0 <= i <= weights@.len(),
            s@ == weights_str(weights@.take(i as int)),
        decreases weights@.len() - i,
    {
        proof {
            reveal_strlit(",");
            assert(","@ =~= seq![',']);
            assert(weights@.take(i as int + 1).drop_last() =~= weights@.take(i as int));
        }
        if i > 0 {
            s.append(",");
        }
        let d = u32_to_string(weights[i]);
        s.append(d.as_str());
        proof {
            assert(s@ =~= weights_str(weights@.take(i as int + 1)));
        }
        i += 1;
    }
    proof {
        assert(weights@.take(weights@.len() as int) =~= weights@);
    }
    s
}

/// One interval as `min:max` in decimal fixed point.
pub open spec fn interval_str(iv: Interval) -> Seq<char> {
    scaled_str(iv.min as int) + seq![':'] + scaled_str(iv.max as int)
}

/// Writes one interval as `min:max`.
pub fn interval_string(iv: &Interval) -> (r: String)
    ensures
        r@ == interval_str(*iv),
{
    proof {
        reveal_strlit(":");
        assert(":"@ =~= seq![':']);
    }
    let mut s = fmt_scaled(iv.min);
    s.append(":");
    let t = fmt_scaled(iv.max);
    s.append(t.as_str());
    proof {
        assert(s@ =~= interval_str(*iv));
    }
    s
}

/// The intervals as a comma-separated list of `min:max` pairs.
pub open spec fn intervals_str(s: Seq<Interval>) -> Seq<char>
    decreases s.len(),
{
    if s.len() == 0 {
        Seq::empty()
    } else if s.len() == 1 {
        interval_str(s[0])
    } else {
        intervals_str(s.drop_last()) + seq![','] + interval_str(s.last())
    }
}

/// Writes the intervals as a comma-separated list.
pub fn intervals_to_string(intervals: &Vec<Interval>) -> (r: String)
    ensures
        r@ == intervals_str(intervals@),
{
    proof {
        reveal_strlit(",");
        assert(","@ =~= seq![',']);
    }
    let mut s = String::new();
    let mut i: usize = 0;
    while i < intervals.len()
        invariant
            0 <= i <= intervals@.len(),
            s@ == intervals_str(intervals@.take(i as int)),
        decreases intervals@.len() - i,
    {
        proof {
            reveal_strlit(",");
            assert(","@ =~= seq![',']);
            assert(intervals@.take(i as int + 1).drop_last() =~= intervals@.take(i as int));
        }
        if i > 0 {
            s.append(",");
        }
        let t = interval_string(&intervals[i]);
        s.append(t.as_str());
        proof {
            assert(s@ =~= intervals_str(intervals@.take(i as int + 1)));
        }
        i += 1;
    }
    proof {
        assert(intervals@.take(intervals@.len() as int) =~= intervals@);
    }
    s
}

/// A board's name: the weights list, and for a filtered board a `|` and the
/// intervals list.
pub open spec fn board_name(w: Seq<u32>, i: Option<Seq<Interval>>) -> Seq<char> {
    match i {
        Some(iv) => if iv.len() == 0 {
            weights_str(w)
        } else {
            weights_str(w) + seq!['|'] + intervals_str(iv)
        },
        None => weights_str(w),
    }
}

/// Renders the cached identity of a board.
pub fn get_board_name(weights: &Vec<u32>, intervals: Option<&Vec<Interval>>) -> (r: String)
    ensures
        match intervals {
            Some(iv) => r@ == board_name(weights@, Some(iv@)),
            None => r@ == board_name(weights@, None::<Seq<Interval>>),
        },
{
    match intervals {
        Some(iv) => {
            if iv.len() == 0 {
                weights_to_string(weights)
            } else {
                proof {
                    reveal_strlit("|");
                    assert("|"@ =~= seq!['|']);
                }
                let mut s = weights_to_string(weights);
                s.append("|");
                let t = intervals_to_string(iv);
                s.append(t.as_str());
                proof {
                    assert(s@ =~= board_name(weights@, Some(iv@)));
                }
                s
            }
        },
        None => weights_to_string(weights),
    }
}

/// The limits as the ten intervals in criterion order, comma separated.
pub open spec fn limits_str(l: BoardLimits) -> Seq<char> {
    interval_str(l.inclusion_rate) + seq![','] + interval_str(l.commission) + seq![',']
        + interval_str(l.nominators) + seq![','] + interval_str(l.avg_reward_points) + seq![',']
        + interval_str(l.reward_staked) + seq![','] + interval_str(l.active) + seq![',']
        + interval_str(l.own_stake) + seq![','] + interval_str(l.total_stake) + seq![',']
        + interval_str(l.judgements) + seq![','] + interval_str(l.sub_accounts)
}

/// Writes the limits in criterion order.
pub fn limits_string(l: &BoardLimits) -> (r: String)
    ensures
        r@ == limits_str(*l),
{
    proof {
        reveal_strlit(",");
        assert(","@ =~= seq![',']);
    }
    let mut s = interval_string(&l.inclusion_rate);
    s.append(",");
    let t1 = interval_string(&l.commission);
    s.append(t1.as_str());
    s.append(",");
    let t2 = interval_string(&l.nominators);
    s.append(t2.as_str());
    s.append(",");
    let t3 = interval_string(&l.avg_reward_points);
    s.append(t3.as_str());
    s.append(",");
    let t4 = interval_string(&l.reward_staked);
    s.append(t4.as_str());
    s.append(",");
    let t5 = interval_string(&l.active);
    s.append(t5.as_str());
    s.append(",");
    let t6 = interval_string(&l.own_stake);
    s.append(t6.as_str());
    s.append(",");
    let t7 = interval_string(&l.total_stake);
    s.append(t7.as_str());
    s.append(",");
    let t8 = interval_string(&l.judgements);
    s.append(t8.as_str());
    s.append(",");
    let t9 = interval_string(&l.sub_accounts);
    s.append(t9.as_str());
    proof {
        assert(s@ =~= limits_str(*l));
    }
    s
}

} // verus!
