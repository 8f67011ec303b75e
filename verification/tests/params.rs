use turboflakes::params::{
    default_intervals, default_weights, get_board_name, intervals_to_string, parse_intervals,
    parse_weights, weights_to_string,
};
use turboflakes::score::Interval;

#[test]
fn weights_parse_pads_and_clamps() {
    let w = parse_weights("1,2,3").unwrap();
    assert_eq!(w, vec![1, 2, 3, 5, 5, 5, 5, 5, 5, 5]);
    let w = parse_weights("12").unwrap();
    assert_eq!(w[0], 9);
    let w = parse_weights("0,0,0,0,0,0,0,0,0,0,7,7").unwrap();
    assert_eq!(w.len(), 10);
    assert_eq!(w[9], 0);
    assert!(parse_weights("1,x,3").is_none());
    assert!(parse_weights("").is_none());
}

#[test]
fn intervals_parse_pads_and_rejects() {
    let i = parse_intervals("0.5:1,2:3").unwrap();
    assert_eq!(i.len(), 10);
    assert_eq!(i[0], Interval { min: 500_000_000, max: 1_000_000_000 });
    assert_eq!(i[1], Interval { min: 2_000_000_000, max: 3_000_000_000 });
    assert_eq!(i[2], Interval { min: 0, max: 0 });
    // a lone bound leaves the upper bound at zero; extra pieces are ignored
    let i = parse_intervals("7").unwrap();
    assert_eq!(i[0], Interval { min: 7_000_000_000, max: 0 });
    let i = parse_intervals("1:2:3").unwrap();
    assert_eq!(i[0], Interval { min: 1_000_000_000, max: 2_000_000_000 });
    assert!(parse_intervals("a:1").is_none());
}

#[test]
fn board_names_are_canonical() {
    let w = vec![5u32, 5, 5, 5, 5, 5, 5, 5, 5, 5];
    assert_eq!(weights_to_string(&w), "5,5,5,5,5,5,5,5,5,5");
    assert_eq!(get_board_name(&w, None), "5,5,5,5,5,5,5,5,5,5");
    let empty: Vec<Interval> = Vec::new();
    assert_eq!(get_board_name(&w, Some(&empty)), "5,5,5,5,5,5,5,5,5,5");
    let i = parse_intervals("0.5:1").unwrap();
    let name = get_board_name(&w, Some(&i));
    assert_eq!(
        name,
        "5,5,5,5,5,5,5,5,5,5|0.5:1,0:0,0:0,0:0,0:0,0:0,0:0,0:0,0:0,0:0"
    );
    assert_eq!(intervals_to_string(&i).len(), "0.5:1,0:0,0:0,0:0,0:0,0:0,0:0,0:0,0:0,0:0".len());
}

#[test]
fn defaults_are_the_documented_ones() {
    let w = default_weights();
    assert_eq!(w, vec![0; 10]);
    assert_eq!(default_intervals().len(), 0);
}
