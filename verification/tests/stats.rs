use turboflakes::stats::{max, mean_scaled, median, min, sort};

#[test]
fn calculate_median() {
    let mut v = vec![1, 2, 3, 4, 5, 4, 2, 6];
    assert_eq!(median(&mut v), 4);
}

#[test]
fn calculate_min() {
    let v = vec![1, 2, 3, 4, 5, 4, 2, 6];
    assert_eq!(min(&v), 1);
}

#[test]
fn calculate_max() {
    let v = vec![1, 2, 3, 4, 5, 4, 2, 6];
    assert_eq!(max(&v), 6);
}

#[test]
fn calculate_mean_in_fixed_point() {
    // 27 / 8 = 3.375, in nine decimal places
    let v = vec![1, 2, 3, 4, 5, 4, 2, 6];
    assert_eq!(mean_scaled(&v), 3_375_000_000);
}

#[test]
fn mean_of_nothing_is_zero() {
    let v: Vec<u32> = vec![];
    assert_eq!(mean_scaled(&v), 0);
    assert_eq!(min(&v), 0);
    assert_eq!(max(&v), 0);
    let mut e: Vec<u32> = vec![];
    assert_eq!(median(&mut e), 0);
}

#[test]
fn sort_orders_in_place() {
    let mut v = vec![5, 1, 4, 2, 3];
    sort(&mut v);
    assert_eq!(v, vec![1, 2, 3, 4, 5]);
}
