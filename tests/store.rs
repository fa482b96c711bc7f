use tickerwatch::axis::{axis_range, MICROS_PER_UNIT};
use tickerwatch::store::{SortedBTreeMap, StoreError};

fn s(t: &str) -> String {
    t.to_string()
}

#[test]
fn keeps_only_most_recent_samples() {
    let mut m = SortedBTreeMap::new(3);
    for i in 0..5i64 {
        m.insert(s("A"), (100 + i, 10 * i));
    }
    let all = m.get_btree_map();
    assert_eq!(all.len(), 1);
    assert_eq!(all[0].1, vec![(102, 20), (103, 30), (104, 40)]);
    assert_eq!(m.get_min(s("A")), Ok(20));
    assert_eq!(m.get_max(s("A")), Ok(40));
}

#[test]
fn under_capacity_keeps_everything() {
    let mut m = SortedBTreeMap::new(32);
    m.insert(s("A"), (1, 5));
    m.insert(s("A"), (2, -3));
    assert_eq!(m.get_btree_map()[0].1, vec![(1, 5), (2, -3)]);
    assert_eq!(m.get_min(s("A")), Ok(-3));
    assert_eq!(m.get_max(s("A")), Ok(5));
}

#[test]
fn min_and_max_over_unsorted_values() {
    let mut m = SortedBTreeMap::new(32);
    for (t, v) in [(1, 7), (2, 2), (3, 9), (4, 4)] {
        m.insert(s("X"), (t, v));
    }
    assert_eq!(m.get_min(s("X")), Ok(2));
    assert_eq!(m.get_max(s("X")), Ok(9));
}

#[test]
fn unknown_key_is_reported() {
    let m = SortedBTreeMap::new(4);
    assert_eq!(m.get_min(s("NOPE")), Err(StoreError::KeyNotFound));
    assert_eq!(m.get_max(s("NOPE")), Err(StoreError::KeyNotFound));
    assert_eq!(m.min_time(s("NOPE")), Err(StoreError::KeyNotFound));
    assert_eq!(m.max_time(s("NOPE")), Err(StoreError::KeyNotFound));
    assert_eq!(m.axis_bounds(s("NOPE")), Err(StoreError::KeyNotFound));
    assert!(m.get_btree_map().is_empty());
}

#[test]
fn zero_capacity_keeps_key_but_no_samples() {
    let mut m = SortedBTreeMap::new(0);
    m.insert(s("A"), (1, 1));
    let all = m.get_btree_map();
    assert_eq!(all.len(), 1);
    assert_eq!(all[0].0, "A");
    assert!(all[0].1.is_empty());
    assert_eq!(m.get_min(s("A")), Err(StoreError::EmptySeries));
    assert_eq!(m.axis_bounds(s("A")), Err(StoreError::EmptySeries));
}

#[test]
fn keys_come_out_in_lexicographic_order() {
    let mut m = SortedBTreeMap::new(4);
    for k in ["MSFT", "AAPL", "TSLA", "AMZN", "AAPL", "Z", "BRK-B", "aapl"] {
        m.insert(s(k), (1, 1));
    }
    let keys: Vec<String> = m.get_btree_map().into_iter().map(|e| e.0).collect();
    assert_eq!(keys, vec!["AAPL", "AMZN", "BRK-B", "MSFT", "TSLA", "Z", "aapl"]);
}

#[test]
fn appends_to_other_keys_do_not_interfere() {
    let mut a = SortedBTreeMap::new(2);
    a.insert(s("K"), (1, 10));
    a.insert(s("O"), (1, 99));
    a.insert(s("K"), (2, 30));
    a.insert(s("O"), (2, -99));
    a.insert(s("K"), (3, 20));
    let mut b = SortedBTreeMap::new(2);
    b.insert(s("K"), (1, 10));
    b.insert(s("K"), (2, 30));
    b.insert(s("K"), (3, 20));
    b.insert(s("O"), (5, 0));
    assert_eq!(a.get_min(s("K")), b.get_min(s("K")));
    assert_eq!(a.get_max(s("K")), b.get_max(s("K")));
    assert_eq!(a.get_min(s("K")), Ok(20));
    assert_eq!(a.get_max(s("K")), Ok(30));
}

#[test]
fn increasing_times_give_first_and_last() {
    let mut m = SortedBTreeMap::new(3);
    for t in [10i64, 20, 30, 40, 50] {
        m.insert(s("T"), (t, 1));
    }
    assert_eq!(m.min_time(s("T")), Ok(30));
    assert_eq!(m.max_time(s("T")), Ok(50));
}

#[test]
fn axis_bounds_pad_by_an_eighth() {
    let mut m = SortedBTreeMap::new(8);
    // values 100.0 and 180.0: padding 10.0 on each side
    m.insert(s("A"), (1, 100 * MICROS_PER_UNIT));
    m.insert(s("A"), (2, 180 * MICROS_PER_UNIT));
    assert_eq!(m.axis_bounds(s("A")), Ok((90, 190)));
}

#[test]
fn axis_bounds_round_outward() {
    // values 100.5 and 101.3: padding 0.1, so [100.4, 101.4] -> [100, 102]
    assert_eq!(axis_range(100_500_000, 101_300_000), (100, 102));
    // negative values round down below zero
    assert_eq!(axis_range(-1_500_000, -1_500_000), (-2, -1));
}

#[test]
fn axis_bounds_single_repeated_value_is_not_degenerate() {
    let mut m = SortedBTreeMap::new(4);
    for t in 0..4i64 {
        m.insert(s("A"), (t, 50 * MICROS_PER_UNIT));
    }
    let (lo, hi) = m.axis_bounds(s("A")).unwrap();
    assert!(lo < hi);
    assert_eq!((lo, hi), (49, 51));
}

#[test]
fn axis_bounds_at_integer_limits() {
    let (lo, hi) = axis_range(i64::MIN, i64::MAX);
    assert!(lo < hi);
    let (lo, hi) = axis_range(0, 0);
    assert_eq!((lo, hi), (-1, 1));
}

#[test]
fn keys_sorted_lists_each_key_once() {
    let mut m = SortedBTreeMap::new(2);
    for k in ["b", "a", "c", "a", "b"] {
        m.insert(s(k), (1, 1));
    }
    assert_eq!(m.keys_sorted(), vec!["a", "b", "c"]);
    assert!(SortedBTreeMap::new(2).keys_sorted().is_empty());
}
