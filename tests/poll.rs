use tickerwatch::latest::LatestQuotes;
use tickerwatch::poll::{apply_fetches, record_fetch};
use tickerwatch::quote::{Quote, QuoteError};
use tickerwatch::store::{SortedBTreeMap, StoreError};

fn quote(ticker: &str, time: i64, price: i64) -> Quote {
    Quote {
        timestamp: time,
        ticker: ticker.to_string(),
        price: format!("{}", price),
        price_raw: price,
        percent_change: "0.00%".to_string(),
        amount_change: "0.00".to_string(),
        amount_change_raw: 0,
    }
}

#[test]
fn history_is_one_tick_behind() {
    let mut h = SortedBTreeMap::new(32);
    let mut l = LatestQuotes::new();
    let t = vec!["T".to_string()];
    let errs = apply_fetches(&mut h, &mut l, &t, vec![Ok(quote("T", 1, 100))]);
    assert!(errs.is_empty());
    assert!(h.get_btree_map().is_empty());
    assert_eq!(h.get_min("T".to_string()), Err(StoreError::KeyNotFound));
    apply_fetches(&mut h, &mut l, &t, vec![Ok(quote("T", 2, 105))]);
    let all = h.get_btree_map();
    assert_eq!(all.len(), 1);
    assert_eq!(all[0].1, vec![(1, 100)]);
    assert_eq!(l.get(&"T".to_string()).unwrap().price_raw, 105);
}

#[test]
fn one_failure_does_not_stop_the_batch() {
    let mut h = SortedBTreeMap::new(32);
    let mut l = LatestQuotes::new();
    let t = vec!["A".to_string(), "B".to_string(), "C".to_string()];
    apply_fetches(&mut h, &mut l, &t, vec![Ok(quote("A", 1, 10)), Ok(quote("B", 1, 20)), Ok(quote("C", 1, 30))]);
    let errs = apply_fetches(
        &mut h,
        &mut l,
        &t,
        vec![Ok(quote("A", 2, 11)), Err(QuoteError::new(500, "boom")), Ok(quote("C", 2, 31))],
    );
    assert_eq!(errs.len(), 1);
    assert_eq!(errs[0].0, "B");
    assert_eq!(errs[0].1.to_string(), "500:boom");
    assert_eq!(l.get(&"A".to_string()).unwrap().price_raw, 11);
    assert_eq!(l.get(&"B".to_string()).unwrap().price_raw, 20);
    assert_eq!(l.get(&"C".to_string()).unwrap().price_raw, 31);
    assert_eq!(h.get_min("A".to_string()), Ok(10));
    assert_eq!(h.get_min("C".to_string()), Ok(30));
    assert_eq!(h.get_min("B".to_string()), Err(StoreError::KeyNotFound));
}

#[test]
fn failed_fetch_changes_nothing() {
    let mut h = SortedBTreeMap::new(32);
    let mut l = LatestQuotes::new();
    let t = "X".to_string();
    let r = record_fetch(&mut h, &mut l, &t, Err(QuoteError::new(503, "down")));
    assert_eq!(r.unwrap().status_code, 503);
    assert!(l.get(&t).is_none());
    assert!(l.entries().is_empty());
    assert!(h.get_btree_map().is_empty());
}

#[test]
fn latest_keeps_one_entry_per_ticker() {
    let mut l = LatestQuotes::new();
    l.insert("A".to_string(), quote("A", 1, 1));
    l.insert("B".to_string(), quote("B", 1, 2));
    l.insert("A".to_string(), quote("A", 2, 3));
    let e = l.entries();
    assert_eq!(e.len(), 2);
    assert_eq!(e[0].0, "A");
    assert_eq!(e[0].1.price_raw, 3);
    assert_eq!(e[1].0, "B");
}
