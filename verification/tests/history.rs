use rsi_service::history::{HistoryStore, PriceSeries, MAX_HISTORY};

#[test]
fn max_history_is_two_hundred() {
    assert_eq!(MAX_HISTORY, 200);
}

#[test]
fn a_new_series_is_empty() {
    let series = PriceSeries::new();
    assert_eq!(series.len(), 0);
    assert_eq!(series.to_vec(), Vec::<i64>::new());
}

#[test]
fn prices_are_kept_in_order() {
    let mut series = PriceSeries::new();
    for p in [3, 1, 2] {
        series.push(p);
    }
    assert_eq!(series.len(), 3);
    assert_eq!(series.to_vec(), vec![3, 1, 2]);
    assert_eq!(series.get(0), 3);
    assert_eq!(series.get(2), 2);
}

#[test]
fn a_full_series_evicts_exactly_the_oldest() {
    let mut series = PriceSeries::new();
    for p in 0..MAX_HISTORY as i64 {
        series.push(p);
    }
    assert_eq!(series.len(), MAX_HISTORY);
    assert_eq!(series.get(0), 0);
    series.push(1000);
    assert_eq!(series.len(), MAX_HISTORY);
    let mut expected: Vec<i64> = (1..MAX_HISTORY as i64).collect();
    expected.push(1000);
    assert_eq!(series.to_vec(), expected);
    series.push(1001);
    assert_eq!(series.len(), MAX_HISTORY);
    assert_eq!(series.get(0), 2);
    assert_eq!(series.get(MAX_HISTORY - 1), 1001);
}

#[test]
fn a_series_never_grows_past_the_bound() {
    let mut series = PriceSeries::new();
    for p in 0..1000 {
        series.push(p);
        assert!(series.len() <= MAX_HISTORY);
    }
    assert_eq!(series.to_vec(), (800..1000).collect::<Vec<i64>>());
}

#[test]
fn a_new_store_knows_no_token() {
    let store = HistoryStore::new();
    assert_eq!(store.tokens(), 0);
    assert!(store.history("a").is_none());
}

#[test]
fn a_history_begins_with_the_first_price() {
    let mut store = HistoryStore::new();
    store.append("a", 5);
    assert_eq!(store.tokens(), 1);
    assert_eq!(store.history("a").map(|s| s.to_vec()), Some(vec![5]));
    assert!(store.history("b").is_none());
}

#[test]
fn each_token_has_its_own_history() {
    let mut store = HistoryStore::new();
    store.append("a", 1);
    store.append("b", 10);
    store.append("a", 2);
    store.append("", 7);
    store.append("b", 20);
    store.append("a", 3);
    assert_eq!(store.tokens(), 3);
    assert_eq!(store.history("a").map(|s| s.to_vec()), Some(vec![1, 2, 3]));
    assert_eq!(store.history("b").map(|s| s.to_vec()), Some(vec![10, 20]));
    assert_eq!(store.history("").map(|s| s.to_vec()), Some(vec![7]));
    assert!(store.history("A").is_none());
}

#[test]
fn a_full_history_in_the_store_evicts_the_oldest() {
    let mut store = HistoryStore::new();
    for p in 0..MAX_HISTORY as i64 {
        store.append("a", p);
    }
    store.append("b", -1);
    store.append("a", 500);
    let a = store.history("a").map(|s| s.to_vec()).unwrap();
    assert_eq!(a.len(), MAX_HISTORY);
    assert_eq!(a[0], 1);
    assert_eq!(a[MAX_HISTORY - 1], 500);
    assert_eq!(store.history("b").map(|s| s.to_vec()), Some(vec![-1]));
    assert_eq!(store.tokens(), 2);
}
