use market_data::{
    Bar, BarDataSet, BarGranularity, BookDataSet, DataUpdate, FloatBits, LocalDataMethods,
    NormalizedBook, Quotes,
};

fn px(x: f64) -> FloatBits {
    FloatBits(x.to_bits())
}

fn bar(ts: i64, close: f64) -> Bar {
    Bar::new(px(1.0), px(2.0), px(0.5), px(close), px(10.0), ts)
}

fn timestamps(bars: &[Bar]) -> Vec<i64> {
    bars.iter().map(|b| b.ts).collect()
}

#[test]
fn range_and_lookback_one_minute_bars() {
    let mut store = BarDataSet::new(BarGranularity::OneMinute);
    store.single_insert(100, bar(100, 1.5));
    store.single_insert(200, bar(200, 1.7));
    let range = store.get_range(100, 150);
    assert_eq!(range, vec![bar(100, 1.5)]);
    let lookback = store.get_timestamp_lookback(150);
    assert_eq!(lookback, vec![bar(200, 1.7)]);
    assert_eq!(store.granularity(), BarGranularity::OneMinute);
}

#[test]
fn second_write_at_a_timestamp_wins() {
    let mut store = BarDataSet::new(BarGranularity::FiveMinute);
    store.single_insert(300, bar(300, 1.0));
    store.single_insert(300, bar(300, 2.0));
    assert_eq!(store.get_range(300, 300), vec![bar(300, 2.0)]);
    assert_eq!(store.get_range(0, 1000), vec![bar(300, 2.0)]);
}

#[test]
fn inverted_range_is_empty() {
    let mut store = BarDataSet::new(BarGranularity::Daily);
    store.single_insert(5, bar(5, 1.0));
    store.single_insert(9, bar(9, 1.0));
    assert!(store.get_range(9, 5).is_empty());
    assert!(store.get_timestamp_window(9, 5).is_empty());
}

#[test]
fn empty_store_returns_empty_results() {
    let store = BarDataSet::new(BarGranularity::OneHour);
    assert!(store.get_range(i64::MIN, i64::MAX).is_empty());
    assert!(store.get_timestamp_lookback(i64::MIN).is_empty());
}

#[test]
fn range_is_ascending_and_inclusive() {
    let mut store = BarDataSet::new(BarGranularity::FifteenMinute);
    for ts in [40, 10, 30, 20, 50] {
        store.single_insert(ts, bar(ts, ts as f64));
    }
    assert_eq!(timestamps(&store.get_range(20, 40)), vec![20, 30, 40]);
    assert_eq!(timestamps(&store.get_timestamp_window(20, 40)), vec![20, 30, 40]);
    assert_eq!(timestamps(&store.get_timestamp_lookback(30)), vec![30, 40, 50]);
    assert_eq!(timestamps(&store.get_range(i64::MIN, i64::MAX)), vec![10, 20, 30, 40, 50]);
    assert_eq!(timestamps(&store.get_timestamp_lookback(i64::MAX)), Vec::<i64>::new());
}

#[test]
fn range_is_a_subset_of_lookback() {
    let mut store = BarDataSet::new(BarGranularity::ThirtyMinute);
    for ts in [1, 4, 6, 9, 12] {
        store.single_insert(ts, bar(ts, 1.0));
    }
    let range = store.get_range(4, 9);
    let lookback = store.get_timestamp_lookback(4);
    assert_eq!(timestamps(&range), vec![4, 6, 9]);
    assert_eq!(timestamps(&lookback), vec![4, 6, 9, 12]);
    for b in &range {
        assert!(lookback.contains(b));
    }
}

#[test]
fn update_merges_by_each_records_timestamp() {
    let mut store = BarDataSet::new(BarGranularity::FourHour);
    store.single_insert(10, bar(10, 1.0));
    store.update(vec![bar(20, 2.0), bar(10, 3.0), bar(20, 4.0), bar(5, 5.0)]);
    assert_eq!(
        store.get_range(i64::MIN, i64::MAX),
        vec![bar(5, 5.0), bar(10, 3.0), bar(20, 4.0)]
    );
}

fn book(ts: i64, symbol: &str) -> NormalizedBook {
    NormalizedBook {
        symbol: symbol.to_string(),
        depth: 1,
        bids: vec![Quotes { level: px(99.5), qty: px(3.0), count: Some(2) }],
        asks: vec![Quotes { level: px(100.5), qty: px(1.0), count: None }],
        ts,
    }
}

#[test]
fn book_store_holds_snapshots_by_timestamp() {
    let mut store = BookDataSet::new(BarGranularity::OneMinute);
    store.update(vec![book(7, "ETH"), book(3, "BTC")]);
    store.single_insert(7, book(7, "SOL"));
    let all = store.get_timestamp_lookback(0);
    assert_eq!(all.len(), 2);
    assert_eq!(all[0].ts, 3);
    assert_eq!(all[0].symbol, "BTC");
    assert_eq!(all[1].ts, 7);
    assert_eq!(all[1].symbol, "SOL");
    assert_eq!(all[1].bids[0].level, px(99.5));
    assert_eq!(all[1].asks[0].count, None);
    assert_eq!(all[1].bids[0].count, Some(2));
}
