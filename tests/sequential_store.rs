use market_data::{DataError, DataUpdate, FloatBits, NormalizedTicks, Side, TickDataSet};

fn tick(ts: i64, id: u32) -> NormalizedTicks {
    NormalizedTicks {
        symbol: "BTC-USD".to_string(),
        side: if id % 2 == 0 { Side::Buy } else { Side::Sell },
        px: FloatBits(100.25f64.to_bits()),
        qty: FloatBits(0.5f64.to_bits()),
        local_ids: id,
        server_id: 7,
        tx_ts: ts,
    }
}

fn store_of(tss: &[i64]) -> TickDataSet {
    let mut s = TickDataSet::new("BTC-USD".to_string());
    let ticks: Vec<NormalizedTicks> = tss.iter().enumerate().map(|(i, t)| tick(*t, i as u32)).collect();
    s.update(ticks);
    s
}

fn contents(s: &TickDataSet) -> Vec<(i64, u32)> {
    (0..s.len()).map(|i| s.get(i).map(|t| (t.tx_ts, t.local_ids)).unwrap()).collect()
}

#[test]
fn sort_then_back_and_nearest() {
    let mut s = store_of(&[50, 10, 30]);
    s.sort_by_timestamp();
    assert_eq!(s.back_timestamp(), Some(50));
    assert_eq!(s.find_nearest_ts_index(20), 1);
    assert_eq!(s.get(1).unwrap().tx_ts, 30);
}

#[test]
fn exact_search_with_duplicates_and_missing() {
    let mut s = store_of(&[10, 20, 20, 30]);
    let i = s.binary_search_timestamp_index(20).unwrap();
    assert_eq!(s.get(i).unwrap().tx_ts, 20);
    assert_eq!(i, 1);
    assert_eq!(s.binary_search_timestamp_index(25), Err(DataError::NotFound));
}

#[test]
fn exact_search_sorts_first() {
    let mut s = store_of(&[30, 10, 20]);
    assert_eq!(s.binary_search_timestamp_index(30), Ok(2));
    assert_eq!(s.binary_search_timestamp_index(5), Err(DataError::NotFound));
    assert_eq!(s.binary_search_timestamp_index(35), Err(DataError::NotFound));
    let mut empty = TickDataSet::new("X".to_string());
    assert_eq!(empty.binary_search_timestamp_index(0), Err(DataError::NotFound));
}

#[test]
fn sort_is_stable_and_idempotent() {
    let mut s = store_of(&[20, 10, 20, 5, 10]);
    s.sort_by_timestamp();
    let once = contents(&s);
    assert_eq!(once, vec![(5, 3), (10, 1), (10, 4), (20, 0), (20, 2)]);
    s.sort_by_timestamp();
    assert_eq!(contents(&s), once);
}

#[test]
fn nearest_index_bounds() {
    let mut s = store_of(&[10, 20, 30]);
    assert_eq!(s.find_nearest_ts_index(31), 3);
    assert_eq!(s.find_nearest_ts_index(i64::MAX), s.len());
    assert_eq!(s.find_nearest_ts_index(10), 0);
    assert_eq!(s.find_nearest_ts_index(i64::MIN), 0);
    assert_eq!(s.find_nearest_ts_index(30), 2);
    let mut empty = TickDataSet::new("X".to_string());
    assert_eq!(empty.find_nearest_ts_index(1), 0);
}

#[test]
fn lookback_sorts_and_returns_suffix() {
    let mut s = store_of(&[40, 10, 30, 20]);
    let out: Vec<i64> = s.get_data_by_timestamp_lookback(25).iter().map(|t| t.tx_ts).collect();
    assert_eq!(out, vec![30, 40]);
    assert_eq!(contents(&s).iter().map(|p| p.0).collect::<Vec<_>>(), vec![10, 20, 30, 40]);
    assert!(s.get_data_by_timestamp_lookback(41).is_empty());
}

#[test]
fn window_keeps_current_order() {
    let s = store_of(&[40, 10, 30, 20, 25]);
    let out: Vec<i64> = s.get_data_by_timestamp_window(20, 30).iter().map(|t| t.tx_ts).collect();
    assert_eq!(out, vec![30, 20, 25]);
    assert!(s.get_data_by_timestamp_window(31, 20).is_empty());
}

#[test]
fn sequence_management() {
    let mut s = TickDataSet::new_with_capacity("ETH".to_string(), 16);
    assert!(s.is_empty());
    assert_eq!(s.back_timestamp(), None);
    assert_eq!(s.identifier(), "ETH");
    s.set_identifier("SOL".to_string());
    assert_eq!(s.identifier(), "SOL");
    s.update(vec![tick(3, 0), tick(1, 1), tick(2, 2)]);
    assert_eq!(s.len(), 3);
    assert_eq!(s.back_timestamp(), Some(2));
    s.shrink_to_fit();
    assert_eq!(contents(&s), vec![(3, 0), (1, 1), (2, 2)]);
    s.truncate(5);
    assert_eq!(s.len(), 3);
    s.truncate(2);
    assert_eq!(contents(&s), vec![(3, 0), (1, 1)]);
    assert!(s.get(2).is_none());
    s.truncate(0);
    assert!(s.is_empty());
}

#[test]
fn get_copies_every_field() {
    let s = store_of(&[9]);
    let t = s.get(0).unwrap();
    assert_eq!(t.symbol, "BTC-USD");
    assert_eq!(t.side, Side::Buy);
    assert_eq!(f64::from_bits(t.px.0), 100.25);
    assert_eq!(f64::from_bits(t.qty.0), 0.5);
    assert_eq!(t.server_id, 7);
}

#[test]
fn side_names() {
    assert_eq!(Side::Buy.as_ref(), "buy");
    assert_eq!(Side::Sell.as_ref(), "sell");
}
