use market_data::{select_rows, Bar, DataError, FloatBits, IngestMode};

fn bar(ts: i64) -> Bar {
    let p = FloatBits(1.0f64.to_bits());
    Bar::new(p, p, p, p, p, ts)
}

#[test]
fn window_excludes_first_row() {
    let rows = vec![Some(bar(100)), Some(bar(300)), Some(bar(200))];
    let out = select_rows(rows, IngestMode::Window { first_ts: 150, last_ts: 300 }).unwrap();
    assert_eq!(out, vec![bar(300), bar(200)]);
}

#[test]
fn full_dataset_keeps_every_row() {
    let rows = vec![Some(bar(3)), Some(bar(1)), Some(bar(2))];
    let out = select_rows(rows, IngestMode::FullDataset).unwrap();
    assert_eq!(out, vec![bar(3), bar(1), bar(2)]);
}

#[test]
fn lookback_keeps_rows_at_or_after_bound() {
    let rows = vec![Some(bar(5)), Some(bar(10)), Some(bar(15))];
    let out = select_rows(rows, IngestMode::Lookback { first_ts: 10 }).unwrap();
    assert_eq!(out, vec![bar(10), bar(15)]);
}

#[test]
fn decode_failure_aborts_ingestion() {
    let rows = vec![Some(bar(5)), None, Some(bar(15)), None];
    assert_eq!(
        select_rows(rows, IngestMode::FullDataset),
        Err(DataError::DecodeFailure { row: 1 })
    );
}

#[test]
fn empty_source_gives_empty_result() {
    let rows: Vec<Option<Bar>> = Vec::new();
    assert_eq!(select_rows(rows, IngestMode::Lookback { first_ts: 0 }), Ok(Vec::new()));
}

#[test]
fn mode_keeps() {
    assert!(IngestMode::FullDataset.keeps(i64::MIN));
    assert!(IngestMode::Lookback { first_ts: 3 }.keeps(3));
    assert!(!IngestMode::Lookback { first_ts: 3 }.keeps(2));
    assert!(IngestMode::Window { first_ts: 1, last_ts: 2 }.keeps(2));
    assert!(!IngestMode::Window { first_ts: 1, last_ts: 2 }.keeps(3));
}
