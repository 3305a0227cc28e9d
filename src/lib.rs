//! An in-memory time-series store for market data.
//!
//! - `OrderedStore` (`BarDataSet`, `BookDataSet`) keys bars and order-book
//!   snapshots by their own timestamp: a later write at a timestamp replaces
//!   the earlier one, and range and lookback queries return copies in
//!   ascending timestamp order, never an error.
//! - `SequentialStore` (`TickDataSet`) holds trade events, several of which
//!   may share a timestamp. Its sort is stable; exact and nearest search sort
//!   first and then find the lowest matching position. Window retrieval is a
//!   plain filter in the current order and does not sort.
//! - `select_rows` decides what an ingestion from a bulk source keeps once its
//!   rows are decoded; reading and decoding the source is left to the caller.
use vstd::prelude::*;

pub mod error;
pub mod granularity;
pub mod ingest;
pub mod order;
pub mod ordered;
pub mod record;
pub mod sequential;
pub mod traits;

pub use error::DataError;
pub use ordered::{BarDataSet, BookDataSet, OrderedStore};
pub use sequential::{SequentialStore, TickDataSet};
pub use traits::{DataUpdate, LocalDataMethods};
pub use ingest::{select_rows, IngestMode};
pub use granularity::{BarGranularity, Granularity, OBGranularity, TickGranularity};
pub use record::{Bar, FloatBits, NormalizedBook, NormalizedTicks, Quotes, Side, Timestamped, TS};

verus! {

/// A store of one of the three record shapes.
#[derive(Debug)]
pub enum NormalizedTypes {
    Bar(BarDataSet),
    Orderbook(BookDataSet),
    Ticks(TickDataSet),
}

} // verus!
