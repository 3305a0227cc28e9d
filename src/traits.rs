//! The interfaces the stores share.
use vstd::prelude::*;
use crate::record::TS;

verus! {

/// Merging newly arrived records into a store.
pub trait DataUpdate {
    type NewData;

    fn update(&mut self, data: Self::NewData);
}

/// Ranged and lookback queries that read a store without changing it.
pub trait LocalDataMethods {
    type Output;

    /// Every record with a timestamp of at least `first_ts`.
    fn get_timestamp_lookback(&self, first_ts: TS) -> Self::Output;

    /// Every record with a timestamp in `[first_ts, last_ts]`.
    fn get_timestamp_window(&self, first_ts: TS, last_ts: TS) -> Self::Output;
}

} // verus!
