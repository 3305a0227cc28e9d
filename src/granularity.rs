//! Tags describing the resolution or capacity policy a store was created with.
use vstd::prelude::*;

verus! {

/// A fixed calendar interval for aggregated bars.
#[derive(Debug, Clone, Copy, PartialEq, Eq, Structural)]
pub enum BarGranularity {
    OneMinute,
    FiveMinute,
    FifteenMinute,
    ThirtyMinute,
    OneHour,
    FourHour,
    Daily,
}

/// The number of trade events a sequential store is meant to hold.
#[derive(Debug, Clone, Copy, PartialEq, Eq, Structural)]
pub struct TickGranularity {
    pub data_length: u64,
}

/// The number of order-book snapshots a store is meant to hold.
#[derive(Debug, Clone, Copy, PartialEq, Eq, Structural)]
pub struct OBGranularity {
    pub data_snapshot_length: u64,
}

/// The resolution or capacity policy of a store, whatever its record shape.
#[derive(Debug, Clone, Copy, PartialEq, Eq, Structural)]
pub enum Granularity {
    Bar(BarGranularity),
    Ticks(TickGranularity),
    OB(OBGranularity),
}

} // verus!
