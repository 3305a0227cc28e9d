//! Selecting the records of a bulk source: the rows arrive decoded, one
//! entry per row, `None` where a row could not be decoded into a record.
//! A row that failed to decode fails the whole ingestion; otherwise the
//! records that the mode keeps come back in source order.
use vstd::prelude::*;
use crate::error::DataError;
use crate::order::{lemma_filter_last, ts_at_least, ts_between};
use crate::record::{lemma_views_push, views_of, Timestamped, TS};

verus! {

/// Which records of a bulk source an ingestion keeps.
#[derive(Debug, Clone, Copy, PartialEq, Eq, Structural)]
pub enum IngestMode {
    /// Every record.
    FullDataset,
    /// The records with a timestamp of at least `first_ts`.
    Lookback { first_ts: TS },
    /// The records with a timestamp in `[first_ts, last_ts]`.
    Window { first_ts: TS, last_ts: TS },
}

/// Holds of a record that `mode` keeps.
pub open spec fn kept_by<R: Timestamped>(mode: IngestMode) -> spec_fn(R::V) -> bool {
    match mode {
        IngestMode::FullDataset => |v: R::V| true,
        IngestMode::Lookback { first_ts } => ts_at_least::<R>(first_ts),
        IngestMode::Window { first_ts, last_ts } => ts_between::<R>(first_ts, last_ts),
    }
}

/// Every row was decoded.
pub open spec fn all_decoded<R>(rows: Seq<Option<R>>) -> bool {
    forall|i: int| 0 <= i < rows.len() ==> (#[trigger] rows[i]) is Some
}

/// The views of the records of fully decoded rows, in source order.
pub open spec fn decoded<R: View>(rows: Seq<Option<R>>) -> Seq<R::V> {
    rows.map_values(|o: Option<R>| o.unwrap()@)
}

/// Row `i` is the first that failed to decode.
pub open spec fn first_failure<R>(rows: Seq<Option<R>>, i: int) -> bool {
    &&& 0 <= i < rows.len()
    &&& rows[i] is None
    &&& all_decoded(rows.subrange(0, i))
}

impl IngestMode {
    /// Whether the mode keeps a record with timestamp `ts`.
    pub fn keeps(&self, ts: TS) -> (r: bool)
        ensures
            r == match *self {
                IngestMode::FullDataset => true,
                IngestMode::Lookback { first_ts } => ts >= first_ts,
                IngestMode::Window { first_ts, last_ts } => first_ts <= ts && ts <= last_ts,
            },
    {
        match self {
            IngestMode::FullDataset => true,
            IngestMode::Lookback { first_ts } => ts >= *first_ts,
            IngestMode::Window { first_ts, last_ts } => *first_ts <= ts && ts <= *last_ts,
        }
    }
}

/// The records of the decoded `rows` that `mode` keeps, in source order; or,
/// when a row failed to decode, `DecodeFailure` naming the first such row.
pub fn select_rows<R: Timestamped>(rows: Vec<Option<R>>, mode: IngestMode) -> (r: Result<
    Vec<R>,
    DataError,
>)
    ensures
        all_decoded(rows@) <==> r is Ok,
        match r {
            Ok(out) => views_of(out@) == decoded(rows@).filter(kept_by::<R>(mode)),
            Err(e) => exists|i: int|
                first_failure(rows@, i) && e == (DataError::DecodeFailure { row: i as usize }),
        },
{
    let ghost all = rows@;
    let count = rows.len();
    let mut out: Vec<R> = Vec::new();
    let mut position: usize = 0;
    for row in it: rows
        invariant
            it.seq() == all,
            position == it.index(),
            all.len() == count,
            all_decoded(all.subrange(0, it.index() as int)),
            views_of(out@) == decoded(all.subrange(0, it.index() as int)).filter(kept_by::<R>(mode)),
    {
        let ghost i = it.index();
        let ghost prefix = all.subrange(0, i + 1);
        match row {
            None => {
                assert(first_failure(all, i));
                return Err(DataError::DecodeFailure { row: position });
            },
            Some(rec) => {
                proof {
                    assert(decoded(prefix) =~= decoded(all.subrange(0, i)).push(rec@));
                    lemma_filter_last(decoded(prefix), kept_by::<R>(mode));
                    assert(decoded(prefix).drop_last() =~= decoded(all.subrange(0, i)));
                    assert(all_decoded(prefix));
                }
                if mode.keeps(rec.timestamp()) {
                    proof {
                        lemma_views_push(out@, rec);
                    }
                    out.push(rec);
                }
            },
        }
        position = position + 1;
    }
    assert(all.subrange(0, all.len() as int) =~= all);
    Ok(out)
}

} // verus!
