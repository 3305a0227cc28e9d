//! The failures the stores and the ingestion path report. Failures to open
//! or read a source belong to the I/O layer around the library.
use vstd::prelude::*;

verus! {

#[derive(Debug, Clone, Copy, PartialEq, Eq, Structural)]
pub enum DataError {
    /// An exact-match search found no record at the requested timestamp.
    NotFound,
    /// The row at this position of a bulk source could not be decoded into a record.
    DecodeFailure { row: usize },
}

} // verus!
