//! Errors of the seat-allocation core.
//!
//! Every failure aborts the whole computation: the pipeline is a
//! deterministic batch job with no meaningful partial result, so each error
//! names the offending district or block and the violated constraint, and
//! no tally is produced. Vote counts themselves are exact non-negative
//! integers by construction, so no error for malformed counts can arise
//! inside the core; the surrounding loader rejects such input before it
//! reaches these types.

use vstd::prelude::*;

verus! {

/// A failed seat computation.
#[derive(Debug, PartialEq, Eq)]
pub enum ElectionError {
    /// A plurality district has no candidates at all.
    EmptyDistrict { district: String },
    /// A proportional block has zero total votes across all parties, so
    /// apportionment is undefined.
    NoVotes { block: String },
    /// A district or block identifier does not appear in the static
    /// configuration table.
    UnknownRegion { region: String },
    /// The configured per-block seat counts do not sum to the expected
    /// proportional seat total.
    SeatConfigMismatch { configured: usize, expected: usize },
}

} // verus!
