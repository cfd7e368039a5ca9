//! The ways in which building or extending a ledger fails.

use vstd::prelude::*;

verus! {

/// Why a ledger could not be built or extended.
#[derive(Clone, Copy, Debug, PartialEq, Eq, Structural)]
pub enum LedgerError {
    /// An archive was opened that holds no trade.
    EmptyArchiveError,
    /// A fetched batch holds no trade.
    EmptyBatchError,
    /// A fetched batch does not begin before the oldest trade of the ledger.
    /// `old_min_id` is the ledger's smallest trade id at that time,
    /// `new_batch_id` the id of the batch's first trade.
    IntersectingRangeError { old_min_id: i64, new_batch_id: i64 },
}

} // verus!
