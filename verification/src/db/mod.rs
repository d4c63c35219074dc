pub mod models;
pub mod types;

use vstd::prelude::*;

use self::models::{BackfillJob, BackfillJobWithChainId};
use crate::rearrange::{rearrange, rearranged};

verus! {

/// What went wrong in an operation on the store, as far as the indexer tells
/// errors apart.
#[derive(Clone, Copy, Debug, PartialEq, Eq, Structural)]
pub enum StoreError {
    /// A row refers to a row that is not there: an address that was deleted
    /// while its matches were written
    ForeignKeyViolation,
    /// Anything else
    Other,
}

/// What `handle_error` makes of the outcome of a write.
pub open spec fn absorbed(res: Result<usize, StoreError>) -> Result<(), StoreError> {
    match res {
        Ok(_) => Ok(()),
        Err(StoreError::ForeignKeyViolation) => Ok(()),
        Err(e) => Err(e),
    }
}

/// Takes the outcome of a write: a foreign-key violation counts as success,
/// every other error is handed on.
pub fn handle_error(res: Result<usize, StoreError>) -> (r: Result<(), StoreError>)
    ensures
        r == absorbed(res),
{
    match res {
        Ok(_) => Ok(()),
        Err(StoreError::ForeignKeyViolation) => Ok(()),
        Err(e) => Err(e),
    }
}

/// Whether the event that belongs to a write is sent: where the write
/// itself succeeded.
pub fn notifies(res: &Result<usize, StoreError>) -> (r: bool)
    ensures
        r == (*res is Ok),
{
    res.is_ok()
}

/// The job that a row of the store stands for.
pub open spec fn job_of(row: BackfillJobWithChainId) -> BackfillJob {
    BackfillJob { addresses: row.addresses, low: row.low, high: row.high }
}

/// The rows that replace the backfill jobs of a chain: the jobs rearranged
/// for optimal I/O, each with the chain's id.
/// See `rearrange` for more details
pub fn reorg_backfill_jobs(jobs: &Vec<BackfillJob>, chain_id: i32) -> (rows: Vec<
    BackfillJobWithChainId,
>)
    ensures
        rearranged(jobs@, rows@.map_values(|row: BackfillJobWithChainId| job_of(row))),
        forall|i: int| 0 <= i < rows@.len() ==> (#[trigger] rows@[i]).chain_id == chain_id,
{
    let mut out = rearrange(jobs);
    let ghost arranged = out@;
    let mut rows: Vec<BackfillJobWithChainId> = Vec::new();
    let n = out.len();
    let mut i: usize = 0;
    while i < n
        invariant
            n == arranged.len(),
            out@.len() == n,
            0 <= i <= n,
            rows@.len() == i,
            forall|k: int| i <= k < n ==> out@[k] == arranged[k],
            forall|k: int| 0 <= k < i ==> job_of(#[trigger] rows@[k]) == arranged[k],
            forall|k: int| 0 <= k < i ==> (#[trigger] rows@[k]).chain_id == chain_id,
        decreases n - i,
    {
        let mut addresses = Vec::new();
        core::mem::swap(&mut addresses, &mut out[i].addresses);
        rows.push(BackfillJobWithChainId { addresses, chain_id, low: out[i].low, high: out[i].high });
        i += 1;
    }
    assert(rows@.map_values(|row: BackfillJobWithChainId| job_of(row)) =~= arranged);
    rows
}

} // verus!
