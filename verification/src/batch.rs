//! Grouping records into bounded upsert batches.
//!
//! Records are applied to the local store as idempotent upserts, grouped
//! into fixed-size batches submitted as one atomic multi-statement unit
//! each, to bound transaction size and peak memory.  A record without an
//! `id` is a data-integrity failure for the whole list: it cannot be
//! deduplicated later, so nothing of that list is planned.

use vstd::prelude::*;
use crate::errors::SyncError;
use crate::record::{Record, Row, row_matches};
use crate::resource::Resource;

verus! {

/// Records per upsert batch.
pub const BATCH_SIZE: usize = 50;

/// The batched writes for one list of records, in application order, and
/// the count of records processed.  The count is an attempt count, not a
/// changed-row count: the engine does no field-level change detection.
pub struct BatchPlan {
    pub batches: Vec<Vec<Row>>,
    pub imported: usize,
}

/// What a well-formed plan for `records` under `resource` looks like:
/// every batch but the last holds exactly `BATCH_SIZE` rows, the last holds
/// the non-empty remainder, and row `j` of batch `b` stores record
/// `b * BATCH_SIZE + j` verbatim.
pub open spec fn plan_shape(plan: BatchPlan, resource: Resource, records: Seq<Record>) -> bool {
    let n = records.len() as int;
    let nb = plan.batches@.len() as int;
    let bsz = BATCH_SIZE as int;
    &&& plan.imported == n
    &&& (nb == 0 <==> n == 0)
    &&& (forall|b: int| 0 <= b < nb - 1 ==> (#[trigger] plan.batches@[b])@.len() == bsz)
    &&& (n > 0 ==> 1 <= plan.batches@[nb - 1]@.len() <= bsz)
    &&& (n > 0 ==> (nb - 1) * bsz + plan.batches@[nb - 1]@.len() == n)
    &&& (forall|b: int, j: int|
        0 <= b < nb && 0 <= j < plan.batches@[b]@.len() ==> row_matches(
            #[trigger] plan.batches@[b]@[j],
            resource,
            records[b * bsz + j],
        ))
}

/// Plan the batched upsert of `records` into `resource`.
///
/// Succeeds exactly when every record carries an `id`; the first record
/// without one fails the whole list with a `DataIntegrity` error naming its
/// position, and no rows are planned.
pub fn plan_batches(resource: Resource, records: &Vec<Record>) -> (r: Result<
    BatchPlan,
    SyncError,
>)
    ensures
        r is Ok <==> (forall|k: int|
            0 <= k < records@.len() ==> (#[trigger] records@[k]).id is Some),
        r matches Ok(plan) ==> plan_shape(plan, resource, records@),
        r matches Err(e) ==> {
            &&& e matches SyncError::DataIntegrity { index }
            &&& 0 <= (index as int) < records@.len()
            &&& records@[index as int].id is None
            &&& forall|k: int| 0 <= k < index as int ==> (#[trigger] records@[k]).id is Some
        },
{
    let n = records.len();
    let mut batches: Vec<Vec<Row>> = Vec::new();
    let mut cur: Vec<Row> = Vec::new();
    let mut i: usize = 0;
    while i < n
        invariant
            i <= n,
            n == records@.len(),
            i == batches@.len() * (BATCH_SIZE as int) + cur@.len(),
            cur@.len() < BATCH_SIZE,
            forall|b: int|
                0 <= b < batches@.len() ==> (#[trigger] batches@[b])@.len() == BATCH_SIZE as int,
            forall|b: int, j: int|
                0 <= b < batches@.len() && 0 <= j < BATCH_SIZE as int ==> row_matches(
                    #[trigger] batches@[b]@[j],
                    resource,
                    records@[b * (BATCH_SIZE as int) + j],
                ),
            forall|j: int|
                0 <= j < cur@.len() ==> row_matches(
                    #[trigger] cur@[j],
                    resource,
                    records@[batches@.len() * (BATCH_SIZE as int) + j],
                ),
            forall|k: int| 0 <= k < i ==> (#[trigger] records@[k]).id is Some,
        decreases n - i,
    {
        let rec = &records[i];
        match rec.id {
            None => {
                return Err(SyncError::DataIntegrity { index: i });
            },
            Some(id) => {
                let row = Row {
                    resource,
                    obj_id: id,
                    updated: rec.updated.clone(),
                    payload: rec.payload.clone(),
                };
                cur.push(row);
                if cur.len() == BATCH_SIZE {
                    batches.push(cur);
                    cur = Vec::new();
                }
            },
        }
        i += 1;
    }
    if cur.len() > 0 {
        batches.push(cur);
    }
    Ok(BatchPlan { batches, imported: n })
}

} // verus!
