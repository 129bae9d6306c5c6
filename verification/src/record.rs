//! Plain-value shapes of the data the engine works on.
//!
//! A remote record is an opaque JSON object; the engine only ever reads its
//! `id` and `updated` fields and carries the rest along as a verbatim
//! serialized payload.  The service layer decodes the remote envelope and
//! hands the engine these plain values.

use vstd::prelude::*;
use crate::resource::Resource;

verus! {

/// One record as published by the remote source, reduced to the fields the
/// engine interprets.
///
/// `id` is the remote-assigned, dataset-scoped identifier; it is `None` when
/// the record lacks the field (malformed data).  `updated` is the last
/// modification timestamp string, empty when absent.  `payload` is the
/// verbatim serialized record.
pub struct Record {
    pub id: Option<i64>,
    pub updated: String,
    pub payload: String,
}

/// One row of the local mirror: the tuple `(dataset, remote id, updated,
/// payload)`.  `(resource, obj_id)` is the unique key.
pub struct Row {
    pub resource: Resource,
    pub obj_id: i64,
    pub updated: String,
    pub payload: String,
}

/// The row that storing `rec` under `resource` produces.
pub open spec fn row_matches(row: Row, resource: Resource, rec: Record) -> bool {
    &&& row.resource == resource
    &&& rec.id == Some(row.obj_id)
    &&& row.updated@ == rec.updated@
    &&& row.payload@ == rec.payload@
}

} // verus!
