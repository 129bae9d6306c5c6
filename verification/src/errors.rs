//! The failure taxonomy of the sync engine.
//!
//! Every error aborts the current sync pass immediately; the caller receives
//! a single failure value and decides logging and messaging.

use vstd::prelude::*;

verus! {

/// Why a sync pass failed.
#[derive(Debug, PartialEq, Eq)]
pub enum SyncError {
    /// An unknown dataset identifier, rejected before any network or
    /// storage activity.
    Configuration { tag: String },
    /// The remote answered with a status of 400 or above, or the transport
    /// failed.  Carries the status, the request URL and a bounded snippet
    /// of the response body.
    Remote { status: u16, url: String, snippet: String },
    /// The response body was not valid JSON or violated the expected
    /// `{ "data": [...] }` envelope.
    Decode { detail: String },
    /// A record without an `id` field: the batch that holds it cannot be
    /// deduplicated later, so the whole batch is rejected.  `index` is the
    /// position of the first such record in the list being applied.
    DataIntegrity { index: usize },
    /// The local store failed to read or write.
    Storage { detail: String },
}

impl SyncError {
    /// A short human-readable description.
    pub fn describe(&self) -> (s: &'static str)
        ensures
            s@ == self.describe_spec(),
    {
        match self {
            SyncError::Configuration { .. } => "unknown resource",
            SyncError::Remote { .. } => "remote fetch failed",
            SyncError::Decode { .. } => "response body could not be decoded",
            SyncError::DataIntegrity { .. } => "object is missing id",
            SyncError::Storage { .. } => "local storage failed",
        }
    }

    pub open spec fn describe_spec(&self) -> Seq<char> {
        match self {
            SyncError::Configuration { .. } => "unknown resource"@,
            SyncError::Remote { .. } => "remote fetch failed"@,
            SyncError::Decode { .. } => "response body could not be decoded"@,
            SyncError::DataIntegrity { .. } => "object is missing id"@,
            SyncError::Storage { .. } => "local storage failed"@,
        }
    }
}

} // verus!
