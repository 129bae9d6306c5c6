//! The sync orchestrator's decision core.
//!
//! For one dataset the engine chooses between a full snapshot load and
//! incremental pagination, clamps the incremental watermark against the
//! clock, forms the request URLs, and steps a pagination cursor over the
//! pages the service layer fetches.  The service layer performs the fetches
//! and commits the planned batches; it consults the cursor before every
//! fetch and stops as soon as the cursor is done.

use vstd::prelude::*;
use crate::batch::{plan_batches, plan_shape, BatchPlan};
use crate::errors::SyncError;
use crate::numfmt::{i64_to_string, int_rep};
use crate::record::Record;
use crate::resource::Resource;

verus! {

/// Records requested per incremental page.
pub const SYNC_PAGE_SIZE: usize = 1000;

/// What one dataset's sync pass reports: the dataset and how many records
/// were imported (inserted or updated) in this run.
#[derive(Debug, PartialEq, Eq)]
pub struct SyncReport {
    pub resource: Resource,
    pub imported: usize,
}

/// How one dataset is refreshed: a single full-snapshot fetch when nothing
/// is stored yet, else incremental pages of records modified at or after
/// `since`.
#[derive(Debug)]
pub enum Strategy {
    Full,
    Incremental { since: i64 },
}

/// Choose the refresh strategy for a dataset.
///
/// A dataset with no stored rows has no watermark and gets exactly one
/// full-snapshot fetch.  Otherwise the stored watermark is used, clamped to
/// `now`: a corrupt or clock-skewed watermark from the future would
/// otherwise starve incremental sync permanently.
pub fn choose_strategy(watermark: Option<i64>, now: i64) -> (s: Strategy)
    ensures
        watermark is None <==> s is Full,
        watermark matches Some(w) ==> s == (Strategy::Incremental {
            since: if w <= now {
                w
            } else {
                now
            },
        }),
{
    match watermark {
        None => Strategy::Full,
        Some(w) => Strategy::Incremental { since: if w <= now { w } else { now } },
    }
}

/// The URL of a dataset's full snapshot.
pub open spec fn full_url_spec(resource: Resource) -> Seq<char> {
    "https://public.peeringdb.com/"@ + resource.tag_spec() + "-0.json"@
}

pub fn full_url(resource: Resource) -> (u: String)
    ensures
        u@ == full_url_spec(resource),
{
    let mut s = String::from_str("https://public.peeringdb.com/");
    s.append(resource.tag());
    s.append("-0.json");
    s
}

/// The URL of one incremental page: records of `resource` modified at or
/// after `since`, at offset `skip`, at most `limit` of them.
pub open spec fn page_url_spec(resource: Resource, since: int, limit: int, skip: int) -> Seq<
    char,
> {
    "https://www.peeringdb.com/api/"@ + resource.tag_spec() + "?since="@ + int_rep(since)
        + "&limit="@ + int_rep(limit) + "&skip="@ + int_rep(skip)
}

pub fn page_url(resource: Resource, since: i64, limit: i64, skip: i64) -> (u: String)
    ensures
        u@ == page_url_spec(resource, since as int, limit as int, skip as int),
{
    let mut s = String::from_str("https://www.peeringdb.com/api/");
    s.append(resource.tag());
    s.append("?since=");
    s.append(i64_to_string(since).as_str());
    s.append("&limit=");
    s.append(i64_to_string(limit).as_str());
    s.append("&skip=");
    s.append(i64_to_string(skip).as_str());
    s
}

/// The state of one dataset's incremental pagination.  Pages are fetched
/// strictly in sequence; `skip` advances by exactly the page size after
/// each non-terminal page, and `total` accumulates the records processed.
pub struct PageCursor {
    pub resource: Resource,
    pub since: i64,
    pub skip: i64,
    pub total: usize,
    pub done: bool,
}

impl PageCursor {
    /// Start paginating `resource` from the (already clamped) watermark.
    pub fn begin(resource: Resource, since: i64) -> (c: PageCursor)
        ensures
            c == (PageCursor { resource, since, skip: 0, total: 0, done: false }),
    {
        PageCursor { resource, since, skip: 0, total: 0, done: false }
    }

    /// The URL of the next page to fetch.
    pub fn next_url(&self) -> (u: String)
        requires
            !self.done,
        ensures
            u@ == page_url_spec(
                self.resource,
                self.since as int,
                SYNC_PAGE_SIZE as int,
                self.skip as int,
            ),
    {
        page_url(self.resource, self.since, SYNC_PAGE_SIZE as i64, self.skip)
    }

    /// Account one fetched page: plan its batched upsert, add its records
    /// to the running total, advance the offset, and mark the pagination
    /// done exactly when the page ran short of the page size (an empty
    /// page is the special case of that).  A page with a record missing
    /// its `id` fails the pass and leaves the cursor unchanged.
    pub fn apply_page(&mut self, page: &Vec<Record>) -> (r: Result<BatchPlan, SyncError>)
        requires
            !old(self).done,
            old(self).total + page@.len() <= usize::MAX,
            old(self).skip + SYNC_PAGE_SIZE <= i64::MAX,
        ensures
            r is Ok <==> (forall|k: int|
                0 <= k < page@.len() ==> (#[trigger] page@[k]).id is Some),
            r matches Ok(plan) ==> {
                &&& plan_shape(plan, old(self).resource, page@)
                &&& final(self).resource == old(self).resource
                &&& final(self).since == old(self).since
                &&& final(self).total == old(self).total + page@.len()
                &&& final(self).skip == old(self).skip + SYNC_PAGE_SIZE
                &&& final(self).done <==> page@.len() < SYNC_PAGE_SIZE
            },
            r matches Err(e) ==> {
                &&& *final(self) == *old(self)
                &&& e matches SyncError::DataIntegrity { index }
                &&& 0 <= (index as int) < page@.len()
                &&& page@[index as int].id is None
            },
    {
        let plan = plan_batches(self.resource, page)?;
        self.total = self.total + page.len();
        self.skip = self.skip + SYNC_PAGE_SIZE as i64;
        self.done = page.len() < SYNC_PAGE_SIZE;
        Ok(plan)
    }
}

/// How many pages a driver fetches, given the lengths of the pages the
/// remote source would return in sequence: it stops with the first page
/// shorter than `page_size` (an empty page included).
pub open spec fn fetches_for(lens: Seq<int>, page_size: int) -> int
    decreases lens.len(),
{
    if lens.len() == 0 {
        0
    } else if lens[0] < page_size {
        1
    } else {
        1 + fetches_for(lens.drop_first(), page_size)
    }
}

/// Pagination terminates on the first short page: a remote source that
/// returns exactly `page_size` records per page until page `n` returns
/// fewer costs exactly `n` fetches.  A driver stops exactly when
/// `apply_page` sets `done`, which is exactly when a page runs short, so
/// its fetch count is `fetches_for` of the page lengths it sees.
pub proof fn lemma_pagination_fetch_count(lens: Seq<int>, page_size: int)
    requires
        lens.len() >= 1,
        page_size >= 1,
        forall|i: int| 0 <= i < lens.len() - 1 ==> #[trigger] lens[i] == page_size,
        lens[lens.len() - 1] < page_size,
    ensures
        fetches_for(lens, page_size) == lens.len(),
    decreases lens.len(),
{
    if lens.len() == 1 {
    } else {
        let rest = lens.drop_first();
        assert(lens[0] == page_size);
        assert forall|i: int| 0 <= i < rest.len() - 1 implies #[trigger] rest[i] == page_size by {
            assert(rest[i] == lens[i + 1]);
        }
        assert(rest[rest.len() - 1] == lens[lens.len() - 1]);
        lemma_pagination_fetch_count(rest, page_size);
    }
}

} // verus!
