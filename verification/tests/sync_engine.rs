use peeringdb_mirror::batch::{plan_batches, BATCH_SIZE};
use peeringdb_mirror::engine::{choose_strategy, full_url, page_url, PageCursor, Strategy, SYNC_PAGE_SIZE};
use peeringdb_mirror::errors::SyncError;
use peeringdb_mirror::record::Record;
use peeringdb_mirror::resource::Resource;

fn rec(id: i64) -> Record {
    Record {
        id: Some(id),
        updated: String::from("2023-05-01T12:34:56Z"),
        payload: format!("{{\"id\": {}}}", id),
    }
}

fn recs(n: i64) -> Vec<Record> {
    (1..=n).map(rec).collect()
}

#[test]
fn full_sync_selected_when_no_watermark() {
    let s = choose_strategy(None, 1_700_000_000);
    assert!(matches!(s, Strategy::Full));
}

#[test]
fn incremental_selected_when_watermark_present() {
    let s = choose_strategy(Some(1_600_000_000), 1_700_000_000);
    assert!(matches!(s, Strategy::Incremental { since: 1_600_000_000 }));
}

#[test]
fn future_watermark_clamped_to_now() {
    let now = 1_700_000_000;
    let s = choose_strategy(Some(now + 86_400), now);
    assert!(matches!(s, Strategy::Incremental { since } if since == now));
}

#[test]
fn batches_of_fifty_with_remainder() {
    let records = recs(123);
    let plan = plan_batches(Resource::Net, &records).unwrap();
    assert_eq!(plan.imported, 123);
    assert_eq!(plan.batches.len(), 3);
    assert_eq!(plan.batches[0].len(), 50);
    assert_eq!(plan.batches[1].len(), 50);
    assert_eq!(plan.batches[2].len(), 23);
    assert_eq!(plan.batches[0][0].obj_id, 1);
    assert_eq!(plan.batches[2][22].obj_id, 123);
    assert_eq!(plan.batches[1][7].resource, Resource::Net);
}

#[test]
fn exact_batch_sizes() {
    let plan = plan_batches(Resource::Org, &recs(BATCH_SIZE as i64)).unwrap();
    assert_eq!(plan.batches.len(), 1);
    assert_eq!(plan.batches[0].len(), BATCH_SIZE);
    let plan = plan_batches(Resource::Org, &recs(0)).unwrap();
    assert_eq!(plan.batches.len(), 0);
    assert_eq!(plan.imported, 0);
}

#[test]
fn missing_id_fails_whole_batch() {
    let mut records = recs(70);
    records[60].id = None;
    match plan_batches(Resource::Fac, &records) {
        Err(SyncError::DataIntegrity { index }) => assert_eq!(index, 60),
        other => panic!("expected a data-integrity failure, got {:?}", other.map(|p| p.imported)),
    }
}

#[test]
fn pagination_stops_on_first_short_page() {
    // Three pages: two full ones, then a short one.
    let pages = vec![
        recs(SYNC_PAGE_SIZE as i64),
        recs(SYNC_PAGE_SIZE as i64),
        recs(7),
    ];
    let mut cursor = PageCursor::begin(Resource::Ix, 1_600_000_000);
    let mut fetches = 0;
    while !cursor.done {
        let page = &pages[fetches];
        fetches += 1;
        cursor.apply_page(page).unwrap();
    }
    assert_eq!(fetches, 3);
    assert_eq!(cursor.total, 2 * SYNC_PAGE_SIZE + 7);
    assert_eq!(cursor.skip, 3 * SYNC_PAGE_SIZE as i64);
}

#[test]
fn empty_page_terminates_pagination() {
    let mut cursor = PageCursor::begin(Resource::Org, 0);
    let plan = cursor.apply_page(&Vec::new()).unwrap();
    assert!(cursor.done);
    assert_eq!(cursor.total, 0);
    assert_eq!(plan.batches.len(), 0);
}

#[test]
fn cursor_unchanged_on_bad_page() {
    let mut cursor = PageCursor::begin(Resource::Org, 0);
    let mut page = recs(3);
    page[1].id = None;
    assert!(cursor.apply_page(&page).is_err());
    assert!(!cursor.done);
    assert_eq!(cursor.total, 0);
    assert_eq!(cursor.skip, 0);
}

#[test]
fn snapshot_and_page_urls() {
    assert_eq!(full_url(Resource::Org), "https://public.peeringdb.com/org-0.json");
    assert_eq!(full_url(Resource::NetIxLan), "https://public.peeringdb.com/netixlan-0.json");
    assert_eq!(
        page_url(Resource::Fac, 1_600_000_000, 1000, 2000),
        "https://www.peeringdb.com/api/fac?since=1600000000&limit=1000&skip=2000"
    );
    assert_eq!(
        page_url(Resource::Ix, -5, 1000, 0),
        "https://www.peeringdb.com/api/ix?since=-5&limit=1000&skip=0"
    );
    let mut cursor = PageCursor::begin(Resource::Net, 7);
    assert_eq!(cursor.next_url(), "https://www.peeringdb.com/api/net?since=7&limit=1000&skip=0");
    cursor.apply_page(&recs(SYNC_PAGE_SIZE as i64)).unwrap();
    assert_eq!(
        cursor.next_url(),
        "https://www.peeringdb.com/api/net?since=7&limit=1000&skip=1000"
    );
}

#[test]
fn dependency_order_loads_parents_first() {
    // Simulated full sync across all datasets: walk the fixed order and
    // enforce the referential constraint by hand.
    let order = peeringdb_mirror::resource::dependency_order();
    assert_eq!(order.len(), 12);
    assert_eq!(order[0], Resource::Org);
    let mut loaded: Vec<Resource> = Vec::new();
    for r in order {
        for p in r.parents() {
            assert!(
                loaded.contains(&p),
                "{:?} would be loaded before its parent {:?}",
                r,
                p
            );
        }
        loaded.push(r);
    }
}
