use peeringdb_mirror::batch::plan_batches;
use peeringdb_mirror::engine::{choose_strategy, PageCursor, Strategy};
use peeringdb_mirror::record::{Record, Row};
use peeringdb_mirror::resource::Resource;
use peeringdb_mirror::store::Store;
use peeringdb_mirror::timestamp::parse_epoch;

fn rec_with(id: i64, updated: &str, payload: &str) -> Record {
    Record { id: Some(id), updated: String::from(updated), payload: String::from(payload) }
}

#[test]
fn epoch_of_the_epoch() {
    assert_eq!(parse_epoch("1970-01-01T00:00:00Z"), Some(0));
    assert_eq!(parse_epoch("1970-01-01 00:00:00"), Some(0));
}

#[test]
fn epoch_of_a_recent_timestamp() {
    assert_eq!(parse_epoch("2023-05-01T12:34:56Z"), Some(1_682_944_496));
    assert_eq!(parse_epoch("2020-01-02T03:04:05.999Z"), Some(1_577_934_245));
    assert_eq!(parse_epoch("2020-01-02T03:04:05.7"), Some(1_577_934_245));
}

#[test]
fn leap_days_are_understood() {
    assert_eq!(parse_epoch("2024-02-29T00:00:00Z"), Some(1_709_164_800));
    assert_eq!(parse_epoch("2023-02-29T00:00:00Z"), None);
    assert_eq!(parse_epoch("1900-02-29T00:00:00Z"), None);
    assert_eq!(parse_epoch("2000-02-29T00:00:00Z"), Some(951_782_400));
}

#[test]
fn malformed_timestamps_do_not_parse() {
    assert_eq!(parse_epoch(""), None);
    assert_eq!(parse_epoch("not a date"), None);
    assert_eq!(parse_epoch("2023-13-01T00:00:00Z"), None);
    assert_eq!(parse_epoch("2023-00-01T00:00:00Z"), None);
    assert_eq!(parse_epoch("2023-01-32T00:00:00Z"), None);
    assert_eq!(parse_epoch("2023-01-01T24:00:00Z"), None);
    assert_eq!(parse_epoch("2023-01-01T00:60:00Z"), None);
    assert_eq!(parse_epoch("2023-01-01X00:00:00Z"), None);
    assert_eq!(parse_epoch("2023-01-01T00:00:00ZZ"), None);
    assert_eq!(parse_epoch("2023-01-01T00:00:00."), None);
    assert_eq!(parse_epoch("2023-01-01T00:00:00.Z"), None);
    assert_eq!(parse_epoch("2023-01-01T00:00:00.12x"), None);
}

#[test]
fn upsert_inserts_then_overwrites() {
    let mut store = Store::new();
    store.upsert(Row {
        resource: Resource::Org,
        obj_id: 1,
        updated: String::from("2023-01-01T00:00:00Z"),
        payload: String::from("{\"v\":1}"),
    });
    assert_eq!(store.get_payload(Resource::Org, 1).unwrap().as_str(), "{\"v\":1}");
    // Same key again: last write wins, no duplicate row.
    store.upsert(Row {
        resource: Resource::Org,
        obj_id: 1,
        updated: String::from("2023-02-01T00:00:00Z"),
        payload: String::from("{\"v\":2}"),
    });
    assert_eq!(store.get_payload(Resource::Org, 1).unwrap().as_str(), "{\"v\":2}");
    // The same id under another dataset is another object.
    assert!(store.get_payload(Resource::Net, 1).is_none());
}

#[test]
fn watermark_absent_on_empty_store() {
    let store = Store::new();
    assert_eq!(store.max_updated_epoch(Resource::Org), None);
}

#[test]
fn watermark_is_greatest_updated() {
    let mut store = Store::new();
    let records = vec![
        rec_with(1, "2023-01-01T00:00:00Z", "{}"),
        rec_with(2, "2023-06-15T08:00:00Z", "{}"),
        rec_with(3, "2022-12-31T23:59:59Z", "{}"),
    ];
    let plan = plan_batches(Resource::Fac, &records).unwrap();
    store.apply_plan(&plan);
    assert_eq!(
        store.max_updated_epoch(Resource::Fac),
        parse_epoch("2023-06-15T08:00:00Z")
    );
    // Another dataset's rows do not contribute.
    assert_eq!(store.max_updated_epoch(Resource::Org), None);
}

#[test]
fn unparsable_greatest_updated_degrades_to_absent() {
    let mut store = Store::new();
    let records = vec![
        rec_with(1, "2023-01-01T00:00:00Z", "{}"),
        // Lexicographically greatest, but no timestamp at all.
        rec_with(2, "zzzz", "{}"),
    ];
    let plan = plan_batches(Resource::Ix, &records).unwrap();
    store.apply_plan(&plan);
    assert_eq!(store.max_updated_epoch(Resource::Ix), None);
}

#[test]
fn sync_twice_yields_same_rows_and_full_count() {
    // First run: empty store, so a full snapshot is loaded.
    let mut store = Store::new();
    let now = 1_700_000_000;
    assert!(matches!(choose_strategy(store.max_updated_epoch(Resource::Net), now), Strategy::Full));
    let snapshot = vec![
        rec_with(1, "2023-01-01T00:00:00Z", "{\"name\":\"a\"}"),
        rec_with(2, "2023-03-01T00:00:00Z", "{\"name\":\"b\"}"),
        rec_with(3, "2023-02-01T00:00:00Z", "{\"name\":\"c\"}"),
    ];
    let plan = plan_batches(Resource::Net, &snapshot).unwrap();
    assert_eq!(plan.imported, 3);
    store.apply_plan(&plan);

    // Second run: a watermark exists now, so the engine paginates; the
    // remote reports the same three records again.
    let since = match choose_strategy(store.max_updated_epoch(Resource::Net), now) {
        Strategy::Incremental { since } => since,
        Strategy::Full => panic!("a stored dataset must sync incrementally"),
    };
    assert_eq!(since, parse_epoch("2023-03-01T00:00:00Z").unwrap());
    let mut cursor = PageCursor::begin(Resource::Net, since);
    let plan2 = cursor.apply_page(&snapshot).unwrap();
    store.apply_plan(&plan2);
    assert!(cursor.done);

    // Same stored rows, and the second-run count is what the remote
    // returned, not zero.
    assert_eq!(cursor.total, 3);
    assert_eq!(store.get_payload(Resource::Net, 1).unwrap().as_str(), "{\"name\":\"a\"}");
    assert_eq!(store.get_payload(Resource::Net, 2).unwrap().as_str(), "{\"name\":\"b\"}");
    assert_eq!(store.get_payload(Resource::Net, 3).unwrap().as_str(), "{\"name\":\"c\"}");
    assert_eq!(
        store.max_updated_epoch(Resource::Net),
        parse_epoch("2023-03-01T00:00:00Z")
    );
}

#[test]
fn failed_plan_commits_nothing() {
    let mut store = Store::new();
    let mut records = vec![
        rec_with(1, "2023-01-01T00:00:00Z", "{}"),
        rec_with(2, "2023-01-01T00:00:00Z", "{}"),
        rec_with(3, "2023-01-01T00:00:00Z", "{}"),
    ];
    records[1].id = None;
    assert!(plan_batches(Resource::Org, &records).is_err());
    // Nothing was planned, so nothing could be committed: no row of any
    // record, before or after the bad one, is stored.
    assert!(store.get_payload(Resource::Org, 1).is_none());
    assert!(store.get_payload(Resource::Org, 3).is_none());
    assert_eq!(store.max_updated_epoch(Resource::Org), None);
}
