use peeringdb_mirror::errors::SyncError;
use peeringdb_mirror::fetch::check_response;
use peeringdb_mirror::numfmt::{i64_to_string, u64_to_string};
use peeringdb_mirror::query::{
    object_query, parse_i64, parse_lookup, parse_query_params, select_datasets, LookupError,
    QueryParams,
};
use peeringdb_mirror::resource::Resource;

fn pairs(kv: &[(&str, &str)]) -> Vec<(String, String)> {
    kv.iter().map(|(k, v)| (String::from(*k), String::from(*v))).collect()
}

#[test]
fn numbers_parse_and_render() {
    assert_eq!(parse_i64("123"), Some(123));
    assert_eq!(parse_i64("-5"), Some(-5));
    assert_eq!(parse_i64("+7"), Some(7));
    assert_eq!(parse_i64("0"), Some(0));
    assert_eq!(parse_i64("999999999999999999"), Some(999_999_999_999_999_999));
    assert_eq!(parse_i64(""), None);
    assert_eq!(parse_i64("-"), None);
    assert_eq!(parse_i64("12a"), None);
    assert_eq!(parse_i64("1234567890123456789"), None);
    assert_eq!(u64_to_string(0), "0");
    assert_eq!(u64_to_string(1048576), "1048576");
    assert_eq!(i64_to_string(-42), "-42");
    assert_eq!(i64_to_string(1_600_000_000), "1600000000");
}

#[test]
fn query_defaults_and_filters() {
    let q = parse_query_params(&pairs(&[]));
    assert_eq!(q, QueryParams { id_filter: None, since_filter: None, limit: 250 });

    let q = parse_query_params(&pairs(&[("id", "7"), ("since", "1600000000"), ("limit", "10")]));
    assert_eq!(q, QueryParams { id_filter: Some(7), since_filter: Some(1_600_000_000), limit: 10 });

    // A later occurrence wins; unknown keys are ignored.
    let q = parse_query_params(&pairs(&[("id", "7"), ("id", "9"), ("depth", "2")]));
    assert_eq!(q.id_filter, Some(9));

    // A bad filter value clears the filter; a bad limit keeps the default.
    let q = parse_query_params(&pairs(&[("id", "x"), ("limit", "many")]));
    assert_eq!(q, QueryParams { id_filter: None, since_filter: None, limit: 250 });
}

#[test]
fn query_limit_clamped_to_one() {
    let q = parse_query_params(&pairs(&[("limit", "0")]));
    let o = object_query(Resource::Net, &q);
    assert_eq!(o.limit, 1);
    let q = parse_query_params(&pairs(&[("limit", "-3")]));
    let o = object_query(Resource::Net, &q);
    assert_eq!(o.limit, 1);
    let q = parse_query_params(&pairs(&[("limit", "500")]));
    let o = object_query(Resource::Net, &q);
    assert_eq!(o.limit, 500);
    assert_eq!(o.resource, Resource::Net);
}

#[test]
fn lookup_validates_resource_and_id() {
    assert_eq!(parse_lookup("net", "42"), Ok((Resource::Net, 42)));
    assert_eq!(parse_lookup("nets", "42"), Err(LookupError::UnknownResource));
    assert_eq!(parse_lookup("net", "forty"), Err(LookupError::InvalidId));
}

#[test]
fn tags_round_trip() {
    let order = peeringdb_mirror::resource::dependency_order();
    for r in order {
        assert_eq!(Resource::from_tag(r.tag()), Some(r));
    }
    assert_eq!(Resource::from_tag("org"), Some(Resource::Org));
    assert_eq!(Resource::from_tag("carrierfac"), Some(Resource::CarrierFac));
    assert_eq!(Resource::from_tag("bogus"), None);
    assert_eq!(Resource::from_tag(""), None);
}

#[test]
fn dataset_selection_for_a_sync_call() {
    let all = select_datasets(None).unwrap();
    assert_eq!(all, peeringdb_mirror::resource::dependency_order());

    let one = select_datasets(Some("ixlan")).unwrap();
    assert_eq!(one, vec![Resource::IxLan]);

    match select_datasets(Some("nonsense")) {
        Err(SyncError::Configuration { tag }) => assert_eq!(tag, "nonsense"),
        other => panic!("an unknown tag must be rejected, got {:?}", other),
    }
}

#[test]
fn errors_describe_themselves() {
    assert_eq!(SyncError::DataIntegrity { index: 3 }.describe(), "object is missing id");
    assert_eq!(
        SyncError::Configuration { tag: String::from("x") }.describe(),
        "unknown resource"
    );
    assert_eq!(
        SyncError::Remote {
            status: 500,
            url: String::from("https://example.invalid"),
            snippet: String::new(),
        }
        .describe(),
        "remote fetch failed"
    );
}

#[test]
fn remote_failures_carry_a_bounded_snippet() {
    assert!(check_response(200, "https://example.invalid/x", "ok").is_ok());
    assert!(check_response(399, "https://example.invalid/x", "ok").is_ok());

    let long_body: String = std::iter::repeat('e').take(250).collect();
    match check_response(503, "https://example.invalid/x", &long_body) {
        Err(SyncError::Remote { status, url, snippet }) => {
            assert_eq!(status, 503);
            assert_eq!(url, "https://example.invalid/x");
            assert_eq!(snippet.len(), 200);
        },
        other => panic!("a 5xx status must fail, got {:?}", other),
    }

    match check_response(404, "https://example.invalid/y", "short") {
        Err(SyncError::Remote { snippet, .. }) => assert_eq!(snippet, "short"),
        other => panic!("a 404 status must fail, got {:?}", other),
    }
}
