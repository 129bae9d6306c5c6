//! The read API's and the sync trigger's parameter handling.
//!
//! The service layer hands over raw path and query-string values; the
//! functions here validate them and shape the storage query or the dataset
//! selection.  Numbers are read with a decimal parser of the library's
//! own, which accepts an optional sign and up to 18 digits — wide enough
//! for every identifier, timestamp and limit the mirror works with.

use vstd::prelude::*;
use crate::errors::SyncError;
use crate::resource::{dependency_order, dependency_order_spec, str_eq, Resource};
use crate::timestamp::{dig_at, digits_at, dv};

verus! {

/// Rows returned by a range query when no limit is given.
pub const DEFAULT_QUERY_LIMIT: i64 = 250;

/// The value of a digit string, most significant digit first.
pub open spec fn dec_val(s: Seq<char>) -> int
    decreases s.len(),
{
    if s.len() == 0 {
        0
    } else {
        10 * dec_val(s.drop_last()) + dv(s.last())
    }
}

pub open spec fn pow10(n: nat) -> int
    decreases n,
{
    if n == 0 {
        1
    } else {
        10 * pow10((n - 1) as nat)
    }
}

proof fn lemma_pow10_pos(n: nat)
    ensures
        pow10(n) >= 1,
    decreases n,
{
    if n > 0 {
        lemma_pow10_pos((n - 1) as nat);
    }
}

proof fn lemma_pow10_mono(a: nat, b: nat)
    requires
        a <= b,
    ensures
        pow10(a) <= pow10(b),
    decreases b,
{
    if a < b {
        lemma_pow10_mono(a, (b - 1) as nat);
        lemma_pow10_pos((b - 1) as nat);
    }
}

proof fn lemma_dec_val_bound(s: Seq<char>)
    requires
        digits_at(s, 0, s.len() as int),
    ensures
        0 <= dec_val(s) < pow10(s.len()),
    decreases s.len(),
{
    if s.len() > 0 {
        let dl = s.drop_last();
        assert forall|i: int| 0 <= i < dl.len() implies crate::timestamp::is_dig(
            #[trigger] dl[i],
        ) by {
            assert(dl[i] == s[i]);
        }
        lemma_dec_val_bound(dl);
        assert(crate::timestamp::is_dig(s[s.len() - 1]));
    }
}

/// The accepted shape of a number: an optional sign, then one to eighteen
/// digits.
pub open spec fn int_text_ok(s: Seq<char>) -> bool {
    if s.len() == 0 {
        false
    } else if s[0] == '+' || s[0] == '-' {
        1 <= s.len() - 1 <= 18 && digits_at(s, 1, s.len() as int)
    } else {
        1 <= s.len() <= 18 && digits_at(s, 0, s.len() as int)
    }
}

/// What a number string parses to, if it has the accepted shape.
pub open spec fn parse_i64_spec(s: Seq<char>) -> Option<int> {
    if int_text_ok(s) {
        let digits = if s[0] == '+' || s[0] == '-' {
            s.subrange(1, s.len() as int)
        } else {
            s
        };
        if s[0] == '-' {
            Some(-dec_val(digits))
        } else {
            Some(dec_val(digits))
        }
    } else {
        None
    }
}

/// Read a signed decimal number.
pub fn parse_i64(s: &str) -> (r: Option<i64>)
    ensures
        match r {
            Some(v) => parse_i64_spec(s@) == Some(v as int),
            None => parse_i64_spec(s@) is None,
        },
{
    let len = s.unicode_len();
    if len == 0 {
        return None;
    }
    let c0 = s.get_char(0);
    let neg = c0 == '-';
    let start: usize = if c0 == '-' || c0 == '+' {
        1
    } else {
        0
    };
    if len - start < 1 || len - start > 18 {
        return None;
    }
    let mut acc: u64 = 0;
    let mut i: usize = start;
    while i < len
        invariant
            start <= i <= len,
            len == s@.len(),
            start == 0 || start == 1,
            start == 1 <==> (s@[0] == '+' || s@[0] == '-'),
            neg <==> s@[0] == '-',
            1 <= len - start <= 18,
            digits_at(s@, start as int, i as int),
            acc as int == dec_val(s@.subrange(start as int, i as int)),
            (acc as int) < pow10((i - start) as nat),
        decreases len - i,
    {
        let d = match dig_at(s, i) {
            Some(d) => d,
            None => {
                // A non-digit where a digit is required: no accepted shape.
                proof {
                    assert(!crate::timestamp::is_dig(s@[i as int]));
                }
                return None;
            },
        };
        proof {
            lemma_pow10_mono((i - start) as nat, 17);
            reveal_with_fuel(pow10, 19);
            assert(pow10(17) == 100000000000000000);
        }
        acc = acc * 10 + d as u64;
        proof {
            let pre = s@.subrange(start as int, i as int);
            let post = s@.subrange(start as int, i + 1);
            assert(post.drop_last() =~= pre);
            assert(post.last() == s@[i as int]);
            assert forall|k: int| start <= k < i + 1 implies crate::timestamp::is_dig(
                #[trigger] s@[k],
            ) by {}
        }
        i += 1;
    }
    let ghost digits = if s@[0] == '+' || s@[0] == '-' {
        s@.subrange(1, s@.len() as int)
    } else {
        s@
    };
    proof {
        assert(s@.subrange(start as int, len as int) =~= digits);
        assert(int_text_ok(s@));
        lemma_pow10_mono((len - start) as nat, 18);
        reveal_with_fuel(pow10, 19);
        assert(pow10(18) == 1000000000000000000);
    }
    if neg {
        Some(-(acc as i64))
    } else {
        Some(acc as i64)
    }
}

/// The filters and limit of one range query over a dataset, as read from
/// the query string.
#[derive(Debug, PartialEq, Eq)]
pub struct QueryParams {
    pub id_filter: Option<i64>,
    pub since_filter: Option<i64>,
    pub limit: i64,
}

pub open spec fn default_params() -> QueryParams {
    QueryParams { id_filter: None, since_filter: None, limit: DEFAULT_QUERY_LIMIT }
}

pub open spec fn opt_i64(o: Option<int>) -> Option<i64> {
    match o {
        Some(v) => Some(v as i64),
        None => None,
    }
}

/// One `key=value` pair folded into the parameters: `id` and `since`
/// replace their filter with whatever the value parses to (a bad value
/// clears the filter), `limit` keeps its previous value when the new one
/// does not parse, and anything else is ignored.
pub open spec fn apply_param(q: QueryParams, key: Seq<char>, value: Seq<char>) -> QueryParams {
    if key == "id"@ {
        QueryParams { id_filter: opt_i64(parse_i64_spec(value)), ..q }
    } else if key == "since"@ {
        QueryParams { since_filter: opt_i64(parse_i64_spec(value)), ..q }
    } else if key == "limit"@ {
        match parse_i64_spec(value) {
            Some(v) => QueryParams { limit: v as i64, ..q },
            None => q,
        }
    } else {
        q
    }
}

pub open spec fn params_after(pairs: Seq<(String, String)>, q0: QueryParams) -> QueryParams
    decreases pairs.len(),
{
    if pairs.len() == 0 {
        q0
    } else {
        apply_param(params_after(pairs.drop_last(), q0), pairs.last().0@, pairs.last().1@)
    }
}

/// Fold the query-string pairs, in order, over the defaults.
pub fn parse_query_params(pairs: &Vec<(String, String)>) -> (q: QueryParams)
    ensures
        q == params_after(pairs@, default_params()),
{
    let mut q = QueryParams { id_filter: None, since_filter: None, limit: DEFAULT_QUERY_LIMIT };
    let n = pairs.len();
    let mut i: usize = 0;
    while i < n
        invariant
            i <= n,
            n == pairs@.len(),
            q == params_after(pairs@.take(i as int), default_params()),
        decreases n - i,
    {
        let key = &pairs[i].0;
        let value = &pairs[i].1;
        if str_eq(key.as_str(), "id") {
            q.id_filter = parse_i64(value.as_str());
        } else if str_eq(key.as_str(), "since") {
            q.since_filter = parse_i64(value.as_str());
        } else if str_eq(key.as_str(), "limit") {
            match parse_i64(value.as_str()) {
                Some(v) => {
                    q.limit = v;
                },
                None => {},
            }
        }
        proof {
            assert(pairs@.take(i + 1).drop_last() =~= pairs@.take(i as int));
            assert(pairs@.take(i + 1).last() == pairs@[i as int]);
        }
        i += 1;
    }
    proof {
        assert(pairs@.take(n as int) =~= pairs@);
    }
    q
}

/// The storage query the parameters call for: the dataset, the optional
/// filters, and the limit clamped to at least one row.
#[derive(Debug, PartialEq, Eq)]
pub struct ObjectQuery {
    pub resource: Resource,
    pub id_filter: Option<i64>,
    pub since_filter: Option<i64>,
    pub limit: i64,
}

pub fn object_query(resource: Resource, q: &QueryParams) -> (o: ObjectQuery)
    ensures
        o.resource == resource,
        o.id_filter == q.id_filter,
        o.since_filter == q.since_filter,
        o.limit == if q.limit < 1 {
            1i64
        } else {
            q.limit
        },
{
    ObjectQuery {
        resource,
        id_filter: q.id_filter,
        since_filter: q.since_filter,
        limit: if q.limit < 1 {
            1
        } else {
            q.limit
        },
    }
}

/// Why a lookup request is rejected.
#[derive(Debug, PartialEq, Eq)]
pub enum LookupError {
    UnknownResource,
    InvalidId,
}

/// Validate the path parameters of a single-object lookup: the dataset
/// tag must be one of the mirrored set and the id must be a number.
pub fn parse_lookup(resource_tag: &str, id_raw: &str) -> (r: Result<(Resource, i64), LookupError>)
    ensures
        match Resource::from_tag_spec(resource_tag@) {
            None => r == Err::<(Resource, i64), LookupError>(LookupError::UnknownResource),
            Some(res) => match parse_i64_spec(id_raw@) {
                Some(v) => r matches Ok(p) && p.0 == res && p.1 as int == v,
                None => r == Err::<(Resource, i64), LookupError>(LookupError::InvalidId),
            },
        },
{
    let resource = match Resource::from_tag(resource_tag) {
        Some(res) => res,
        None => {
            return Err(LookupError::UnknownResource);
        },
    };
    match parse_i64(id_raw) {
        Some(id) => Ok((resource, id)),
        None => Err(LookupError::InvalidId),
    }
}

/// The datasets one sync invocation covers: all of them, in dependency
/// order, unless a single known tag is asked for; an unknown tag is a
/// configuration error, rejected before any network activity.
pub fn select_datasets(filter: Option<&str>) -> (r: Result<Vec<Resource>, SyncError>)
    ensures
        match filter {
            None => r matches Ok(v) && v@ == dependency_order_spec(),
            Some(t) => match Resource::from_tag_spec(t@) {
                Some(res) => r matches Ok(v) && v@ =~= seq![res],
                None => r matches Err(e) && e matches SyncError::Configuration { tag } && tag@
                    == t@,
            },
        },
{
    match filter {
        None => Ok(dependency_order()),
        Some(t) => match Resource::from_tag(t) {
            Some(res) => {
                let mut v: Vec<Resource> = Vec::new();
                v.push(res);
                Ok(v)
            },
            None => Err(SyncError::Configuration { tag: String::from_str(t) }),
        },
    }
}

} // verus!
