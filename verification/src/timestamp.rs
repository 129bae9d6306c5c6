//! Conversion of stored `updated` timestamps to epoch seconds.
//!
//! The store keeps `updated` verbatim as the remote published it: an
//! ISO-8601-like string `YYYY-MM-DD`, a `T` or space, `HH:MM:SS`, then
//! optionally a fractional-seconds part and a trailing `Z`.  The watermark
//! is that string converted to whole epoch seconds (fraction ignored).  A
//! string of any other shape, or one dated before year 1, converts to
//! nothing: corrupt data degrades to a full resync, never to a failure.

use vstd::prelude::*;

verus! {

/// A decimal digit character.
pub open spec fn is_dig(c: char) -> bool {
    48 <= c as u32 <= 57
}

/// Its value.
pub open spec fn dv(c: char) -> int {
    c as u32 - 48
}

pub open spec fn digits_at(s: Seq<char>, from: int, to: int) -> bool {
    forall|i: int| from <= i < to ==> is_dig(#[trigger] s[i])
}

/// The value of two adjacent digits.
pub open spec fn two(s: Seq<char>, i: int) -> int {
    10 * dv(s[i]) + dv(s[i + 1])
}

/// The value of four adjacent digits.
pub open spec fn four(s: Seq<char>, i: int) -> int {
    1000 * dv(s[i]) + 100 * dv(s[i + 1]) + 10 * dv(s[i + 2]) + dv(s[i + 3])
}

/// Proleptic Gregorian leap year.
pub open spec fn is_leap(y: int) -> bool {
    y % 4 == 0 && (y % 100 != 0 || y % 400 == 0)
}

pub open spec fn days_in_month(y: int, m: int) -> int {
    if m == 2 {
        if is_leap(y) {
            29
        } else {
            28
        }
    } else if m == 4 || m == 6 || m == 9 || m == 11 {
        30
    } else {
        31
    }
}

/// Days of year `y` that precede the first of month `m`.
pub open spec fn days_before_month(y: int, m: int) -> int {
    let base: int = if m == 1 {
        0
    } else if m == 2 {
        31
    } else if m == 3 {
        59
    } else if m == 4 {
        90
    } else if m == 5 {
        120
    } else if m == 6 {
        151
    } else if m == 7 {
        181
    } else if m == 8 {
        212
    } else if m == 9 {
        243
    } else if m == 10 {
        273
    } else if m == 11 {
        304
    } else {
        334
    };
    base + if m >= 3 && is_leap(y) {
        1int
    } else {
        0int
    }
}

/// Days from 1970-01-01 to the given date of the proleptic Gregorian
/// calendar (negative for earlier dates), for years from 1 on.
pub open spec fn epoch_day(y: int, m: int, d: int) -> int {
    365 * (y - 1) + (y - 1) / 4 - (y - 1) / 100 + (y - 1) / 400 + days_before_month(y, m) + (d - 1)
        - 719162
}

/// The optional fractional-seconds digits, optionally closed by `Z`.
pub open spec fn frac_ok(u: Seq<char>) -> bool {
    if u.len() >= 1 && u[u.len() - 1] == 'Z' {
        u.len() >= 2 && digits_at(u, 0, u.len() - 1)
    } else {
        u.len() >= 1 && digits_at(u, 0, u.len() as int)
    }
}

/// What may follow the seconds: nothing, `Z`, or `.` and fraction digits,
/// themselves optionally closed by `Z`.
pub open spec fn suffix_ok(t: Seq<char>) -> bool {
    ||| t.len() == 0
    ||| (t.len() == 1 && t[0] == 'Z')
    ||| (t.len() >= 2 && t[0] == '.' && frac_ok(t.subrange(1, t.len() as int)))
}

/// The accepted timestamp shape, with all fields in calendar range.
pub open spec fn ts_format_ok(s: Seq<char>) -> bool {
    &&& s.len() >= 19
    &&& digits_at(s, 0, 4)
    &&& s[4] == '-'
    &&& digits_at(s, 5, 7)
    &&& s[7] == '-'
    &&& digits_at(s, 8, 10)
    &&& (s[10] == 'T' || s[10] == ' ')
    &&& digits_at(s, 11, 13)
    &&& s[13] == ':'
    &&& digits_at(s, 14, 16)
    &&& s[16] == ':'
    &&& digits_at(s, 17, 19)
    &&& suffix_ok(s.subrange(19, s.len() as int))
    &&& four(s, 0) >= 1
    &&& 1 <= two(s, 5) <= 12
    &&& 1 <= two(s, 8) <= days_in_month(four(s, 0), two(s, 5))
    &&& two(s, 11) <= 23
    &&& two(s, 14) <= 59
    &&& two(s, 17) <= 59
}

/// What a timestamp string converts to: its whole epoch seconds when it
/// has the accepted shape, nothing otherwise.
pub open spec fn parse_ts_spec(s: Seq<char>) -> Option<int> {
    if ts_format_ok(s) {
        Some(
            86400 * epoch_day(four(s, 0), two(s, 5), two(s, 8)) + 3600 * two(s, 11) + 60 * two(
                s,
                14,
            ) + two(s, 17),
        )
    } else {
        None
    }
}

/// The digit value at one position, when it is a digit.
pub(crate) fn dig_at(s: &str, i: usize) -> (r: Option<u32>)
    requires
        i < s@.len(),
    ensures
        r is Some <==> is_dig(s@[i as int]),
        r matches Some(v) ==> v == dv(s@[i as int]) && v <= 9,
{
    let c = s.get_char(i);
    let u = c as u32;
    if 48 <= u && u <= 57 {
        Some(u - 48)
    } else {
        None
    }
}

/// The value of two adjacent digits, when both are digits.
fn two_at(s: &str, i: usize) -> (r: Option<u32>)
    requires
        i + 2 <= s@.len() <= usize::MAX,
    ensures
        r is Some <==> digits_at(s@, i as int, i + 2),
        r matches Some(v) ==> v == two(s@, i as int) && v <= 99,
{
    let a = dig_at(s, i);
    let b = dig_at(s, i + 1);
    match (a, b) {
        (Some(x), Some(y)) => {
            proof {
                assert forall|k: int| i <= k < i + 2 implies is_dig(#[trigger] s@[k]) by {
                    if k == i {
                    } else {
                        assert(k == i + 1);
                    }
                }
            }
            Some(10 * x + y)
        },
        _ => {
            proof {
                if digits_at(s@, i as int, i + 2) {
                    assert(is_dig(s@[i as int]));
                    assert(is_dig(s@[i + 1]));
                }
            }
            None
        },
    }
}

/// The value of four adjacent digits, when all four are digits.
fn four_at(s: &str, i: usize) -> (r: Option<u32>)
    requires
        i + 4 <= s@.len() <= usize::MAX,
    ensures
        r is Some <==> digits_at(s@, i as int, i + 4),
        r matches Some(v) ==> v == four(s@, i as int) && v <= 9999,
{
    let hi = two_at(s, i);
    let lo = two_at(s, i + 2);
    match (hi, lo) {
        (Some(x), Some(y)) => {
            proof {
                assert forall|k: int| i <= k < i + 4 implies is_dig(#[trigger] s@[k]) by {
                    if k < i + 2 {
                        assert(digits_at(s@, i as int, i + 2));
                    } else {
                        assert(digits_at(s@, i + 2, i + 4));
                    }
                }
            }
            Some(100 * x + y)
        },
        _ => {
            proof {
                if digits_at(s@, i as int, i + 4) {
                    assert(digits_at(s@, i as int, i + 2));
                    assert(digits_at(s@, i + 2, i + 4));
                }
            }
            None
        },
    }
}

fn leap_exec(y: u32) -> (r: bool)
    ensures
        r == is_leap(y as int),
{
    y % 4 == 0 && (y % 100 != 0 || y % 400 == 0)
}

fn days_in_month_exec(y: u32, m: u32) -> (r: u32)
    ensures
        r == days_in_month(y as int, m as int),
{
    if m == 2 {
        if leap_exec(y) {
            29
        } else {
            28
        }
    } else if m == 4 || m == 6 || m == 9 || m == 11 {
        30
    } else {
        31
    }
}

fn days_before_month_exec(y: u32, m: u32) -> (r: u32)
    requires
        1 <= m <= 12,
    ensures
        r == days_before_month(y as int, m as int),
{
    let base: u32 = if m == 1 {
        0
    } else if m == 2 {
        31
    } else if m == 3 {
        59
    } else if m == 4 {
        90
    } else if m == 5 {
        120
    } else if m == 6 {
        151
    } else if m == 7 {
        181
    } else if m == 8 {
        212
    } else if m == 9 {
        243
    } else if m == 10 {
        273
    } else if m == 11 {
        304
    } else {
        334
    };
    if m >= 3 && leap_exec(y) {
        base + 1
    } else {
        base
    }
}

/// Check the optional suffix beyond position 19.
fn suffix_check(s: &str, len: usize) -> (r: bool)
    requires
        s@.len() == len,
        len >= 19,
    ensures
        r == suffix_ok(s@.subrange(19, s@.len() as int)),
{
    let ghost t = s@.subrange(19, s@.len() as int);
    if len == 19 {
        assert(t.len() == 0);
        return true;
    }
    let c = s.get_char(19);
    assert(t[0] == s@[19]);
    if c == 'Z' {
        if len == 20 {
            assert(t.len() == 1 && t[0] == 'Z');
            return true;
        }
        // A `Z` followed by anything more fits no accepted suffix.
        assert(!suffix_ok(t));
        return false;
    }
    if c != '.' {
        assert(!suffix_ok(t));
        return false;
    }
    // Fraction digits, optionally closed by `Z`.
    let last = s.get_char(len - 1);
    let end: usize = if last == 'Z' {
        len - 1
    } else {
        len
    };
    assert(t[t.len() - 1] == s@[len - 1]);
    if end <= 20 {
        // No digit between the dot and the end.
        proof {
            let u = t.subrange(1, t.len() as int);
            assert(u.len() == len - 20);
            if u.len() >= 1 {
                assert(u[u.len() - 1] == s@[len - 1]);
            }
            assert(!suffix_ok(t));
        }
        return false;
    }
    let mut j: usize = 20;
    while j < end
        invariant
            20 <= j <= end,
            end <= len,
            end >= 21,
            s@.len() == len,
            len >= 21,
            s@[19] == '.',
            (end == len - 1 && s@[len - 1] == 'Z') || (end == len && s@[len - 1] != 'Z'),
            forall|k: int| 20 <= k < j ==> is_dig(#[trigger] s@[k]),
        decreases end - j,
    {
        if dig_at(s, j).is_none() {
            // A non-digit inside the fraction.
            proof {
                let t2 = s@.subrange(19, s@.len() as int);
                let u = t2.subrange(1, t2.len() as int);
                assert(u.len() == len - 20);
                assert(u[j - 20] == s@[j as int]);
                assert(u[u.len() - 1] == s@[len - 1]);
                if end == len - 1 {
                    assert(u[u.len() - 1] == 'Z');
                    assert(j - 20 < u.len() - 1);
                    assert(!frac_ok(u));
                } else {
                    assert(!frac_ok(u));
                }
                assert(t2[0] == s@[19]);
                assert(!suffix_ok(t2));
            }
            return false;
        }
        j += 1;
    }
    proof {
        let t2 = s@.subrange(19, s@.len() as int);
        let u = t2.subrange(1, t2.len() as int);
        assert(u.len() == len - 20);
        assert forall|k: int| 0 <= k < end - 20 implies is_dig(#[trigger] u[k]) by {
            assert(u[k] == s@[k + 20]);
        }
        assert(u[u.len() - 1] == s@[len - 1]);
        if end == len - 1 {
            assert(u[u.len() - 1] == 'Z');
            assert(digits_at(u, 0, u.len() - 1));
            assert(frac_ok(u));
        } else {
            assert(digits_at(u, 0, u.len() as int));
            assert(frac_ok(u));
        }
        assert(t2[0] == s@[19]);
        assert(suffix_ok(t2));
    }
    true
}

/// Convert a stored timestamp string to whole epoch seconds, or nothing
/// when it does not have the accepted shape.
pub fn parse_epoch(s: &str) -> (r: Option<i64>)
    ensures
        match r {
            Some(v) => parse_ts_spec(s@) == Some(v as int),
            None => parse_ts_spec(s@) is None,
        },
{
    let len = s.unicode_len();
    if len < 19 {
        return None;
    }
    if s.get_char(4) != '-' || s.get_char(7) != '-' || s.get_char(13) != ':' || s.get_char(16)
        != ':' {
        return None;
    }
    let sep = s.get_char(10);
    if sep != 'T' && sep != ' ' {
        return None;
    }
    let y = match four_at(s, 0) {
        Some(v) => v,
        None => { return None; },
    };
    let mo = match two_at(s, 5) {
        Some(v) => v,
        None => { return None; },
    };
    let dy = match two_at(s, 8) {
        Some(v) => v,
        None => { return None; },
    };
    let hh = match two_at(s, 11) {
        Some(v) => v,
        None => { return None; },
    };
    let mi = match two_at(s, 14) {
        Some(v) => v,
        None => { return None; },
    };
    let ss = match two_at(s, 17) {
        Some(v) => v,
        None => { return None; },
    };
    if y < 1 || mo < 1 || mo > 12 || dy < 1 || dy > days_in_month_exec(y, mo) || hh > 23 || mi
        > 59 || ss > 59 {
        return None;
    }
    if !suffix_check(s, len) {
        return None;
    }
    assert(ts_format_ok(s@));
    let yi = (y - 1) as i64;
    let day: i64 = 365 * yi + yi / 4 - yi / 100 + yi / 400 + days_before_month_exec(y, mo) as i64
        + (dy - 1) as i64 - 719162;
    let secs: i64 = 86400 * day + 3600 * hh as i64 + 60 * mi as i64 + ss as i64;
    proof {
        assert(yi as int == four(s@, 0) - 1);
        assert(day as int == epoch_day(four(s@, 0), two(s@, 5), two(s@, 8)));
    }
    Some(secs)
}

} // verus!
