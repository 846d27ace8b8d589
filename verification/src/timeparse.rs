//! Timestamp parsing for filter values, through the chrono crate.
//!
//! A filter value given as text is read first as an RFC 3339 instant and,
//! failing that, against a fixed naive format. The outside parser's result
//! is reduced to a pair of plain integers (whole seconds since the epoch
//! and sub-second microseconds) and combined into a single microsecond
//! count by verified code.

use vstd::prelude::*;

verus! {

pub uninterp spec fn rfc3339_parts_of(s: Seq<char>) -> Option<(i64, u32)>;

pub uninterp spec fn strptime_parts_of(s: Seq<char>, fmt: Seq<char>) -> Option<(i64, u32)>;

/// Relies on chrono's `DateTime::parse_from_rfc3339`, `timestamp`, and
/// `timestamp_subsec_micros`: the outcome depends on the input text alone;
/// on success the pair holds the parsed instant's whole seconds since the
/// epoch and its sub-second microseconds.
#[verifier::external_body]
fn parse_rfc3339_parts(s: &str) -> (r: Option<(i64, u32)>)
    ensures
        r == rfc3339_parts_of(s@),
{
    match chrono::DateTime::parse_from_rfc3339(s) {
        Ok(dt) => Some((dt.timestamp(), dt.timestamp_subsec_micros())),
        Err(_) => None,
    }
}

/// Relies on chrono's `NaiveDateTime::parse_from_str`, `timestamp`, and
/// `timestamp_subsec_micros`: the outcome depends on the input text and
/// the format alone; on success the pair holds the parsed instant's whole
/// seconds since the epoch (read as UTC) and its sub-second microseconds.
#[verifier::external_body]
fn parse_strptime_parts(s: &str, fmt: &str) -> (r: Option<(i64, u32)>)
    ensures
        r == strptime_parts_of(s@, fmt@),
{
    match chrono::NaiveDateTime::parse_from_str(s, fmt) {
        Ok(dt) => {
            let u = dt.and_utc();
            Some((u.timestamp(), u.timestamp_subsec_micros()))
        },
        Err(_) => None,
    }
}

/// The microsecond count of a parsed instant, when it fits an `i64`.
pub open spec fn micros_of_parts(p: (i64, u32)) -> Option<i64> {
    let t = p.0 * 1000000 + p.1;
    if i64::MIN <= t <= i64::MAX {
        Some(t as i64)
    } else {
        None
    }
}

/// The fixed fallback format for naive timestamps.
pub open spec fn naive_fmt() -> Seq<char> {
    "%Y-%m-%dT%H:%M:%S%.f"@
}

/// The microsecond timestamp denoted by a filter text: RFC 3339 first,
/// then the fixed naive format; `None` when neither parses or the value
/// does not fit microseconds in an `i64`.
pub open spec fn timestamp_micros_of(s: Seq<char>) -> Option<i64> {
    match rfc3339_parts_of(s) {
        Some(p) => micros_of_parts(p),
        None => match strptime_parts_of(s, naive_fmt()) {
            Some(p) => micros_of_parts(p),
            None => None,
        },
    }
}

/// Combines parsed parts into a microsecond count.
fn micros_of(p: (i64, u32)) -> (r: Option<i64>)
    ensures
        r == micros_of_parts(p),
{
    let t: i128 = (p.0 as i128) * 1000000 + (p.1 as i128);
    if -9223372036854775808i128 <= t && t <= 9223372036854775807i128 {
        Some(t as i64)
    } else {
        None
    }
}

/// Parses a filter text to a microsecond timestamp.
pub fn parse_timestamp_micros(s: &str) -> (r: Option<i64>)
    ensures
        r == timestamp_micros_of(s@),
{
    match parse_rfc3339_parts(s) {
        Some(p) => micros_of(p),
        None => {
            match parse_strptime_parts(s, "%Y-%m-%dT%H:%M:%S%.f") {
                Some(p) => micros_of(p),
                None => None,
            }
        },
    }
}

} // verus!
