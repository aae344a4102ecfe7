//! Trusted boundary to chrono: the current time and RFC 3339 parsing.
//! Everything that decides on a timestamp takes it as a plain value, so
//! the decisions themselves are verified for every time the clock can
//! report.

use vstd::prelude::*;

verus! {

/// The POSIX timestamp, in whole seconds, that an RFC 3339 string denotes,
/// or `None` when the string is not a valid RFC 3339 date-and-time. The
/// value is the one chrono's parser assigns; it depends on the string
/// alone.
pub uninterp spec fn rfc3339_seconds_of(s: Seq<char>) -> Option<int>;

/// Relies on chrono's `Utc::now` and `DateTime::timestamp`: the current
/// time as whole seconds since the Unix epoch. `Utc::now` panics if the
/// system clock reads before the epoch and otherwise returns a time at or
/// after it, so the result is never negative.
#[verifier::external_body]
pub fn now_seconds() -> (r: i64)
    ensures
        0 <= r,
{
    chrono::Utc::now().timestamp()
}

/// Relies on chrono's `DateTime::parse_from_rfc3339` and
/// `DateTime::timestamp`: reads an RFC 3339 timestamp into whole seconds
/// since the epoch.
#[verifier::external_body]
pub(crate) fn parse_rfc3339_seconds(s: &str) -> (r: Option<i64>)
    ensures
        r is Some <==> rfc3339_seconds_of(s@) is Some,
        r matches Some(t) ==> rfc3339_seconds_of(s@) == Some(t as int),
{
    chrono::DateTime::parse_from_rfc3339(s).ok().map(|t| t.timestamp())
}

} // verus!
