use vstd::prelude::*;
use chrono::{DateTime, NaiveDateTime, TimeZone};
use chrono_tz::Asia::Tokyo;
use std::fmt::Write;

verus! {

/// The Unix timestamp of a wall-clock time in Asia/Tokyo read from `text` by
/// the strftime-style `format`, where the text matches and the wall-clock time
/// names exactly one instant.
pub uninterp spec fn tokyo_local_parse(text: Seq<char>, format: Seq<char>) -> Option<i64>;

/// The instant `seconds` after the Unix epoch, shown as wall-clock time in
/// Asia/Tokyo by the strftime-style `format`.
pub uninterp spec fn tokyo_formatted(seconds: i64, format: Seq<char>) -> Option<Seq<char>>;

/// First second that chrono's `DateTime<Utc>` holds: January 1, 262144 BCE.
pub const MIN_UTC_SECONDS: i64 = -8334601228800;

/// Last second that chrono's `DateTime<Utc>` holds: the end of December 31, 262142 CE.
pub const MAX_UTC_SECONDS: i64 = 8210266876799;

/// The instant `seconds` after the Unix epoch lies in the range of chrono's `DateTime<Utc>`.
pub open spec fn utc_representable(seconds: i64) -> bool {
    MIN_UTC_SECONDS <= seconds <= MAX_UTC_SECONDS
}

/// Relies on chrono's `NaiveDateTime::parse_from_str` and
/// `NaiveDateTime::and_local_timezone` with chrono-tz's Asia/Tokyo: reads a
/// Tokyo wall-clock time and gives its Unix timestamp; `None` where the text
/// does not match the format or the wall-clock time is skipped or repeated in
/// that zone. The outcome depends on the two strings alone.
#[verifier::external_body]
pub(crate) fn parse_tokyo_time(text: &str, format: &str) -> (r: Option<i64>)
    ensures
        r == tokyo_local_parse(text@, format@),
{
    let local = NaiveDateTime::parse_from_str(text, format).ok()?;
    local.and_local_timezone(Tokyo).single().map(|t| t.timestamp())
}

/// Relies on chrono's `TimeZone::timestamp_opt` and `DateTime::format` with
/// chrono-tz's Asia/Tokyo: shows an instant as Tokyo wall-clock time; `None`
/// where the instant is out of chrono's range or the format is malformed. The
/// outcome depends on the two arguments alone.
#[verifier::external_body]
pub(crate) fn format_tokyo_time(seconds: i64, format: &str) -> (r: Option<String>)
    ensures
        match r {
            Some(s) => tokyo_formatted(seconds, format@) == Some(s@),
            None => tokyo_formatted(seconds, format@) is None,
        },
{
    let t = Tokyo.timestamp_opt(seconds, 0).single()?;
    let mut s = String::new();
    write!(s, "{}", t.format(format)).ok()?;
    Some(s)
}

/// Relies on chrono's `DateTime::from_timestamp`: whether a whole number of
/// seconds since the Unix epoch is an instant that chrono can hold, that is
/// whether its day lies between `NaiveDate::MIN` and `NaiveDate::MAX`.
#[verifier::external_body]
pub(crate) fn is_utc_representable(seconds: i64) -> (r: bool)
    ensures
        r == utc_representable(seconds),
{
    DateTime::from_timestamp(seconds, 0).is_some()
}

} // verus!
