use vstd::prelude::*;

use chrono::TimeZone;

verus! {

/// The earliest second (since 1970, UTC) that is written out as a date.
pub const MIN_SECONDS: i64 = -8_000_000_000_000;

/// The latest second (since 1970, UTC) that is written out as a date.
pub const MAX_SECONDS: i64 = 8_000_000_000_000;

/// Whether `secs` lies in the range of dates that can be written out.
pub open spec fn in_date_range(secs: i64) -> bool {
    MIN_SECONDS <= secs <= MAX_SECONDS
}

/// Whether `secs` lies in the range of dates that can be written out.
pub fn date_in_range(secs: i64) -> (r: bool)
    ensures
        r == in_date_range(secs),
{
    MIN_SECONDS <= secs && secs <= MAX_SECONDS
}

/// The RFC 3339 text of the UTC time `secs` seconds after 1970.
pub uninterp spec fn rfc3339_utc(secs: i64) -> Seq<char>;

/// The seconds since 1970 of an RFC 3339 date and time, if `s` is one.
pub uninterp spec fn rfc3339_seconds(s: Seq<char>) -> Option<i64>;

/// Relies on chrono's `TimeZone::timestamp_opt` for `Utc`, which gives one
/// time for every second within chrono's years -262142 to 262142 (some
/// 8.2e12 seconds either side of 1970), and on `DateTime::to_rfc3339`.
#[verifier::external_body]
pub(crate) fn format_utc(secs: i64) -> (r: String)
    requires
        in_date_range(secs),
    ensures
        r@ == rfc3339_utc(secs),
{
    chrono::Utc.timestamp_opt(secs, 0).unwrap().to_rfc3339()
}

/// Relies on chrono's `DateTime::parse_from_rfc3339`, and `DateTime::timestamp`
/// for the seconds since 1970 of what it parsed.
#[verifier::external_body]
pub(crate) fn parse_rfc3339(s: &str) -> (r: Option<i64>)
    ensures
        r == rfc3339_seconds(s@),
{
    chrono::DateTime::parse_from_rfc3339(s).ok().map(|d| d.timestamp())
}

} // verus!
