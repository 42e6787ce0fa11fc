//! Moments in UTC, as seconds since the Unix epoch. The calendar is the `chrono` crate's.
use vstd::prelude::*;
use chrono::DateTime;
use chrono::Timelike;

verus! {

/// The first second that the calendar reaches.
pub const FIRST_SECOND: i64 = -8_334_601_228_800;

/// The last second that the calendar reaches.
pub const LAST_SECOND: i64 = 8_210_266_876_799;

/// Whether the calendar reaches the second.
pub open spec fn is_moment(secs: i64) -> bool {
    FIRST_SECOND <= secs <= LAST_SECOND
}

/// Whether the second has a nanosecond of this number. Only the last second of a minute has more
/// than a thousand million of them: where a leap second follows, it counts on.
pub open spec fn is_nanosecond(secs: i64, nanos: u32) -> bool {
    nanos < 1_000_000_000 || (nanos < 2_000_000_000 && secs as int % 60 == 59)
}

/// How many whole minutes have passed since midnight.
pub open spec fn minute_of_day(secs: i64) -> int {
    (secs as int % 86_400) / 60
}

/// The minute of the day is made of its hour and its minute.
pub(crate) proof fn lemma_minute_of_day(secs: i64)
    ensures
        (secs as int % 86_400) / 3600 * 60 + (secs as int % 3600) / 60 == minute_of_day(secs),
        0 <= (secs as int % 86_400) / 3600 < 24,
        0 <= (secs as int % 3600) / 60 < 60,
{
}

/// What `chrono::DateTime::format` writes of a second in UTC, under a format string.
pub uninterp spec fn formatted(secs: i64, format: Seq<char>) -> Seq<char>;

/// What `chrono::DateTime::to_rfc3339` writes of a nanosecond in UTC.
pub uninterp spec fn rfc3339(secs: i64, nanos: u32) -> Seq<char>;

/// The format of the time in a file name.
pub const FILE_STAMP_FORMAT: &'static str = "%Y%m%d-%H%M%S";

/// Calls `chrono::Timelike::hour` on a `chrono::DateTime<Utc>`, and claims that the hour is
/// counted from midnight, where every day has 86,400 seconds.
#[verifier::external_body]
pub(crate) fn utc_hour(secs: i64) -> (r: u32)
    requires
        is_moment(secs),
    ensures
        r == (secs as int % 86_400) / 3600,
{
    DateTime::from_timestamp(secs, 0).unwrap().hour()
}

/// Calls `chrono::Timelike::minute` on a `chrono::DateTime<Utc>`, and claims that the minute is
/// counted from the full hour.
#[verifier::external_body]
pub(crate) fn utc_minute(secs: i64) -> (r: u32)
    requires
        is_moment(secs),
    ensures
        r == (secs as int % 3600) / 60,
{
    DateTime::from_timestamp(secs, 0).unwrap().minute()
}

/// Calls `chrono::DateTime::format`, and claims only that the text depends on the second and the
/// format alone.
#[verifier::external_body]
pub(crate) fn format_utc(secs: i64, format: &str) -> (r: String)
    requires
        is_moment(secs),
        format@ == FILE_STAMP_FORMAT@,
    ensures
        r@ == formatted(secs, format@),
{
    DateTime::from_timestamp(secs, 0).unwrap().format(format).to_string()
}

/// Calls `chrono::DateTime::to_rfc3339`, and claims only that the text depends on the moment
/// alone.
#[verifier::external_body]
pub(crate) fn to_rfc3339(secs: i64, nanos: u32) -> (r: String)
    requires
        is_moment(secs),
        is_nanosecond(secs, nanos),
    ensures
        r@ == rfc3339(secs, nanos),
{
    DateTime::from_timestamp(secs, nanos).unwrap().to_rfc3339()
}

} // verus!
