//! Instants as whole seconds since the Unix epoch (UTC), durations as whole
//! seconds, and the calendar facts the service needs: where days and hours
//! begin, and how a day is named.

use vstd::prelude::*;
use vstd::string::StringExecFns;
use chrono::DateTime;
use chrono::NaiveDate;
use chrono::Timelike;

verus! {

/// The smallest instant the calendar can represent (January 1 of year -262143).
pub const MIN_TIMESTAMP: i64 = -8334601315200;

/// The largest instant the calendar can represent (December 31 of year 262142).
pub const MAX_TIMESTAMP: i64 = 8210266876799;

/// The day of `MIN_TIMESTAMP`, counted from January 1, 1970.
pub const MIN_DAY: i32 = -96465293;

/// The day of `MAX_TIMESTAMP`, counted from January 1, 1970.
pub const MAX_DAY: i32 = 95026236;

/// The largest magnitude of a duration, in seconds.
pub const MAX_DURATION_SECS: i64 = 9223372036854775;

pub const SECS_PER_MINUTE: i64 = 60;
pub const SECS_PER_HOUR: i64 = 3600;
pub const SECS_PER_DAY: i64 = 86400;

/// The service's day begins this many hours after midnight UTC.
pub const TIME_OFFSET_HOURS: i64 = 4;

/// `TIME_OFFSET_HOURS` in seconds.
pub const TIME_OFFSET_SECS: i64 = 14400;

/// How long fetched times stay usable, in seconds.
pub const CACHE_TTL_SECONDS: i64 = 60;

/// Whether `t` seconds since the epoch is a representable instant.
pub open spec fn valid_timestamp(t: int) -> bool {
    MIN_TIMESTAMP <= t <= MAX_TIMESTAMP
}

/// Whether `d` (days since January 1, 1970) is a representable date.
pub open spec fn valid_day(d: int) -> bool {
    MIN_DAY <= d <= MAX_DAY
}

/// Whether `s` seconds is a representable duration.
pub open spec fn valid_duration(s: int) -> bool {
    -MAX_DURATION_SECS <= s <= MAX_DURATION_SECS
}

/// Whether `t` seconds since the epoch is a representable instant.
pub fn is_valid_timestamp(t: i64) -> (ok: bool)
    ensures
        ok == valid_timestamp(t as int),
{
    MIN_TIMESTAMP <= t && t <= MAX_TIMESTAMP
}

/// Midnight (UTC) of the day of instant `t`.
pub open spec fn day_floor(t: int) -> int {
    t - t % 86400
}

/// The start of the hour of instant `t`.
pub open spec fn hour_floor(t: int) -> int {
    t - t % 3600
}

/// The English name of a weekday, Monday being 0.
pub open spec fn weekday_name(i: int) -> Seq<char> {
    if i == 0 { "Monday"@ }
    else if i == 1 { "Tuesday"@ }
    else if i == 2 { "Wednesday"@ }
    else if i == 3 { "Thursday"@ }
    else if i == 4 { "Friday"@ }
    else if i == 5 { "Saturday"@ }
    else { "Sunday"@ }
}

/// The weekday of day `d` (counted from January 1, 1970, a Thursday),
/// Monday being 0.
pub open spec fn weekday_of(d: int) -> int {
    (d + 3) % 7
}

/// The ISO 8601 text ("2024-05-17") of the date `day` days after
/// January 1, 1970.
pub uninterp spec fn date_text(day: i32) -> Seq<char>;

/// The system clock's reading in whole seconds since the Unix epoch:
/// `std::time::SystemTime::now()`, taken `duration_since(UNIX_EPOCH)` and
/// counted with `as_secs()`; nothing when the clock reads earlier than the
/// epoch. The reading depends on the time alone, so nothing is stated of
/// its value.
#[verifier::external_body]
pub(crate) fn system_clock_secs() -> (secs: Option<u64>) {
    match std::time::SystemTime::now().duration_since(std::time::UNIX_EPOCH) {
        Ok(elapsed) => Some(elapsed.as_secs()),
        Err(_) => None,
    }
}

/// The date of an instant: `DateTime::from_timestamp(t, 0)`, then
/// `date_naive().to_epoch_days()`: the day number, rounded down.
#[verifier::external_body]
fn epoch_day(t: i64) -> (d: i32)
    requires
        valid_timestamp(t as int),
    ensures
        d as int == t as int / 86400,
{
    DateTime::from_timestamp(t, 0).unwrap().date_naive().to_epoch_days()
}

/// Midnight of the date of an instant: `date_naive().and_hms_opt(0, 0, 0)`
/// then `and_utc().timestamp()` on `DateTime::from_timestamp(t, 0)`.
#[verifier::external_body]
pub(crate) fn midnight(t: i64) -> (m: i64)
    requires
        valid_timestamp(t as int),
    ensures
        m as int == day_floor(t as int),
{
    DateTime::from_timestamp(t, 0).unwrap().date_naive().and_hms_opt(0, 0, 0).unwrap().and_utc().timestamp()
}

/// The start of the hour of an instant: `with_minute(0)`, `with_second(0)`
/// and `with_nanosecond(0)` on `DateTime::from_timestamp(t, 0)`.
#[verifier::external_body]
fn hour_start(t: i64) -> (h: i64)
    requires
        valid_timestamp(t as int),
    ensures
        h as int == hour_floor(t as int),
{
    DateTime::from_timestamp(t, 0).unwrap().with_minute(0).unwrap().with_second(0).unwrap().with_nanosecond(
        0,
    ).unwrap().timestamp()
}

/// The full weekday name of a date: `NaiveDate::from_epoch_days(day)`, then
/// `format("%A")`.
#[verifier::external_body]
fn weekday_text(day: i32) -> (s: String)
    requires
        valid_day(day as int),
    ensures
        s@ == weekday_name(weekday_of(day as int)),
{
    NaiveDate::from_epoch_days(day).unwrap().format("%A").to_string()
}

/// The ISO 8601 text of a date: `NaiveDate::from_epoch_days(day)`, shown
/// with `Display`.
#[verifier::external_body]
fn iso_date(day: i32) -> (s: String)
    requires
        valid_day(day as int),
    ensures
        s@ == date_text(day),
{
    NaiveDate::from_epoch_days(day).unwrap().to_string()
}

/// The day number of the service's day at instant `t`: days begin
/// `TIME_OFFSET_HOURS` after midnight UTC.
pub fn service_day(t: i64) -> (d: i32)
    requires
        valid_timestamp(t - TIME_OFFSET_SECS),
    ensures
        d as int == (t - TIME_OFFSET_SECS) / 86400,
        valid_day(d as int),
{
    epoch_day(t - TIME_OFFSET_SECS)
}

/// The period whose activity counts for the date of `date`: from
/// `TIME_OFFSET_HOURS` after its midnight UTC, for one day.
pub fn query_period(date: i64) -> (res: (i64, i64))
    requires
        valid_timestamp(date as int),
        valid_timestamp(day_floor(date as int) + TIME_OFFSET_SECS + SECS_PER_DAY),
    ensures
        res.0 == day_floor(date as int) + TIME_OFFSET_SECS,
        res.1 == res.0 + SECS_PER_DAY,
{
    let start = midnight(date) + TIME_OFFSET_SECS;
    (start, start + SECS_PER_DAY)
}

/// Seconds from `now` to the start of the next whole hour (a full hour when
/// `now` is on the hour).
pub fn seconds_until_next_hour(now: i64) -> (wait: i64)
    requires
        valid_timestamp(now as int),
        valid_timestamp(now + SECS_PER_HOUR),
    ensures
        wait == 3600 - now % 3600,
        1 <= wait <= 3600,
        (now + wait) % 3600 == 0,
{
    let next = hour_start(now + SECS_PER_HOUR);
    assert((now + 3600) % 3600 == now % 3600);
    next - now
}

/// Seconds from `now` to the start of the next service day
/// (`TIME_OFFSET_HOURS` after midnight UTC); a full day when `now` is such a
/// start.
pub fn seconds_until_next_day_start(now: i64) -> (wait: i64)
    requires
        valid_timestamp(now - TIME_OFFSET_SECS),
        valid_timestamp(day_floor(now - TIME_OFFSET_SECS) + SECS_PER_DAY + TIME_OFFSET_SECS),
    ensures
        wait == 86400 - (now - TIME_OFFSET_SECS) % 86400,
        1 <= wait <= 86400,
        (now + wait - TIME_OFFSET_SECS) % 86400 == 0,
        (now + wait - TIME_OFFSET_SECS) / 86400 == (now - TIME_OFFSET_SECS) / 86400 + 1,
{
    let start = midnight(now - TIME_OFFSET_SECS) + SECS_PER_DAY + TIME_OFFSET_SECS;
    let ghost t = now - TIME_OFFSET_SECS;
    assert((t + (86400 - t % 86400)) % 86400 == 0 && (t + (86400 - t % 86400)) / 86400 == t / 86400 + 1) by {
        assert(t == 86400 * (t / 86400) + t % 86400);
        assert(t + (86400 - t % 86400) == 86400 * (t / 86400 + 1));
        vstd::arithmetic::div_mod::lemma_mod_multiples_basic(t / 86400 + 1, 86400);
        vstd::arithmetic::div_mod::lemma_div_multiples_vanish(t / 86400 + 1, 86400);
    }
    start - now
}

/// The next start of a service day after the date of `now`: midnight UTC of
/// the following date plus `TIME_OFFSET_HOURS`.
pub fn next_day_start(now: i64) -> (t: i64)
    requires
        valid_timestamp(now as int),
        valid_timestamp(day_floor(now as int) + SECS_PER_DAY + TIME_OFFSET_SECS),
    ensures
        t == day_floor(now as int) + SECS_PER_DAY + TIME_OFFSET_SECS,
{
    midnight(now) + SECS_PER_DAY + TIME_OFFSET_SECS
}

/// The key under which the times of the date of `date` are cached: the
/// ISO 8601 text of that date.
pub fn cache_key(date: i64) -> (key: String)
    requires
        valid_timestamp(date as int),
    ensures
        key@ == date_text((date as int / 86400) as i32),
{
    iso_date(epoch_day(date))
}

/// Whether times fetched at `cached_at` may still be used at `now`.
pub fn cache_is_fresh(cached_at: i64, now: i64) -> (fresh: bool)
    requires
        valid_timestamp(cached_at as int),
        valid_timestamp(now as int),
    ensures
        fresh == (now - cached_at < CACHE_TTL_SECONDS),
{
    now - cached_at < CACHE_TTL_SECONDS
}

/// What was fetched at `cached_at` (and is held in `cached`), when it may
/// still be used at `now`: the same times, else nothing.
pub fn reuse_cached(cached: Option<&(i64, crate::times::CategoryTimes)>, now: i64) -> (res: Option<crate::times::CategoryTimes>)
    requires
        cached matches Some(c) ==> valid_timestamp(c.0 as int),
        valid_timestamp(now as int),
    ensures
        res is Some <==> (cached matches Some(c) && now - c.0 < CACHE_TTL_SECONDS),
        res matches Some(t) ==> (match cached {
            Some(c) => t@ == c.1@,
            None => false,
        }),
{
    match cached {
        Some(c) => {
            if cache_is_fresh(c.0, now) {
                Some(c.1.clone())
            } else {
                None
            }
        },
        None => None,
    }
}

/// The text announcing a new day, as in "It is Friday, 2024-05-17".
pub open spec fn new_day_text(day: i32) -> Seq<char> {
    "It is "@ + weekday_name(weekday_of(day as int)) + ", "@ + date_text(day)
}

/// The text announcing the new day `day`.
pub fn new_day_message(day: i32) -> (msg: String)
    requires
        valid_day(day as int),
    ensures
        msg@ == new_day_text(day),
{
    let mut msg = String::from_str("It is ");
    let weekday = weekday_text(day);
    msg.append(weekday.as_str());
    msg.append(", ");
    let date = iso_date(day);
    msg.append(date.as_str());
    msg
}

/// The hourly waits give one wake per hour: any instant at or after the
/// end of the wait from `now` lies in a later hour than `now`.
pub proof fn law_hourly_wakes_in_later_hours(now: int, later: int)
    requires
        later >= now + (3600 - now % 3600),
    ensures
        later / 3600 > now / 3600,
{
    assert(now == 3600 * (now / 3600) + now % 3600);
    assert(now + (3600 - now % 3600) == 3600 * (now / 3600 + 1));
    vstd::arithmetic::div_mod::lemma_div_multiples_vanish(now / 3600 + 1, 3600);
    vstd::arithmetic::div_mod::lemma_div_is_ordered(now + (3600 - now % 3600), later, 3600);
}

} // verus!
