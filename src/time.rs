//! Timestamps are whole seconds since the Unix epoch, in UTC.
use vstd::prelude::*;
use vstd::arithmetic::div_mod::lemma_mod_multiples_vanish;
use chrono::Datelike;

verus! {

/// 0000-01-01T00:00:00Z, the first instant with a four-digit year.
pub const MIN_TIME: i64 = -62167219200;

/// 9999-12-31T23:59:59Z, the last instant with a four-digit year.
pub const MAX_TIME: i64 = 253402300799;

pub const MINUTE: i64 = 60;

pub const HOUR: i64 = 3600;

pub const DAY: i64 = 86400;

pub const WEEK: i64 = 604800;

/// 1970-01-05T00:00:00Z, a Monday.
pub const MONDAY_EPOCH: i64 = 345600;

/// A Monday midnight no later than `MIN_TIME`; every unit below divides the
/// distance between it and midnight of any day.
const ALIGNED_BASE: i64 = -62167651200;

pub open spec fn valid_time(t: int) -> bool {
    MIN_TIME <= t <= MAX_TIME
}

/// The latest instant `r <= t` with `r - offset` a multiple of `unit`.
pub open spec fn floor_aligned(t: int, offset: int, unit: int) -> int {
    t - (t - offset) % unit
}

pub open spec fn minute_start(t: int) -> int {
    floor_aligned(t, 0, MINUTE as int)
}

pub open spec fn hour_start(t: int) -> int {
    floor_aligned(t, 0, HOUR as int)
}

pub open spec fn day_start(t: int) -> int {
    floor_aligned(t, 0, DAY as int)
}

/// Monday 00:00:00 of the ISO week holding `t`.
pub open spec fn week_start(t: int) -> int {
    floor_aligned(t, MONDAY_EPOCH as int, WEEK as int)
}

/// Midnight of the first day of the calendar month holding `t`.
pub uninterp spec fn month_start(t: int) -> int;

/// Midnight of January 1 of the calendar year holding `t`.
pub uninterp spec fn year_start(t: int) -> int;

/// How chrono displays the instant `t` ("2024-01-01 00:00:00 UTC").
pub uninterp spec fn utc_text(t: int) -> Seq<char>;

fn floor_to_unit(t: i64, offset: i64, unit: i64) -> (r: i64)
    requires
        valid_time(t as int),
        (offset == 0 && (unit == 1 || unit == MINUTE || unit == HOUR || unit == DAY))
            || (offset == MONDAY_EPOCH && unit == WEEK),
    ensures
        r == floor_aligned(t as int, offset as int, unit as int),
        r <= t,
        t - r < unit,
{
    let x: i64 = t - ALIGNED_BASE;
    let m: i64 = x % unit;
    proof {
        let k: int = if unit == 1 {
            ALIGNED_BASE as int
        } else if unit == MINUTE {
            -1036127520
        } else if unit == HOUR {
            -17268792
        } else if unit == DAY {
            -719533
        } else {
            -102791
        };
        assert(ALIGNED_BASE - offset == unit * k);
        lemma_mod_multiples_vanish(k, x as int, unit as int);
        assert(t - offset == unit * k + x);
    }
    t - m
}

pub fn minute_floor(t: i64) -> (r: i64)
    requires
        valid_time(t as int),
    ensures
        r == minute_start(t as int),
        t - MINUTE < r <= t,
{
    floor_to_unit(t, 0, MINUTE)
}

pub fn hour_floor(t: i64) -> (r: i64)
    requires
        valid_time(t as int),
    ensures
        r == hour_start(t as int),
        t - HOUR < r <= t,
{
    floor_to_unit(t, 0, HOUR)
}

pub fn day_floor(t: i64) -> (r: i64)
    requires
        valid_time(t as int),
    ensures
        r == day_start(t as int),
        t - DAY < r <= t,
{
    floor_to_unit(t, 0, DAY)
}

pub fn week_floor(t: i64) -> (r: i64)
    requires
        valid_time(t as int),
    ensures
        r == week_start(t as int),
        t - WEEK < r <= t,
{
    floor_to_unit(t, MONDAY_EPOCH, WEEK)
}

/// Relies on chrono's calendar (`DateTime::from_timestamp`, `with_day`):
/// midnight of day 1 of the same month, at most 31 days back.
#[verifier::external_body]
pub(crate) fn month_floor(t: i64) -> (r: i64)
    requires
        valid_time(t as int),
    ensures
        r == month_start(t as int),
        t - 31 * DAY < r <= t,
{
    let d = chrono::DateTime::from_timestamp(t, 0).unwrap().date_naive();
    d.with_day(1).unwrap().and_hms_opt(0, 0, 0).unwrap().and_utc().timestamp()
}

/// Relies on chrono's calendar (`DateTime::from_timestamp`, `with_ordinal`):
/// midnight of January 1 of the same year, at most 366 days back.
#[verifier::external_body]
pub(crate) fn year_floor(t: i64) -> (r: i64)
    requires
        valid_time(t as int),
    ensures
        r == year_start(t as int),
        t - 366 * DAY < r <= t,
{
    let d = chrono::DateTime::from_timestamp(t, 0).unwrap().date_naive();
    d.with_ordinal(1).unwrap().and_hms_opt(0, 0, 0).unwrap().and_utc().timestamp()
}

/// Relies on chrono's `Display` for `DateTime<Utc>`.
#[verifier::external_body]
pub(crate) fn format_utc(t: i64) -> (r: String)
    requires
        valid_time(t as int),
    ensures
        r@ == utc_text(t as int),
{
    chrono::DateTime::from_timestamp(t, 0).unwrap().to_string()
}

#[verifier::external_type_specification]
#[verifier::external_body]
pub struct ExSystemTime(std::time::SystemTime);

/// Relies on std's `SystemTime::now`: the system clock, which may read any
/// instant, before the epoch too.
#[verifier::external_body]
fn system_now() -> (r: std::time::SystemTime) {
    std::time::SystemTime::now()
}

/// Relies on std's `SystemTime::duration_since(UNIX_EPOCH)`: the whole
/// seconds after the epoch, `None` for an instant before it.
#[verifier::external_body]
fn seconds_after_epoch(t: std::time::SystemTime) -> (r: Option<u64>) {
    match t.duration_since(std::time::UNIX_EPOCH) {
        Ok(d) => Some(d.as_secs()),
        Err(_) => None,
    }
}

/// The current time, when the clock reads an instant from the epoch to the
/// end of year 9999.
pub fn current_time() -> (r: Option<i64>)
    ensures
        r matches Some(t) ==> valid_time(t as int),
{
    match seconds_after_epoch(system_now()) {
        Some(s) => {
            if s <= MAX_TIME as u64 {
                Some(s as i64)
            } else {
                None
            }
        },
        None => None,
    }
}

} // verus!
