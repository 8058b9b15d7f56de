//! Commit timestamps and their calendar decomposition.
//!
//! The library stores every commit timestamp as a plain count of seconds
//! since the Unix epoch (UTC).  Ordering and arithmetic on timestamps are
//! therefore ordinary integer operations and fully verified.  The one thing
//! the library cannot compute for itself is the civil-calendar reading of an
//! epoch second (year, month, day, ...); that is obtained from the `chrono`
//! crate through the trusted wrappers below and carried around as a plain
//! `CalendarStamp` value afterwards.

use chrono::Datelike;
use chrono::Timelike;
use vstd::prelude::*;

verus! {

/// The last epoch second this library accepts: 9999-12-31T23:59:59 UTC.
/// Keeping timestamps in `0 ..= MAX_EPOCH_SECS` guarantees that every
/// calendar year has at most four digits, so calendar version segments
/// always render at their fixed widths.
pub const MAX_EPOCH_SECS: u64 = 253402300799;

/// The civil-calendar (proleptic Gregorian, UTC) reading of one epoch
/// second, together with the epoch second itself.
#[derive(Clone, Copy, Debug, PartialEq, Eq, Structural)]
pub struct CalendarStamp {
    /// Calendar year, `1970 ..= 9999` for supported epochs.
    pub year: u64,
    /// Month of the year, `1 ..= 12`.
    pub month: u64,
    /// Day of the month, `1 ..= 31`.
    pub day: u64,
    /// Day of the year, `1 ..= 366`.
    pub ordinal: u64,
    /// Hour of the day, `0 ..= 23`.
    pub hour: u64,
    /// Minute of the hour, `0 ..= 59`.
    pub minute: u64,
    /// Second of the minute, `0 ..= 59`.
    pub second: u64,
    /// The epoch second this stamp was derived from.
    pub epoch: u64,
}

impl CalendarStamp {
    /// Field ranges of a calendar reading of a supported epoch second.
    pub open spec fn wf(self) -> bool {
        &&& 1970 <= self.year <= 9999
        &&& 1 <= self.month <= 12
        &&& 1 <= self.day <= 31
        &&& 1 <= self.ordinal <= 366
        &&& self.hour <= 23
        &&& self.minute <= 59
        &&& self.second <= 59
        &&& self.epoch <= MAX_EPOCH_SECS
    }
}

/// The calendar year of an epoch second, as `chrono::Datelike::year` reads it.
pub uninterp spec fn civil_year_of(secs: u64) -> u64;

/// The month (1-12) of an epoch second, as `chrono::Datelike::month` reads it.
pub uninterp spec fn civil_month_of(secs: u64) -> u64;

/// The day of the month (1-31) of an epoch second, as `chrono::Datelike::day` reads it.
pub uninterp spec fn civil_day_of(secs: u64) -> u64;

/// The day of the year (1-366) of an epoch second, as `chrono::Datelike::ordinal` reads it.
pub uninterp spec fn civil_ordinal_of(secs: u64) -> u64;

/// The hour (0-23) of an epoch second, as `chrono::Timelike::hour` reads it.
pub uninterp spec fn civil_hour_of(secs: u64) -> u64;

/// The minute (0-59) of an epoch second, as `chrono::Timelike::minute` reads it.
pub uninterp spec fn civil_minute_of(secs: u64) -> u64;

/// The second (0-59) of an epoch second, as `chrono::Timelike::second` reads it.
pub uninterp spec fn civil_second_of(secs: u64) -> u64;

/// The calendar reading of an epoch second.
pub open spec fn civil_of(secs: u64) -> CalendarStamp {
    CalendarStamp {
        year: civil_year_of(secs),
        month: civil_month_of(secs),
        day: civil_day_of(secs),
        ordinal: civil_ordinal_of(secs),
        hour: civil_hour_of(secs),
        minute: civil_minute_of(secs),
        second: civil_second_of(secs),
        epoch: secs,
    }
}

/// Relies on `chrono::DateTime::<Utc>::from_timestamp` and the
/// `chrono::Datelike` / `chrono::Timelike` accessors (`year`, `month`, `day`,
/// `ordinal`, `hour`, `minute`, `second`): they read the UTC civil calendar
/// of an epoch second, a function of the argument alone.  `from_timestamp`
/// returns `Some` for every second up to the end of year 9999, which keeps
/// the year at four digits at most; chrono documents the ranges of the other
/// accessors (month 1-12, day 1-31, ordinal 1-366, hour 0-23, minute and
/// second 0-59).
#[verifier::external_body]
pub fn civil_fields(secs: u64) -> (r: CalendarStamp)
    requires
        secs <= MAX_EPOCH_SECS,
    ensures
        r.year == civil_year_of(secs),
        r.month == civil_month_of(secs),
        r.day == civil_day_of(secs),
        r.ordinal == civil_ordinal_of(secs),
        r.hour == civil_hour_of(secs),
        r.minute == civil_minute_of(secs),
        r.second == civil_second_of(secs),
        r.epoch == secs,
        r == civil_of(secs),
        r.wf(),
{
    let dt = chrono::DateTime::<chrono::Utc>::from_timestamp(secs as i64, 0).unwrap();
    CalendarStamp {
        year: dt.year() as u64,
        month: dt.month() as u64,
        day: dt.day() as u64,
        ordinal: dt.ordinal() as u64,
        hour: dt.hour() as u64,
        minute: dt.minute() as u64,
        second: dt.second() as u64,
        epoch: secs,
    }
}

/// What `chrono::DateTime::parse_from_rfc3339` makes of a string: the epoch
/// second of the instant it describes, or `None` where the string is not a
/// valid RFC 3339 date-and-time.  A function of the characters alone.
pub uninterp spec fn rfc3339_epoch_of(s: Seq<char>) -> Option<i64>;

/// Relies on `chrono::DateTime::parse_from_rfc3339` together with
/// `chrono::DateTime::timestamp`: parsing an RFC 3339 date-and-time string
/// and reading its epoch second depend on the characters alone.
#[verifier::external_body]
pub fn parse_rfc3339_epoch(s: &str) -> (r: Option<i64>)
    ensures
        r == rfc3339_epoch_of(s@),
{
    match chrono::DateTime::parse_from_rfc3339(s) {
        Ok(dt) => Some(dt.timestamp()),
        Err(_) => None,
    }
}

} // verus!
