//! Points in time, and what the library asks the calendar for.

use crate::text::ascii_digit;
use chrono::{DateTime, Duration, Local, NaiveDate, NaiveDateTime, TimeZone, Timelike, Utc};
use vstd::prelude::*;

verus! {

/// A point in time: whole seconds since the start of 1970 (UTC), and
/// nanoseconds on top of them. A leap second has a billion nanoseconds or
/// more. A wall-clock time without a zone is written as the point in time at
/// which a clock in UTC shows it.
#[derive(Debug, Clone, Copy, PartialEq, Eq, Structural)]
pub struct Moment {
    pub secs: i64,
    pub nanos: u32,
}

/// The first second of the year -262143.
pub const FIRST_SECOND: i64 = -8_334_601_228_800;

/// The last second of the year 262142.
pub const LAST_SECOND: i64 = 8_210_266_876_799;

pub const DAY_SECS: i64 = 86_400;

/// A billion: the nanoseconds of a second.
pub const SECOND_NANOS: u32 = 1_000_000_000;

impl Moment {
    /// The calendar reaches this far.
    pub open spec fn representable(self) -> bool {
        FIRST_SECOND <= self.secs <= LAST_SECOND && self.nanos < 2 * SECOND_NANOS
    }

    /// `self` is earlier than `other`.
    pub open spec fn before(self, other: Moment) -> bool {
        self.secs < other.secs || self.secs == other.secs && self.nanos < other.nanos
    }

    /// Whether `self` is earlier than `other`.
    pub fn is_before(self, other: Moment) -> (r: bool)
        ensures
            r == self.before(other),
    {
        self.secs < other.secs || self.secs == other.secs && self.nanos < other.nanos
    }
}

// ---------------------------------------------------------------------
// The Gregorian calendar
// ---------------------------------------------------------------------

pub open spec fn leap_year(year: int) -> bool {
    year % 4 == 0 && (year % 100 != 0 || year % 400 == 0)
}

pub open spec fn month_days(year: int, month: int) -> int {
    if month == 2 {
        if leap_year(year) {
            29
        } else {
            28
        }
    } else if month == 4 || month == 6 || month == 9 || month == 11 {
        30
    } else {
        31
    }
}

/// The days of a year before the given month.
pub open spec fn days_before_month(year: int, month: int) -> int
    decreases month,
{
    if month <= 1 {
        0
    } else {
        days_before_month(year, month - 1) + month_days(year, month - 1)
    }
}

/// The days from the start of the year 0 to the start of the given one.
pub open spec fn days_before_year(year: int) -> int {
    365 * year + (year + 3) / 4 - (year + 99) / 100 + (year + 399) / 400
}

/// The days from the start of 1970 to the given date.
pub open spec fn days_since_epoch(year: int, month: int, day: int) -> int {
    days_before_year(year) - days_before_year(1970) + days_before_month(year, month) + day - 1
}

pub open spec fn valid_date(year: int, month: int, day: int) -> bool {
    1 <= month <= 12 && 1 <= day <= month_days(year, month)
}

/// The number that the two digits at `i` write.
pub open spec fn two_digits(s: Seq<char>, i: int) -> int {
    10 * (s[i] as int - '0' as int) + (s[i + 1] as int - '0' as int)
}

/// The first `n` characters are digits.
pub open spec fn digits_in(s: Seq<char>, from: int, to: int) -> bool {
    forall|i: int| from <= i < to ==> ascii_digit(#[trigger] s[i])
}

/// The seconds from the start of 1970 to the date `YYYYMMDD` that the first
/// eight characters write.
pub open spec fn date_secs(s: Seq<char>) -> Option<int> {
    let year = 100 * two_digits(s, 0) + two_digits(s, 2);
    let month = two_digits(s, 4);
    let day = two_digits(s, 6);
    if valid_date(year, month, day) {
        Some(DAY_SECS * days_since_epoch(year, month, day))
    } else {
        None
    }
}

/// `YYYYMMDDTHHMMSS`, with a digit for each letter but the `T`.
pub open spec fn written_in_full(s: Seq<char>) -> bool {
    s.len() == 15 && digits_in(s, 0, 8) && s[8] == 'T' && digits_in(s, 9, 15)
}

/// The time that `YYYYMMDDTHHMMSS` writes, as seconds and nanoseconds. The
/// sixtieth second of a minute is the fifty-ninth with a billion nanoseconds.
pub open spec fn full_time(s: Seq<char>) -> Option<(int, int)> {
    let hour = two_digits(s, 9);
    let minute = two_digits(s, 11);
    let second = two_digits(s, 13);
    match date_secs(s) {
        Some(date) => if hour < 24 && minute < 60 && second < 60 {
            Some((date + 3600 * hour + 60 * minute + second, 0))
        } else if hour < 24 && minute < 60 && second == 60 {
            Some((date + 3600 * hour + 60 * minute + 59, SECOND_NANOS as int))
        } else {
            None
        },
        None => None,
    }
}

// ---------------------------------------------------------------------
// The calendar crate
// ---------------------------------------------------------------------

/// What `chrono::NaiveDate::parse_from_str` makes of a text and a format:
/// the midnight (UTC) at which the date begins, in seconds since 1970.
pub uninterp spec fn parsed_date(text: Seq<char>, format: Seq<char>) -> Option<i64>;

/// What `chrono::NaiveDateTime::parse_from_str` makes of a text and a format:
/// seconds since 1970 and nanoseconds.
pub uninterp spec fn parsed_time(text: Seq<char>, format: Seq<char>) -> Option<(i64, u32)>;

/// What `chrono::DateTime::<Utc>::to_rfc3339` writes for a point in time.
pub uninterp spec fn rfc3339_text(secs: i64, nanos: u32) -> Seq<char>;

/// `chrono::NaiveDate::parse_from_str`, and `and_hms_opt` for the midnight of
/// the date. Of eight digits in the format `%Y%m%d` it reads year, month and
/// day, and gives a date if there is such a day.
#[verifier::external_body]
pub(crate) fn parse_date(text: &str, format: &str) -> (r: Option<i64>)
    ensures
        r == parsed_date(text@, format@),
        r matches Some(secs) ==> FIRST_SECOND <= secs <= LAST_SECOND,
        format@ == "%Y%m%d"@ && text@.len() == 8 && digits_in(text@, 0, 8) ==> match r {
            Some(secs) => date_secs(text@) == Some(secs as int),
            None => date_secs(text@) is None,
        },
{
    let date = NaiveDate::parse_from_str(text, format).ok()?;
    let midnight = date.and_hms_opt(0, 0, 0)?;
    Some(Utc.from_utc_datetime(&midnight).timestamp())
}

/// `chrono::NaiveDateTime::parse_from_str`. Of `YYYYMMDDTHHMMSS` in the
/// format `%Y%m%dT%H%M%S` it reads the fields, and gives a time if there is
/// such a day and hour, minute and second are in range, where a minute may
/// have a leap second.
#[verifier::external_body]
pub(crate) fn parse_time(text: &str, format: &str) -> (r: Option<(i64, u32)>)
    ensures
        r == parsed_time(text@, format@),
        r matches Some((secs, nanos)) ==> (Moment { secs, nanos }).representable(),
        format@ == "%Y%m%dT%H%M%S"@ && written_in_full(text@) ==> match r {
            Some((secs, nanos)) => full_time(text@) == Some((secs as int, nanos as int)),
            None => full_time(text@) is None,
        },
{
    let time = NaiveDateTime::parse_from_str(text, format).ok()?.and_utc();
    Some((time.timestamp(), time.timestamp_subsec_nanos()))
}

/// `chrono::Local.from_local_datetime` and `single`: the point in time at
/// which a clock of this machine's zone shows the wall-clock time `wall`, if
/// there is exactly one. Which one depends on the zone; it is less than a day
/// from the same reading in UTC, and the nanoseconds stay.
#[verifier::external_body]
pub(crate) fn local_to_utc(wall: Moment) -> (r: Option<Moment>)
    requires
        wall.representable(),
    ensures
        r matches Some(m) ==> m.representable() && -DAY_SECS < m.secs - wall.secs < DAY_SECS
            && m.nanos == wall.nanos,
{
    let naive = DateTime::from_timestamp(wall.secs, 0)?.naive_utc().with_nanosecond(wall.nanos)?;
    let local = Local.from_local_datetime(&naive).single()?;
    let utc = local.with_timezone(&Utc);
    Some(Moment { secs: utc.timestamp(), nanos: utc.timestamp_subsec_nanos() })
}

/// Adds a `chrono::Duration::days` to a `chrono::DateTime<Utc>`: the same
/// time of day so many days of 86400 seconds later.
#[verifier::external_body]
pub(crate) fn days_later(m: Moment, days: u32) -> (r: Moment)
    requires
        m.representable(),
        m.nanos < SECOND_NANOS,
        m.secs + DAY_SECS * days <= LAST_SECOND,
    ensures
        r.secs == m.secs + DAY_SECS * days,
        r.nanos == m.nanos,
{
    let start = DateTime::<Utc>::from_timestamp(m.secs, m.nanos).unwrap();
    let later = start + Duration::days(i64::from(days));
    Moment { secs: later.timestamp(), nanos: later.timestamp_subsec_nanos() }
}

/// `chrono::DateTime::<Utc>::to_rfc3339`: the point in time as a text, which
/// depends on nothing else.
#[verifier::external_body]
pub(crate) fn to_rfc3339(m: Moment) -> (r: String)
    requires
        m.representable(),
    ensures
        r@ == rfc3339_text(m.secs, m.nanos),
{
    let naive = DateTime::from_timestamp(m.secs, 0).unwrap().naive_utc();
    naive.with_nanosecond(m.nanos).unwrap().and_utc().to_rfc3339()
}

/// `chrono::Local.timestamp_opt`, `single` and `hour`: the hour that a clock
/// of this machine's zone shows at a point in time within the reach of the
/// calendar. Which one depends on the zone.
#[verifier::external_body]
pub(crate) fn local_hour(secs: i64) -> (r: Option<u8>)
    ensures
        r is Some <==> FIRST_SECOND <= secs <= LAST_SECOND,
        r matches Some(hour) ==> hour < 24,
{
    let local = Local.timestamp_opt(secs, 0).single()?;
    Some(local.hour() as u8)
}

} // verus!
