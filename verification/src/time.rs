//! Wall-clock times, their offsets from UTC, and the texts they are stored as.
use chrono::{Datelike, TimeZone, Timelike};
use vstd::prelude::*;

use crate::text::zero_padded;

verus! {

/// A date and a time of day, without a time zone. A leap second is the
/// second 59 with `nanos` at or above 1,000,000,000.
#[derive(Debug, Clone, Copy, PartialEq, Eq, Structural)]
pub struct CivilDateTime {
    pub year: i32,
    pub month: u32,
    pub day: u32,
    pub hour: u32,
    pub minute: u32,
    pub second: u32,
    pub nanos: u32,
}

/// A wall-clock time and its offset from UTC, in seconds to the east.
#[derive(Debug, Clone, Copy, PartialEq, Eq, Structural)]
pub struct OffsetDateTime {
    pub local: CivilDateTime,
    pub offset: i32,
}

/// A point in time: seconds since the start of 1970 in UTC, and nanoseconds
/// behind them. Within a leap second `nanos` runs on past 999,999,999.
#[derive(Debug, Clone, Copy, PartialEq, Eq, PartialOrd, Ord, Structural)]
pub struct Instant {
    pub seconds: i64,
    pub nanos: u32,
}

/// Whether a year has a 29th of February.
pub open spec fn leap_year(year: int) -> bool {
    year % 4 == 0 && (year % 100 != 0 || year % 400 == 0)
}

/// The number of days of a month.
pub open spec fn days_in_month(year: int, month: int) -> int {
    if month == 2 {
        if leap_year(year) {
            29
        } else {
            28
        }
    } else if month == 4 || month == 6 || month == 9 || month == 11 {
        30
    } else {
        31
    }
}

/// The number of days of a year that lie before a month.
pub open spec fn days_before_month(year: int, month: int) -> int
    decreases month,
{
    if month <= 1 {
        0
    } else {
        days_before_month(year, month - 1) + days_in_month(year, month - 1)
    }
}

/// The number of leap years up to and including a year, counted from year 1.
pub open spec fn leap_years_through(year: int) -> int {
    year / 4 - year / 100 + year / 400
}

/// The number of days from the start of 1970 to a date.
pub open spec fn day_number(year: int, month: int, day: int) -> int {
    365 * (year - 1970) + leap_years_through(year - 1) - leap_years_through(1969)
        + days_before_month(year, month) + day - 1
}

impl CivilDateTime {
    /// Whether the fields name a time of the proleptic Gregorian calendar,
    /// in the years from -262143 to 262142.
    pub open spec fn valid(self) -> bool {
        &&& -262143 <= self.year <= 262142
        &&& 1 <= self.month <= 12
        &&& 1 <= self.day <= days_in_month(self.year as int, self.month as int)
        &&& self.hour < 24
        &&& self.minute < 60
        &&& self.second < 60
        &&& self.nanos < 1_000_000_000 || (self.second == 59 && self.nanos < 2_000_000_000)
    }

    /// The same time cut to whole microseconds.
    pub open spec fn to_micros(self) -> CivilDateTime {
        CivilDateTime { nanos: (self.nanos / 1000 * 1000) as u32, ..self }
    }

    /// Seconds from the start of 1970 on a clock without an offset.
    pub open spec fn clock_seconds(self) -> int {
        day_number(self.year as int, self.month as int, self.day as int) * 86400 + self.hour * 3600
            + self.minute * 60 + self.second
    }
}

impl OffsetDateTime {
    /// Whether the local time is valid, the offset is less than a day, and
    /// the time in UTC stays within the calendar.
    pub open spec fn valid(self) -> bool {
        &&& self.local.valid()
        &&& -86400 < self.offset < 86400
        &&& day_number(-262143, 1, 1) * 86400 <= self.local.clock_seconds() - self.offset
        &&& self.local.clock_seconds() - self.offset < (day_number(262142, 12, 31) + 1) * 86400
    }

    /// The point in time that is meant.
    pub open spec fn instant(self) -> Instant {
        Instant {
            seconds: (self.local.clock_seconds() - self.offset) as i64,
            nanos: self.local.nanos,
        }
    }

    /// The same time cut to whole microseconds.
    pub open spec fn to_micros(self) -> OffsetDateTime {
        OffsetDateTime { local: self.local.to_micros(), ..self }
    }

    /// Whether the time can be written as an Internet date and time: a year
    /// of four digits and an offset of whole minutes.
    pub open spec fn internet(self) -> bool {
        0 <= self.local.year <= 9999 && self.offset % 60 == 0
    }
}

/// Whether an instant can be what a clock reading stands for, in some time
/// zone: the same fraction, less than a day from the reading in UTC.
pub open spec fn near_clock(t: CivilDateTime, at: Instant) -> bool {
    &&& at.nanos == t.nanos
    &&& -86400 < t.clock_seconds() - at.seconds < 86400
}

// ---- texts ----

/// A year: four digits, or a sign and at least four where that is not enough.
pub open spec fn year_text(year: int) -> Seq<char> {
    if 0 <= year <= 9999 {
        zero_padded(year as nat, 4)
    } else if year < 0 {
        seq!['-'] + zero_padded((-year) as nat, 4)
    } else {
        seq!['+'] + zero_padded(year as nat, 4)
    }
}

/// `HH:MM:SS` of a time; a leap second is written as second 60.
pub open spec fn clock_text(t: CivilDateTime) -> Seq<char> {
    zero_padded(t.hour as nat, 2) + seq![':'] + zero_padded(t.minute as nat, 2) + seq![':']
        + zero_padded((t.second + t.nanos / 1_000_000_000) as nat, 2)
}

/// `YYYY-MM-DDTHH:MM:SS` of a time.
pub open spec fn whole_text(t: CivilDateTime) -> Seq<char> {
    year_text(t.year as int) + seq!['-'] + zero_padded(t.month as nat, 2) + seq!['-'] + zero_padded(
        t.day as nat,
        2,
    ) + seq!['T'] + clock_text(t)
}

/// The microseconds of a time, behind a point.
pub open spec fn micros_text(t: CivilDateTime) -> Seq<char> {
    seq!['.'] + zero_padded((t.nanos / 1000 % 1_000_000) as nat, 6)
}

/// An offset from UTC as a sign, hours and minutes, rounded to the minute.
pub open spec fn offset_text(offset: int) -> Seq<char> {
    let minutes = ((if offset < 0 { -offset } else { offset }) + 30) / 60;
    (if offset < 0 { seq!['-'] } else { seq!['+'] }) + zero_padded((minutes / 60) as nat, 2)
        + seq![':'] + zero_padded((minutes % 60) as nat, 2)
}

/// A time as it is stored without an offset: the fraction is written to the
/// microsecond, and left out where there is none.
pub open spec fn indexed_text(t: CivilDateTime) -> Seq<char> {
    if t.nanos < 1000 {
        whole_text(t)
    } else {
        whole_text(t) + micros_text(t)
    }
}

/// A time as it is stored with its offset.
pub open spec fn created_text(t: OffsetDateTime) -> Seq<char> {
    indexed_text(t.local) + offset_text(t.offset as int)
}

// ---- chrono ----

/// The pattern of a time without a fraction and without an offset.
pub const WHOLE_PATTERN: &'static str = "%Y-%m-%dT%H:%M:%S";

/// The pattern of a time with microseconds and without an offset.
pub const MICROS_PATTERN: &'static str = "%Y-%m-%dT%H:%M:%S%.6f";

/// The pattern of a time without a fraction and with its offset.
pub const WHOLE_OFFSET_PATTERN: &'static str = "%Y-%m-%dT%H:%M:%S%:z";

/// The pattern of a time with microseconds and with its offset.
pub const MICROS_OFFSET_PATTERN: &'static str = "%Y-%m-%dT%H:%M:%S%.6f%:z";

/// The pattern by which a time without an offset is read.
pub const NAIVE_PATTERN: &'static str = "%Y-%m-%dT%H:%M:%S%.f";

/// What `chrono::DateTime::parse_from_rfc3339` reads in a text; nothing where
/// the text is no Internet date and time.
pub uninterp spec fn rfc3339(text: Seq<char>) -> Option<OffsetDateTime>;

/// What `chrono::NaiveDateTime::parse_from_str` reads in a text by
/// [`NAIVE_PATTERN`]; nothing where the text does not follow it.
pub uninterp spec fn naive(text: Seq<char>) -> Option<CivilDateTime>;

/// `chrono::DateTime::parse_from_rfc3339`: the local time and the offset that
/// the text spells. What it accepts has a year of four digits and an offset
/// of whole minutes. A text written by `DateTime::format` with the patterns
/// above reads back as the time it was written from, cut to microseconds; one
/// written without an offset is refused.
#[verifier::external_body]
pub(crate) fn parse_rfc3339(text: &str) -> (r: Option<OffsetDateTime>)
    ensures
        r == rfc3339(text@),
        r matches Some(t) ==> t.valid() && t.internet(),
        forall|t: OffsetDateTime| #[trigger]
            created_text(t) == text@ && t.valid() && t.internet() ==> r == Some(t.to_micros()),
        forall|t: CivilDateTime| #[trigger]
            indexed_text(t) == text@ && t.valid() && 0 <= t.year <= 9999 ==> r is None,
{
    let parsed = chrono::DateTime::parse_from_rfc3339(text).ok()?;
    let t = parsed.naive_local();
    let local = CivilDateTime {
        year: t.year(),
        month: t.month(),
        day: t.day(),
        hour: t.hour(),
        minute: t.minute(),
        second: t.second(),
        nanos: t.nanosecond(),
    };
    Some(OffsetDateTime { local, offset: parsed.offset().local_minus_utc() })
}

/// `chrono::NaiveDateTime::parse_from_str` with [`NAIVE_PATTERN`]: the time
/// that the text spells. A text written by `NaiveDateTime::format` with the
/// patterns above reads back as the time it was written from, cut to
/// microseconds, where the year has four digits.
#[verifier::external_body]
pub(crate) fn parse_naive(text: &str) -> (r: Option<CivilDateTime>)
    ensures
        r == naive(text@),
        r matches Some(t) ==> t.valid(),
        forall|t: CivilDateTime| #[trigger]
            indexed_text(t) == text@ && t.valid() && 0 <= t.year <= 9999 ==> r == Some(
                t.to_micros(),
            ),
{
    let t = chrono::NaiveDateTime::parse_from_str(text, NAIVE_PATTERN).ok()?;
    Some(
        CivilDateTime {
            year: t.year(),
            month: t.month(),
            day: t.day(),
            hour: t.hour(),
            minute: t.minute(),
            second: t.second(),
            nanos: t.nanosecond(),
        },
    )
}

/// `chrono::NaiveDateTime::format` with one of the two patterns without an
/// offset: the text that the pattern prescribes.
#[verifier::external_body]
fn format_naive(t: CivilDateTime, pattern: &str) -> (r: String)
    requires
        t.valid(),
        pattern@ == WHOLE_PATTERN@ || pattern@ == MICROS_PATTERN@,
    ensures
        pattern@ == WHOLE_PATTERN@ ==> r@ == whole_text(t),
        pattern@ == MICROS_PATTERN@ ==> r@ == whole_text(t) + micros_text(t),
{
    let date = chrono::NaiveDate::from_ymd_opt(t.year, t.month, t.day).unwrap();
    let time = date.and_hms_nano_opt(t.hour, t.minute, t.second, t.nanos).unwrap();
    time.format(pattern).to_string()
}

/// `chrono::DateTime::format` with one of the two patterns with an offset:
/// the text that the pattern prescribes.
#[verifier::external_body]
fn format_offset(t: OffsetDateTime, pattern: &str) -> (r: String)
    requires
        t.valid(),
        pattern@ == WHOLE_OFFSET_PATTERN@ || pattern@ == MICROS_OFFSET_PATTERN@,
    ensures
        pattern@ == WHOLE_OFFSET_PATTERN@ ==> r@ == whole_text(t.local) + offset_text(
            t.offset as int,
        ),
        pattern@ == MICROS_OFFSET_PATTERN@ ==> r@ == whole_text(t.local) + micros_text(t.local)
            + offset_text(t.offset as int),
{
    let l = t.local;
    let date = chrono::NaiveDate::from_ymd_opt(l.year, l.month, l.day).unwrap();
    let time = date.and_hms_nano_opt(l.hour, l.minute, l.second, l.nanos).unwrap();
    let zone = chrono::FixedOffset::east_opt(t.offset).unwrap();
    time.and_local_timezone(zone).unwrap().format(pattern).to_string()
}

/// `chrono::DateTime::with_timezone` to UTC: the same point in time, as the
/// calendar and the offset give it.
#[verifier::external_body]
pub(crate) fn to_utc(t: OffsetDateTime) -> (r: Instant)
    requires
        t.valid(),
    ensures
        r == t.instant(),
{
    let l = t.local;
    let date = chrono::NaiveDate::from_ymd_opt(l.year, l.month, l.day).unwrap();
    let time = date.and_hms_nano_opt(l.hour, l.minute, l.second, l.nanos).unwrap();
    let zone = chrono::FixedOffset::east_opt(t.offset).unwrap();
    let utc = time.and_local_timezone(zone).unwrap().with_timezone(&chrono::Utc);
    Instant { seconds: utc.timestamp(), nanos: utc.timestamp_subsec_nanos() }
}

/// `chrono::Local::now`: the current wall-clock time. Which time that is
/// depends on the clock and on the time zone of the machine.
#[verifier::external_body]
pub(crate) fn local_now() -> (r: CivilDateTime)
    ensures
        r.valid(),
{
    let t = chrono::Local::now().naive_local();
    CivilDateTime {
        year: t.year(),
        month: t.month(),
        day: t.day(),
        hour: t.hour(),
        minute: t.minute(),
        second: t.second(),
        nanos: t.nanosecond(),
    }
}

/// `chrono::Local::from_local_datetime` and the earliest instant it offers.
/// Which one that is, and whether there is one, depends on the time zone of
/// the machine; whatever the zone, the instant lies less than a day from the
/// reading, as on a clock in UTC, and keeps its fraction.
#[verifier::external_body]
pub(crate) fn local_instant(t: CivilDateTime) -> (r: Option<Instant>)
    requires
        t.valid(),
    ensures
        r matches Some(at) ==> near_clock(t, at),
{
    let date = chrono::NaiveDate::from_ymd_opt(t.year, t.month, t.day).unwrap();
    let time = date.and_hms_nano_opt(t.hour, t.minute, t.second, t.nanos).unwrap();
    let found = chrono::Local.from_local_datetime(&time).earliest()?;
    let utc = found.with_timezone(&chrono::Utc);
    Some(Instant { seconds: utc.timestamp(), nanos: utc.timestamp_subsec_nanos() })
}

/// Formats a time with its offset, e.g. `2026-03-29T03:11:21.467000+00:00`:
/// microseconds where there are any, and a colon in the offset.
pub fn format_created_at(dt: OffsetDateTime) -> (r: String)
    requires
        dt.valid(),
    ensures
        r@ == created_text(dt),
{
    if dt.local.nanos / 1000 == 0 {
        format_offset(dt, WHOLE_OFFSET_PATTERN)
    } else {
        format_offset(dt, MICROS_OFFSET_PATTERN)
    }
}

/// Formats a time without an offset, e.g. `2026-07-25T23:37:12.345678`.
pub fn format_indexed_at(dt: CivilDateTime) -> (r: String)
    requires
        dt.valid(),
    ensures
        r@ == indexed_text(dt),
{
    if dt.nanos / 1000 == 0 {
        format_naive(dt, WHOLE_PATTERN)
    } else {
        format_naive(dt, MICROS_PATTERN)
    }
}

/// The days of a year before each month.
proof fn lemma_days_before_month(year: int, month: int)
    requires
        1 <= month <= 12,
    ensures
        0 <= days_before_month(year, month) <= 335,
{
    reveal_with_fuel(days_before_month, 12);
}

/// Times with a year of four digits lie within three hundred billion seconds
/// of 1970.
pub(crate) proof fn lemma_internet_seconds(t: OffsetDateTime)
    requires
        t.valid(),
        t.internet(),
    ensures
        -300_000_000_000 < t.local.clock_seconds() - t.offset < 300_000_000_000,
{
    lemma_days_before_month(t.local.year as int, t.local.month as int);
}

} // verus!
