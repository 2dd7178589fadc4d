//! Calendar days, and what the `chrono` crate computes on them.
//!
//! A `CalendarDate` holds a day as three plain numbers. Everything that takes
//! knowledge of the calendar (the day of a timestamp, the day of the week, the
//! day before a day, the text of a day) is asked of `chrono`, in the trusted
//! functions of this file: their contracts are believed, not proved.
use vstd::prelude::*;
use chrono::Datelike;
use chrono::TimeZone;

verus! {

/// The first year of which `chrono` can name the days.
pub const MIN_YEAR: i32 = -262143;

/// The last year of which `chrono` can name the days.
pub const MAX_YEAR: i32 = 262142;

/// The first second, counted from the start of 1970 in UTC, that lies in
/// `MIN_YEAR`.
pub const MIN_TIMESTAMP: i64 = -8334601228800;

/// The last second, counted from the start of 1970 in UTC, that lies in
/// `MAX_YEAR`.
pub const MAX_TIMESTAMP: i64 = 8210266876799;

/// Whether `year` has a 29th of February.
pub open spec fn is_leap_year(year: int) -> bool {
    year % 4 == 0 && (year % 100 != 0 || year % 400 == 0)
}

/// The number of days of `month` in `year`; 0 where there is no such month.
pub open spec fn days_in_month(year: int, month: int) -> int {
    if month == 2 {
        if is_leap_year(year) {
            29
        } else {
            28
        }
    } else if month == 4 || month == 6 || month == 9 || month == 11 {
        30
    } else if 1 <= month <= 12 {
        31
    } else {
        0
    }
}

/// A day of the calendar.
#[derive(Clone, Copy, Debug, PartialEq, Eq, Structural)]
pub struct CalendarDate {
    pub year: i32,
    pub month: u32,
    pub day: u32,
}

impl CalendarDate {
    /// Whether the calendar holds this day, within the years that `chrono`
    /// can name.
    pub open spec fn is_valid(&self) -> bool {
        &&& MIN_YEAR <= self.year <= MAX_YEAR
        &&& 1 <= self.day <= days_in_month(self.year as int, self.month as int)
    }

    /// The day as year, month and day of the month.
    pub open spec fn triple(&self) -> (i32, u32, u32) {
        (self.year, self.month, self.day)
    }

    /// Whether the calendar holds this day.
    pub fn check(&self) -> (valid: bool)
        ensures
            valid == self.is_valid(),
    {
        if self.year < MIN_YEAR || self.year > MAX_YEAR || self.day < 1 {
            return false;
        }
        let year = self.year;
        let length: u32 = if self.month == 2 {
            if year % 4 == 0 && (year % 100 != 0 || year % 400 == 0) {
                29
            } else {
                28
            }
        } else if self.month == 4 || self.month == 6 || self.month == 9 || self.month == 11 {
            30
        } else if 1 <= self.month && self.month <= 12 {
            31
        } else {
            0
        };
        self.day <= length
    }

    /// The day `year`-`month`-`day`, if the calendar holds it.
    pub fn new(year: i32, month: u32, day: u32) -> (date: Option<CalendarDate>)
        ensures
            date == if (CalendarDate { year, month, day }).is_valid() {
                Some(CalendarDate { year, month, day })
            } else {
                None
            },
    {
        let date = CalendarDate { year, month, day };
        if date.check() {
            Some(date)
        } else {
            None
        }
    }
}

/// The day on which a second falls in UTC, written as `chrono` writes a day
/// in the format `%Y-%m-%d`.
pub uninterp spec fn utc_day(seconds: i64) -> Seq<char>;

/// The number of days from the last Sunday to a day that the calendar
/// holds: 0 for a Sunday, 6 for a Saturday.
pub uninterp spec fn days_since_sunday(year: i32, month: u32, day: u32) -> u32;

/// The second, counted from the start of 1970 in UTC, at which a day that
/// the calendar holds begins in UTC.
pub uninterp spec fn utc_midnight(year: i32, month: u32, day: u32) -> i64;

/// The day that lies a number of days before a day, where `chrono` can name
/// it.
pub uninterp spec fn earlier_day(year: i32, month: u32, day: u32, days: u64) -> Option<(i32, u32, u32)>;

/// The day that a text names, where `chrono` reads the text as a day.
pub uninterp spec fn parsed_day(text: Seq<char>) -> Option<(i32, u32, u32)>;

/// The text that `chrono` writes for a day.
pub uninterp spec fn day_text(year: i32, month: u32, day: u32) -> Seq<char>;

/// Whether `date` is the day that the three numbers give.
pub open spec fn names_day(date: Option<CalendarDate>, day: Option<(i32, u32, u32)>) -> bool {
    match date {
        Some(d) => day == Some(d.triple()) && d.is_valid(),
        None => day is None,
    }
}

/// Calls `chrono::DateTime::from_timestamp` and formats the result with
/// `%Y-%m-%d`. Trusted: the text is what `utc_day` names, and `chrono` has
/// a day for every second between `MIN_TIMESTAMP` and `MAX_TIMESTAMP`.
#[verifier::external_body]
pub(crate) fn utc_day_of(seconds: i64) -> (text: String)
    requires
        MIN_TIMESTAMP <= seconds <= MAX_TIMESTAMP,
    ensures
        text@ == utc_day(seconds),
{
    chrono::DateTime::from_timestamp(seconds, 0).unwrap().format("%Y-%m-%d").to_string()
}

/// Calls `chrono::Datelike::weekday` and
/// `chrono::Weekday::num_days_from_sunday` on the day that
/// `chrono::NaiveDate::from_ymd_opt` gives. Trusted: `chrono` has every day
/// for which `is_valid` holds; the result is what `days_since_sunday` names,
/// and is at most 6.
#[verifier::external_body]
pub(crate) fn days_from_sunday(date: CalendarDate) -> (days: u32)
    requires
        date.is_valid(),
    ensures
        days == days_since_sunday(date.year, date.month, date.day),
        days <= 6,
{
    chrono::NaiveDate::from_ymd_opt(date.year, date.month, date.day).unwrap().weekday().num_days_from_sunday()
}

/// Calls `chrono::NaiveDate::checked_sub_days` on the day that
/// `chrono::NaiveDate::from_ymd_opt` gives. Trusted: `chrono` has every day
/// for which `is_valid` holds; the result is what `earlier_day` names, and is
/// a day for which `is_valid` holds.
#[verifier::external_body]
pub(crate) fn days_before(date: CalendarDate, days: u64) -> (earlier: Option<CalendarDate>)
    requires
        date.is_valid(),
    ensures
        names_day(earlier, earlier_day(date.year, date.month, date.day, days)),
{
    chrono::NaiveDate::from_ymd_opt(date.year, date.month, date.day).unwrap().checked_sub_days(
        chrono::Days::new(days),
    ).map(|d| CalendarDate { year: d.year(), month: d.month(), day: d.day() })
}

/// Calls `chrono::NaiveDate::from_str`. Trusted: the result is what
/// `parsed_day` names, and is a day for which `is_valid` holds.
#[verifier::external_body]
pub(crate) fn parse_day(text: &str) -> (date: Option<CalendarDate>)
    ensures
        names_day(date, parsed_day(text@)),
{
    text.parse::<chrono::NaiveDate>().ok().map(
        |d| CalendarDate { year: d.year(), month: d.month(), day: d.day() },
    )
}

/// Calls `to_string` on the `chrono::NaiveDate` that
/// `chrono::NaiveDate::from_ymd_opt` gives. Trusted: `chrono` has every day
/// for which `is_valid` holds, and the text is what `day_text` names.
#[verifier::external_body]
pub(crate) fn day_to_text(date: CalendarDate) -> (text: String)
    requires
        date.is_valid(),
    ensures
        text@ == day_text(date.year, date.month, date.day),
{
    chrono::NaiveDate::from_ymd_opt(date.year, date.month, date.day).unwrap().to_string()
}

/// Calls `chrono::DateTime::timestamp` on the first second of the day that
/// `chrono::NaiveDate::from_ymd_opt` gives, taken as a time in UTC. Trusted:
/// `chrono` has every day for which `is_valid` holds, and the result is what
/// `utc_midnight` names.
#[verifier::external_body]
pub(crate) fn utc_midnight_of(date: CalendarDate) -> (seconds: i64)
    requires
        date.is_valid(),
    ensures
        seconds == utc_midnight(date.year, date.month, date.day),
{
    chrono::NaiveDate::from_ymd_opt(date.year, date.month, date.day).unwrap().and_time(
        chrono::NaiveTime::MIN,
    ).and_utc().timestamp()
}

/// Calls `chrono::TimeZone::offset_from_local_datetime` on `chrono::Local`,
/// with the first second of the day that `chrono::NaiveDate::from_ymd_opt`
/// gives, and takes `chrono::FixedOffset::local_minus_utc` of the result
/// where there is exactly one: the seconds by which the clocks of the
/// machine are ahead of UTC when the day begins there. Trusted: `chrono` has
/// every day for which `is_valid` holds, and an offset is less than a day
/// either way. Which offset it is depends on the time zone of the machine, so
/// nothing more is said.
#[verifier::external_body]
pub(crate) fn local_offset_at_midnight(date: CalendarDate) -> (offset: Option<i32>)
    requires
        date.is_valid(),
    ensures
        offset matches Some(seconds) ==> -86400 < seconds < 86400,
{
    let day = chrono::NaiveDate::from_ymd_opt(date.year, date.month, date.day).unwrap();
    chrono::Local.offset_from_local_datetime(&day.and_time(chrono::NaiveTime::MIN)).single().map(
        |offset| offset.local_minus_utc(),
    )
}

} // verus!
