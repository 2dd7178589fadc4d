//! The bounds of the time window: where the commits that count begin and end.
use vstd::prelude::*;
use crate::calendar::{
    day_text,
    day_to_text,
    days_before,
    days_from_sunday,
    days_since_sunday,
    earlier_day,
    names_day,
    parse_day,
    parsed_day,
    CalendarDate,
};
use crate::error::{Error, ErrorKind};
use crate::text::{enclose, lowercase, same_text, to_lowercase};

verus! {

/// One end of the time window. A bound stands for the first moment of a day
/// in the time zone of the machine, or for no bound at all. Which day that
/// is may depend on the day of the run, which the caller gives.
#[derive(Clone, Copy, Debug, PartialEq, Eq, Structural)]
pub enum CommitTimeBound {
    /// No bound.
    Always,
    /// The day of the run.
    Today,
    /// The day before the day of the run.
    Yesterday,
    /// The Sunday that begins the week of the day of the run: that day
    /// itself where it is a Sunday, else the last Sunday before it.
    ThisWeek,
    /// The Sunday seven days before the bound of `ThisWeek`.
    LastWeek,
    /// A given day.
    Date(CalendarDate),
}

/// The day that a triple of numbers gives.
pub open spec fn day_of(triple: (i32, u32, u32)) -> CalendarDate {
    CalendarDate { year: triple.0, month: triple.1, day: triple.2 }
}

/// The bound that a text in lower case names, where `day` is the day that
/// the text reads as: one of the five words, else that day.
pub open spec fn named_bound(lower: Seq<char>, day: Option<(i32, u32, u32)>) -> Option<CommitTimeBound> {
    if lower == "always"@ {
        Some(CommitTimeBound::Always)
    } else if lower == "today"@ {
        Some(CommitTimeBound::Today)
    } else if lower == "yesterday"@ {
        Some(CommitTimeBound::Yesterday)
    } else if lower == "thisweek"@ {
        Some(CommitTimeBound::ThisWeek)
    } else if lower == "lastweek"@ {
        Some(CommitTimeBound::LastWeek)
    } else {
        match day {
            Some(triple) => Some(CommitTimeBound::Date(day_of(triple))),
            None => None,
        }
    }
}

/// The message for a text that names no bound: it holds the text as it was
/// given.
pub open spec fn date_error_text(given: Seq<char>) -> Seq<char> {
    "Could not parse date '"@ + given + "' using YYYY-mm-dd format"@
}

/// The message for a bound that has no day on the day of the run.
pub open spec fn day_error_text(bound: Seq<char>) -> Seq<char> {
    "Could not find the day of '"@ + bound + "'"@
}

/// The Sunday that begins the week of the day `today`, weeks beginning on
/// Sunday: as many days before `today` as `today` lies behind a Sunday.
pub open spec fn week_bound(today: CalendarDate) -> Option<(i32, u32, u32)> {
    earlier_day(
        today.year,
        today.month,
        today.day,
        days_since_sunday(today.year, today.month, today.day) as u64,
    )
}

/// The numbers of a day that may be absent.
pub open spec fn triple_of(day: Option<CalendarDate>) -> Option<(i32, u32, u32)> {
    match day {
        Some(d) => Some(d.triple()),
        None => None,
    }
}

impl CommitTimeBound {
    /// Whether a given day is one that the calendar holds.
    pub open spec fn well_formed(&self) -> bool {
        match self {
            CommitTimeBound::Date(d) => d.is_valid(),
            _ => true,
        }
    }

    /// The text of the bound.
    pub open spec fn text(&self) -> Seq<char> {
        match self {
            CommitTimeBound::Always => "always"@,
            CommitTimeBound::Today => "today"@,
            CommitTimeBound::Yesterday => "yesterday"@,
            CommitTimeBound::ThisWeek => "thisweek"@,
            CommitTimeBound::LastWeek => "lastweek"@,
            CommitTimeBound::Date(d) => day_text(d.year, d.month, d.day),
        }
    }

    /// The day of the bound when the run is on the day `today`: `None` where
    /// the calendar has no such day, `Some(None)` where there is no bound.
    pub open spec fn resolved(&self, today: CalendarDate) -> Option<Option<(i32, u32, u32)>> {
        match self {
            CommitTimeBound::Always => Some(None),
            CommitTimeBound::Today => Some(Some(today.triple())),
            CommitTimeBound::Yesterday => match earlier_day(today.year, today.month, today.day, 1) {
                Some(day) => Some(Some(day)),
                None => None,
            },
            CommitTimeBound::ThisWeek => match week_bound(today) {
                Some(day) => Some(Some(day)),
                None => None,
            },
            CommitTimeBound::LastWeek => match week_bound(today) {
                Some(sunday) => match earlier_day(sunday.0, sunday.1, sunday.2, 7) {
                    Some(day) => Some(Some(day)),
                    None => None,
                },
                None => None,
            },
            CommitTimeBound::Date(d) => Some(Some(d.triple())),
        }
    }

    /// The bound that `lower` names, a text in lower case, where `day` is
    /// the day that the text reads as, if it reads as one.
    pub fn from_lowercase(lower: &str, day: Option<CalendarDate>) -> (bound: Option<CommitTimeBound>)
        ensures
            bound == named_bound(lower@, triple_of(day)),
    {
        if same_text(lower, "always") {
            Some(CommitTimeBound::Always)
        } else if same_text(lower, "today") {
            Some(CommitTimeBound::Today)
        } else if same_text(lower, "yesterday") {
            Some(CommitTimeBound::Yesterday)
        } else if same_text(lower, "thisweek") {
            Some(CommitTimeBound::ThisWeek)
        } else if same_text(lower, "lastweek") {
            Some(CommitTimeBound::LastWeek)
        } else {
            match day {
                Some(date) => Some(CommitTimeBound::Date(date)),
                None => None,
            }
        }
    }

    /// Reads a bound: one of the words `always`, `today`, `yesterday`,
    /// `thisweek` and `lastweek`, in any case, or else a day. The error for
    /// any other text holds the text as it was given.
    pub fn from_str(s: &str) -> (bound: Result<CommitTimeBound, Error>)
        ensures
            match bound {
                Ok(b) => named_bound(lowercase(s@), parsed_day(lowercase(s@))) == Some(b) && b.well_formed(),
                Err(e) => named_bound(lowercase(s@), parsed_day(lowercase(s@))) is None && e.0 is FromStr
                    && e.text() == date_error_text(s@),
            },
    {
        let lower = to_lowercase(s);
        let day = parse_day(lower.as_str());
        match CommitTimeBound::from_lowercase(lower.as_str(), day) {
            Some(bound) => Ok(bound),
            None => Err(
                Error(ErrorKind::FromStr(enclose("Could not parse date '", s, "' using YYYY-mm-dd format"))),
            ),
        }
    }

    /// Writes the bound as `from_str` reads it.
    pub fn to_string(&self) -> (text: String)
        requires
            self.well_formed(),
        ensures
            text@ == self.text(),
    {
        match self {
            CommitTimeBound::Always => String::from_str("always"),
            CommitTimeBound::Today => String::from_str("today"),
            CommitTimeBound::Yesterday => String::from_str("yesterday"),
            CommitTimeBound::ThisWeek => String::from_str("thisweek"),
            CommitTimeBound::LastWeek => String::from_str("lastweek"),
            CommitTimeBound::Date(date) => day_to_text(*date),
        }
    }

    /// The day of the bound when the run is on the day `today`, for a bound
    /// that has one on that day; `None` where there is no bound.
    pub fn resolve(&self, today: CalendarDate) -> (day: Option<CalendarDate>)
        requires
            self.well_formed(),
            today.is_valid(),
            self.resolved(today) is Some,
        ensures
            names_day(day, self.resolved(today).unwrap()),
    {
        match self {
            CommitTimeBound::Always => None,
            CommitTimeBound::Today => Some(today),
            CommitTimeBound::Yesterday => days_before(today, 1),
            CommitTimeBound::ThisWeek => days_before(today, days_from_sunday(today) as u64),
            CommitTimeBound::LastWeek => {
                let sunday = days_before(today, days_from_sunday(today) as u64);
                days_before(sunday.unwrap(), 7)
            },
            CommitTimeBound::Date(date) => Some(*date),
        }
    }

    /// Whether the bound has a day when the run is on the day `today`.
    pub fn is_resolvable(&self, today: CalendarDate) -> (resolvable: bool)
        requires
            today.is_valid(),
        ensures
            resolvable == self.resolved(today) is Some,
    {
        match self {
            CommitTimeBound::Yesterday => days_before(today, 1).is_some(),
            CommitTimeBound::ThisWeek => days_before(today, days_from_sunday(today) as u64).is_some(),
            CommitTimeBound::LastWeek => match days_before(today, days_from_sunday(today) as u64) {
                Some(sunday) => days_before(sunday, 7).is_some(),
                None => false,
            },
            _ => true,
        }
    }

    /// Whether `day` is what `to_date_time` gives on the day `today`.
    pub open spec fn resolves_to(&self, today: CalendarDate, day: Result<Option<CalendarDate>, Error>) -> bool {
        match day {
            Ok(d) => self.resolved(today) is Some && names_day(d, self.resolved(today).unwrap()),
            Err(e) => self.resolved(today) is None && e.0 is Calendar && e.text() == day_error_text(self.text()),
        }
    }

    /// The day of the bound when the run is on the day `today`, the day that
    /// the caller has read from the clock of the machine in its time zone.
    /// The bound is the first moment of the day that is given: none where
    /// there is no bound, and an error of the kind `Calendar` where the
    /// calendar has no such day.
    pub fn to_date_time(&self, today: CalendarDate) -> (day: Result<Option<CalendarDate>, Error>)
        requires
            self.well_formed(),
            today.is_valid(),
        ensures
            self.resolves_to(today, day),
    {
        if self.is_resolvable(today) {
            Ok(self.resolve(today))
        } else {
            let bound = self.to_string();
            Err(Error(ErrorKind::Calendar(enclose("Could not find the day of '", bound.as_str(), "'"))))
        }
    }
}

} // verus!
