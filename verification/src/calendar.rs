use chrono::Datelike;
use vstd::prelude::*;

verus! {

/// A day of the week.
#[derive(Clone, Copy, Debug, PartialEq, Eq, Structural)]
pub enum Weekday {
    Mon,
    Tue,
    Wed,
    Thu,
    Fri,
    Sat,
    Sun,
}

/// A month of the year.
#[derive(Clone, Copy, Debug, PartialEq, Eq, Structural)]
pub enum Month {
    January,
    February,
    March,
    April,
    May,
    June,
    July,
    August,
    September,
    October,
    November,
    December,
}

/// The day against which the sale schedule is read: what of a calendar date
/// decides whether a sale is on.
#[derive(Clone, Copy, Debug, PartialEq, Eq, Structural)]
pub struct ReferenceDate {
    pub weekday: Weekday,
    /// The month's number, 1 for January.
    pub month: u32,
    /// The day of the month, from 1.
    pub day: u32,
}

impl Month {
    /// The month's number in the year: 1 for January, 12 for December.
    pub open spec fn number(self) -> u32 {
        match self {
            Month::January => 1,
            Month::February => 2,
            Month::March => 3,
            Month::April => 4,
            Month::May => 5,
            Month::June => 6,
            Month::July => 7,
            Month::August => 8,
            Month::September => 9,
            Month::October => 10,
            Month::November => 11,
            Month::December => 12,
        }
    }

    /// The month's number in the year, starting from January = 1.
    pub fn number_from_month(&self) -> (r: u32)
        ensures
            r == self.number(),
            1 <= r <= 12,
    {
        match self {
            Month::January => 1,
            Month::February => 2,
            Month::March => 3,
            Month::April => 4,
            Month::May => 5,
            Month::June => 6,
            Month::July => 7,
            Month::August => 8,
            Month::September => 9,
            Month::October => 10,
            Month::November => 11,
            Month::December => 12,
        }
    }
}

/// The day of the week on which the given date of the proleptic Gregorian
/// calendar falls, as chrono computes it; `None` where chrono has no such
/// date.
pub uninterp spec fn weekday_of_date(year: i32, month: u32, day: u32) -> Option<Weekday>;

/// Calls chrono's `NaiveDate::from_ymd_opt` and, on the date it gives,
/// `Datelike::weekday`.
///
/// Not proved: that the result is a function of the three numbers alone,
/// which is all the contract says. `from_ymd_opt` returns `None` where the day
/// does not exist, the month or the day is invalid, or the year is out of
/// chrono's range; it does not panic.
#[verifier::external_body]
fn weekday_from_ymd(year: i32, month: u32, day: u32) -> (r: Option<Weekday>)
    ensures
        r == weekday_of_date(year, month, day),
{
    match chrono::NaiveDate::from_ymd_opt(year, month, day) {
        Some(date) => Some(
            match date.weekday() {
                chrono::Weekday::Mon => Weekday::Mon,
                chrono::Weekday::Tue => Weekday::Tue,
                chrono::Weekday::Wed => Weekday::Wed,
                chrono::Weekday::Thu => Weekday::Thu,
                chrono::Weekday::Fri => Weekday::Fri,
                chrono::Weekday::Sat => Weekday::Sat,
                chrono::Weekday::Sun => Weekday::Sun,
            },
        ),
        None => None,
    }
}

impl ReferenceDate {
    /// The reference date for a calendar date, with the day of the week on
    /// which that date falls; `None` where the calendar has no such date.
    pub fn from_ymd(year: i32, month: u32, day: u32) -> (r: Option<ReferenceDate>)
        ensures
            r == match weekday_of_date(year, month, day) {
                Some(weekday) => Some(ReferenceDate { weekday, month, day }),
                None => None,
            },
    {
        match weekday_from_ymd(year, month, day) {
            Some(weekday) => Some(ReferenceDate { weekday, month, day }),
            None => None,
        }
    }
}

} // verus!
