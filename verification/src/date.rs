//! Calendar dates as text.

use crate::text;
use chrono::NaiveDate;
use vstd::prelude::*;

verus! {

/// Declares `chrono::NaiveDate`.
#[verifier::external_type_specification]
#[verifier::external_body]
pub struct ExNaiveDate(NaiveDate);

/// The view of a date.
pub struct DateView {
    pub year: int,
    pub month: int,
    pub day: int,
}

/// The year, month and day of a date.
pub uninterp spec fn date_view(date: NaiveDate) -> DateView;

/// Whether a year of the Gregorian calendar has a leap day.
pub open spec fn is_leap_year(year: int) -> bool {
    year % 4 == 0 && (year % 100 != 0 || year % 400 == 0)
}

/// The number of days of a month of the Gregorian calendar.
pub open spec fn days_in_month(year: int, month: int) -> int {
    if month == 2 {
        if is_leap_year(year) {
            29
        } else {
            28
        }
    } else if month == 4 || month == 6 || month == 9 || month == 11 {
        30
    } else {
        31
    }
}

/// Whether a date exists, in a year that a `NaiveDate` can hold.
pub open spec fn is_date(date: DateView) -> bool {
    &&& -262143 <= date.year <= 262142
    &&& 1 <= date.month <= 12
    &&& 1 <= date.day <= days_in_month(date.year, date.month)
}

/// A number in decimal notation, with leading zeros up to a width.
pub open spec fn padded(n: nat, width: nat) -> Seq<char> {
    let digits = text::decimal(n);
    if digits.len() < width {
        Seq::new((width - digits.len()) as nat, |i: int| '0') + digits
    } else {
        digits
    }
}

/// A year in four digits. Years below zero and above 9999 have a sign.
pub open spec fn year_text(year: int) -> Seq<char> {
    if year < 0 {
        "-"@ + padded((-year) as nat, 4)
    } else if year <= 9999 {
        padded(year as nat, 4)
    } else {
        "+"@ + padded(year as nat, 4)
    }
}

/// A date as year, month and day with hyphens between them.
pub open spec fn iso_date(date: DateView) -> Seq<char> {
    year_text(date.year) + "-"@ + padded(date.month as nat, 2) + "-"@ + padded(date.day as nat, 2)
}

/// `NaiveDate::from_ymd_opt`: the date of a year, a month and a day, where there is one.
#[verifier::external_body]
pub(crate) fn date_of(year: i32, month: u32, day: u32) -> (date: Option<NaiveDate>)
    ensures
        match date {
            Some(date) => {
                &&& date_view(date) == (DateView {
                    year: year as int,
                    month: month as int,
                    day: day as int,
                })
                &&& is_date(date_view(date))
            },
            None => !is_date(
                DateView { year: year as int, month: month as int, day: day as int },
            ),
        },
{
    NaiveDate::from_ymd_opt(year, month, day)
}

/// `NaiveDate::format` with the pattern `%Y-%m-%d`.
#[verifier::external_body]
pub(crate) fn iso_date_text(date: &NaiveDate) -> (text: String)
    ensures
        text@ == iso_date(date_view(*date)),
{
    date.format("%Y-%m-%d").to_string()
}

/// A date as text, where the date exists.
pub fn date_text(year: i32, month: u32, day: u32) -> (text: Option<String>)
    ensures
        text::option_view(text) == ({
            let date = DateView { year: year as int, month: month as int, day: day as int };
            if is_date(date) {
                Some(iso_date(date))
            } else {
                None
            }
        }),
{
    match date_of(year, month, day) {
        Some(date) => Some(iso_date_text(&date)),
        None => None,
    }
}

} // verus!
