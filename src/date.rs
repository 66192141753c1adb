//! Calendar dates, read and written in the `YYYY-MM-DD` form.
use vstd::prelude::*;
use chrono::Datelike;

verus! {

/// A calendar date (UTC, day precision).
#[derive(PartialEq, Eq, Structural, Clone, Copy, Debug)]
pub struct Date {
    pub year: i32,
    pub month: u32,
    pub day: u32,
}

/// The date that chrono reads from `s` with the pattern `%Y-%m-%d`, if any.
pub uninterp spec fn iso_date_of(s: Seq<char>) -> Option<Date>;

/// The text that chrono writes for `d` with the pattern `%Y-%m-%d`.
pub uninterp spec fn iso_text_of(d: Date) -> Seq<char>;

pub open spec fn is_leap_year(y: int) -> bool {
    (y % 4 == 0 && y % 100 != 0) || y % 400 == 0
}

pub open spec fn days_in_month(y: int, m: int) -> int {
    if m == 2 {
        if is_leap_year(y) { 29 } else { 28 }
    } else if m == 4 || m == 6 || m == 9 || m == 11 {
        30
    } else {
        31
    }
}

/// Whether `d` names a day of the proleptic Gregorian calendar.
pub open spec fn valid_date(d: Date) -> bool {
    1 <= d.month <= 12 && 1 <= d.day <= days_in_month(d.year as int, d.month as int)
}

pub open spec fn digit_char(n: int) -> char {
    (n + '0' as int) as char
}

/// `n` in exactly `width` decimal digits, zero padded.
pub open spec fn padded(n: int, width: nat) -> Seq<char>
    decreases width,
{
    if width == 0 {
        Seq::empty()
    } else {
        padded(n / 10, (width - 1) as nat).push(digit_char(n % 10))
    }
}

/// Relies on chrono's `NaiveDate::parse_from_str` with `%Y-%m-%d`, and on
/// its `year`, `month` and `day` accessors.
#[verifier::external_body]
fn chrono_parse_iso(s: &str) -> (r: Option<Date>)
    ensures
        r == iso_date_of(s@),
        r matches Some(d) ==> valid_date(d),
{
    chrono::NaiveDate::parse_from_str(s, "%Y-%m-%d")
        .ok()
        .map(|d| Date { year: d.year(), month: d.month(), day: d.day() })
}

/// Relies on chrono's `NaiveDate::from_ymd_opt` and its `format` with
/// `%Y-%m-%d`: a year from 0 to 9999 in four digits, month and day in two,
/// each zero padded.
#[verifier::external_body]
fn chrono_format_iso(d: Date) -> (r: String)
    ensures
        r@ == iso_text_of(d),
        0 <= d.year <= 9999 && valid_date(d) ==> r@ == padded(d.year as int, 4) + seq!['-'] + padded(d.month as int, 2) + seq!['-'] + padded(d.day as int, 2),
{
    match chrono::NaiveDate::from_ymd_opt(d.year, d.month, d.day) {
        Some(n) => n.format("%Y-%m-%d").to_string(),
        None => String::new(),
    }
}

impl Date {
    /// Reads a date written `YYYY-MM-DD`.
    pub fn parse_iso(s: &str) -> (r: Option<Date>)
        ensures
            r == iso_date_of(s@),
    {
        chrono_parse_iso(s)
    }

    /// Writes the date as `YYYY-MM-DD`.
    pub fn to_iso_string(&self) -> (r: String)
        ensures
            r@ == iso_text_of(*self),
    {
        chrono_format_iso(*self)
    }
}

} // verus!
