//! Calendar dates.

use chrono::Datelike;
use vstd::prelude::*;
use vstd::string::*;

use crate::numbers::{
    decimal, digits_value, law_decimal_read, lemma_padded_number, padded, padded_string,
};
use crate::text::{all_digits, is_digit, push_char};

verus! {

/// The first and last year that a date can have.
pub const MIN_YEAR: i32 = -262143;

pub const MAX_YEAR: i32 = 262142;

/// A date as a value.
pub struct Ymd {
    pub year: int,
    pub month: int,
    pub day: int,
}

pub open spec fn leap_year(year: int) -> bool {
    year % 4 == 0 && (year % 100 != 0 || year % 400 == 0)
}

pub open spec fn month_days(year: int, month: int) -> int {
    if month == 2 {
        if leap_year(year) {
            29
        } else {
            28
        }
    } else if month == 4 || month == 6 || month == 9 || month == 11 {
        30
    } else {
        31
    }
}

/// The days of the proleptic Gregorian calendar within the supported years.
pub open spec fn calendar_date(d: Ymd) -> bool {
    &&& MIN_YEAR <= d.year <= MAX_YEAR
    &&& 1 <= d.month <= 12
    &&& 1 <= d.day <= month_days(d.year, d.month)
}

/// A year as it is written: four digits, or a sign and at least four digits.
pub open spec fn year_text(year: int) -> Seq<char> {
    if 0 <= year <= 9999 {
        padded(year as nat, 4)
    } else if year < 0 {
        seq!['-'] + padded((-year) as nat, 4)
    } else {
        seq!['+'] + padded(year as nat, 4)
    }
}

/// `YYYYMMDD`.
pub open spec fn compact_text(d: Ymd) -> Seq<char> {
    year_text(d.year) + padded(d.month as nat, 2) + padded(d.day as nat, 2)
}

/// `YYYY-MM-DD`.
pub open spec fn iso_text(d: Ymd) -> Seq<char> {
    year_text(d.year) + seq!['-'] + padded(d.month as nat, 2) + seq!['-'] + padded(
        d.day as nat,
        2,
    )
}

/// A calendar date.
#[derive(Debug, Clone, Copy, PartialEq, Eq)]
pub struct Date {
    year: i32,
    month: u32,
    day: u32,
}

impl View for Date {
    type V = Ymd;

    closed spec fn view(&self) -> Ymd {
        Ymd { year: self.year as int, month: self.month as int, day: self.day as int }
    }
}

/// An optional date as a value.
pub open spec fn opt_date_view(d: Option<Date>) -> Option<Ymd> {
    match d {
        Some(x) => Some(x@),
        None => None,
    }
}

impl Date {
    #[verifier::type_invariant]
    spec fn valid(self) -> bool {
        calendar_date(self@)
    }

    /// The date of that year, month and day, if the calendar has it.
    pub fn from_ymd_opt(year: i32, month: u32, day: u32) -> (res: Option<Date>)
        ensures
            opt_date_view(res) == ({
                let d = Ymd { year: year as int, month: month as int, day: day as int };
                if calendar_date(d) {
                    Some(d)
                } else {
                    None
                }
            }),
    {
        if year < MIN_YEAR || year > MAX_YEAR || month < 1 || month > 12 || day < 1 {
            return None;
        }
        let leap: bool = year % 4 == 0 && (year % 100 != 0 || year % 400 == 0);
        let days: u32 = if month == 2 {
            if leap {
                29
            } else {
                28
            }
        } else if month == 4 || month == 6 || month == 9 || month == 11 {
            30
        } else {
            31
        };
        if day > days {
            return None;
        }
        Some(Date { year, month, day })
    }

    pub fn year(&self) -> (y: i32)
        ensures
            y == self@.year,
    {
        self.year
    }

    pub fn month(&self) -> (m: u32)
        ensures
            m == self@.month,
    {
        self.month
    }

    pub fn day(&self) -> (d: u32)
        ensures
            d == self@.day,
    {
        self.day
    }

    fn year_string(&self) -> (s: String)
        ensures
            s@ == year_text(self@.year),
    {
        proof {
            use_type_invariant(self);
        }
        if 0 <= self.year && self.year <= 9999 {
            return padded_string(self.year as u128, 4);
        }
        let mut s = String::new();
        if self.year < 0 {
            push_char(&mut s, '-');
            s.append(padded_string((-self.year) as u128, 4).as_str());
            assert(s@ =~= seq!['-'] + padded((-self@.year) as nat, 4));
        } else {
            push_char(&mut s, '+');
            s.append(padded_string(self.year as u128, 4).as_str());
            assert(s@ =~= seq!['+'] + padded(self@.year as nat, 4));
        }
        s
    }

    /// The date as `YYYYMMDD`.
    pub fn compact(&self) -> (s: String)
        ensures
            s@ == compact_text(self@),
    {
        let mut s = self.year_string();
        s.append(padded_string(self.month as u128, 2).as_str());
        s.append(padded_string(self.day as u128, 2).as_str());
        s
    }

    /// The date as `YYYY-MM-DD`.
    pub fn iso(&self) -> (s: String)
        ensures
            s@ == iso_text(self@),
    {
        let mut s = self.year_string();
        push_char(&mut s, '-');
        s.append(padded_string(self.month as u128, 2).as_str());
        push_char(&mut s, '-');
        s.append(padded_string(self.day as u128, 2).as_str());
        assert(s@ =~= iso_text(self@));
        s
    }
}

// ---- Reading dates ----

/// What chrono reads from a text by the format `%Y%m%d`, as year, month and day.
pub uninterp spec fn chrono_compact_date(s: Seq<char>) -> Option<(int, int, int)>;

/// The date that a text of the form `YYYYMMDD` states.
pub open spec fn compact_date(s: Seq<char>) -> Option<Ymd> {
    match chrono_compact_date(s) {
        Some((year, month, day)) => Some(Ymd { year, month, day }),
        None => None,
    }
}

/// Year, month and day of eight digits.
pub open spec fn digits_ymd(s: Seq<char>) -> Ymd {
    Ymd {
        year: digits_value(s.subrange(0, 4)) as int,
        month: digits_value(s.subrange(4, 6)) as int,
        day: digits_value(s.subrange(6, 8)) as int,
    }
}

/// Reads a date by the format `%Y%m%d`.
///
/// Trusted: `chrono::NaiveDate::parse_from_str` depends on the text alone and
/// gives a day of the calendar. Eight digits are read as a year of four and a
/// month and a day of two each, and refused where the calendar has no such day.
/// What it makes of other texts (signs, white space, fewer digits) has only a
/// name here.
#[verifier::external_body]
fn parse_ymd(s: &str) -> (res: Option<(i32, u32, u32)>)
    ensures
        match res {
            Some(r) => chrono_compact_date(s@) == Some((r.0 as int, r.1 as int, r.2 as int)),
            None => chrono_compact_date(s@) is None,
        },
        res matches Some(r) ==> calendar_date(
            (Ymd { year: r.0 as int, month: r.1 as int, day: r.2 as int }),
        ),
        s@.len() == 8 && all_digits(s@) ==> (match res {
            Some(r) => digits_ymd(s@) == (Ymd {
                year: r.0 as int,
                month: r.1 as int,
                day: r.2 as int,
            }),
            None => !calendar_date(digits_ymd(s@)),
        }),
{
    match chrono::NaiveDate::parse_from_str(s, "%Y%m%d") {
        Ok(d) => Some((d.year(), d.month(), d.day())),
        Err(_) => None,
    }
}

/// Reads a date of the form `YYYYMMDD`.
pub fn parse_compact(s: &str) -> (res: Option<Date>)
    ensures
        opt_date_view(res) == compact_date(s@),
        s@.len() == 8 && all_digits(s@) ==> opt_date_view(res) == (if calendar_date(
            digits_ymd(s@),
        ) {
            Some(digits_ymd(s@))
        } else {
            None
        }),
{
    match parse_ymd(s) {
        Some(r) => Date::from_ymd_opt(r.0, r.1, r.2),
        None => None,
    }
}

// ---- The clock ----

/// The current date in UTC.
///
/// Trusted: `chrono::Utc::now` and its `date_naive` give some day of the
/// calendar; which one depends on the clock, so nothing more is said.
#[verifier::external_body]
fn utc_ymd() -> (r: (i32, u32, u32))
    ensures
        calendar_date((Ymd { year: r.0 as int, month: r.1 as int, day: r.2 as int })),
{
    let d = chrono::Utc::now().date_naive();
    (d.year(), d.month(), d.day())
}

/// The current date in UTC.
pub fn today() -> (d: Date)
    ensures
        calendar_date(d@),
{
    let r = utc_ymd();
    match Date::from_ymd_opt(r.0, r.1, r.2) {
        Some(d) => d,
        None => {
            assert(false);
            Date { year: 1970, month: 1, day: 1 }
        },
    }
}

/// A moment of local time as the security segments state it.
#[derive(Debug)]
pub struct Timestamp {
    /// `YYYYMMDD`.
    pub date: String,
    /// `HHMMSS`.
    pub time: String,
}

/// A moment of local time as a value.
pub struct Moment {
    pub date: Seq<char>,
    pub time: Seq<char>,
}

impl View for Timestamp {
    type V = Moment;

    open spec fn view(&self) -> Moment {
        Moment { date: self.date@, time: self.time@ }
    }
}

/// The form of a timestamp: a day of the calendar and six digits.
pub open spec fn well_formed_moment(m: Moment) -> bool {
    &&& exists|d: Ymd| calendar_date(d) && m.date == #[trigger] compact_text(d)
    &&& m.time.len() == 6 && all_digits(m.time)
}

/// The current local date and time.
///
/// Trusted: `chrono::Local::now`, written by the formats `%Y%m%d` and `%H%M%S`,
/// gives the text of some day of the calendar and six digits; which ones
/// depends on the clock and the time zone, so nothing more is said.
#[verifier::external_body]
pub(crate) fn local_timestamp() -> (t: Timestamp)
    ensures
        well_formed_moment(t@),
{
    let now = chrono::Local::now();
    Timestamp {
        date: now.format("%Y%m%d").to_string(),
        time: now.format("%H%M%S").to_string(),
    }
}

// ---- Laws ----

proof fn lemma_short_number(n: nat, width: nat, bound: nat)
    requires
        n < bound,
        width == 2 && bound == 100 || width == 4 && bound == 10000,
    ensures
        decimal(n).len() <= width,
{
    reveal_with_fuel(decimal, 5);
}

/// A date of a year of four digits is written with eight digits, from which year,
/// month and day are read again.
pub proof fn law_compact_date_read(d: Ymd)
    requires
        calendar_date(d),
        0 <= d.year <= 9999,
    ensures
        compact_text(d).len() == 8,
        all_digits(compact_text(d)),
        digits_ymd(compact_text(d)) == d,
{
    let y = padded(d.year as nat, 4);
    let m = padded(d.month as nat, 2);
    let n = padded(d.day as nat, 2);
    lemma_short_number(d.year as nat, 4, 10000);
    lemma_short_number(d.month as nat, 2, 100);
    lemma_short_number(d.day as nat, 2, 100);
    lemma_padded_number(d.year as nat, 4);
    lemma_padded_number(d.month as nat, 2);
    lemma_padded_number(d.day as nat, 2);
    let s = compact_text(d);
    assert(s =~= y + m + n);
    assert(s.subrange(0, 4) =~= y);
    assert(s.subrange(4, 6) =~= m);
    assert(s.subrange(6, 8) =~= n);
    assert forall|i: int| 0 <= i < s.len() implies is_digit(#[trigger] s[i]) by {
        if i < 4 {
            assert(s[i] == y[i]);
        } else if i < 6 {
            assert(s[i] == m[i - 4]);
        } else {
            assert(s[i] == n[i - 6]);
        }
    }
}

/// The ISO form of a date is the compact one with hyphens behind the year and
/// the month.
pub proof fn law_iso_text(d: Ymd)
    requires
        calendar_date(d),
        0 <= d.year <= 9999,
    ensures
        iso_text(d).len() == 10,
        iso_text(d)[4] == '-',
        iso_text(d)[7] == '-',
        iso_text(d).subrange(0, 4) + iso_text(d).subrange(5, 7) + iso_text(d).subrange(8, 10)
            == compact_text(d),
{
    lemma_short_number(d.year as nat, 4, 10000);
    lemma_short_number(d.month as nat, 2, 100);
    lemma_short_number(d.day as nat, 2, 100);
    lemma_padded_number(d.year as nat, 4);
    lemma_padded_number(d.month as nat, 2);
    lemma_padded_number(d.day as nat, 2);
    let s = iso_text(d);
    assert(s.subrange(0, 4) + s.subrange(5, 7) + s.subrange(8, 10) =~= compact_text(d));
}

/// Months other than February have 30 and 31 days in turn, but for July and
/// August, which both have 31.
pub proof fn law_month_lengths(year: int, month: int)
    requires
        1 <= month <= 12,
        month != 2,
    ensures
        month_days(year, month) == 30 + (month + month / 8) % 2,
{
}

/// A year has 365 days, and one more every four years but for three times in four
/// hundred; the one more is in February.
pub proof fn law_year_length(year: int)
    ensures
        ({
            let days = month_days(year, 1) + month_days(year, 2) + month_days(year, 3) + month_days(
                year,
                4,
            ) + month_days(year, 5) + month_days(year, 6) + month_days(year, 7) + month_days(
                year,
                8,
            ) + month_days(year, 9) + month_days(year, 10) + month_days(year, 11) + month_days(
                year,
                12,
            );
            &&& year % 4 != 0 ==> days == 365
            &&& year % 4 == 0 && year % 100 != 0 ==> days == 366
            &&& year % 100 == 0 && year % 400 != 0 ==> days == 365
            &&& year % 400 == 0 ==> days == 366
        }),
        month_days(year + 400, 2) == month_days(year, 2),
{
    assert(year % 400 == 0 ==> year % 100 == 0 && year % 4 == 0);
    assert(year % 100 == 0 ==> year % 4 == 0);
}

/// A year is written with at least four digits; those before year 0 have a minus
/// in front, those of more than four digits a plus.
pub proof fn law_year_written(year: int)
    ensures
        ({
            let s = year_text(year);
            let digits = if 0 <= year <= 9999 {
                s
            } else {
                s.skip(1)
            };
            &&& digits.len() >= 4
            &&& digits.len() > 4 ==> digits[0] != '0'
            &&& all_digits(digits)
            &&& digits_value(digits) == (if year < 0 {
                -year
            } else {
                year
            })
            &&& year < 0 ==> s[0] == '-'
            &&& year > 9999 ==> s[0] == '+'
        }),
{
    let n = (if year < 0 {
        -year
    } else {
        year
    }) as nat;
    lemma_padded_number(n, 4);
    law_decimal_read(n);
    let s = year_text(year);
    if year < 0 || year > 9999 {
        assert(s.skip(1) =~= padded(n, 4));
    }
}

} // verus!
