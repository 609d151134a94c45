//! Calendar dates as they appear in todo.txt lines: `YYYY-MM-DD`.

use vstd::prelude::*;

verus! {

/// A calendar date with a four-digit year, as todo.txt lines carry them.
#[derive(Clone, Copy, Debug, PartialEq, Eq, Structural)]
pub struct Date {
    pub year: u16,
    pub month: u8,
    pub day: u8,
}

pub open spec fn spec_is_leap_year(y: int) -> bool {
    y % 4 == 0 && (y % 100 != 0 || y % 400 == 0)
}

pub open spec fn spec_days_in_month(y: int, m: int) -> int {
    if m == 2 {
        if spec_is_leap_year(y) {
            29
        } else {
            28
        }
    } else if m == 4 || m == 6 || m == 9 || m == 11 {
        30
    } else {
        31
    }
}

impl Date {
    /// A date that exists in the proleptic Gregorian calendar and fits
    /// the four-digit year of the file format.
    pub open spec fn wf(self) -> bool {
        &&& self.year <= 9999
        &&& 1 <= self.month <= 12
        &&& 1 <= self.day <= spec_days_in_month(self.year as int, self.month as int)
    }

    /// Builds a date after checking that it exists in the calendar.
    pub fn from_ymd(year: u16, month: u8, day: u8) -> (r: Option<Date>)
        ensures
            r is Some <==> (Date { year, month, day }).wf(),
            r matches Some(d) ==> d == (Date { year, month, day }),
    {
        if year <= 9999 && 1 <= month && month <= 12 && 1 <= day
            && day <= days_in_month(year, month) {
            Some(Date { year, month, day })
        } else {
            None
        }
    }

    /// Renders the date as the ten bytes `YYYY-MM-DD`.
    pub fn render(&self) -> (r: Vec<u8>)
        ensures
            r@ == spec_date_bytes(*self),
    {
        let mut out: Vec<u8> = Vec::new();
        out.push(48 + ((self.year / 1000) % 10) as u8);
        out.push(48 + ((self.year / 100) % 10) as u8);
        out.push(48 + ((self.year / 10) % 10) as u8);
        out.push(48 + (self.year % 10) as u8);
        out.push(45);
        out.push(48 + (self.month / 10) % 10);
        out.push(48 + self.month % 10);
        out.push(45);
        out.push(48 + (self.day / 10) % 10);
        out.push(48 + self.day % 10);
        proof {
            assert(out@ =~= spec_date_bytes(*self));
        }
        out
    }
}

pub fn is_leap_year(y: u16) -> (r: bool)
    ensures
        r == spec_is_leap_year(y as int),
{
    y % 4 == 0 && (y % 100 != 0 || y % 400 == 0)
}

pub fn days_in_month(y: u16, m: u8) -> (r: u8)
    ensures
        r as int == spec_days_in_month(y as int, m as int),
{
    if m == 2 {
        if is_leap_year(y) {
            29
        } else {
            28
        }
    } else if m == 4 || m == 6 || m == 9 || m == 11 {
        30
    } else {
        31
    }
}

/// Relies on chrono: `Local::now().date_naive()` is the current local
/// calendar date, and the `Datelike` accessors `month` and `day`
/// return values in 1..=12 and 1..=31.
#[verifier::external_body]
fn now_ymd() -> (r: (i32, u32, u32))
    ensures
        1 <= r.1 <= 12,
        1 <= r.2 <= 31,
{
    let d = chrono::Local::now().date_naive();
    (chrono::Datelike::year(&d), chrono::Datelike::month(&d), chrono::Datelike::day(&d))
}

/// Today's local calendar date, when it lies in the four-digit-year
/// range of the file format and exists in the calendar.
pub fn today() -> (r: Option<Date>)
    ensures
        r matches Some(d) ==> d.wf(),
{
    let (y, m, d) = now_ymd();
    if 0 <= y && y <= 9999 {
        Date::from_ymd(y as u16, m as u8, d as u8)
    } else {
        None
    }
}

/// A rendered date consists of digits and dashes: no line feed.
pub proof fn lemma_date_bytes_no_nl(d: Date)
    ensures
        forall|i: int| 0 <= i < spec_date_bytes(d).len() ==> spec_date_bytes(d)[i] != 10,
{
}

/// The ten bytes `YYYY-MM-DD` of a date.
pub open spec fn spec_date_bytes(d: Date) -> Seq<u8> {
    seq![
        (48 + (d.year as int / 1000) % 10) as u8,
        (48 + (d.year as int / 100) % 10) as u8,
        (48 + (d.year as int / 10) % 10) as u8,
        (48 + d.year as int % 10) as u8,
        45u8,
        (48 + (d.month as int / 10) % 10) as u8,
        (48 + d.month as int % 10) as u8,
        45u8,
        (48 + (d.day as int / 10) % 10) as u8,
        (48 + d.day as int % 10) as u8,
    ]
}

} // verus!
