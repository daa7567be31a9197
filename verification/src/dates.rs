use vstd::prelude::*;

use crate::numeric::{digit_char, digit_to_char};
use crate::strutil::push_char;

verus! {

use chrono::Datelike;

/// A calendar day, as chrono hands it back from an ISO `YYYY-MM-DD` string.
#[derive(Debug, Clone, Copy)]
pub struct Date {
    pub year: u16,
    pub month: u8,
    pub day: u8,
}

impl Date {
    /// Field ranges: a renderable four-digit year and calendar-shaped month
    /// and day.
    pub open spec fn wf(self) -> bool {
        &&& self.year <= 9999
        &&& 1 <= self.month <= 12
        &&& 1 <= self.day <= 31
    }

    /// A single integer that orders dates chronologically.
    pub open spec fn key(self) -> int {
        self.year * 10000 + self.month * 100 + self.day
    }

    /// Three-way chronological comparison.
    pub fn cmp_date(&self, other: &Date) -> (r: i8)
        requires
            self.wf(),
            other.wf(),
        ensures
            r == -1 <==> self.key() < other.key(),
            r == 0 <==> self.key() == other.key(),
            r == 1 <==> self.key() > other.key(),
    {
        let a: u32 = self.year as u32 * 10000 + self.month as u32 * 100 + self.day as u32;
        let b: u32 = other.year as u32 * 10000 + other.month as u32 * 100 + other.day as u32;
        if a < b {
            -1
        } else if a == b {
            0
        } else {
            1
        }
    }

    /// Renders the date as `YYYY-MM-DD`, zero padded, the way chrono prints
    /// a date in this range.
    pub fn render(&self) -> (r: String)
        requires
            self.wf(),
        ensures
            r@ == date_render(*self),
    {
        let mut out = String::new();
        let y = self.year;
        push_char(&mut out, digit_to_char((y / 1000) as u8));
        push_char(&mut out, digit_to_char((y / 100 % 10) as u8));
        push_char(&mut out, digit_to_char((y / 10 % 10) as u8));
        push_char(&mut out, digit_to_char((y % 10) as u8));
        push_char(&mut out, '-');
        push_char(&mut out, digit_to_char(self.month / 10));
        push_char(&mut out, digit_to_char(self.month % 10));
        push_char(&mut out, '-');
        push_char(&mut out, digit_to_char(self.day / 10));
        push_char(&mut out, digit_to_char(self.day % 10));
        proof {
            assert(out@ =~= date_render(*self));
        }
        out
    }
}

/// The `YYYY-MM-DD` rendering of a date.
pub open spec fn date_render(d: Date) -> Seq<char> {
    seq![
        digit_char(d.year as int / 1000),
        digit_char(d.year as int / 100 % 10),
        digit_char(d.year as int / 10 % 10),
        digit_char(d.year as int % 10),
        '-',
        digit_char(d.month as int / 10),
        digit_char(d.month as int % 10),
        '-',
        digit_char(d.day as int / 10),
        digit_char(d.day as int % 10),
    ]
}

/// What chrono's `%Y-%m-%d` parser returns for a given string: year, month
/// and day, or nothing when the string is not a valid calendar date.
pub uninterp spec fn iso_date_of(s: Seq<char>) -> Option<(int, int, int)>;

/// Relies on `chrono::NaiveDate::parse_from_str` with the `%Y-%m-%d` format,
/// and on the `Datelike` accessors `year`, `month` and `day`; chrono
/// guarantees a month in 1..=12 and a day in 1..=31.
#[verifier::external_body]
pub(crate) fn date_parse_raw(s: &str) -> (r: Option<(i32, u32, u32)>)
    ensures
        match r {
            Some(t) => iso_date_of(s@) == Some((t.0 as int, t.1 as int, t.2 as int)) && 1 <= t.1
                <= 12 && 1 <= t.2 <= 31,
            None => iso_date_of(s@) is None,
        },
{
    match chrono::NaiveDate::parse_from_str(s, "%Y-%m-%d") {
        Ok(d) => Some((d.year(), d.month(), d.day())),
        Err(_) => None,
    }
}

/// The date denoted by a string: what chrono parses, narrowed to the years
/// this engine renders (0 through 9999).
pub open spec fn date_of_str(s: Seq<char>) -> Option<Date> {
    match iso_date_of(s) {
        Some((y, m, d)) => if 0 <= y <= 9999 && 1 <= m <= 12 && 1 <= d <= 31 {
            Some(Date { year: y as u16, month: m as u8, day: d as u8 })
        } else {
            None
        },
        None => None,
    }
}

/// Parses an ISO `YYYY-MM-DD` string into a date.
pub fn parse_date(s: &str) -> (r: Option<Date>)
    ensures
        r == date_of_str(s@),
        r is Some ==> r->Some_0.wf(),
{
    match date_parse_raw(s) {
        Some((y, m, d)) => {
            if 0 <= y && y <= 9999 {
                Some(Date { year: y as u16, month: m as u8, day: d as u8 })
            } else {
                None
            }
        },
        None => None,
    }
}


/// Parses an ISO `YYYY-MM-DD` string, a failure reported as an error.
pub fn parse_iso_date_from_str(s: &str) -> (r: Result<Date, crate::error::ZakuError>)
    ensures
        match r {
            Ok(d) => date_of_str(s@) == Some(d) && d.wf(),
            Err(e) => date_of_str(s@) is None && e is ValueParseError,
        },
{
    match parse_date(s) {
        Some(d) => Ok(d),
        None => Err(
            crate::error::ZakuError::ValueParseError(
                String::from_str("not a date of the form YYYY-MM-DD"),
            ),
        ),
    }
}

} // verus!
