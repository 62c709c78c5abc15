//! Calendar dates: reading them with `chrono` and writing them as ISO dates.

use chrono::Datelike;
use vstd::prelude::*;
use crate::numbers::{decimal, decimal_chars};
use crate::text::{append_chars, byte_prefix, chars_of, string_of, trim, trim_ws, take_bytes, utf8_len};

verus! {

/// A day of the proleptic Gregorian calendar.
#[derive(Clone, Copy, Debug, PartialEq, Eq, Structural)]
pub struct CalendarDate {
    pub year: i32,
    pub month: u32,
    pub day: u32,
}

/// The date that `chrono::NaiveDate::parse_from_str(s, fmt)` reads, as
/// (year, month, day); `None` when it rejects the input.
pub uninterp spec fn parsed_date(s: Seq<char>, fmt: Seq<char>) -> Option<(i32, u32, u32)>;

/// Reads a date with `chrono::NaiveDate::parse_from_str`. `NaiveDate::month`
/// and `NaiveDate::day` are documented to lie in 1..=12 and 1..=31; beyond
/// that the contract only names the result.
#[verifier::external_body]
pub(crate) fn parse_date(s: &str, fmt: &str) -> (r: Option<CalendarDate>)
    ensures
        match r {
            Some(d) => parsed_date(s@, fmt@) == Some((d.year, d.month, d.day)) && 1 <= d.month <= 12
                && 1 <= d.day <= 31,
            None => parsed_date(s@, fmt@) is None,
        },
{
    match chrono::NaiveDate::parse_from_str(s, fmt) {
        Ok(d) => Some(CalendarDate { year: d.year(), month: d.month(), day: d.day() }),
        Err(_) => None,
    }
}

/// The day `days` days before the date (year, month, day), as
/// `chrono::NaiveDate::checked_sub_days` gives it; `None` when the date does
/// not exist (`NaiveDate::from_ymd_opt`) or the result is out of chrono's range.
pub uninterp spec fn days_before_result(year: i32, month: u32, day: u32, days: u64) -> Option<(i32, u32, u32)>;

/// Steps back `days` days with `chrono::NaiveDate::from_ymd_opt` and
/// `NaiveDate::checked_sub_days`. The contract names the result, with the
/// month and day bounds that every `NaiveDate` has.
#[verifier::external_body]
pub(crate) fn date_minus_days(date: CalendarDate, days: u64) -> (r: Option<CalendarDate>)
    ensures
        match r {
            Some(d) => days_before_result(date.year, date.month, date.day, days) == Some(
                (d.year, d.month, d.day),
            ) && 1 <= d.month <= 12 && 1 <= d.day <= 31,
            None => days_before_result(date.year, date.month, date.day, days) is None,
        },
{
    match chrono::NaiveDate::from_ymd_opt(date.year, date.month, date.day) {
        Some(d) => match d.checked_sub_days(chrono::Days::new(days)) {
            Some(e) => Some(CalendarDate { year: e.year(), month: e.month(), day: e.day() }),
            None => None,
        },
        None => None,
    }
}

pub const ISO_FORMAT: &'static str = "%Y-%m-%d";
pub const GERMAN_FORMAT: &'static str = "%d.%m.%Y";

/// The date in a parse result.
pub open spec fn as_date(p: Option<(i32, u32, u32)>) -> Option<CalendarDate> {
    match p {
        Some((y, m, d)) => Some(CalendarDate { year: y, month: m, day: d }),
        None => None,
    }
}

/// `n` with at least `width` digits, padded with leading zeros.
pub open spec fn padded(n: nat, width: nat) -> Seq<char>
    decreases width,
{
    if decimal(n).len() >= width {
        decimal(n)
    } else if width == 0 {
        decimal(n)
    } else {
        seq!['0'] + padded(n, (width - 1) as nat)
    }
}

/// A year as chrono's `%Y` writes it: four digits for years 0 to 9999, else
/// a sign followed by at least four digits.
pub open spec fn year_text(y: int) -> Seq<char> {
    if 0 <= y <= 9999 {
        padded(y as nat, 4)
    } else if y > 9999 {
        seq!['+'] + decimal(y as nat)
    } else {
        seq!['-'] + padded((-y) as nat, 4)
    }
}

/// A date written as `%Y-%m-%d`.
pub open spec fn iso_text(d: CalendarDate) -> Seq<char> {
    year_text(d.year as int) + seq!['-'] + padded(d.month as nat, 2) + seq!['-'] + padded(
        d.day as nat,
        2,
    )
}

/// `n` with leading zeros up to `width` digits.
fn padded_chars(n: u64, width: usize) -> (r: Vec<char>)
    ensures
        r@ == padded(n as nat, width as nat),
    decreases width,
{
    let digits = decimal_chars(n);
    if digits.len() >= width || width == 0 {
        digits
    } else {
        let mut r: Vec<char> = vec!['0'];
        append_chars(&mut r, padded_chars(n, width - 1).as_slice());
        r
    }
}

impl CalendarDate {
    /// The date as `YYYY-MM-DD`, written as chrono's `%Y-%m-%d` writes it.
    pub fn to_iso_string(&self) -> (r: String)
        ensures
            r@ == iso_text(*self),
    {
        let mut out: Vec<char> = Vec::new();
        let y = self.year;
        if 0 <= y && y <= 9999 {
            out = padded_chars(y as u64, 4);
        } else if y > 9999 {
            out.push('+');
            append_chars(&mut out, decimal_chars(y as u64).as_slice());
        } else {
            out.push('-');
            let m: u64 = ((-(y as i64)) as u64);
            append_chars(&mut out, padded_chars(m, 4).as_slice());
        }
        out.push('-');
        append_chars(&mut out, padded_chars(self.month as u64, 2).as_slice());
        out.push('-');
        append_chars(&mut out, padded_chars(self.day as u64, 2).as_slice());
        let ghost yt = year_text(self.year as int);
        assert(out@ =~= iso_text(*self));
        string_of(out.as_slice())
    }

    /// `self` is an earlier day than `other`.
    pub open spec fn earlier(self, other: CalendarDate) -> bool {
        ||| self.year < other.year
        ||| self.year == other.year && self.month < other.month
        ||| self.year == other.year && self.month == other.month && self.day < other.day
    }

    /// Whether `self` is an earlier day than `other`.
    pub fn is_before(&self, other: &CalendarDate) -> (b: bool)
        ensures
            b == self.earlier(*other),
    {
        self.year < other.year || (self.year == other.year && self.month < other.month) || (
        self.year == other.year && self.month == other.month && self.day < other.day)
    }
}

/// The normalised date of an article: kept as given when it is already an
/// ISO date, the date part of a timestamp that starts with one, a German
/// `DD.MM.YYYY` date rewritten as ISO, or else the trimmed input.
pub open spec fn normalized_date(input: Seq<char>) -> Seq<char> {
    let t = trim(input);
    if parsed_date(t, ISO_FORMAT@) is Some && utf8_len(t) == 10 {
        t
    } else if utf8_len(t) >= 10 && parsed_date(t.take(byte_prefix(t, 10)->0), ISO_FORMAT@) is Some {
        iso_text(as_date(parsed_date(t.take(byte_prefix(t, 10)->0), ISO_FORMAT@))->0)
    } else if parsed_date(t, GERMAN_FORMAT@) is Some {
        iso_text(as_date(parsed_date(t, GERMAN_FORMAT@))->0)
    } else {
        t
    }
}

/// Normalises an article date to `YYYY-MM-DD` where it can. The first ten
/// bytes of a longer date must end on a character boundary.
pub fn normalize_date(input: &str) -> (r: String)
    requires
        utf8_len(trim(input@)) >= 10 ==> byte_prefix(trim(input@), 10) is Some,
    ensures
        r@ == normalized_date(input@),
{
    let tc = trim_ws(chars_of(input).as_slice());
    let t = string_of(tc.as_slice());
    let prefix = take_bytes(tc.as_slice(), 10);
    proof {
        crate::text::lemma_byte_prefix(tc@, 10);
    }
    let iso_whole = parse_date(t.as_str(), ISO_FORMAT).is_some();
    match &prefix {
        Some(p) => {
            if iso_whole && p.len() == tc.len() {
                return t;
            }
        },
        None => {},
    }
    match prefix {
        Some(p) => {
            let ps = string_of(p.as_slice());
            match parse_date(ps.as_str(), ISO_FORMAT) {
                Some(d) => {
                    return d.to_iso_string();
                },
                None => {},
            }
        },
        None => {},
    }
    match parse_date(t.as_str(), GERMAN_FORMAT) {
        Some(d) => d.to_iso_string(),
        None => t,
    }
}

pub const DATE_FORMAT_HINT: &'static str = "Dates must use YYYY-MM-DD.";

/// Reads a date typed as `YYYY-MM-DD`; blank input gives `None`.
pub fn parse_date_input(input: &str) -> (r: Result<Option<CalendarDate>, String>)
    ensures
        trim(input@).len() == 0 ==> r == Ok::<Option<CalendarDate>, String>(None),
        trim(input@).len() > 0 ==> match r {
            Ok(Some(d)) => as_date(parsed_date(trim(input@), ISO_FORMAT@)) == Some(d),
            Ok(None) => false,
            Err(msg) => parsed_date(trim(input@), ISO_FORMAT@) is None && msg@ == DATE_FORMAT_HINT@,
        },
{
    let value = string_of(trim_ws(chars_of(input).as_slice()).as_slice());
    if value.as_str().is_empty() {
        return Ok(None);
    }
    match parse_date(value.as_str(), ISO_FORMAT) {
        Some(d) => Ok(Some(d)),
        None => Err(DATE_FORMAT_HINT.to_owned()),
    }
}

/// The date of an article: the trimmed input read as an ISO date, else its
/// first ten bytes read as one (when they end on a character boundary), else
/// the input read as a German `DD.MM.YYYY` date.
pub open spec fn article_date(input: Seq<char>) -> Option<CalendarDate> {
    let t = trim(input);
    if parsed_date(t, ISO_FORMAT@) is Some {
        as_date(parsed_date(t, ISO_FORMAT@))
    } else if byte_prefix(t, 10) is Some && parsed_date(t.take(byte_prefix(t, 10)->0), ISO_FORMAT@) is Some {
        as_date(parsed_date(t.take(byte_prefix(t, 10)->0), ISO_FORMAT@))
    } else {
        as_date(parsed_date(t, GERMAN_FORMAT@))
    }
}

/// Reads the date of an article in any of the forms taz.de uses.
pub fn parse_article_date(input: &str) -> (r: Option<CalendarDate>)
    ensures
        r == article_date(input@),
{
    let tc = trim_ws(chars_of(input).as_slice());
    let t = string_of(tc.as_slice());
    if let Some(d) = parse_date(t.as_str(), ISO_FORMAT) {
        return Some(d);
    }
    if let Some(prefix) = take_bytes(tc.as_slice(), 10) {
        let p = string_of(prefix.as_slice());
        if let Some(d) = parse_date(p.as_str(), ISO_FORMAT) {
            return Some(d);
        }
    }
    parse_date(t.as_str(), GERMAN_FORMAT)
}

} // verus!
