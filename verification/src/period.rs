//! Periods: which days a report covers.
use crate::notes::{is_text, lowercase_of, to_lowercase};
use crate::corpus::name_start;
use crate::text::{chars_of, string_of, trim_range, trimmed};
use chrono::{Datelike, NaiveDate};
use vstd::prelude::*;

verus! {

/// A day of the calendar, as far as periods look at it.
#[derive(Debug, Clone, Copy, PartialEq, Eq)]
pub struct DayStamp {
    /// The number of the day, counted from the first day of the year 1.
    pub days: i32,
    pub year: i32,
    /// The month, from 1 to 12.
    pub month: u32,
}

impl DayStamp {
    /// Puts the fields together.
    pub fn new(days: i32, year: i32, month: u32) -> (day: DayStamp)
        ensures
            day.days == days,
            day.year == year,
            day.month == month,
    {
        DayStamp { days, year, month }
    }
}

/// A period that no report knows.
#[derive(Debug, Clone)]
pub struct UnsupportedPeriod {
    /// The text that was given.
    pub raw: String,
}

impl UnsupportedPeriod {
    /// Puts the fields together.
    pub fn new(raw: String) -> (e: UnsupportedPeriod)
        ensures
            e.raw == raw,
    {
        UnsupportedPeriod { raw }
    }

    /// What to tell the user.
    pub fn message(&self) -> (m: String)
        ensures
            m@ == "unsupported period: "@ + self.raw@
                + ". use today|yesterday|week|month|yyyy-mm-dd"@,
    {
        let mut m = String::from_str("unsupported period: ");
        m.append(self.raw.as_str());
        m.append(". use today|yesterday|week|month|yyyy-mm-dd");
        m
    }
}

/// The day that chrono reads from `text` written as `%Y-%m-%d`: its number,
/// its year and its month; `None` where chrono refuses the text.
pub uninterp spec fn parsed_day(text: Seq<char>) -> Option<(i32, i32, u32)>;

/// `NaiveDate::parse_from_str` of chrono with the format `%Y-%m-%d`, and of
/// the day it returns `num_days_from_ce`, `year` and `month`. The contract
/// only names the result.
#[verifier::external_body]
fn parse_day(text: &str) -> (day: Option<DayStamp>)
    ensures
        match day {
            Some(d) => parsed_day(text@) == Some((d.days, d.year, d.month)),
            None => parsed_day(text@) is None,
        },
{
    match NaiveDate::parse_from_str(text, "%Y-%m-%d") {
        Ok(d) => Some(DayStamp { days: d.num_days_from_ce(), year: d.year(), month: d.month() }),
        Err(_) => None,
    }
}

/// Whether `period`, in lower case, is one of the words that name a period.
pub open spec fn is_period_word(period: Seq<char>) -> bool {
    period == "today"@ || period == "yesterday"@ || period == "week"@ || period == "month"@
}

/// Whether the day `date` lies in the period `period`, seen from the day
/// `today`: `today` and `yesterday` are single days, `week` is today and
/// the six days before, `month` is the month of today; any other period is
/// the single day `specific`, where it is one.
pub open spec fn in_period(
    date: DayStamp,
    today: DayStamp,
    period: Seq<char>,
    specific: Option<(i32, i32, u32)>,
) -> Option<bool> {
    if period == "today"@ {
        Some(date.days == today.days)
    } else if period == "yesterday"@ {
        Some(date.days == today.days - 1)
    } else if period == "week"@ {
        Some(today.days - 6 <= date.days <= today.days)
    } else if period == "month"@ {
        Some(date.year == today.year && date.month == today.month)
    } else if specific is Some {
        Some(date.days == (specific->0).0)
    } else {
        None
    }
}

/// Whether the text `period` is the word `word`.
fn is_period(period: &Vec<char>, word: &str) -> (b: bool)
    ensures
        b == (period@ == word@),
{
    let w = chars_of(word);
    let same = is_text(period, 0, period.len(), &w);
    assert(period@.subrange(0, period@.len() as int) =~= period@);
    same
}

/// Tells whether `date` lies in the period `period`, given in lower case,
/// where `specific` is the day that the period names, if it names one.
/// `None` where the period is no word for a period and names no day.
pub fn date_in_period(date: DayStamp, today: DayStamp, period: &str, specific: Option<DayStamp>) -> (r:
    Option<bool>)
    ensures
        r == in_period(
            date,
            today,
            period@,
            match specific {
                Some(d) => Some((d.days, d.year, d.month)),
                None => None,
            },
        ),
{
    let p = chars_of(period);
    let date_days: i64 = date.days as i64;
    let today_days: i64 = today.days as i64;
    if is_period(&p, "today") {
        Some(date_days == today_days)
    } else if is_period(&p, "yesterday") {
        Some(date_days == today_days - 1)
    } else if is_period(&p, "week") {
        Some(today_days - 6 <= date_days && date_days <= today_days)
    } else if is_period(&p, "month") {
        Some(date.year == today.year && date.month == today.month)
    } else {
        match specific {
            Some(day) => Some(date.days == day.days),
            None => None,
        }
    }
}

/// The period that `period_raw` names: trimmed and in lower case.
pub open spec fn period_of(period_raw: Seq<char>) -> Seq<char> {
    lowercase_of(trimmed(period_raw))
}

/// Trims a period and writes it in lower case.
fn normalize_period(period_raw: &str) -> (period: String)
    ensures
        period@ == period_of(period_raw@),
{
    let v = chars_of(period_raw);
    let (a, b) = trim_range(&v, 0, v.len());
    to_lowercase(string_of(&v, a, b).as_str())
}

/// Tells whether the day `date` lies in the period that `period_raw` names,
/// seen from the day `today`. A period is one of `today`, `yesterday`,
/// `week` and `month`, in any case, or a day written as `yyyy-mm-dd`.
pub fn date_matches_period(date: DayStamp, today: DayStamp, period_raw: &str) -> (r: Result<
    bool,
    UnsupportedPeriod,
>)
    ensures
        match r {
            Ok(b) => in_period(date, today, period_of(period_raw@), parsed_day(period_of(period_raw@)))
                == Some(b),
            Err(e) => in_period(
                date,
                today,
                period_of(period_raw@),
                parsed_day(period_of(period_raw@)),
            ) is None && e.raw@ == period_raw@,
        },
{
    let period = normalize_period(period_raw);
    let specific = parse_day(period.as_str());
    match date_in_period(date, today, period.as_str(), specific) {
        Some(b) => Ok(b),
        None => Err(UnsupportedPeriod::new(String::from_str(period_raw))),
    }
}

/// Whether `period`, in lower case, is a period, where `names_day` says
/// whether it names a day.
pub fn is_supported_period(period: &str, names_day: bool) -> (b: bool)
    ensures
        b == (is_period_word(period@) || names_day),
{
    let p = chars_of(period);
    is_period(&p, "today") || is_period(&p, "yesterday") || is_period(&p, "week") || is_period(
        &p,
        "month",
    ) || names_day
}

/// Accepts the periods that reports know, and refuses any other text.
pub fn validate_period(period_raw: &str) -> (r: Result<(), UnsupportedPeriod>)
    ensures
        r is Ok == (is_period_word(period_of(period_raw@)) || parsed_day(period_of(period_raw@))
            is Some),
        r is Err ==> (r->Err_0).raw@ == period_raw@,
{
    let period = normalize_period(period_raw);
    let names_day = parse_day(period.as_str()).is_some();
    if is_supported_period(period.as_str(), names_day) {
        Ok(())
    } else {
        Err(UnsupportedPeriod::new(String::from_str(period_raw)))
    }
}

/// The day that a text starts with: the one that its first ten scalar
/// values name; `None` where it is shorter or they name no day.
pub open spec fn leading_day(text: Seq<char>) -> Option<(i32, i32, u32)> {
    if text.len() >= 10 {
        parsed_day(text.subrange(0, 10))
    } else {
        None
    }
}

/// Reads the day that `text` starts with.
pub fn parse_leading_day(text: &str) -> (day: Option<DayStamp>)
    ensures
        match day {
            Some(d) => leading_day(text@) == Some((d.days, d.year, d.month)),
            None => leading_day(text@) is None,
        },
{
    let v = chars_of(text);
    if v.len() < 10 {
        return None;
    }
    parse_day(string_of(&v, 0, 10).as_str())
}

/// The day of the daily file at `path`: the one that its file name starts
/// with.
pub fn activity_date_from_rel(path: &str) -> (day: Option<DayStamp>)
    ensures
        match day {
            Some(d) => leading_day(path@.subrange(name_start(path@, path@.len() as int), path@.len() as int))
                == Some((d.days, d.year, d.month)),
            None => leading_day(
                path@.subrange(name_start(path@, path@.len() as int), path@.len() as int),
            ) is None,
        },
{
    let v = chars_of(path);
    let n: usize = v.len();
    let mut start: usize = n;
    while start > 0 && v[start - 1] != '/'
        invariant
            start <= n,
            n == v.len(),
            name_start(v@, n as int) == name_start(v@, start as int),
        decreases start,
    {
        start = start - 1;
    }
    parse_leading_day(string_of(&v, start, n).as_str())
}

/// Why an entry cannot be held against a period.
#[derive(Debug, Clone)]
pub enum EntryPeriodError {
    /// The time stamp of the entry starts with no day.
    InvalidTimestamp { timestamp: String },
    /// The period is none that reports know.
    Unsupported { raw: String },
}

/// Whether an entry with the time stamp `timestamp` lies in the period
/// `period`, seen from `today`: an entry whose time stamp is shorter than a
/// day lies in no period.
pub open spec fn entry_in_period(timestamp: Seq<char>, today: DayStamp, period: Seq<char>) -> Option<
    bool,
> {
    if timestamp.len() < 10 {
        Some(false)
    } else if leading_day(timestamp) is Some {
        in_period(
            DayStamp {
                days: (leading_day(timestamp)->0).0,
                year: (leading_day(timestamp)->0).1,
                month: (leading_day(timestamp)->0).2,
            },
            today,
            period_of(period),
            parsed_day(period_of(period)),
        )
    } else {
        None
    }
}

/// Tells whether the entry with the time stamp `timestamp` lies in the
/// period that `period_raw` names, seen from the day `today`.
pub fn entry_matches_period(timestamp: &str, today: DayStamp, period_raw: &str) -> (r: Result<
    bool,
    EntryPeriodError,
>)
    ensures
        match r {
            Ok(b) => entry_in_period(timestamp@, today, period_raw@) == Some(b),
            Err(EntryPeriodError::InvalidTimestamp { timestamp: t }) => timestamp@.len() >= 10
                && leading_day(timestamp@) is None && t@ == timestamp@,
            Err(EntryPeriodError::Unsupported { raw }) => leading_day(timestamp@) is Some
                && entry_in_period(timestamp@, today, period_raw@) is None && raw@ == period_raw@,
        },
{
    let v = chars_of(timestamp);
    if v.len() < 10 {
        return Ok(false);
    }
    match parse_leading_day(timestamp) {
        Some(date) => match date_matches_period(date, today, period_raw) {
            Ok(b) => Ok(b),
            Err(e) => Err(EntryPeriodError::Unsupported { raw: e.raw }),
        },
        None => Err(EntryPeriodError::InvalidTimestamp { timestamp: String::from_str(timestamp) }),
    }
}

} // verus!
