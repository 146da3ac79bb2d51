//! Calendar dates, and the choice of the earliest log date from the command
//! line.  Calendar arithmetic and date parsing are chrono's.
use vstd::prelude::*;
use chrono::Datelike;
use crate::text::{padded_decimal, push_padded_decimal, owned};

verus! {

/// A calendar date.
#[derive(Clone, Copy, PartialEq, Eq, Debug)]
pub struct Date {
    pub year: i32,
    pub month: u32,
    pub day: u32,
}

/// `a` is an earlier day than `b`.
pub open spec fn date_before(a: Date, b: Date) -> bool {
    ||| a.year < b.year
    ||| (a.year == b.year && a.month < b.month)
    ||| (a.year == b.year && a.month == b.month && a.day < b.day)
}

impl Date {
    /// Whether `self` is an earlier day than `other`.
    pub fn before(&self, other: &Date) -> (r: bool)
        ensures
            r == date_before(*self, *other),
    {
        self.year < other.year || (self.year == other.year && self.month < other.month) || (
        self.year == other.year && self.month == other.month && self.day < other.day)
    }
}

/// The date that `chrono::NaiveDate::parse_from_str(s, fmt)` reads, if any.
pub uninterp spec fn parsed_date(s: Seq<char>, fmt: Seq<char>) -> Option<Date>;

/// The date `n` days before `d`, as `chrono::NaiveDate::checked_sub_days`
/// computes it (`None` when `d` is no valid date or the result is out of range).
pub uninterp spec fn days_earlier(d: Date, n: u64) -> Option<Date>;

/// Parses `s` with the chrono format `fmt` (`chrono::NaiveDate::parse_from_str`).
/// Trusted: the result is whatever chrono reads, named `parsed_date`.
#[verifier::external_body]
pub(crate) fn parse_date(s: &str, fmt: &str) -> (r: Option<Date>)
    ensures
        r == parsed_date(s@, fmt@),
{
    chrono::NaiveDate::parse_from_str(s, fmt).ok().map(
        |d| Date { year: d.year(), month: d.month(), day: d.day() },
    )
}

/// `d` moved `n` days back (`chrono::NaiveDate::checked_sub_days`).
/// Trusted: the result is whatever chrono computes, named `days_earlier`.
#[verifier::external_body]
pub(crate) fn sub_days(d: Date, n: u64) -> (r: Option<Date>)
    ensures
        r == days_earlier(d, n),
{
    chrono::NaiveDate::from_ymd_opt(d.year, d.month, d.day).and_then(
        |nd| nd.checked_sub_days(chrono::Days::new(n)),
    ).map(|x| Date { year: x.year(), month: x.month(), day: x.day() })
}

/// The earliest log date that the scan arguments ask for, given today's date:
/// the first argument decides; an unknown argument is returned as the error.
pub open spec fn since_spec(args: Seq<Seq<char>>, today: Date) -> Result<Option<Date>, Seq<char>> {
    if args.len() == 0 {
        Ok(None)
    } else if args[0] == "--today"@ {
        Ok(Some(today))
    } else if args[0] == "--week"@ {
        Ok(days_earlier(today, 6))
    } else if args[0] == "--month"@ {
        Ok(days_earlier(today, 29))
    } else {
        Err(args[0])
    }
}

/// `r` is the outcome `s` describes.
pub open spec fn since_agrees(r: Result<Option<Date>, String>, s: Result<Option<Date>, Seq<char>>) -> bool {
    match (r, s) {
        (Ok(a), Ok(b)) => a == b,
        (Err(a), Err(b)) => a@ == b,
        _ => false,
    }
}

/// Reads the time-range argument of `scan`: `--today`, `--week` (the last 7
/// days, today included) or `--month` (the last 30 days, today included);
/// without one, every log counts.
pub fn parse_since(args: &Vec<String>, today: Date) -> (r: Result<Option<Date>, String>)
    ensures
        since_agrees(r, since_spec(args.deep_view(), today)),
{
    if args.len() == 0 {
        return Ok(None);
    }
    let arg = args[0].as_str();
    if crate::text::eq_str(arg, "--today") {
        Ok(Some(today))
    } else if crate::text::eq_str(arg, "--week") {
        Ok(sub_days(today, 6))
    } else if crate::text::eq_str(arg, "--month") {
        Ok(sub_days(today, 29))
    } else {
        Err(args[0].clone())
    }
}

/// A date as chrono displays a `NaiveDate`: the year in four digits (with
/// its sign, and at least four digits, outside 0 to 9999), then the month and
/// the day in two digits, separated by '-'.
pub open spec fn date_text(d: Date) -> Seq<char> {
    let y = if 0 <= d.year <= 9999 {
        padded_decimal(d.year as nat, 4)
    } else if d.year < 0 {
        "-"@ + padded_decimal((-d.year) as nat, 4)
    } else {
        "+"@ + padded_decimal(d.year as nat, 4)
    };
    y + "-"@ + padded_decimal(d.month as nat, 2) + "-"@ + padded_decimal(d.day as nat, 2)
}

/// How the scan's time range is described: "全部" without a start date,
/// "<date> 至今" with one.
pub open spec fn range_label_of(since: Option<Date>) -> Seq<char> {
    match since {
        Some(d) => date_text(d) + " 至今"@,
        None => "全部"@,
    }
}

/// How the scan's time range is described.
pub fn range_label(since: Option<Date>) -> (r: String)
    ensures
        r@ == range_label_of(since),
{
    match since {
        Some(d) => {
            let mut r = String::new();
            if d.year < 0 {
                r.append("-");
                let y: i64 = d.year as i64;
                push_padded_decimal(&mut r, (-y) as u64, 4);
            } else if d.year > 9999 {
                r.append("+");
                push_padded_decimal(&mut r, d.year as u64, 4);
            } else {
                push_padded_decimal(&mut r, d.year as u64, 4);
            }
            r.append("-");
            push_padded_decimal(&mut r, d.month as u64, 2);
            r.append("-");
            push_padded_decimal(&mut r, d.day as u64, 2);
            r.append(" 至今");
            r
        },
        None => owned("全部"),
    }
}

} // verus!
