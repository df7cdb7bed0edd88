//! Dates of the proleptic Gregorian calendar.
use crate::digits;
use vstd::prelude::*;

verus! {

/// Whether `year` is a leap year.
pub open spec fn is_leap(year: int) -> bool {
    year % 4 == 0 && (year % 100 != 0 || year % 400 == 0)
}

/// The days of a month.
pub open spec fn month_days(year: int, month: int) -> int {
    if month == 2 {
        if is_leap(year) {
            29
        } else {
            28
        }
    } else if month == 4 || month == 6 || month == 9 || month == 11 {
        30
    } else {
        31
    }
}

/// The days of a year before the first of a month.
pub open spec fn days_before_month(year: int, month: int) -> int
    decreases month,
{
    if month <= 1 {
        0
    } else {
        days_before_month(year, month - 1) + month_days(year, month - 1)
    }
}

/// The days from 1970-01-01 to the first of January of `year`.
pub open spec fn days_before_year(year: int) -> int {
    let y = year - 1;
    365 * (year - 1970) + (y / 4 - y / 100 + y / 400) - 477
}

/// Whether there is a day `year`-`month`-`day`.
pub open spec fn is_date(year: int, month: int, day: int) -> bool {
    1 <= month <= 12 && 1 <= day <= month_days(year, month)
}

/// The days from 1970-01-01 to `year`-`month`-`day`.
pub open spec fn day_number(year: int, month: int, day: int) -> int {
    days_before_year(year) + days_before_month(year, month) + day - 1
}

/// The first second of the year -9999.
pub const MIN_SECS: i64 = -377_705_116_800;

/// The last second of the year 9999.
pub const MAX_SECS: i64 = 253_402_300_799;

/// Whether the second `secs` after the Unix epoch lies in the day `year`-`month`-`day`, in UTC.
pub open spec fn is_day_of(secs: int, year: int, month: int, day: int) -> bool {
    is_date(year, month, day) && day_number(year, month, day) == secs / 86400
}

/// `time::OffsetDateTime::from_unix_timestamp` gives the date and time of a Unix timestamp in UTC,
/// for the years -9999 to 9999, and fails outside them. Of its result the wrapper takes the year,
/// the month and the day.
#[verifier::external_body]
fn utc_date(secs: i64) -> (r: Option<(i32, u8, u8)>)
    ensures
        match r {
            Some((year, month, day)) => MIN_SECS <= secs <= MAX_SECS && is_day_of(
                secs as int,
                year as int,
                month as int,
                day as int,
            ),
            None => secs < MIN_SECS || secs > MAX_SECS,
        },
{
    match time::OffsetDateTime::from_unix_timestamp(secs) {
        Ok(dt) => Some((dt.year(), u8::from(dt.month()), dt.day())),
        Err(_) => None,
    }
}

/// The abbreviation of a month.
pub open spec fn month_name(month: int) -> Seq<char> {
    if month == 1 {
        "Jan"@
    } else if month == 2 {
        "Feb"@
    } else if month == 3 {
        "Mar"@
    } else if month == 4 {
        "Apr"@
    } else if month == 5 {
        "May"@
    } else if month == 6 {
        "Jun"@
    } else if month == 7 {
        "Jul"@
    } else if month == 8 {
        "Aug"@
    } else if month == 9 {
        "Sep"@
    } else if month == 10 {
        "Oct"@
    } else if month == 11 {
        "Nov"@
    } else {
        "Dec"@
    }
}

/// The abbreviation of a month.
pub fn month_abbr(month: u8) -> (r: &'static str)
    requires
        1 <= month <= 12,
    ensures
        r@ == month_name(month as int),
{
    if month == 1 {
        "Jan"
    } else if month == 2 {
        "Feb"
    } else if month == 3 {
        "Mar"
    } else if month == 4 {
        "Apr"
    } else if month == 5 {
        "May"
    } else if month == 6 {
        "Jun"
    } else if month == 7 {
        "Jul"
    } else if month == 8 {
        "Aug"
    } else if month == 9 {
        "Sep"
    } else if month == 10 {
        "Oct"
    } else if month == 11 {
        "Nov"
    } else {
        "Dec"
    }
}

/// The compact form `Mon D, YYYY` of a date.
pub open spec fn date_text(year: int, month: int, day: int) -> Seq<char> {
    month_name(month) + " "@ + digits::decimal(day as nat) + ", "@ + digits::signed_decimal(year)
}

/// The number of days of a year lies in the months in order.
pub proof fn lemma_month_offsets(year: int)
    ensures
        days_before_month(year, 1) == 0,
        days_before_month(year, 2) == 31,
        days_before_month(year, 3) == 31 + month_days(year, 2),
        days_before_month(year, 4) == 62 + month_days(year, 2),
        days_before_month(year, 5) == 92 + month_days(year, 2),
        days_before_month(year, 6) == 123 + month_days(year, 2),
        days_before_month(year, 7) == 153 + month_days(year, 2),
        days_before_month(year, 8) == 184 + month_days(year, 2),
        days_before_month(year, 9) == 215 + month_days(year, 2),
        days_before_month(year, 10) == 245 + month_days(year, 2),
        days_before_month(year, 11) == 276 + month_days(year, 2),
        days_before_month(year, 12) == 306 + month_days(year, 2),
        days_before_month(year, 13) == 337 + month_days(year, 2),
{
    reveal_with_fuel(days_before_month, 13);
}

/// A year starts as many days after the one before as that one has.
pub proof fn lemma_next_year(year: int)
    ensures
        days_before_year(year + 1) == days_before_year(year) + 337 + month_days(year, 2),
{
}

/// Years start in order.
proof fn lemma_years_in_order(a: int, b: int)
    requires
        a <= b,
    ensures
        days_before_year(a) <= days_before_year(b),
    decreases b - a,
{
    if a < b {
        lemma_years_in_order(a, b - 1);
        lemma_next_year(b - 1);
    }
}

/// A date lies in the days of its year.
proof fn lemma_date_in_year(year: int, month: int, day: int)
    requires
        is_date(year, month, day),
    ensures
        days_before_year(year) <= day_number(year, month, day) < days_before_year(year + 1),
{
    lemma_month_offsets(year);
    lemma_next_year(year);
}

/// Each second lies in one day only: the date of a timestamp is unique.
pub proof fn lemma_date_unique(secs: int, y1: int, m1: int, d1: int, y2: int, m2: int, d2: int)
    requires
        is_day_of(secs, y1, m1, d1),
        is_day_of(secs, y2, m2, d2),
    ensures
        y1 == y2,
        m1 == m2,
        d1 == d2,
{
    lemma_date_in_year(y1, m1, d1);
    lemma_date_in_year(y2, m2, d2);
    if y1 < y2 {
        lemma_years_in_order(y1 + 1, y2);
    }
    if y2 < y1 {
        lemma_years_in_order(y2 + 1, y1);
    }
    lemma_month_offsets(y1);
}

/// How a timestamp is shown: the date of its day in UTC, and outside the years -9999 to 9999 a plain
/// number.
pub open spec fn shown_date(secs: i64) -> Seq<char> {
    if MIN_SECS <= secs <= MAX_SECS {
        let (year, month, day) = choose|year: int, month: int, day: int|
            is_day_of(secs as int, year, month, day);
        date_text(year, month, day)
    } else {
        digits::signed_decimal(secs as int)
    }
}

/// A timestamp that lies in a day is shown as that day.
pub proof fn lemma_shown_date(secs: i64, year: int, month: int, day: int)
    requires
        MIN_SECS <= secs <= MAX_SECS,
        is_day_of(secs as int, year, month, day),
    ensures
        shown_date(secs) == date_text(year, month, day),
{
    let (y, m, d) = choose|y: int, m: int, d: int| is_day_of(secs as int, y, m, d);
    lemma_date_unique(secs as int, year, month, day, y, m, d);
}

/// Formats epoch seconds as a compact UTC date `Mon D, YYYY`, such as `Jun 29, 2026`.
pub fn fmt_date(secs: i64) -> (r: String)
    ensures
        r@ == shown_date(secs),
{
    match utc_date(secs) {
        Some((year, month, day)) => {
            let mut s = month_abbr(month).to_string();
            s.push_str(" ");
            s.push_str(&digits::decimal_text(day as u64));
            s.push_str(", ");
            s.push_str(&digits::signed_decimal_text(year as i64));
            proof {
                lemma_shown_date(secs, year as int, month as int, day as int);
            }
            s
        },
        None => digits::signed_decimal_text(secs),
    }
}

} // verus!
