//! Laws of the dates that pages show.
use crate::digits;
use crate::handlers::calendar;
use crate::handlers::calendar::{MAX_SECS, MIN_SECS};
use vstd::prelude::*;

verus! {

/// A month has 31 days; April, June, September and November have 30; February has 28, and 29 in the
/// years that are divisible by 4, except those that are divisible by 100 and not by 400.
pub proof fn lemma_date_means(year: int, month: int, day: int)
    ensures
        calendar::is_date(year, month, day) <==> {
            &&& 1 <= month <= 12
            &&& 1 <= day <= 31
            &&& month == 4 || month == 6 || month == 9 || month == 11 ==> day <= 30
            &&& month == 2 ==> day <= 29
            &&& month == 2 && day == 29 ==> year % 4 == 0 && (year % 100 == 0 ==> year % 400 == 0)
        },
{
}

/// Days are counted one by one from the first of January 1970: the day that follows a date, in the same
/// month, or else the first of the next month, or else the first of the next year, has the next number.
pub proof fn lemma_next_day(year: int, month: int, day: int)
    requires
        calendar::is_date(year, month, day),
    ensures
        calendar::day_number(1970, 1, 1) == 0,
        ({
            let next = calendar::day_number(year, month, day) + 1;
            if calendar::is_date(year, month, day + 1) {
                calendar::day_number(year, month, day + 1) == next
            } else if month < 12 {
                calendar::day_number(year, month + 1, 1) == next
            } else {
                calendar::day_number(year + 1, 1, 1) == next
            }
        }),
{
    calendar::lemma_month_offsets(year);
    calendar::lemma_month_offsets(year + 1);
    calendar::lemma_month_offsets(1970);
    calendar::lemma_next_year(year);
}

/// A timestamp is shown as the month, the day and the year of its date, and outside the years -9999 to
/// 9999 as a plain number.
pub proof fn lemma_date_is_shown(secs: i64, year: int, month: int, day: int)
    requires
        calendar::is_date(year, month, day),
    ensures
        secs / 86400 == calendar::day_number(year, month, day) && MIN_SECS <= secs <= MAX_SECS
            ==> calendar::shown_date(secs) == [
            "Jan"@,
            "Feb"@,
            "Mar"@,
            "Apr"@,
            "May"@,
            "Jun"@,
            "Jul"@,
            "Aug"@,
            "Sep"@,
            "Oct"@,
            "Nov"@,
            "Dec"@,
        ][month - 1] + " "@ + digits::decimal(day as nat) + ", "@ + digits::signed_decimal(year),
        secs < MIN_SECS || secs > MAX_SECS ==> calendar::shown_date(secs)
            == digits::signed_decimal(secs as int),
        MIN_SECS as int == calendar::day_number(-9999, 1, 1) * 86400,
        MAX_SECS as int == calendar::day_number(10000, 1, 1) * 86400 - 1,
{
    calendar::lemma_month_offsets(-9999);
    calendar::lemma_month_offsets(10000);
    if secs / 86400 == calendar::day_number(year, month, day) && MIN_SECS <= secs <= MAX_SECS {
        assert(calendar::is_day_of(secs as int, year, month, day));
        calendar::lemma_shown_date(secs, year, month, day);
    }
}

} // verus!
