//! That dates follow each other as in the calendar.

use vstd::prelude::*;

use crate::ipp::civil::{day_number, days_before_month, is_date, leap, lemma_year_follows, month_len};
use crate::ipp::codec::is_datetime_of;
use crate::ipp::value::DateTime;

verus! {

/// Every fourth year is a leap year, but for hundreds, and of these every fourth is.
pub proof fn lemma_leap_years(y: int)
    ensures
        y % 4 != 0 ==> !leap(y),
        y % 4 == 0 && y % 100 != 0 ==> leap(y),
        y % 400 == 0 ==> leap(y),
        y % 100 == 0 && y % 400 != 0 ==> !leap(y),
        month_len(y, 2) == if leap(y) {
            29int
        } else {
            28
        },
        month_len(y, 1) == 31 && month_len(y, 3) == 31 && month_len(y, 5) == 31 && month_len(y, 7) == 31
            && month_len(y, 8) == 31 && month_len(y, 10) == 31 && month_len(y, 12) == 31,
        month_len(y, 4) == 30 && month_len(y, 6) == 30 && month_len(y, 9) == 30 && month_len(y, 11) == 30,
{
}

/// Days count on within a month, from the last of a month to the first of the next, and from the last of December
/// to the first of January; they count from the first of January 1970.
pub proof fn lemma_days_follow(y: int, m: int, d: int)
    requires
        is_date(y, m, d),
    ensures
        day_number(1970, 1, 1) == 0,
        d < month_len(y, m) ==> day_number(y, m, d + 1) == day_number(y, m, d) + 1,
        d == month_len(y, m) && m < 12 ==> day_number(y, m + 1, 1) == day_number(y, m, d) + 1,
        m == 12 && d == 31 ==> day_number(y + 1, 1, 1) == day_number(y, m, d) + 1,
{
    reveal_with_fuel(days_before_month, 2);
    if m == 12 {
        lemma_year_follows(y);
        assert(days_before_month(y, 13) == days_before_month(y, 12) + 31);
    }
}

/// An hour has 3600 seconds and a day 24 hours: moments that lie so far apart on one day differ in the clock alone.
pub proof fn lemma_clock(a: DateTime, b: DateTime, x: int, y: int)
    requires
        is_datetime_of(a, x),
        is_datetime_of(b, y),
        a.year == b.year && a.month == b.month && a.day == b.day,
    ensures
        y - x == 3600 * (b.hour - a.hour) + 60 * (b.minutes - a.minutes) + (b.seconds - a.seconds),
        a.hour < 24 && a.minutes < 60 && a.seconds < 60,
{
}

} // verus!
