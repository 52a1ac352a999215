//! Dates of the Gregorian calendar.

use vstd::arithmetic::div_mod::{lemma_fundamental_div_mod, lemma_fundamental_div_mod_converse};
use vstd::prelude::*;

verus! {

/// Leap years.
pub open spec fn leap(y: int) -> bool {
    y % 4 == 0 && (y % 100 != 0 || y % 400 == 0)
}

/// The days of a month.
pub open spec fn month_len(y: int, m: int) -> int {
    if m == 2 {
        if leap(y) {
            29
        } else {
            28
        }
    } else if m == 4 || m == 6 || m == 9 || m == 11 {
        30
    } else {
        31
    }
}

/// The days of a year before the first of a month.
pub open spec fn days_before_month(y: int, m: int) -> int
    decreases m,
{
    if m <= 1 {
        0
    } else {
        days_before_month(y, m - 1) + month_len(y, m - 1)
    }
}

/// The days from the first of January of the year 1 to the first of January of year `y`.
pub open spec fn days_before_year(y: int) -> int {
    365 * (y - 1) + (y - 1) / 4 - (y - 1) / 100 + (y - 1) / 400
}

/// The days from the first of January 1970 to a date.
pub open spec fn day_number(y: int, m: int, d: int) -> int {
    days_before_year(y) - 719162 + days_before_month(y, m) + d - 1
}

/// The date exists.
pub open spec fn is_date(y: int, m: int, d: int) -> bool {
    1 <= m <= 12 && 1 <= d <= month_len(y, m)
}

/// A year follows the last of December of the one before.
pub proof fn lemma_year_follows(y: int)
    ensures
        days_before_year(y + 1) == days_before_year(y) + days_before_month(y, 13),
        days_before_month(y, 13) == if leap(y) {
            366int
        } else {
            365int
        },
{
    reveal_with_fuel(days_before_month, 14);
}

spec fn months_from_march(y: int, m: int) -> bool {
    let march = days_before_month(y, 3);
    &&& days_before_month(y, 2) == 31
    &&& march == if leap(y) {
        60int
    } else {
        59int
    }
    &&& days_before_month(y, 4) == march + 31
    &&& days_before_month(y, 5) == march + 61
    &&& days_before_month(y, 6) == march + 92
    &&& days_before_month(y, 7) == march + 122
    &&& days_before_month(y, 8) == march + 153
    &&& days_before_month(y, 9) == march + 184
    &&& days_before_month(y, 10) == march + 214
    &&& days_before_month(y, 11) == march + 245
    &&& days_before_month(y, 12) == march + 275
}

proof fn lemma_months(y: int)
    ensures
        months_from_march(y, 0),
        days_before_month(y, 1) == 0,
{
    reveal_with_fuel(days_before_month, 13);
}

/// Going from `y - 1` to `y` passes a multiple of `k` where `y` is one.
proof fn lemma_multiple_passed(y: int, k: int)
    requires
        k > 0,
    ensures
        y / k - (y - 1) / k == if y % k == 0 {
            1int
        } else {
            0int
        },
{
    lemma_fundamental_div_mod(y, k);
    let q = y / k;
    let r = y % k;
    if r == 0 {
        assert(y - 1 == (q - 1) * k + (k - 1)) by (nonlinear_arith)
            requires
                y == k * q + r,
                r == 0,
        ;
        lemma_fundamental_div_mod_converse(y - 1, k, q - 1, k - 1);
    } else {
        assert(y - 1 == q * k + (r - 1)) by (nonlinear_arith)
            requires
                y == k * q + r,
        ;
        lemma_fundamental_div_mod_converse(y - 1, k, q, r - 1);
    }
}

proof fn lemma_leap_step(y: int, d4: int, d100: int, d400: int)
    requires
        d4 == if y % 4 == 0 {
            1int
        } else {
            0int
        },
        d100 == if y % 100 == 0 {
            1int
        } else {
            0int
        },
        d400 == if y % 400 == 0 {
            1int
        } else {
            0int
        },
    ensures
        leap(y) == (d4 - d100 + d400 == 1),
        !leap(y) == (d4 - d100 + d400 == 0),
{
    assert(y % 100 == 0 ==> y % 4 == 0);
    assert(y % 400 == 0 ==> y % 100 == 0);
}

proof fn lemma_year_to_march(y: int)
    ensures
        days_before_year(y) + days_before_month(y, 3) == 365 * y + y / 4 - y / 100 + y / 400 - 306,
{
    lemma_months(y);
    lemma_multiple_passed(y, 4);
    lemma_multiple_passed(y, 100);
    lemma_multiple_passed(y, 400);
    lemma_leap_step(
        y,
        y / 4 - (y - 1) / 4,
        y / 100 - (y - 1) / 100,
        y / 400 - (y - 1) / 400,
    );
}

/// The month and day of day `doy` (from 0) after the first of March.
spec fn march_date(doy: int, mp: int, d: int) -> bool {
    if mp == 0 {
        d == doy + 1 && doy < 31
    } else if mp == 1 {
        d == doy - 30 && 31 <= doy < 61
    } else if mp == 2 {
        d == doy - 60 && 61 <= doy < 92
    } else if mp == 3 {
        d == doy - 91 && 92 <= doy < 122
    } else if mp == 4 {
        d == doy - 121 && 122 <= doy < 153
    } else if mp == 5 {
        d == doy - 152 && 153 <= doy < 184
    } else if mp == 6 {
        d == doy - 183 && 184 <= doy < 214
    } else if mp == 7 {
        d == doy - 213 && 214 <= doy < 245
    } else if mp == 8 {
        d == doy - 244 && 245 <= doy < 275
    } else if mp == 9 {
        d == doy - 274 && 275 <= doy < 306
    } else if mp == 10 {
        d == doy - 305 && 306 <= doy < 337
    } else {
        mp == 11 && d == doy - 336 && 337 <= doy < 366
    }
}

proof fn lemma_march_date(doy: int, mp: int, d: int)
    requires
        0 <= doy <= 365,
        mp == (5 * doy + 2) / 153,
        d == doy - (153 * mp + 2) / 5 + 1,
    ensures
        march_date(doy, mp, d),
{
    assert(153 * mp <= 5 * doy + 2 < 153 * mp + 153);
    assert(0 <= mp <= 11);
}

/// The date of day `doy` (from 0) of the year that begins on the first of March of year `y`.
proof fn lemma_march(y: int, doy: int, mp: int, d: int, m: int, yy: int)
    requires
        0 <= doy <= 365,
        doy == 365 ==> leap(y + 1),
        march_date(doy, mp, d),
        m == if mp < 10 {
            mp + 3
        } else {
            mp - 9
        },
        yy == if m <= 2 {
            y + 1
        } else {
            y
        },
    ensures
        is_date(yy, m, d),
        day_number(yy, m, d) == 365 * y + y / 4 - y / 100 + y / 400 - 719468 + doy,
{
    lemma_months(yy);
    lemma_year_to_march(y);
}

/// Day `doe` of a cycle of 400 years lies in century `c`, four-year cycle `q`, year `a`.
proof fn lemma_cycle(doe: int, c: int, doc: int, q: int, doq: int, a: int, doy: int)
    requires
        0 <= doe < 146097,
        c == if doe / 36524 < 3 {
            doe / 36524
        } else {
            3
        },
        doc == doe - 36524 * c,
        q == doc / 1461,
        doq == doc - 1461 * q,
        a == if doq / 365 < 3 {
            doq / 365
        } else {
            3
        },
        doy == doq - 365 * a,
    ensures
        0 <= c <= 3,
        0 <= q <= 24,
        0 <= a <= 3,
        0 <= doy <= 365,
        doy == 365 ==> a == 3 && (q == 24 ==> c == 3),
{
    assert(0 <= c <= 3 && 0 <= doc <= 36524 && (c < 3 ==> doc <= 36523));
    assert(0 <= q <= 24 && 0 <= doq <= 1460);
    if doy == 365 {
        assert(a == 3 && doq == 1460);
        if q == 24 {
            assert(doc == 36524);
        }
    }
}

/// The leap days of the years in a cycle.
proof fn lemma_cycle_years(e: int, c: int, q: int, a: int, y: int)
    requires
        0 <= c <= 3,
        0 <= q <= 24,
        0 <= a <= 3,
        y == 400 * e + 100 * c + 4 * q + a,
    ensures
        365 * y + y / 4 - y / 100 + y / 400 == 146097 * e + 36524 * c + 1461 * q + 365 * a,
        a == 3 && (q == 24 ==> c == 3) ==> leap(y + 1),
{
    assert(y / 4 == 100 * e + 25 * c + q);
    assert(y / 100 == 4 * e + c);
    assert(y / 400 == e);
    if a == 3 && (q == 24 ==> c == 3) {
        assert((y + 1) % 4 == 0);
        if q == 24 {
            assert((y + 1) % 400 == 0);
        } else {
            let k = 4 * e + c;
            let r = 4 * (q + 1);
            assert(y + 1 == 100 * k + r && 0 < r < 100);
            assert((y + 1) % 100 == r);
        }
    }
}

/// The civil date and time (UTC) of a number of seconds since 1970: year, month, day, hour, minute,
/// second.
pub fn civil_from_unix(secs: i64) -> (r: (i32, u8, u8, u8, u8, u8))
    requires
        -67_767_000_000_000_000 <= secs <= 67_767_000_000_000_000,
    ensures
        ({
            let (y, m, d, hh, mm, ss) = r;
            &&& is_date(y as int, m as int, d as int)
            &&& hh < 24
            &&& mm < 60
            &&& ss < 60
            &&& secs == 86400 * day_number(y as int, m as int, d as int) + 3600 * hh + 60 * mm + ss
        }),
{
    // counted from the beginning of a cycle of 400 years long ago
    let shifted: i64 = secs + 86_400 * 146_097 * 6_000_000;
    let rem: i64 = shifted % 86_400;
    let days: i64 = shifted / 86_400;
    let z: i64 = days + 719_468;
    let era: i64 = z / 146_097;
    let doe: i64 = z % 146_097;
    let c: i64 = if doe / 36_524 < 3 {
        doe / 36_524
    } else {
        3
    };
    let doc: i64 = doe - 36_524 * c;
    let q: i64 = doc / 1_461;
    let doq: i64 = doc - 1_461 * q;
    let a: i64 = if doq / 365 < 3 {
        doq / 365
    } else {
        3
    };
    let doy: i64 = doq - 365 * a;
    proof {
        lemma_cycle(
            doe as int,
            c as int,
            doc as int,
            q as int,
            doq as int,
            a as int,
            doy as int,
        );
    }
    let y: i64 = 400 * (era - 6_000_000) + 100 * c + 4 * q + a;
    let mp: i64 = (5 * doy + 2) / 153;
    let d: i64 = doy - (153 * mp + 2) / 5 + 1;
    proof {
        lemma_march_date(doy as int, mp as int, d as int);
        lemma_cycle_years(era as int - 6_000_000, c as int, q as int, a as int, y as int);
    }
    let m: i64 = if mp < 10 {
        mp + 3
    } else {
        mp - 9
    };
    let yy: i64 = if m <= 2 {
        y + 1
    } else {
        y
    };
    proof {
        lemma_march(y as int, doy as int, mp as int, d as int, m as int, yy as int);
        assert(day_number(yy as int, m as int, d as int) == days - 146_097 * 6_000_000);
        assert(rem == 3600 * (rem / 3600) + 60 * ((rem % 3600) / 60) + rem % 60);
    }
    (
        yy as i32,
        m as u8,
        d as u8,
        (rem / 3600) as u8,
        ((rem % 3600) / 60) as u8,
        (rem % 60) as u8,
    )
}

/// Seconds from 1970 to the end of the year 65535 have a year from 1970 to 65535.
pub proof fn lemma_year_range(y: int, m: int, d: int, secs: int, t: int)
    requires
        is_date(y, m, d),
        0 <= t < 86400,
        secs == 86400 * day_number(y, m, d) + t,
        0 <= secs <= 2_005_949_145_599,
    ensures
        1970 <= y <= 65535,
{
    lemma_months(y);
    let n = day_number(y, m, d);
    assert(0 <= n <= 23_217_003);
    assert(0 <= days_before_month(y, m) + d - 1 <= 365) by {
        assert(m == 1 || m == 2 || m == 3 || m == 4 || m == 5 || m == 6 || m == 7 || m == 8 || m
            == 9 || m == 10 || m == 11 || m == 12);
    }
    let k = y - 1;
    assert(365 * k + k / 4 - k / 100 + k / 400 - 719162 == days_before_year(y) - 719162);
}

proof fn lemma_years_ascend(y: int, z: int)
    requires
        y <= z,
    ensures
        days_before_year(y) <= days_before_year(z),
    decreases z - y,
{
    if y < z {
        lemma_years_ascend(y, z - 1);
        lemma_year_follows(z - 1);
    }
}

/// A date lies within its year.
proof fn lemma_within_year(y: int, m: int, d: int)
    requires
        is_date(y, m, d),
    ensures
        0 <= days_before_month(y, m) + d - 1 < days_before_month(y, 13),
{
    reveal_with_fuel(days_before_month, 14);
}

/// No two dates are on the same day.
pub proof fn lemma_date_unique(y: int, m: int, d: int, z: int, n: int, e: int)
    requires
        is_date(y, m, d),
        is_date(z, n, e),
        day_number(y, m, d) == day_number(z, n, e),
    ensures
        y == z,
        m == n,
        d == e,
{
    lemma_within_year(y, m, d);
    lemma_within_year(z, n, e);
    if y < z {
        lemma_year_follows(y);
        lemma_years_ascend(y + 1, z);
    } else if z < y {
        lemma_year_follows(z);
        lemma_years_ascend(z + 1, y);
    } else {
        reveal_with_fuel(days_before_month, 14);
    }
}

} // verus!
