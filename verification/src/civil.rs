//! Calendar arithmetic: the civil (proleptic Gregorian) date of a Unix timestamp.

use vstd::prelude::*;

verus! {

/// Gregorian leap-year rule.
pub open spec fn is_leap_year(y: int) -> bool {
    y % 4 == 0 && (y % 100 != 0 || y % 400 == 0)
}

/// Number of days of month `m` (1 = January) in year `y`.
pub open spec fn days_in_month(y: int, m: int) -> int {
    if m == 2 {
        if is_leap_year(y) { 29 } else { 28 }
    } else if m == 4 || m == 6 || m == 9 || m == 11 {
        30
    } else {
        31
    }
}

/// `(y, m, d)` names an existing day of the proleptic Gregorian calendar.
pub open spec fn is_valid_date(y: int, m: int, d: int) -> bool {
    1 <= m <= 12 && 1 <= d <= days_in_month(y, m)
}

/// Days of year `y` that precede the first of month `m`.
pub open spec fn days_before_month(y: int, m: int) -> int {
    let base: int = if m <= 1 {
        0
    } else if m == 2 {
        31
    } else if m == 3 {
        59
    } else if m == 4 {
        90
    } else if m == 5 {
        120
    } else if m == 6 {
        151
    } else if m == 7 {
        181
    } else if m == 8 {
        212
    } else if m == 9 {
        243
    } else if m == 10 {
        273
    } else if m == 11 {
        304
    } else {
        334
    };
    base + if m > 2 && is_leap_year(y) { 1int } else { 0int }
}

/// Leap years among the years before `y` (counted from year 0, negative for `y <= 0`).
pub open spec fn leap_days_before(y: int) -> int {
    (y - 1) / 4 - (y - 1) / 100 + (y - 1) / 400
}

/// Days from 1970-01-01 to January 1 of year `y` (negative before 1970).
pub open spec fn days_before_year(y: int) -> int {
    365 * (y - 1970) + leap_days_before(y) - leap_days_before(1970)
}

/// Days from 1970-01-01 to the date `(y, m, d)`.
pub open spec fn days_from_civil(y: int, m: int, d: int) -> int {
    days_before_year(y) + days_before_month(y, m) + (d - 1)
}

/// The day (counted from 1970-01-01) that holds the Unix time `s`.
pub open spec fn unix_day(s: int) -> int {
    s / 86400
}

/// Timestamps whose date the conversion computes in `i32` arithmetic: the
/// civil year is at most `i32::MAX`, and the first year of the 400-year era
/// of the day (counted from 0000-03-01) is at least `-5368709 * 400`.
pub open spec fn civil_year_fits(s: int) -> bool {
    let era = (unix_day(s) + 719468) / 146097;
    -5368709 <= era && civil_date(s).0 <= i32::MAX
}

spec fn march_year_start(k: int) -> int {
    365 * k + k / 4 - k / 100
}

spec fn leap_bonus(y: int) -> int {
    if is_leap_year(y) { 1 } else { 0 }
}

spec fn month_offset(mp: int) -> int {
    (153 * mp + 2) / 5
}

proof fn lemma_year_of_era(doe: int)
    requires
        0 <= doe < 146097,
    ensures
        ({
            let yoe = (doe - doe / 1460 + doe / 36524 - doe / 146096) / 365;
            &&& 0 <= yoe <= 399
            &&& march_year_start(yoe) <= doe
            &&& doe - march_year_start(yoe) < 365 + leap_bonus(yoe + 1)
        }),
{
}

proof fn lemma_month_of_year(doy: int, leap: int)
    requires
        0 <= leap <= 1,
        0 <= doy < 365 + leap,
    ensures
        ({
            let mp = (5 * doy + 2) / 153;
            let d = doy - month_offset(mp) + 1;
            &&& 0 <= mp <= 11
            &&& month_offset(mp) <= doy
            &&& 1 <= d
            &&& mp <= 9 ==> d <= days_in_month(0, mp + 3)
                && days_before_month(1, mp + 3) == 59 + month_offset(mp)
            &&& mp == 10 ==> d <= 31 && month_offset(mp) == 306
            &&& mp == 11 ==> d <= 28 + leap && month_offset(mp) == 337
        }),
{
}

proof fn lemma_shift_div(x: int, c: int, d: int)
    requires
        0 < d,
    ensures
        (x + c * d) / d == x / d + c,
        (x + c * d) % d == x % d,
{
    vstd::arithmetic::div_mod::lemma_hoist_over_denominator(x, c, d as nat);
    vstd::arithmetic::div_mod::lemma_mod_multiples_vanish(c, x, d);
    vstd::arithmetic::mul::lemma_mul_is_commutative(c, d);
}

proof fn lemma_era_start(e: int, k: int)
    requires
        0 <= k <= 399,
    ensures
        days_before_year(400 * e + k) + 59 + leap_bonus(400 * e + k)
            == 146097 * e + march_year_start(k) - 719468,
        leap_bonus(400 * e + k + 1) == leap_bonus(k + 1),
{
    let y = 400 * e + k;
    lemma_shift_div(k - 1, 100 * e, 4);
    lemma_shift_div(k - 1, 4 * e, 100);
    lemma_shift_div(k - 1, e, 400);
    lemma_shift_div(k, 100 * e, 4);
    lemma_shift_div(k, 4 * e, 100);
    lemma_shift_div(k, e, 400);
    lemma_shift_div(k + 1, 100 * e, 4);
    lemma_shift_div(k + 1, 4 * e, 100);
    lemma_shift_div(k + 1, e, 400);
    assert(leap_days_before(y) == 97 * e + (k - 1) / 4 - (k - 1) / 100 + (k - 1) / 400);
    assert(leap_bonus(y) == leap_bonus(k));
    assert(leap_days_before(1970) == 477);
    assert((k - 1) / 4 - (k - 1) / 100 + (k - 1) / 400 + leap_bonus(k) == k / 4 - k / 100);
}

proof fn lemma_next_year(y: int)
    ensures
        days_before_year(y + 1) == days_before_year(y) + 365 + leap_bonus(y),
{
}

} // verus!

verus! {

/// The civil date `(year, month, day)` of the Unix time `unix_seconds`
/// (seconds since 1970-01-01T00:00:00Z): the day that holds it, in the
/// proleptic Gregorian calendar.
pub fn ymd_from_unix(unix_seconds: i64) -> (r: (i32, u32, u32))
    requires
        civil_year_fits(unix_seconds as int),
    ensures
        is_valid_date(r.0 as int, r.1 as int, r.2 as int),
        days_from_civil(r.0 as int, r.1 as int, r.2 as int) == unix_day(unix_seconds as int),
        (r.0 as int, r.1 as int, r.2 as int) == civil_date(unix_seconds as int),
{
    let q = unix_seconds / 86_400;
    let days = if unix_seconds % 86_400 < 0 { q - 1 } else { q };
    assert(days == unix_day(unix_seconds as int));
    proof {
        lemma_civil_date_by_era(unix_seconds as int);
    }
    let ghost c = civil_from_day(days as int);
    let z = days + 719_468;
    let era = (if z >= 0 { z } else { z - 146_096 }) / 146_097;
    assert(era == z / 146097);
    let doe = (z - era * 146_097) as u32;
    assert(doe == z - era * 146097);
    proof {
        lemma_year_of_era(doe as int);
    }
    let yoe = (doe - doe / 1460 + doe / 36524 - doe / 146_096) / 365;
    let doy = doe - (365 * yoe + yoe / 4 - yoe / 100);
    let mp = (5 * doy + 2) / 153;
    let d = doy - (153 * mp + 2) / 5 + 1;
    let m = if mp < 10 { mp + 3 } else { mp - 9 };
    assert(c.0 >= yoe + era * 400);
    let y = yoe as i32 + era as i32 * 400;
    let y = if m <= 2 { y + 1 } else { y };
    (y, m, d)
}

} // verus!

verus! {

/// The civil date `(year, month, day)` of the day that holds Unix time `s`.
pub open spec fn civil_date(s: int) -> (int, int, int) {
    choose|ymd: (int, int, int)| is_date_of(s, ymd)
}

/// `ymd` is a valid date and holds Unix time `s`.
pub open spec fn is_date_of(s: int, ymd: (int, int, int)) -> bool {
    is_valid_date(ymd.0, ymd.1, ymd.2) && days_from_civil(ymd.0, ymd.1, ymd.2) == unix_day(s)
}

proof fn lemma_year_bounds(y: int, m: int, d: int)
    requires
        is_valid_date(y, m, d),
    ensures
        days_before_year(y) <= days_from_civil(y, m, d) < days_before_year(y + 1),
{
    lemma_next_year(y);
}

proof fn lemma_years_increase(a: int, b: int)
    requires
        a < b,
    ensures
        days_before_year(a + 1) <= days_before_year(b),
    decreases b - a,
{
    lemma_next_year(b - 1);
    if a + 1 < b {
        lemma_years_increase(a, b - 1);
    }
}

/// Distinct days of the calendar have distinct day numbers: a valid date is
/// determined by its count of days from 1970-01-01.
pub proof fn lemma_civil_date_unique(y1: int, m1: int, d1: int, y2: int, m2: int, d2: int)
    requires
        is_valid_date(y1, m1, d1),
        is_valid_date(y2, m2, d2),
        days_from_civil(y1, m1, d1) == days_from_civil(y2, m2, d2),
    ensures
        y1 == y2 && m1 == m2 && d1 == d2,
{
    lemma_year_bounds(y1, m1, d1);
    lemma_year_bounds(y2, m2, d2);
    if y1 < y2 {
        lemma_years_increase(y1, y2);
    } else if y2 < y1 {
        lemma_years_increase(y2, y1);
    }
    assert(y1 == y2);
}

/// The date `ymd_from_unix` computes is the civil date of the timestamp.
pub proof fn lemma_civil_date_is(s: int, y: int, m: int, d: int)
    requires
        is_valid_date(y, m, d),
        days_from_civil(y, m, d) == unix_day(s),
    ensures
        civil_date(s) == (y, m, d),
{
    assert(is_date_of(s, (y, m, d)));
    let c = civil_date(s);
    lemma_civil_date_unique(c.0, c.1, c.2, y, m, d);
}

} // verus!

verus! {

/// The civil date of day number `days` (counted from 1970-01-01), computed
/// through 400-year eras that start on 0000-03-01.
spec fn civil_from_day(days: int) -> (int, int, int) {
    let z = days + 719468;
    let era = z / 146097;
    let doe = z - era * 146097;
    let yoe = (doe - doe / 1460 + doe / 36524 - doe / 146096) / 365;
    let doy = doe - (365 * yoe + yoe / 4 - yoe / 100);
    let mp = (5 * doy + 2) / 153;
    let d = doy - month_offset(mp) + 1;
    let m = if mp < 10 { mp + 3 } else { mp - 9 };
    let y = yoe + era * 400 + if m <= 2 { 1int } else { 0int };
    (y, m, d)
}

proof fn lemma_civil_from_day(days: int)
    ensures
        ({
            let c = civil_from_day(days);
            is_valid_date(c.0, c.1, c.2) && days_from_civil(c.0, c.1, c.2) == days
        }),
{
    let z = days + 719468;
    let era = z / 146097;
    let doe = z - era * 146097;
    lemma_year_of_era(doe);
    let yoe = (doe - doe / 1460 + doe / 36524 - doe / 146096) / 365;
    let doy = doe - (365 * yoe + yoe / 4 - yoe / 100);
    lemma_month_of_year(doy, leap_bonus(yoe + 1));
    lemma_era_start(era, yoe);
    lemma_next_year(yoe + era * 400);
}

proof fn lemma_civil_date_by_era(s: int)
    ensures
        is_date_of(s, civil_date(s)),
        civil_date(s) == civil_from_day(unix_day(s)),
{
    let c = civil_from_day(unix_day(s));
    lemma_civil_from_day(unix_day(s));
    lemma_civil_date_is(s, c.0, c.1, c.2);
}

/// Every timestamp falls on a civil date: `civil_date` is a valid date whose
/// day count is the timestamp's day.
pub proof fn lemma_civil_date_of_day(s: int)
    ensures
        is_date_of(s, civil_date(s)),
{
    lemma_civil_date_by_era(s);
}

/// `a` comes no later than `b` in the calendar.
pub open spec fn date_le(a: (int, int, int), b: (int, int, int)) -> bool {
    a.0 < b.0 || (a.0 == b.0 && (a.1 < b.1 || (a.1 == b.1 && a.2 <= b.2)))
}

/// The day after the date `(y, m, d)`.
pub open spec fn next_day(ymd: (int, int, int)) -> (int, int, int) {
    if ymd.2 < days_in_month(ymd.0, ymd.1) {
        (ymd.0, ymd.1, ymd.2 + 1)
    } else if ymd.1 < 12 {
        (ymd.0, ymd.1 + 1, 1)
    } else {
        (ymd.0 + 1, 1, 1)
    }
}

proof fn lemma_earlier_date_fewer_days(a: (int, int, int), b: (int, int, int))
    requires
        is_valid_date(a.0, a.1, a.2),
        is_valid_date(b.0, b.1, b.2),
        date_le(a, b),
    ensures
        days_from_civil(a.0, a.1, a.2) <= days_from_civil(b.0, b.1, b.2),
{
    lemma_year_bounds(a.0, a.1, a.2);
    lemma_year_bounds(b.0, b.1, b.2);
    if a.0 < b.0 {
        lemma_years_increase(a.0, b.0);
    }
}

/// Later timestamps never fall on earlier dates.
pub proof fn lemma_civil_date_monotone(s1: int, s2: int)
    requires
        s1 <= s2,
    ensures
        date_le(civil_date(s1), civil_date(s2)),
{
    let a = civil_date(s1);
    let b = civil_date(s2);
    lemma_civil_date_of_day(s1);
    lemma_civil_date_of_day(s2);
    if !date_le(a, b) {
        lemma_earlier_date_fewer_days(b, a);
        if days_from_civil(b.0, b.1, b.2) == days_from_civil(a.0, a.1, a.2) {
            lemma_civil_date_unique(a.0, a.1, a.2, b.0, b.1, b.2);
        }
    }
}

/// The date of a timestamp is that of the midnight that starts its day.
pub proof fn lemma_civil_date_of_midnight(s: int)
    ensures
        civil_date(s) == civil_date(86400 * unix_day(s)),
{
    let t = 86400 * unix_day(s);
    assert(unix_day(t) == unix_day(s));
    lemma_civil_date_of_day(s);
    lemma_civil_date_of_day(t);
}

/// One day later, the date is the next calendar day.
pub proof fn lemma_civil_date_next_day(s: int)
    ensures
        civil_date(s + 86400) == next_day(civil_date(s)),
{
    let c = civil_date(s);
    lemma_civil_date_of_day(s);
    lemma_next_year(c.0);
    let n = next_day(c);
    assert(unix_day(s + 86400) == unix_day(s) + 1);
    assert(is_valid_date(n.0, n.1, n.2));
    assert(days_from_civil(n.0, n.1, n.2) == days_from_civil(c.0, c.1, c.2) + 1);
    lemma_civil_date_is(s + 86400, n.0, n.1, n.2);
}

/// The civil year of `s` fits an `i32` exactly when its day comes before
/// the first day of year `2^31`.
pub proof fn lemma_year_fits_by_day(s: int)
    ensures
        civil_date(s).0 <= i32::MAX <==> unix_day(s) < days_before_year(i32::MAX + 1),
{
    let c = civil_date(s);
    lemma_civil_date_of_day(s);
    lemma_year_bounds(c.0, c.1, c.2);
    if c.0 <= i32::MAX {
        if c.0 < i32::MAX {
            lemma_years_increase(c.0, i32::MAX + 1);
        }
    } else if c.0 > i32::MAX + 1 {
        lemma_years_increase(i32::MAX + 1, c.0);
        lemma_next_year(i32::MAX + 1);
    }
}

} // verus!
