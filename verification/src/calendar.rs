//! Proleptic Gregorian calendar arithmetic: days elapsed since 1970-01-01.
use vstd::prelude::*;
use vstd::arithmetic::div_mod::lemma_fundamental_div_mod_converse;

verus! {

/// Rust's `/` on signed integers: the quotient rounded toward zero.
pub open spec fn trunc_div(a: int, b: int) -> int {
    if a >= 0 {
        a / b
    } else {
        -((-a) / b)
    }
}

/// Gregorian leap-year rule.
pub open spec fn is_leap_year(y: int) -> bool {
    (y % 4 == 0 && y % 100 != 0) || y % 400 == 0
}

/// The number of days in year `y`.
pub open spec fn year_len(y: int) -> int {
    if is_leap_year(y) {
        366
    } else {
        365
    }
}

/// Number of leap years in `[1970, y)`.
pub open spec fn leap_years_from_1970(y: int) -> int
    decreases y - 1970,
{
    if y <= 1970 {
        0
    } else {
        leap_years_from_1970(y - 1) + if is_leap_year(y - 1) {
            1int
        } else {
            0int
        }
    }
}

/// Number of days in the years `[1970, y)`.
pub open spec fn days_before_year(y: int) -> int
    decreases y - 1970,
{
    if y <= 1970 {
        0
    } else {
        days_before_year(y - 1) + year_len(y - 1)
    }
}

/// Length of month `m` (1 = January) of year `y`.
pub open spec fn month_len(y: int, m: int) -> int {
    if m == 2 {
        if is_leap_year(y) {
            29
        } else {
            28
        }
    } else if m == 4 || m == 6 || m == 9 || m == 11 {
        30
    } else {
        31
    }
}

/// Number of days in the months before month `m` of year `y`.
pub open spec fn days_before_month(y: int, m: int) -> int
    decreases m,
{
    if m <= 1 {
        0
    } else {
        days_before_month(y, m - 1) + month_len(y, m - 1)
    }
}

/// The dates that `days_since_epoch` accepts: from 1970 on, a month in 1..=12
/// and a positive day (the day is not held to the month's length).
pub open spec fn accepted_date(year: int, month: int, day: int) -> bool {
    year >= 1970 && 1 <= month <= 12 && day >= 1
}

/// Days elapsed from 1970-01-01 to the given date.
pub open spec fn epoch_day(year: int, month: int, day: int) -> int {
    days_before_year(year) + days_before_month(year, month) + day - 1
}

/// What `leap_days_since_1970` computes, written with Rust's rounding toward zero.
pub open spec fn leap_day_formula(year: int) -> int {
    let y = year - 1;
    (trunc_div(y, 4) - trunc_div(1970, 4)) - (trunc_div(y, 100) - trunc_div(1970, 100)) + (
    trunc_div(y, 400) - trunc_div(1970, 400))
}

proof fn lemma_div_step(n: int, k: int)
    requires
        n >= 1,
        k > 0,
    ensures
        n / k - (n - 1) / k == if n % k == 0 {
            1int
        } else {
            0int
        },
{
    let q = n / k;
    let r = n % k;
    vstd::arithmetic::div_mod::lemma_fundamental_div_mod(n, k);
    vstd::arithmetic::div_mod::lemma_mod_bound(n, k);
    assert(n == q * k + r) by (nonlinear_arith)
        requires n == k * q + r;
    if r == 0 {
        assert(n - 1 == (q - 1) * k + (k - 1)) by (nonlinear_arith)
            requires n == q * k + r, r == 0;
        lemma_fundamental_div_mod_converse(n - 1, k, q - 1, k - 1);
    } else {
        assert(n - 1 == q * k + (r - 1));
        vstd::arithmetic::div_mod::lemma_mod_bound(n, k);
        lemma_fundamental_div_mod_converse(n - 1, k, q, r - 1);
    }
}

/// For years from 1970 on, the closed formula counts the leap years since 1970.
proof fn lemma_leap_formula(year: int)
    requires
        year >= 1970,
    ensures
        leap_day_formula(year) == leap_years_from_1970(year),
    decreases year - 1970,
{
    if year > 1970 {
        lemma_leap_formula(year - 1);
        lemma_div_step(year - 1, 4);
        lemma_div_step(year - 1, 100);
        lemma_div_step(year - 1, 400);
    }
}

/// The days before year `y` are 365 per year plus one per leap year.
proof fn lemma_days_before_year(y: int)
    requires
        y >= 1970,
    ensures
        days_before_year(y) == (y - 1970) * 365 + leap_years_from_1970(y),
    decreases y - 1970,
{
    if y > 1970 {
        lemma_days_before_year(y - 1);
    }
}

proof fn lemma_days_before_month_bounds(y: int, m: int)
    requires
        1 <= m <= 13,
    ensures
        0 <= days_before_month(y, m) <= 31 * (m - 1),
    decreases m,
{
    if m > 1 {
        lemma_days_before_month_bounds(y, m - 1);
    }
}

proof fn lemma_leap_years_nonneg(y: int)
    ensures
        leap_years_from_1970(y) >= 0,
    decreases y - 1970,
{
    if y > 1970 {
        lemma_leap_years_nonneg(y - 1);
    }
}

/// Number of leap days between 1970 and the start of `year`.
pub fn leap_days_since_1970(year: i64) -> (r: i64)
    requires
        year > i64::MIN,
    ensures
        r == leap_day_formula(year as int),
        year >= 1970 ==> r == leap_years_from_1970(year as int),
{
    proof {
        if year >= 1970 {
            lemma_leap_formula(year as int);
        }
    }
    let y = year - 1;
    (y / 4 - 1970 / 4) - (y / 100 - 1970 / 100) + (y / 400 - 1970 / 400)
}

proof fn lemma_days_before_year_bound(y: int)
    requires
        y >= 1970,
    ensures
        0 <= days_before_year(y) <= 366 * (y - 1970),
    decreases y - 1970,
{
    if y > 1970 {
        lemma_days_before_year_bound(y - 1);
    }
}

fn month_length(y: i128, m: i128) -> (r: i128)
    requires
        y >= 0,
    ensures
        r == month_len(y as int, m as int),
{
    if m == 2 {
        if (y % 4 == 0 && y % 100 != 0) || y % 400 == 0 {
            29
        } else {
            28
        }
    } else if m == 4 || m == 6 || m == 9 || m == 11 {
        30
    } else {
        31
    }
}

/// Whether `days_since_epoch` may be called on the date: the year and the
/// day fit in `i64`, and so does the day count of a date it accepts.
pub fn days_fit(year: u64, month: u64, day: u64) -> (b: bool)
    ensures
        b == (year <= i64::MAX && day <= i64::MAX && (accepted_date(
            year as int,
            month as int,
            day as int,
        ) ==> epoch_day(year as int, month as int, day as int) <= i64::MAX)),
{
    if year > i64::MAX as u64 || day > i64::MAX as u64 {
        return false;
    }
    if year < 1970 || month < 1 || month > 12 || day < 1 {
        return true;
    }
    let y = year as i128;
    let x = y - 1;
    proof {
        lemma_leap_formula(y as int);
        lemma_days_before_year(y as int);
        lemma_leap_years_nonneg(y as int);
        lemma_days_before_year_bound(y as int);
    }
    let leap = (x / 4 - 492) - (x / 100 - 19) + (x / 400 - 4);
    assert(leap == leap_day_formula(y as int));
    let mut total: i128 = (y - 1970) * 365 + leap;
    let mut mi: i128 = 1;
    while mi < month as i128
        invariant
            1 <= mi <= month,
            month <= 12,
            y >= 1970,
            y <= i64::MAX,
            total == days_before_year(y as int) + days_before_month(y as int, mi as int),
            0 <= days_before_year(y as int) <= 366 * (y - 1970),
            0 <= days_before_month(y as int, mi as int) <= 31 * (mi - 1),
        decreases month - mi,
    {
        proof {
            lemma_days_before_month_bounds(y as int, mi + 1);
        }
        total = total + month_length(y, mi);
        mi = mi + 1;
    }
    total = total + day as i128 - 1;
    total <= i64::MAX as i128
}

/// Days elapsed from 1970-01-01 to `year`-`month`-`day`, or `None` for a
/// year before 1970, a month outside 1..=12 or a day of 0.
pub fn days_since_epoch(year: u64, month: u64, day: u64) -> (r: Option<i64>)
    requires
        year <= i64::MAX,
        day <= i64::MAX,
        accepted_date(year as int, month as int, day as int) ==> epoch_day(
            year as int,
            month as int,
            day as int,
        ) <= i64::MAX,
    ensures
        r == if accepted_date(year as int, month as int, day as int) {
            Some(epoch_day(year as int, month as int, day as int) as i64)
        } else {
            None
        },
{
    if year < 1970 || month < 1 || month > 12 || day < 1 {
        return None;
    }
    let y = year as i64;
    let m = month as i64;
    let d = day as i64;

    let leap = (y % 4 == 0 && y % 100 != 0) || (y % 400 == 0);
    let month_days: [i64; 12] = [
        31,
        if leap {
            29
        } else {
            28
        },
        31,
        30,
        31,
        30,
        31,
        31,
        30,
        31,
        30,
        31,
    ];
    proof {
        lemma_days_before_year(y as int);
        lemma_leap_years_nonneg(y as int);
        lemma_days_before_month_bounds(y as int, m as int);
        assert(leap == is_leap_year(y as int));
    }
    let ghost base = days_before_year(y as int);
    let mut days = (y - 1970) * 365 + leap_days_since_1970(y);
    let mut mi: i64 = 0;
    while mi < m - 1
        invariant
            0 <= mi <= m - 1,
            1 <= m <= 12,
            y >= 1970,
            d >= 1,
            base == days_before_year(y as int),
            base + days_before_month(y as int, m as int) + d - 1 <= i64::MAX,
            days == base + days_before_month(y as int, mi + 1),
            forall|i: int| 0 <= i < 12 ==> #[trigger] month_days@[i] == month_len(y as int, i + 1),
        decreases m - 1 - mi,
    {
        proof {
            lemma_days_before_month_bounds(y as int, mi + 2);
            lemma_days_before_month_mono(y as int, mi + 2, m as int);
        }
        days = days + month_days[mi as usize];
        mi = mi + 1;
    }
    days = days + (d - 1);
    Some(days)
}

proof fn lemma_days_before_month_mono(y: int, a: int, b: int)
    requires
        1 <= a <= b,
    ensures
        days_before_month(y, a) <= days_before_month(y, b),
    decreases b - a,
{
    if a < b {
        lemma_days_before_month_mono(y, a, b - 1);
    }
}

/// 1970-01-01 is day zero.
pub proof fn law_epoch_is_day_zero()
    ensures
        epoch_day(1970, 1, 1) == 0,
{
}

/// Within a month, the next day is one day later.
pub proof fn law_next_day_in_month(year: int, month: int, day: int)
    requires
        accepted_date(year, month, day),
        day < month_len(year, month),
    ensures
        epoch_day(year, month, day + 1) == epoch_day(year, month, day) + 1,
{
}

/// The first of a month follows the last day of the month before it.
pub proof fn law_month_rollover(year: int, month: int)
    requires
        year >= 1970,
        1 <= month < 12,
    ensures
        epoch_day(year, month + 1, 1) == epoch_day(year, month, month_len(year, month)) + 1,
{
}

/// January 1st follows December 31st of the year before it.
pub proof fn law_year_rollover(year: int)
    requires
        year >= 1970,
    ensures
        epoch_day(year + 1, 1, 1) == epoch_day(year, 12, 31) + 1,
{
    reveal_with_fuel(days_before_month, 13);
    assert(days_before_month(year, 12) + 31 == year_len(year));
}

/// Later dates (in calendar order, with days held to their month) get larger day numbers.
pub proof fn law_calendar_order(y1: int, m1: int, d1: int, y2: int, m2: int, d2: int)
    requires
        accepted_date(y1, m1, d1),
        accepted_date(y2, m2, d2),
        d1 <= month_len(y1, m1),
        d2 <= month_len(y2, m2),
        y1 < y2 || (y1 == y2 && m1 < m2) || (y1 == y2 && m1 == m2 && d1 < d2),
    ensures
        epoch_day(y1, m1, d1) < epoch_day(y2, m2, d2),
{
    lemma_days_before_month_bounds(y1, m1);
    lemma_days_before_month_bounds(y2, m2);
    if y1 < y2 {
        lemma_day_of_year_bound(y1, m1, d1);
        lemma_days_before_year_mono(y1 + 1, y2);
        assert(days_before_year(y1 + 1) == days_before_year(y1) + year_len(y1));
    } else if m1 < m2 {
        lemma_days_before_month_mono(y1, m1 + 1, m2);
    }
}

/// A date's offset within its year is less than the year's length.
proof fn lemma_day_of_year_bound(y: int, m: int, d: int)
    requires
        1 <= m <= 12,
        1 <= d <= month_len(y, m),
    ensures
        days_before_month(y, m) + d - 1 < year_len(y),
{
    reveal_with_fuel(days_before_month, 13);
    lemma_days_before_month_mono(y, m + 1, 13);
}

proof fn lemma_days_before_year_mono(a: int, b: int)
    requires
        1970 <= a <= b,
    ensures
        days_before_year(a) <= days_before_year(b),
    decreases b - a,
{
    if a < b {
        lemma_days_before_year_mono(a, b - 1);
    }
}

} // verus!
