//! Proleptic-Gregorian calendar arithmetic on days since the Unix epoch.
//!
//! Dates are plain `(year, month, day)` triples. The spec-level model is
//! built from `days_in_month` upward: `day_number` maps a civil date to its
//! day count since 1970-01-01, and `date_of_day_number` is its inverse,
//! defined by the obvious year-then-month scan. The two directions are
//! proved inverse of one another in [`lemma_day_number_inverse`].

use vstd::prelude::*;

verus! {

/// Milliseconds in one UTC day.
pub const MS_PER_DAY: u64 = 86400000;

/// Day count of 10000-01-01 since 1970-01-01; dates are kept below year 10000.
pub const DAY_LIMIT: u64 = 2932897;

/// Millisecond timestamp of 10000-01-01T00:00:00 UTC, `DAY_LIMIT * MS_PER_DAY`.
pub const MS_LIMIT: u64 = 253402300800000;

pub open spec fn is_leap_year(y: int) -> bool {
    (y % 4 == 0 && y % 100 != 0) || y % 400 == 0
}

pub open spec fn days_in_year(y: int) -> int {
    if is_leap_year(y) {
        366
    } else {
        365
    }
}

pub open spec fn days_in_month(y: int, m: int) -> int {
    if m == 2 {
        if is_leap_year(y) {
            29
        } else {
            28
        }
    } else if m == 4 || m == 6 || m == 9 || m == 11 {
        30
    } else {
        31
    }
}

pub open spec fn valid_date(y: int, m: int, d: int) -> bool {
    1 <= m <= 12 && 1 <= d <= days_in_month(y, m)
}

/// Days in year `y` before the first of month `m`.
pub open spec fn days_before_month(y: int, m: int) -> int
    decreases m,
{
    if m <= 1 {
        0
    } else {
        days_before_month(y, m - 1) + days_in_month(y, m - 1)
    }
}

/// Days before January 1st of year `y`, counted from 1970-01-01.
pub open spec fn days_before_year(y: int) -> int
    decreases y,
{
    if y <= 1970 {
        0
    } else {
        days_before_year(y - 1) + days_in_year(y - 1)
    }
}

/// Day count of the civil date `(y, m, d)` since 1970-01-01.
pub open spec fn day_number(y: int, m: int, d: int) -> int {
    days_before_year(y) + days_before_month(y, m) + (d - 1)
}

/// The year whose days contain day `n`, scanning from year `y` upward.
pub open spec fn year_of_rec(y: int, n: int) -> int
    decreases n,
{
    if n < days_in_year(y) || n < 0 {
        y
    } else {
        year_of_rec(y + 1, n - days_in_year(y))
    }
}

/// Month and day-of-month of day `n` within year `y`, scanning from month `m`.
pub open spec fn md_of_rec(y: int, m: int, n: int) -> (int, int)
    decreases 12 - m,
{
    if m >= 12 || n < days_in_month(y, m) {
        (m, n + 1)
    } else {
        md_of_rec(y, m + 1, n - days_in_month(y, m))
    }
}

/// Civil date of day `n` since 1970-01-01.
pub open spec fn date_of_day_number(n: int) -> (int, int, int) {
    let y = year_of_rec(1970, n);
    let (m, d) = md_of_rec(y, 1, n - days_before_year(y));
    (y, m, d)
}

/// Executable days-in-month, proved against the spec-level table.
pub fn get_days_in_month(year: i32, month: u32) -> (r: u32)
    requires
        1970 <= year,
        1 <= month <= 12,
    ensures
        r as int == days_in_month(year as int, month as int),
{
    if month == 2 {
        let leap: bool = (year % 4 == 0 && year % 100 != 0) || year % 400 == 0;
        if leap {
            29
        } else {
            28
        }
    } else if month == 4 || month == 6 || month == 9 || month == 11 {
        30
    } else {
        31
    }
}

/// `days_before_year` never decreases as the year grows.
pub proof fn lemma_days_before_year_mono(a: int, b: int)
    requires
        a <= b,
    ensures
        days_before_year(a) <= days_before_year(b),
    decreases b - a,
{
    if a < b {
        lemma_days_before_year_mono(a, b - 1);
    }
}

/// `days_before_month` never decreases as the month grows.
pub proof fn lemma_days_before_month_mono(y: int, a: int, b: int)
    requires
        a <= b,
    ensures
        days_before_month(y, a) <= days_before_month(y, b),
    decreases b - a,
{
    if a < b {
        lemma_days_before_month_mono(y, a, b - 1);
    }
}

/// Scanning years from `y0` lands exactly on `y` when the day offset falls
/// inside year `y`.
proof fn lemma_year_of_rec_lands(y0: int, y: int, k: int)
    requires
        1970 <= y0 <= y,
        0 <= k < days_in_year(y),
    ensures
        year_of_rec(y0, days_before_year(y) - days_before_year(y0) + k) == y,
    decreases y - y0,
{
    let n = days_before_year(y) - days_before_year(y0) + k;
    if y0 == y {
        assert(n == k);
    } else {
        lemma_days_before_year_mono(y0 + 1, y);
        assert(days_before_year(y0 + 1) == days_before_year(y0) + days_in_year(y0));
        assert(n >= days_in_year(y0));
        lemma_year_of_rec_lands(y0 + 1, y, k);
    }
}

/// Scanning months from `m0` lands exactly on `(m, d)` when the day offset
/// falls inside month `m`.
proof fn lemma_md_of_rec_lands(y: int, m0: int, m: int, d: int)
    requires
        1 <= m0 <= m <= 12,
        1 <= d <= days_in_month(y, m),
    ensures
        md_of_rec(y, m0, days_before_month(y, m) - days_before_month(y, m0) + (d - 1)) == (m, d),
    decreases m - m0,
{
    let n = days_before_month(y, m) - days_before_month(y, m0) + (d - 1);
    if m0 == m {
        assert(n == d - 1);
    } else {
        lemma_days_before_month_mono(y, m0 + 1, m);
        assert(days_before_month(y, m0 + 1) == days_before_month(y, m0) + days_in_month(y, m0));
        assert(n >= days_in_month(y, m0));
        lemma_md_of_rec_lands(y, m0 + 1, m, d);
    }
}

/// The total of the twelve month lengths is the year length.
pub proof fn lemma_months_fill_year(y: int)
    ensures
        days_before_month(y, 13) == days_in_year(y),
{
    reveal_with_fuel(days_before_month, 14);
}

/// `date_of_day_number` inverts `day_number` on valid dates from 1970 on.
pub proof fn lemma_day_number_inverse(y: int, m: int, d: int)
    requires
        1970 <= y,
        valid_date(y, m, d),
    ensures
        date_of_day_number(day_number(y, m, d)) == (y, m, d),
{
    let n = day_number(y, m, d);
    lemma_days_before_month_mono(y, m + 1, 13);
    lemma_months_fill_year(y);
    assert(days_before_month(y, m) + (d - 1) < days_in_year(y));
    lemma_days_before_month_mono(y, 1, m);
    lemma_year_of_rec_lands(1970, y, days_before_month(y, m) + (d - 1));
    assert(year_of_rec(1970, n) == y);
    lemma_md_of_rec_lands(y, 1, m, d);
}

} // verus!
