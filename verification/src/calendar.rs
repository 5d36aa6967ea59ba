//! Proleptic Gregorian calendar arithmetic.
//!
//! Days are counted from 0000-01-01 (day number 0). The supported civil range
//! is years -1 through 10000, one year more on each side than the four-digit
//! years a timestamp string can carry, so that applying a UTC offset to an
//! instant near the edge of the four-digit range still lands on a
//! representable day.

use vstd::prelude::*;

verus! {

/// Day number of 1970-01-01, the Unix epoch, counted from 0000-01-01.
pub const DAYS_TO_UNIX_EPOCH: i64 = 719528;

pub open spec fn is_leap_year(y: int) -> bool {
    (y % 4 == 0 && y % 100 != 0) || y % 400 == 0
}

pub open spec fn days_in_year(y: int) -> int {
    if is_leap_year(y) {
        366
    } else {
        365
    }
}

/// Number of days from 0000-01-01 to the first day of year `y`
/// (negative for years before 0).
pub open spec fn days_before_year(y: int) -> int
    decreases (if y >= 0 { y } else { -y }),
{
    if y == 0 {
        0
    } else if y > 0 {
        days_before_year(y - 1) + days_in_year(y - 1)
    } else {
        days_before_year(y + 1) - days_in_year(y)
    }
}

pub open spec fn days_in_month(y: int, m: int) -> int {
    if m == 2 {
        if is_leap_year(y) {
            29
        } else {
            28
        }
    } else if m == 4 || m == 6 || m == 9 || m == 11 {
        30
    } else {
        31
    }
}

/// Number of days from the first day of year `y` to the first day of
/// month `m` of that year.
pub open spec fn days_before_month(y: int, m: int) -> int
    decreases m,
{
    if m <= 1 {
        0
    } else {
        days_before_month(y, m - 1) + days_in_month(y, m - 1)
    }
}

/// Day number of the civil date `y`-`m`-`d`, counted from 0000-01-01.
pub open spec fn day_number(y: int, m: int, d: int) -> int {
    days_before_year(y) + days_before_month(y, m) + (d - 1)
}

pub proof fn lemma_days_before_year_mono(a: int, b: int)
    requires
        a <= b,
    ensures
        days_before_year(a) <= days_before_year(b),
    decreases b - a,
{
    if a < b {
        lemma_days_before_year_mono(a, b - 1);
    }
}

/// Numeric bounds on the day count of a span of whole years.
pub proof fn lemma_days_before_year_bounds(y: int)
    requires
        0 <= y,
    ensures
        365 * y <= days_before_year(y) <= 366 * y,
    decreases y,
{
    if y > 0 {
        lemma_days_before_year_bounds(y - 1);
    }
}

/// The months of a year cover exactly the days of that year.
pub proof fn lemma_days_before_month_full(y: int)
    ensures
        days_before_month(y, 13) == days_in_year(y),
{
    reveal_with_fuel(days_before_month, 14);
}

pub proof fn lemma_days_before_month_mono(y: int, a: int, b: int)
    requires
        a <= b,
    ensures
        days_before_month(y, a) <= days_before_month(y, b),
    decreases b - a,
{
    if a < b {
        lemma_days_before_month_mono(y, a, b - 1);
    }
}

/// Leap years repeat with period 400.
proof fn lemma_leap_shift(y: int)
    ensures
        is_leap_year(y) == is_leap_year(y + 400),
{
    vstd::arithmetic::div_mod::lemma_mod_multiples_vanish(100, y, 4);
    vstd::arithmetic::div_mod::lemma_mod_multiples_vanish(4, y, 100);
    vstd::arithmetic::div_mod::lemma_mod_multiples_vanish(1, y, 400);
}

/// Whether year `y` is a leap year, for years of the supported civil range.
pub fn is_leap_year_exec(y: i64) -> (r: bool)
    requires
        -1 <= y <= 10001,
    ensures
        r == is_leap_year(y as int),
{
    proof {
        lemma_leap_shift(y as int);
    }
    let b: u64 = (y + 400) as u64;
    (b % 4 == 0 && b % 100 != 0) || b % 400 == 0
}

pub fn days_in_year_exec(y: i64) -> (r: u64)
    requires
        -1 <= y <= 10001,
    ensures
        r == days_in_year(y as int),
{
    if is_leap_year_exec(y) {
        366
    } else {
        365
    }
}

pub fn days_in_month_exec(y: i64, m: u64) -> (r: u64)
    requires
        -1 <= y <= 10001,
        1 <= m <= 12,
    ensures
        r == days_in_month(y as int, m as int),
{
    if m == 2 {
        if is_leap_year_exec(y) {
            29
        } else {
            28
        }
    } else if m == 4 || m == 6 || m == 9 || m == 11 {
        30
    } else {
        31
    }
}

pub fn days_before_year_exec(y: u64) -> (r: u64)
    requires
        y <= 10001,
    ensures
        r == days_before_year(y as int),
{
    let mut i: u64 = 0;
    let mut acc: u64 = 0;
    while i < y
        invariant
            i <= y <= 10001,
            acc == days_before_year(i as int),
            acc <= 366 * i,
        decreases y - i,
    {
        acc = acc + days_in_year_exec(i as i64);
        i = i + 1;
    }
    acc
}

pub fn days_before_month_exec(y: i64, m: u64) -> (r: u64)
    requires
        -1 <= y <= 10001,
        1 <= m <= 12,
    ensures
        r == days_before_month(y as int, m as int),
{
    let mut i: u64 = 1;
    let mut acc: u64 = 0;
    while i < m
        invariant
            1 <= i <= m <= 12,
            -1 <= y <= 10001,
            acc == days_before_month(y as int, i as int),
            acc <= 31 * i,
        decreases m - i,
    {
        acc = acc + days_in_month_exec(y, i);
        i = i + 1;
    }
    acc
}

/// Day number of a civil date with a four-digit year.
pub fn day_number_exec(y: u64, m: u64, d: u64) -> (n: u64)
    requires
        y <= 9999,
        1 <= m <= 12,
        1 <= d <= days_in_month(y as int, m as int),
    ensures
        n == day_number(y as int, m as int, d as int),
        n < days_before_year(10000),
{
    proof {
        lemma_days_before_year_mono(y as int + 1, 10000);
        lemma_days_before_year_bounds(y as int);
        lemma_days_before_month_full(y as int);
        lemma_days_before_month_mono(y as int, m as int + 1, 13);
    }
    days_before_year_exec(y) + days_before_month_exec(y as i64, m) + (d - 1)
}

/// Inverse of `day_number` on the supported civil range: recover the unique
/// civil date of a day number.
pub fn civil_from_day_number(n: i64) -> (r: (i64, u64, u64))
    requires
        -365 <= n < days_before_year(10001),
    ensures
        day_number(r.0 as int, r.1 as int, r.2 as int) == n,
        -1 <= r.0 <= 10000,
        1 <= r.1 <= 12,
        1 <= r.2 <= days_in_month(r.0 as int, r.1 as int),
{
    proof {
        assert(days_before_year(-1) == -365) by {
            reveal_with_fuel(days_before_year, 3);
        }
        lemma_days_before_year_bounds(10001);
    }
    let mut y: i64 = -1;
    let mut acc: i64 = -365;
    loop
        invariant
            -1 <= y <= 10000,
            -365 <= acc,
            acc == days_before_year(y as int),
            acc <= n < days_before_year(10001),
            days_before_year(10001) <= 366 * 10001,
        ensures
            -1 <= y <= 10000,
            acc == days_before_year(y as int),
            -365 <= acc <= n,
            n - acc < days_in_year(y as int),
        decreases days_before_year(10001) - acc,
    {
        let len = days_in_year_exec(y) as i64;
        if acc + len > n {
            break;
        }
        proof {
            if y as int + 1 > 10000 {
                lemma_days_before_year_mono(10001, y as int + 1);
            }
        }
        acc = acc + len;
        y = y + 1;
    }
    let rem: i64 = n - acc;
    proof {
        lemma_days_before_month_full(y as int);
    }
    let mut m: u64 = 1;
    let mut macc: i64 = 0;
    while macc + days_in_month_exec(y, m) as i64 <= rem
        invariant
            1 <= m <= 12,
            -1 <= y <= 10000,
            macc == days_before_month(y as int, m as int),
            0 <= macc <= rem,
            rem < days_in_year(y as int),
            days_before_month(y as int, 13) == days_in_year(y as int),
        decreases 12 - m,
    {
        proof {
            if m as int + 1 > 12 {
                lemma_days_before_month_mono(y as int, 13, m as int + 1);
            }
        }
        macc = macc + days_in_month_exec(y, m) as i64;
        m = m + 1;
    }
    let d: u64 = (rem - macc + 1) as u64;
    (y, m, d)
}

} // verus!
