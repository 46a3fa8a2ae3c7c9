//! Calendar arithmetic on whole days: the Julian day number of a
//! Gregorian date and the date of a Julian day number.

use vstd::prelude::*;

verus! {

/// The Julian day number of a calendar date (the Julian date at noon),
/// by Meeus's formula; months below 3 count as months 13 and 14 of the
/// year before.
pub open spec fn julian_day(year: int, month: int, day: int) -> int {
    let y = if month <= 2 { year - 1 } else { year };
    let m = if month <= 2 { month + 12 } else { month };
    let a = y / 100;
    let b = 2 - a + a / 4;
    (1461 * (y + 4716)) / 4 + (306001 * (m + 1)) / 10000 + day + b - 1524
}

/// `v` cut into the range of a `u32`, as Rust's saturating `as` does.
pub open spec fn clamp_u32(v: int) -> u32 {
    if v < 0 { 0 } else if v > u32::MAX { u32::MAX } else { v as u32 }
}

/// `v` cut into the range of an `i32`, as Rust's saturating `as` does.
pub open spec fn clamp_i32(v: int) -> i32 {
    if v < i32::MIN { i32::MIN } else if v > i32::MAX { i32::MAX } else { v as i32 }
}

/// The calendar date `(year, month, day)` of a Julian day number, by
/// Meeus's inverse formula with the Gregorian correction.
pub open spec fn civil_date(z: int) -> (i32, u32, u32) {
    let alpha = (4 * z - 7468865) / 146097;
    let a = z + 1 + alpha - alpha / 4;
    let b = a + 1524;
    let c = (100 * b - 12210) / 36525;
    let d = (1461 * c) / 4;
    let e = (10000 * (b - d)) / 306001;
    let day = b - d - (306001 * e) / 10000;
    let month = clamp_u32(if e < 14 { e - 1 } else { e - 13 });
    let year = if month > 2 { c - 4716 } else { c - 4715 };
    (clamp_i32(year), month, clamp_u32(day))
}

pub open spec fn is_leap_year(y: int) -> bool {
    (y % 4 == 0 && y % 100 != 0) || y % 400 == 0
}

pub open spec fn days_in_month(y: int, m: int) -> int {
    if m == 2 {
        if is_leap_year(y) { 29 } else { 28 }
    } else if m == 4 || m == 6 || m == 9 || m == 11 {
        30
    } else {
        31
    }
}

/// A real date of the (proleptic) Gregorian calendar.
pub open spec fn valid_date(y: int, m: int, d: int) -> bool {
    1 <= m <= 12 && 1 <= d <= days_in_month(y, m)
}

/// Meeus's Gregorian correction finds the century of the (March-based)
/// year of a real date.
#[verifier::rlimit(40)]
proof fn lemma_century_index(y: int, m: int, d: int)
    requires
        valid_date(y, m, d),
    ensures
        ({
            let yy = if m <= 2 { y - 1 } else { y };
            let z = julian_day(y, m, d);
            (4 * z - 7468865) / 146097 == yy / 100 - 4
        }),
{
    let yy = if m <= 2 { y - 1 } else { y };
    let a = yy / 100;
    let r = yy % 100;
    let k = a / 4;
    let s = a % 4;
    assert(yy == 100 * a + r);
    assert(a == 4 * k + s);
}

/// The date of the Julian day number of a real date is that date again.
#[verifier::rlimit(40)]
pub proof fn civil_date_inverts_julian_day(y: int, m: int, d: int)
    requires
        valid_date(y, m, d),
        i32::MIN <= y <= i32::MAX,
    ensures
        civil_date(julian_day(y, m, d)) == (y as i32, m as u32, d as u32),
{
    lemma_century_index(y, m, d);
    let yy = if m <= 2 { y - 1 } else { y };
    let mm = if m <= 2 { m + 12 } else { m };
    let z = julian_day(y, m, d);
    let big_y = yy + 4716;
    let jul = (1461 * big_y) / 4 + (306001 * (mm + 1)) / 10000 + d;
    let alpha = (4 * z - 7468865) / 146097;
    let a = z + 1 + alpha - alpha / 4;
    let b = a + 1524;
    assert(b == jul);
    let c = (100 * b - 12210) / 36525;
    assert(c == big_y);
    let dd = (1461 * c) / 4;
    let e = (10000 * (b - dd)) / 306001;
    assert(e == mm + 1);
}

/// The day before a date, across month and year ends.
pub open spec fn previous_day(y: int, m: int, d: int) -> (int, int, int) {
    if d > 1 {
        (y, m, d - 1)
    } else if m > 1 {
        (y, m - 1, days_in_month(y, m - 1))
    } else {
        (y - 1, 12, 31)
    }
}

#[verifier::rlimit(40)]
proof fn lemma_julian_previous(y: int, m: int, d: int)
    requires
        valid_date(y, m, d),
    ensures
        ({
            let p = previous_day(y, m, d);
            valid_date(p.0, p.1, p.2) && julian_day(p.0, p.1, p.2) == julian_day(y, m, d) - 1
        }),
{
    if d == 1 && m == 3 {
        let yy = y - 1;
        let a = yy / 100;
        let a0 = y / 100;
        assert((1461 * (y + 4716)) / 4 - (1461 * (yy + 4716)) / 4 == if y % 4 == 0 { 366int } else { 365int });
        assert(a0 - a == if y % 100 == 0 { 1int } else { 0int });
        assert(a0 / 4 - a / 4 == if y % 400 == 0 { 1int } else { 0int });
    }
}

/// What `night_of` gives: the date itself from 08:00 on; before that the
/// date of the Julian day before it.
pub open spec fn night_of_spec(year: i32, month: u32, day: u32, hour: u32) -> (i32, u32, u32) {
    if hour >= 8 {
        (year, month, day)
    } else {
        civil_date(julian_day(year as int, month as int, day as int) - 1)
    }
}

/// A small hour of a real date belongs to the evening before: before
/// 08:00, `night_of` gives the previous calendar day, across month and
/// year ends and leap days.
pub proof fn small_hours_belong_to_the_evening_before(year: i32, month: u32, day: u32, hour: u32)
    requires
        valid_date(year as int, month as int, day as int),
        hour < 8,
        !(year == i32::MIN && month == 1 && day == 1),
    ensures
        ({
            let p = previous_day(year as int, month as int, day as int);
            night_of_spec(year, month, day, hour) == (p.0 as i32, p.1 as u32, p.2 as u32)
        }),
{
    lemma_julian_previous(year as int, month as int, day as int);
    let p = previous_day(year as int, month as int, day as int);
    civil_date_inverts_julian_day(p.0, p.1, p.2);
}

/// `n / d` rounded down, for a positive `d`.
fn floor_div(n: i64, d: i64) -> (q: i64)
    requires
        d > 0,
    ensures
        q == n / d,
{
    assert(i64::MIN <= n / d <= i64::MAX) by (nonlinear_arith)
        requires
            d > 0,
            i64::MIN <= n <= i64::MAX,
    ;
    match n.checked_div_euclid(d) {
        Some(q) => q,
        None => 0,
    }
}

fn saturate_u32(v: i64) -> (r: u32)
    ensures
        r == clamp_u32(v as int),
{
    if v < 0 {
        0
    } else if v > 4294967295 {
        4294967295
    } else {
        v as u32
    }
}

fn saturate_i32(v: i64) -> (r: i32)
    ensures
        r == clamp_i32(v as int),
{
    if v < -2147483648 {
        -2147483648
    } else if v > 2147483647 {
        2147483647
    } else {
        v as i32
    }
}

/// The Julian day number of a date (see `julian_day`).
pub fn julian_day_number(year: i32, month: u32, day: u32) -> (z: i64)
    ensures
        z == julian_day(year as int, month as int, day as int),
        -1_000_000_000_000 <= z <= 1_000_000_000_000,
{
    let y: i64 = if month <= 2 { year as i64 - 1 } else { year as i64 };
    let m: i64 = if month <= 2 { month as i64 + 12 } else { month as i64 };
    let a = floor_div(y, 100);
    let b = 2 - a + floor_div(a, 4);
    floor_div(1461 * (y + 4716), 4) + floor_div(306001 * (m + 1), 10000) + day as i64 + b - 1524
}

/// The date of a Julian day number (see `civil_date`).
pub fn date_of_julian_day(z: i64) -> (r: (i32, u32, u32))
    requires
        -2_000_000_000_000 <= z <= 2_000_000_000_000,
    ensures
        r == civil_date(z as int),
{
    let alpha = floor_div(4 * z - 7468865, 146097);
    let a = z + 1 + alpha - floor_div(alpha, 4);
    let b = a + 1524;
    let c = floor_div(100 * b - 12210, 36525);
    let d = floor_div(1461 * c, 4);
    let e = floor_div(10000 * (b - d), 306001);
    let day = b - d - floor_div(306001 * e, 10000);
    let month = saturate_u32(if e < 14 { e - 1 } else { e - 13 });
    let year = if month > 2 { c - 4716 } else { c - 4715 };
    (saturate_i32(year), month, saturate_u32(day))
}

} // verus!
