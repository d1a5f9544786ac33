use vstd::prelude::*;

verus! {

/// Measurements carry UTC timestamps with minute precision. A timestamp is
/// held as a single minute index: the number of minutes since
/// 1970-01-01 00:00 UTC (negative before that), computed from a
/// calendar-valid civil date by the usual proleptic-Gregorian day count.
/// Years from 0 to 9999 are representable, which covers every date a
/// four-digit year field can encode.

pub open spec fn spec_is_leap_year(y: int) -> bool {
    y % 4 == 0 && (y % 100 != 0 || y % 400 == 0)
}

pub open spec fn spec_days_in_month(y: int, m: int) -> int {
    if m == 1 || m == 3 || m == 5 || m == 7 || m == 8 || m == 10 || m == 12 {
        31
    } else if m == 4 || m == 6 || m == 9 || m == 11 {
        30
    } else if spec_is_leap_year(y) {
        29
    } else {
        28
    }
}

/// A calendar-valid civil date with a four-digit year.
pub open spec fn spec_valid_date(y: int, m: int, d: int) -> bool {
    0 <= y <= 9999 && 1 <= m <= 12 && 1 <= d <= spec_days_in_month(y, m)
}

pub open spec fn spec_valid_time(h: int, mi: int) -> bool {
    0 <= h <= 23 && 0 <= mi <= 59
}

/// Days since 1970-01-01 of the civil date (y, m, d), proleptic Gregorian.
/// The year is shifted by one 400-year era so that every intermediate
/// quantity is non-negative.
pub open spec fn spec_days_from_civil(y: int, m: int, d: int) -> int
    recommends
        spec_valid_date(y, m, d),
{
    let ys = if m <= 2 { y + 400 - 1 } else { y + 400 };
    let era = ys / 400;
    let yoe = ys % 400;
    let mp = if m > 2 { m - 3 } else { m + 9 };
    let doy = (153 * mp + 2) / 5 + d - 1;
    let doe = yoe * 365 + yoe / 4 - yoe / 100 + doy;
    era * 146097 + doe - 719468 - 146097
}

/// The minute index of a civil date and time of day.
pub open spec fn spec_minute_index(y: int, m: int, d: int, h: int, mi: int) -> int {
    spec_days_from_civil(y, m, d) * 1440 + h * 60 + mi
}

pub fn is_leap_year(y: i32) -> (r: bool)
    ensures
        r == spec_is_leap_year(y as int),
{
    y % 4 == 0 && (y % 100 != 0 || y % 400 == 0)
}

pub fn days_in_month(y: i32, m: i32) -> (r: i32)
    ensures
        r == spec_days_in_month(y as int, m as int),
{
    if m == 1 || m == 3 || m == 5 || m == 7 || m == 8 || m == 10 || m == 12 {
        31
    } else if m == 4 || m == 6 || m == 9 || m == 11 {
        30
    } else if is_leap_year(y) {
        29
    } else {
        28
    }
}

pub fn valid_date(y: i32, m: i32, d: i32) -> (r: bool)
    ensures
        r == spec_valid_date(y as int, m as int, d as int),
{
    0 <= y && y <= 9999 && 1 <= m && m <= 12 && 1 <= d && d <= days_in_month(y, m)
}

pub fn valid_time(h: i32, mi: i32) -> (r: bool)
    ensures
        r == spec_valid_time(h as int, mi as int),
{
    0 <= h && h <= 23 && 0 <= mi && mi <= 59
}

/// Bounds on the day count over the representable year range: they keep all
/// minute arithmetic comfortably inside `i64`.
pub proof fn lemma_days_from_civil_bounds(y: int, m: int, d: int)
    requires
        spec_valid_date(y, m, d),
    ensures
        -719529 <= spec_days_from_civil(y, m, d) < 3000000,
{
}

pub fn days_from_civil(y: i32, m: i32, d: i32) -> (r: i64)
    requires
        spec_valid_date(y as int, m as int, d as int),
    ensures
        r == spec_days_from_civil(y as int, m as int, d as int),
        -719529 <= r < 3000000,
{
    let ys: i64 = if m <= 2 { y as i64 + 399 } else { y as i64 + 400 };
    let era: i64 = ys / 400;
    let yoe: i64 = ys % 400;
    let mp: i64 = if m > 2 { m as i64 - 3 } else { m as i64 + 9 };
    let doy: i64 = (153 * mp + 2) / 5 + d as i64 - 1;
    let doe: i64 = yoe * 365 + yoe / 4 - yoe / 100 + doy;
    let r = era * 146097 + doe - 719468 - 146097;
    proof {
        lemma_days_from_civil_bounds(y as int, m as int, d as int);
    }
    r
}

/// The minute index of a calendar-valid date and time.
pub fn minute_index(y: i32, m: i32, d: i32, h: i32, mi: i32) -> (r: i64)
    requires
        spec_valid_date(y as int, m as int, d as int),
        spec_valid_time(h as int, mi as int),
    ensures
        r == spec_minute_index(y as int, m as int, d as int, h as int, mi as int),
{
    let days = days_from_civil(y, m, d);
    days * 1440 + h as i64 * 60 + mi as i64
}

} // verus!
