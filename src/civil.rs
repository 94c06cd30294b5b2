//! The proleptic Gregorian calendar over whole seconds since 1970-01-01T00:00:00Z.
use vstd::prelude::*;

verus! {

/// Earliest instant, in seconds, that the engine represents.
pub const MIN_SECS: i64 = -377705023201;

/// Latest instant, in seconds, that the engine represents.
pub const MAX_SECS: i64 = 253402207200;

pub open spec fn in_range(s: int) -> bool {
    MIN_SECS <= s <= MAX_SECS
}

pub open spec fn is_leap(y: int) -> bool {
    y % 4 == 0 && (y % 100 != 0 || y % 400 == 0)
}

pub open spec fn days_in_month(y: int, m: int) -> int {
    if m == 2 {
        if is_leap(y) {
            29
        } else {
            28
        }
    } else if m == 4 || m == 6 || m == 9 || m == 11 {
        30
    } else {
        31
    }
}

/// A calendar date in the years the civil grammars accept.
pub open spec fn valid_date(y: int, m: int, d: int) -> bool {
    -9999 <= y <= 9999 && 1 <= m <= 12 && 1 <= d <= days_in_month(y, m)
}

pub open spec fn valid_time(h: int, mi: int, s: int) -> bool {
    0 <= h < 24 && 0 <= mi < 60 && 0 <= s < 60
}

/// Number of days from 1970-01-01 to the date `y-m-d`, counted in 400-year eras
/// (years are shifted by 10400 so that every era index is non-negative).
pub open spec fn days_from_civil(y: int, m: int, d: int) -> int {
    let y2 = (if m <= 2 { y - 1 } else { y }) + 10400;
    let era = y2 / 400;
    let yoe = y2 % 400;
    let mp = if m > 2 { m - 3 } else { m + 9 };
    let doy = (153 * mp + 2) / 5 + d - 1;
    let doe = yoe * 365 + yoe / 4 - yoe / 100 + doy;
    era * 146097 + doe - 4517990
}

/// The date `(year, month, day)` that lies `z` days after 1970-01-01.
pub open spec fn civil_from_days(z: int) -> (int, int, int) {
    let z2 = z + 4371893;
    let era = z2 / 146097;
    let doe = z2 % 146097;
    let yoe = (doe - doe / 1460 + doe / 36524 - doe / 146096) / 365;
    let doy = doe - (365 * yoe + yoe / 4 - yoe / 100);
    let mp = (5 * doy + 2) / 153;
    let d = doy - (153 * mp + 2) / 5 + 1;
    let m = if mp < 10 { mp + 3 } else { mp - 9 };
    let y = yoe + era * 400 - 10000;
    (if m <= 2 { y + 1 } else { y }, m, d)
}

pub open spec fn civil_of(s: int) -> (int, int, int, int, int, int) {
    let (y, m, d) = civil_from_days(s / 86400);
    let sod = s % 86400;
    (y, m, d, sod / 3600, (sod % 3600) / 60, sod % 60)
}

/// Seconds of the instant `y-m-d h:mi:s` UTC.
pub open spec fn secs_from_civil(y: int, m: int, d: int, h: int, mi: int, s: int) -> int {
    days_from_civil(y, m, d) * 86400 + h * 3600 + mi * 60 + s
}

pub fn days_from_civil_exec(y: i64, m: i64, d: i64) -> (r: i64)
    requires
        -10000 <= y <= 10000,
        1 <= m <= 12,
        1 <= d <= 31,
    ensures
        r == days_from_civil(y as int, m as int, d as int),
        -4372300 <= r <= 2933300,
{
    let y2: i64 = (if m <= 2 { y - 1 } else { y }) + 10400;
    let era: i64 = y2 / 400;
    let yoe: i64 = y2 % 400;
    let mp: i64 = if m > 2 { m - 3 } else { m + 9 };
    let doy: i64 = (153 * mp + 2) / 5 + d - 1;
    let doe: i64 = yoe * 365 + yoe / 4 - yoe / 100 + doy;
    proof {
        let sy2: int = (if m <= 2 { y - 1 } else { y as int }) + 10400;
        assert(y2 == sy2);
        assert(era == sy2 / 400);
        assert(yoe == sy2 % 400);
    }
    era * 146097 + doe - 4517990
}

/// Days since 1970-01-01 of the UTC date of instant `s`.
pub open spec fn day_of(s: int) -> int {
    s / 86400
}

/// Day of the week of instant `s`, with 0 for Sunday (1970-01-01 was a Thursday).
pub open spec fn weekday_of(s: int) -> int {
    (day_of(s) + 4) % 7
}

/// Every day from the earliest to the latest instant falls in a four-digit year.
pub proof fn lemma_year_of_day(z: int)
    requires
        -4371587 <= z <= 2932896,
    ensures
        -9999 <= civil_from_days(z).0 <= 9999,
{
    let z2 = z + 4371893;
    let era = z2 / 146097;
    let doe = z2 % 146097;
    let yoe = (doe - doe / 1460 + doe / 36524 - doe / 146096) / 365;
    let doy = doe - (365 * yoe + yoe / 4 - yoe / 100);
    let mp = (5 * doy + 2) / 153;
    assert(0 <= era <= 49);
    assert(0 <= yoe <= 399);
    if era == 49 {
        assert(doe <= 146036);
        if yoe == 399 {
            assert(doy <= 305);
            assert(mp < 10);
        }
    }
    if era == 0 && yoe == 0 {
        assert(doe >= 306);
        assert(doy >= 306);
        assert(mp >= 10);
    }
}

/// The year of every instant in range has four digits.
pub proof fn lemma_year_of_instant(s: int)
    requires
        in_range(s),
    ensures
        -9999 <= civil_of(s).0 <= 9999,
{
    lemma_year_of_day(s / 86400);
}

/// The month and day of every instant in range are a month number and a day number.
pub proof fn lemma_month_of_instant(s: int)
    requires
        in_range(s),
    ensures
        1 <= civil_of(s).1 <= 12,
        1 <= civil_of(s).2 <= 31,
{
    let z = s / 86400;
    let z2 = z + 4371893;
    let era = z2 / 146097;
    let doe = z2 % 146097;
    let yoe = (doe - doe / 1460 + doe / 36524 - doe / 146096) / 365;
    let doy = doe - (365 * yoe + yoe / 4 - yoe / 100);
    assert(0 <= yoe <= 399);
    assert(0 <= doy <= 365);
}

} // verus!
