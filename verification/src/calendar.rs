//! Dates of the Gregorian calendar, by the number of the day.

use vstd::prelude::*;

use crate::text;

verus! {

pub open spec fn is_leap(y: int) -> bool {
    y % 4 == 0 && (y % 100 != 0 || y % 400 == 0)
}

pub open spec fn days_in_year(y: int) -> int {
    if is_leap(y) {
        366
    } else {
        365
    }
}

pub open spec fn days_in_month(y: int, m: int) -> int {
    if m == 2 {
        if is_leap(y) {
            29
        } else {
            28
        }
    } else if m == 4 || m == 6 || m == 9 || m == 11 {
        30
    } else {
        31
    }
}

/// The days of a year before the first of a month.
pub open spec fn days_before_month(y: int, m: int) -> int
    decreases m,
{
    if m <= 1 {
        0
    } else {
        days_before_month(y, m - 1) + days_in_month(y, m - 1)
    }
}

/// The leap years before a year, counted from the year 1.
pub open spec fn leaps_before(y: int) -> int {
    (y - 1) / 4 - (y - 1) / 100 + (y - 1) / 400
}

/// The number of the first day of a year; that of 1970 is zero.
pub open spec fn year_start(y: int) -> int {
    365 * (y - 1970) + leaps_before(y) - leaps_before(1970)
}

pub open spec fn is_date(y: int, m: int, d: int) -> bool {
    1 <= m <= 12 && 1 <= d <= days_in_month(y, m)
}

/// The number of a day; that of the first of January 1970 is zero.
pub open spec fn day_number(y: int, m: int, d: int) -> int {
    year_start(y) + days_before_month(y, m) + d - 1
}

/// A year is as long as its days, and as its months together.
pub proof fn years_have_their_length(y: int)
    ensures
        year_start(y + 1) == year_start(y) + days_in_year(y),
        days_before_month(y, 12) + days_in_month(y, 12) == days_in_year(y),
{
    reveal_with_fuel(days_before_month, 13);
    lemma_div_step(y, 4);
    lemma_div_step(y, 100);
    lemma_div_step(y, 400);
    assert(y % 400 == 0 ==> y % 100 == 0);
    assert(y % 100 == 0 ==> y % 4 == 0);
}

proof fn lemma_div_step(y: int, n: int)
    requires
        n > 0,
    ensures
        y / n - (y - 1) / n == if y % n == 0 {
            1int
        } else {
            0int
        },
{
    assert(y / n - (y - 1) / n == if y % n == 0 {
        1int
    } else {
        0int
    }) by (nonlinear_arith)
        requires
            n > 0,
    ;
}

/// The days before each month.
proof fn lemma_months(y: int)
    ensures
        days_before_month(y, 1) == 0,
        days_before_month(y, 2) == 31,
        days_before_month(y, 3) == 59 + (days_in_year(y) - 365),
        days_before_month(y, 4) == 90 + (days_in_year(y) - 365),
        days_before_month(y, 5) == 120 + (days_in_year(y) - 365),
        days_before_month(y, 6) == 151 + (days_in_year(y) - 365),
        days_before_month(y, 7) == 181 + (days_in_year(y) - 365),
        days_before_month(y, 8) == 212 + (days_in_year(y) - 365),
        days_before_month(y, 9) == 243 + (days_in_year(y) - 365),
        days_before_month(y, 10) == 273 + (days_in_year(y) - 365),
        days_before_month(y, 11) == 304 + (days_in_year(y) - 365),
        days_before_month(y, 12) == 334 + (days_in_year(y) - 365),
{
    reveal_with_fuel(days_before_month, 13);
}

/// The days of a cycle of 400 years that begins with a March, before the
/// March of one of its years.
spec fn march_start(yoe: int) -> int {
    365 * yoe + yoe / 4 - yoe / 100
}

/// The year of a cycle that a day falls in.
#[verifier::spinoff_prover]
proof fn lemma_year_of_cycle(doe: int)
    requires
        0 <= doe < 146_097,
    ensures
        ({
            let yoe = (doe - doe / 1_460 + doe / 36_524 - doe / 146_096) / 365;
            let doy = doe - march_start(yoe);
            &&& 0 <= yoe < 400
            &&& 0 <= doy < 365 + (days_in_year(yoe + 1) - 365)
        }),
{
    let c = if doe / 36_524 > 3 {
        3
    } else {
        doe / 36_524
    };
    let in_century = doe - 36_524 * c;
    let q = in_century / 1_461;
    let in_block = in_century - 1_461 * q;
    let r = if in_block / 365 > 3 {
        3
    } else {
        in_block / 365
    };
    let t = in_block - 365 * r;
    let y = 100 * c + 4 * q + r;
    assert(0 <= c <= 3);
    assert(0 <= q <= 24);
    assert(0 <= r <= 3);
    assert(0 <= t <= 365);
    let n = doe - doe / 1_460 + doe / 36_524 - doe / 146_096;
    assert(365 * y <= n < 365 * (y + 1)) by {
        assert(c == 0 || c == 1 || c == 2 || c == 3);
        assert(r == 0 || r == 1 || r == 2 || r == 3);
    }
    assert(n / 365 == y);
    assert(y / 4 == 25 * c + q);
    assert(y / 100 == c);
}

/// Leap years come again after 400 years.
#[verifier::spinoff_prover]
proof fn lemma_cycle_repeats(era: int, y: int)
    ensures
        days_in_year(y + era * 400) == days_in_year(y),
{
    assert((y + era * 400) % 4 == y % 4);
    assert((y + era * 400) % 100 == y % 100);
    assert((y + era * 400) % 400 == y % 400);
}

/// The leap years up to a year of a cycle.
#[verifier::spinoff_prover]
proof fn lemma_leaps(era: int, yoe: int)
    requires
        0 <= yoe < 400,
    ensures
        ({
            let y = yoe + era * 400;
            y / 4 - y / 100 + y / 400 == yoe / 4 - yoe / 100 + 97 * era
        }),
{
    let y = yoe + era * 400;
    assert(y / 4 == yoe / 4 + 100 * era);
    assert(y / 100 == yoe / 100 + 4 * era);
    assert(y / 400 == era);
}

/// The number of the first of March of a year of a cycle.
#[verifier::spinoff_prover]
proof fn lemma_march(era: int, yoe: int)
    requires
        0 <= yoe < 400,
    ensures
        year_start(yoe + era * 400) + (days_in_year(yoe + era * 400) - 365) + 59 == era * 146_097
            + march_start(yoe) - 719_468,
        days_in_year(yoe + 1 + era * 400) == days_in_year(yoe + 1),
{
    let y = yoe + era * 400;
    lemma_cycle_repeats(era, yoe + 1);
    lemma_leaps(era, yoe);
    years_have_their_length(y);
    assert(leaps_before(1970) == 477);
    assert(year_start(y + 1) == 365 * (y + 1 - 1970) + (y / 4 - y / 100 + y / 400) - 477);
}

/// The date of a day, by its number; the day zero is the first of January
/// 1970. The bounds are those of a year of 32 bits.
#[verifier::spinoff_prover]
pub fn civil_from_days(z: i64) -> (r: (i32, u32, u32))
    requires
        -784_353_015_833 <= z <= 784_351_576_776,
    ensures
        is_date(r.0 as int, r.1 as int, r.2 as int),
        day_number(r.0 as int, r.1 as int, r.2 as int) == z,
{
    // Counted from the first of March of a year far enough back that no
    // number is negative.
    let from_march = (z + 719_468 + 146_097 * 6_000_000) as u64;
    let era = (from_march / 146_097) as i64 - 6_000_000;
    let doe = from_march % 146_097;
    let yoe = (doe - doe / 1_460 + doe / 36_524 - doe / 146_096) / 365;
    proof {
        lemma_year_of_cycle(doe as int);
        lemma_march(era as int, yoe as int);
        assert(z + 719_468 == era * 146_097 + doe);
    }
    let y = yoe as i64 + era * 400;
    let doy = doe - (365 * yoe + yoe / 4 - yoe / 100);
    let mp = (5 * doy + 2) / 153;
    let d = (doy - (153 * mp + 2) / 5 + 1) as u32;
    let m = (if mp < 10 {
        mp + 3
    } else {
        mp - 9
    }) as u32;
    let year = if m <= 2 {
        y + 1
    } else {
        y
    };
    proof {
        lemma_months(y as int);
        lemma_months(y + 1);
        years_have_their_length(y as int);
        assert(0 <= mp <= 11);
        lemma_year_fits(year as int, m as int, d as int, z as int);
    }
    (year as i32, m, d)
}

proof fn lemma_year_fits(y: int, m: int, d: int, z: int)
    requires
        is_date(y, m, d),
        day_number(y, m, d) == z,
        -784_353_015_833 <= z <= 784_351_576_776,
    ensures
        i32::MIN <= y <= i32::MAX,
{
    lemma_months(y);
}

/// A day has one date: no two dates have the same number.
#[verifier::spinoff_prover]
pub proof fn one_date_per_day(y1: int, m1: int, d1: int, y2: int, m2: int, d2: int)
    requires
        is_date(y1, m1, d1),
        is_date(y2, m2, d2),
        day_number(y1, m1, d1) == day_number(y2, m2, d2),
    ensures
        y1 == y2,
        m1 == m2,
        d1 == d2,
{
    lemma_months(y1);
    lemma_months(y2);
    years_have_their_length(y1);
    years_have_their_length(y2);
    if y1 < y2 {
        assert(year_start(y1 + 1) <= year_start(y2));
    }
    if y2 < y1 {
        assert(year_start(y2 + 1) <= year_start(y1));
    }
}

/// A number with zeros in front of it.
pub open spec fn padded(n: int, width: nat) -> Seq<char> {
    text::pad_left_of(text::decimal_of(n as nat), '0', width)
}

/// A text that is a date of the calendar, as year, month and day, with a given
/// number.
pub open spec fn is_iso_date(s: Seq<char>, day: int) -> bool {
    exists|y: int, m: int, d: int| #[trigger]
        is_date(y, m, d) && day_number(y, m, d) == day && y >= 0 && s == padded(y, 4) + "-"@
            + padded(m, 2) + "-"@ + padded(d, 2)
}

/// The date of a moment, by its seconds since 1970, as year, month and day.
/// The bound is that of a year of 32 bits.
pub fn today_iso(secs: u64) -> (r: String)
    requires
        secs / 86_400 <= 784_351_576_776,
    ensures
        is_iso_date(r@, (secs / 86_400) as int),
{
    let days = secs / 86_400;
    let (y, m, d) = civil_from_days(days as i64);
    proof {
        lemma_months(y as int);
        assert(y >= 1970);
    }
    let mut r = text::pad_left(text::decimal(y as u64).as_str(), '0', 4);
    r.append("-");
    r.append(text::pad_left(text::decimal(m as u64).as_str(), '0', 2).as_str());
    r.append("-");
    r.append(text::pad_left(text::decimal(d as u64).as_str(), '0', 2).as_str());
    proof {
        assert(is_date(y as int, m as int, d as int));
    }
    r
}

/// The days are numbered without a gap, from zero on the first of January 1970:
/// the day after a date, be it in the same month, the next or the next year,
/// has the next number. Four hundred years are the same number of days wherever
/// they begin.
pub proof fn days_are_numbered_without_a_gap(y: int, m: int, d: int)
    requires
        is_date(y, m, d),
    ensures
        day_number(1970, 1, 1) == 0,
        ({
            let next = if d < days_in_month(y, m) {
                (y, m, d + 1)
            } else if m < 12 {
                (y, m + 1, 1)
            } else {
                (y + 1, 1, 1)
            };
            is_date(next.0, next.1, next.2) && day_number(next.0, next.1, next.2) == day_number(
                y,
                m,
                d,
            ) + 1
        }),
        day_number(y + 400, m, d) == day_number(y, m, d) + 400 * 365 + 97,
{
    years_have_their_length(y);
    assert(days_before_month(y + 1, 1) == 0);
    assert(days_before_month(1970, 1) == 0);
    assert(days_before_month(y, m + 1) == days_before_month(y, m) + days_in_month(y, m));
    lemma_same_months(y, m);
    assert((y + 400 - 1) / 4 == (y - 1) / 4 + 100);
    assert((y + 400 - 1) / 100 == (y - 1) / 100 + 4);
    assert((y + 400 - 1) / 400 == (y - 1) / 400 + 1);
}

proof fn lemma_same_months(y: int, m: int)
    ensures
        days_before_month(y + 400, m) == days_before_month(y, m),
    decreases m,
{
    if m > 1 {
        lemma_same_months(y, m - 1);
        assert(is_leap(y + 400) == is_leap(y));
    }
}

} // verus!
