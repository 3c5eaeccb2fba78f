//! Gregorian calendar dates of Unix times, for naming output folders by when they were made.
use vstd::prelude::*;
use vstd::string::*;

use crate::text::{nat_text, padded_text, push_padded};

verus! {

/// A leap year of the proleptic Gregorian calendar.
pub open spec fn is_leap(y: int) -> bool {
    (y % 4 == 0 && y % 100 != 0) || y % 400 == 0
}

/// The days in month `m` (1 to 12) of year `y`.
pub open spec fn month_days(y: int, m: int) -> int {
    if m == 2 {
        if is_leap(y) {
            29
        } else {
            28
        }
    } else if m == 4 || m == 6 || m == 9 || m == 11 {
        30
    } else {
        31
    }
}

/// The days of year `y` before the first of month `m`.
pub open spec fn days_before_month(y: int, m: int) -> int {
    let base: int = if m <= 1 {
        0
    } else if m == 2 {
        31
    } else if m == 3 {
        59
    } else if m == 4 {
        90
    } else if m == 5 {
        120
    } else if m == 6 {
        151
    } else if m == 7 {
        181
    } else if m == 8 {
        212
    } else if m == 9 {
        243
    } else if m == 10 {
        273
    } else if m == 11 {
        304
    } else {
        334
    };
    base + if m > 2 && is_leap(y) {
        1int
    } else {
        0int
    }
}

/// The leap years among years `1..y` (counted back from 0 for earlier years).
pub open spec fn leaps_before(y: int) -> int {
    (y - 1) / 4 - (y - 1) / 100 + (y - 1) / 400
}

/// The day number of the first of January of year `y`, 1970-01-01 being day 0.
pub open spec fn year_start(y: int) -> int {
    365 * (y - 1970) + leaps_before(y) - leaps_before(1970)
}

/// The day number of date `y`-`m`-`d`.
pub open spec fn date_days(y: int, m: int, d: int) -> int {
    year_start(y) + days_before_month(y, m) + d - 1
}

/// A real date: a month from 1 to 12 and a day within that month.
pub open spec fn valid_date(y: int, m: int, d: int) -> bool {
    1 <= m <= 12 && 1 <= d <= month_days(y, m)
}

/// The date of day number `days`.
pub open spec fn civil_date(days: int) -> (int, int, int) {
    choose|t: (int, int, int)| valid_date(t.0, t.1, t.2) && date_days(t.0, t.1, t.2) == days
}

pub open spec fn year_days(y: int) -> int {
    if is_leap(y) {
        366
    } else {
        365
    }
}

proof fn lemma_year_step(y: int)
    ensures
        year_start(y + 1) == year_start(y) + year_days(y),
{
    assert(y / 4 - (y - 1) / 4 == if y % 4 == 0 {
        1int
    } else {
        0int
    });
    assert(y / 100 - (y - 1) / 100 == if y % 100 == 0 {
        1int
    } else {
        0int
    });
    assert(y / 400 - (y - 1) / 400 == if y % 400 == 0 {
        1int
    } else {
        0int
    });
}

proof fn lemma_era_start(e: int)
    ensures
        year_start(1970 + 400 * e) == 146097 * e,
{
    assert((1969 + 400 * e) / 4 == 492 + 100 * e);
    assert((1969 + 400 * e) / 100 == 19 + 4 * e);
    assert((1969 + 400 * e) / 400 == 4 + e);
}

proof fn lemma_year_start_increasing(a: int, b: int)
    requires
        a < b,
    ensures
        year_start(a) + 365 <= year_start(b),
    decreases b - a,
{
    lemma_year_step(a);
    if a + 1 < b {
        lemma_year_start_increasing(a + 1, b);
    }
}

proof fn lemma_month_step(y: int, m: int)
    requires
        1 <= m < 12,
    ensures
        days_before_month(y, m + 1) == days_before_month(y, m) + month_days(y, m),
{
}

proof fn lemma_month_increasing(y: int, a: int, b: int)
    requires
        1 <= a < b <= 12,
    ensures
        days_before_month(y, a) + month_days(y, a) <= days_before_month(y, b),
    decreases b - a,
{
    lemma_month_step(y, a);
    if a + 1 < b {
        lemma_month_increasing(y, a + 1, b);
    }
}

proof fn lemma_date_in_year(y: int, m: int, d: int)
    requires
        valid_date(y, m, d),
    ensures
        year_start(y) <= date_days(y, m, d) < year_start(y + 1),
{
    lemma_year_step(y);
    if m < 12 {
        lemma_month_increasing(y, m, 12);
    }
}

/// Each day number is exactly one date: two real dates with the same day number are the
/// same date.
pub proof fn date_days_injective(y1: int, m1: int, d1: int, y2: int, m2: int, d2: int)
    requires
        valid_date(y1, m1, d1),
        valid_date(y2, m2, d2),
        date_days(y1, m1, d1) == date_days(y2, m2, d2),
    ensures
        y1 == y2 && m1 == m2 && d1 == d2,
{
    lemma_date_in_year(y1, m1, d1);
    lemma_date_in_year(y2, m2, d2);
    if y1 < y2 {
        lemma_year_start_increasing(y1 + 1, y2 + 1);
        lemma_year_step(y1);
        if y1 + 1 < y2 {
            lemma_year_start_increasing(y1 + 1, y2);
        }
    } else if y2 < y1 {
        lemma_year_step(y2);
        if y2 + 1 < y1 {
            lemma_year_start_increasing(y2 + 1, y1);
        }
    }
    assert(y1 == y2);
    if m1 < m2 {
        lemma_month_increasing(y1, m1, m2);
    } else if m2 < m1 {
        lemma_month_increasing(y1, m2, m1);
    }
}

/// The date of a day number, computed by whole 400-year cycles, then years, then months.
pub fn date_of_days(days: i64) -> (res: (i64, u64, u64))
    requires
        -200_000_000_000_000 <= days <= 200_000_000_000_000,
    ensures
        valid_date(res.0 as int, res.1 as int, res.2 as int),
        date_days(res.0 as int, res.1 as int, res.2 as int) == days,
        (res.0 as int, res.1 as int, res.2 as int) == civil_date(days as int),
{
    let era: i64 = match days.checked_div_euclid(146097) {
        Some(v) => v,
        None => 0,
    };
    assert(era == days as int / 146097);
    let mut y: i64 = 1970 + 400 * era;
    let mut start: i64 = 146097 * era;
    let ghost y_end = 1970 + 400 * (era + 1);
    proof {
        lemma_era_start(era as int);
        lemma_era_start(era + 1);
    }
    while start + year_length(y) <= days
        invariant
            start == year_start(y as int),
            start <= days,
            y < y_end,
            year_start(y_end) > days,
            y_end == 1970 + 400 * (era + 1),
            -200_000_000_000_000 <= days <= 200_000_000_000_000,
            -1_000_000_000_000 <= era <= 1_000_000_000_000,
            1970 + 400 * era <= y,
        decreases y_end - y,
    {
        proof {
            lemma_year_step(y as int);
        }
        start = start + year_length(y);
        y = y + 1;
    }
    proof {
        lemma_year_step(y as int);
    }
    let doy: i64 = days - start;
    let leap: bool = leap_year(y);
    let mut m: u64 = 1;
    let mut mstart: i64 = 0;
    while m < 12 && mstart + month_length(leap, m) <= doy
        invariant
            1 <= m <= 12,
            leap == is_leap(y as int),
            mstart == days_before_month(y as int, m as int),
            mstart <= doy,
            0 <= doy < year_days(y as int),
        decreases 12 - m,
    {
        proof {
            lemma_month_step(y as int, m as int);
        }
        mstart = mstart + month_length(leap, m);
        m = m + 1;
    }
    let d: u64 = (doy - mstart + 1) as u64;
    proof {
        if m < 12 {
        } else {
            assert(days_before_month(y as int, 12) + month_days(y as int, 12) == year_days(y as int));
        }
        assert(valid_date(y as int, m as int, d as int));
        let t = (y as int, m as int, d as int);
        assert(valid_date(t.0, t.1, t.2) && date_days(t.0, t.1, t.2) == days);
        let c = civil_date(days as int);
        date_days_injective(c.0, c.1, c.2, t.0, t.1, t.2);
    }
    (y, m, d)
}

fn rem_by(v: i64, d: i64) -> (res: i64)
    requires
        d > 0,
    ensures
        res == v as int % d as int,
{
    match v.checked_rem_euclid(d) {
        Some(r) => r,
        None => 0,
    }
}

fn leap_year(y: i64) -> (res: bool)
    ensures
        res == is_leap(y as int),
{
    (rem_by(y, 4) == 0 && rem_by(y, 100) != 0) || rem_by(y, 400) == 0
}

fn year_length(y: i64) -> (res: i64)
    ensures
        res == year_days(y as int),
{
    if leap_year(y) {
        366
    } else {
        365
    }
}

fn month_length(leap: bool, m: u64) -> (res: i64)
    requires
        1 <= m <= 12,
    ensures
        forall|y: int| is_leap(y) == leap ==> res == month_days(y, m as int),
{
    if m == 2 {
        if leap {
            29
        } else {
            28
        }
    } else if m == 4 || m == 6 || m == 9 || m == 11 {
        30
    } else {
        31
    }
}

/// `v` written as Rust's `{:0w$}` writes a signed integer: a minus sign where negative,
/// then the digits zero-padded so that sign and digits take at least `width` characters.
pub open spec fn signed_padded_text(v: int, width: nat) -> Seq<char> {
    if v < 0 {
        seq!['-'] + padded_text((-v) as nat, if width > 0 {
            (width - 1) as nat
        } else {
            0
        })
    } else {
        padded_text(v as nat, width)
    }
}

/// The folder name for Unix time `secs`: `YYYY-MM-DD_hh-mm-ss` in UTC.
pub open spec fn timestamp_name(secs: int) -> Seq<char> {
    let days = secs / 86400;
    let rem = secs % 86400;
    let date = civil_date(days);
    signed_padded_text(date.0, 4) + "-"@ + padded_text(date.1 as nat, 2) + "-"@ + padded_text(
        date.2 as nat,
        2,
    ) + "_"@ + padded_text((rem / 3600) as nat, 2) + "-"@ + padded_text(((rem % 3600) / 60) as nat, 2)
        + "-"@ + padded_text((rem % 60) as nat, 2)
}

/// `YYYY-MM-DD_hh-mm-ss` for a count of seconds since the Unix epoch, in UTC.
pub fn timestamp_text(secs: i64) -> (res: String)
    ensures
        res@ == timestamp_name(secs as int),
{
    let days: i64 = match secs.checked_div_euclid(86400) {
        Some(v) => v,
        None => 0,
    };
    let rem: i64 = match secs.checked_rem_euclid(86400) {
        Some(v) => v,
        None => 0,
    };
    assert(days == secs as int / 86400 && rem == secs as int % 86400);
    let (y, m, d) = date_of_days(days);
    let mut s = String::new();
    if y < 0 {
        s.append("-");
        push_padded(&mut s, (0i128 - y as i128) as u64, 3);
    } else {
        push_padded(&mut s, y as u64, 4);
    }
    s.append("-");
    push_padded(&mut s, m, 2);
    s.append("-");
    push_padded(&mut s, d, 2);
    s.append("_");
    push_padded(&mut s, (rem / 3600) as u64, 2);
    s.append("-");
    push_padded(&mut s, ((rem % 3600) / 60) as u64, 2);
    s.append("-");
    push_padded(&mut s, (rem % 60) as u64, 2);
    proof {
        reveal_strlit("-");
    }
    assert(s@ =~= timestamp_name(secs as int));
    s
}

} // verus!
