//! Civil-calendar arithmetic over Unix seconds (proleptic Gregorian, UTC).
//!
//! The cron engine computes next-fire times in UTC from Unix seconds; this
//! module supplies the verified date decomposition it needs.  Dates from 1970
//! through 9999 are supported; later instants are treated as out of range.

use vstd::prelude::*;

verus! {

pub open spec fn spec_is_leap(y: int) -> bool {
    (y % 4 == 0 && y % 100 != 0) || y % 400 == 0
}

pub open spec fn spec_days_in_month(y: int, m: int) -> int {
    if m == 2 {
        if spec_is_leap(y) {
            29
        } else {
            28
        }
    } else if m == 4 || m == 6 || m == 9 || m == 11 {
        30
    } else {
        31
    }
}

pub open spec fn spec_days_in_year(y: int) -> int {
    if spec_is_leap(y) {
        366
    } else {
        365
    }
}

/// Days from the start of year `y` to the start of month `m` of that year.
pub open spec fn spec_days_before_month(y: int, m: int) -> int
    decreases m,
{
    if m <= 1 {
        0
    } else {
        spec_days_before_month(y, m - 1) + spec_days_in_month(y, m - 1)
    }
}

/// Walk forward from year `y` consuming whole years out of `days`.
/// Returns the year reached and the days left within it.
pub open spec fn spec_year_from(y: int, days: int) -> (int, int)
    decreases days,
{
    if days < spec_days_in_year(y) || days < 0 {
        (y, days)
    } else {
        spec_year_from(y + 1, days - spec_days_in_year(y))
    }
}

/// Walk forward from month `m` of year `y` consuming whole months out of
/// `days`.  Returns the month reached and the days left within it.
pub open spec fn spec_month_from(y: int, m: int, days: int) -> (int, int)
    decreases days,
{
    if days < spec_days_in_month(y, m) || days < 0 {
        (m, days)
    } else {
        spec_month_from(y, m + 1, days - spec_days_in_month(y, m))
    }
}

/// Calendar year of a Unix instant.
pub open spec fn spec_year_of(t: u64) -> int {
    spec_year_from(1970, t as int / 86400).0
}

/// Calendar month (1-12) of a Unix instant.
pub open spec fn spec_month_of(t: u64) -> int {
    spec_month_from(spec_year_of(t), 1, spec_year_from(1970, t as int / 86400).1).0
}

/// Day of the month (1-31) of a Unix instant.
pub open spec fn spec_day_of(t: u64) -> int {
    spec_month_from(spec_year_of(t), 1, spec_year_from(1970, t as int / 86400).1).1 + 1
}

/// Hour of the day (0-23) of a Unix instant.
pub open spec fn spec_hour_of(t: u64) -> int {
    (t as int % 86400) / 3600
}

/// Minute of the hour (0-59) of a Unix instant.
pub open spec fn spec_minute_of(t: u64) -> int {
    ((t as int % 86400) % 3600) / 60
}

/// Day of the week of a Unix instant, 0 = Sunday.  The epoch, 1970-01-01,
/// was a Thursday.
pub open spec fn spec_dow_of(t: u64) -> int {
    (t as int / 86400 + 4) % 7
}

/// Instants of year 10000 and beyond are out of range.
pub open spec fn spec_in_range(t: u64) -> bool {
    spec_year_of(t) <= 9999
}

/// One calendar date and minute.
#[derive(Clone, Copy, Debug, PartialEq, Eq, Structural)]
pub struct Civil {
    pub year: u16,
    pub month: u8,
    pub day: u8,
    pub hour: u8,
    pub minute: u8,
    pub dow: u8,
}

pub open spec fn civil_of(t: u64, c: Civil) -> bool {
    &&& c.year == spec_year_of(t)
    &&& c.month == spec_month_of(t)
    &&& c.day == spec_day_of(t)
    &&& c.hour == spec_hour_of(t)
    &&& c.minute == spec_minute_of(t)
    &&& c.dow == spec_dow_of(t)
}

pub fn days_in_month(y: u64, m: u64) -> (r: u64)
    ensures
        r == spec_days_in_month(y as int, m as int),
        28 <= r <= 31,
{
    if m == 2 {
        if (y % 4 == 0 && y % 100 != 0) || y % 400 == 0 {
            29
        } else {
            28
        }
    } else if m == 4 || m == 6 || m == 9 || m == 11 {
        30
    } else {
        31
    }
}

pub fn days_in_year(y: u64) -> (r: u64)
    ensures
        r == spec_days_in_year(y as int),
        365 <= r <= 366,
{
    if (y % 4 == 0 && y % 100 != 0) || y % 400 == 0 {
        366
    } else {
        365
    }
}

/// The year walk ends on a year at least as late as it started, with a
/// non-negative remainder smaller than that year's length.
pub proof fn lemma_year_from_bounds(y: int, days: int)
    requires
        0 <= days,
    ensures
        ({
            let (y2, d2) = spec_year_from(y, days);
            y <= y2 && 0 <= d2 < spec_days_in_year(y2)
        }),
    decreases days,
{
    if days >= spec_days_in_year(y) {
        lemma_year_from_bounds(y + 1, days - spec_days_in_year(y));
    }
}

/// The month walk, started in January with less than a year of days,
/// ends within the year.
pub proof fn lemma_month_from_bounds(y: int, m: int, days: int)
    requires
        1 <= m <= 12,
        0 <= days,
        days + spec_days_before_month(y, m) < spec_days_in_year(y),
    ensures
        ({
            let (m2, d2) = spec_month_from(y, m, days);
            m <= m2 <= 12 && 0 <= d2 < spec_days_in_month(y, m2) && d2 + spec_days_before_month(
                y,
                m2,
            ) == days + spec_days_before_month(y, m)
        }),
    decreases 13 - m,
{
    if days >= spec_days_in_month(y, m) {
        if m == 12 {
            reveal_with_fuel(spec_days_before_month, 14);
            assert(false);
        } else {
            lemma_month_from_bounds(y, m + 1, days - spec_days_in_month(y, m));
        }
    }
}

/// Decompose a Unix instant into its calendar fields; `None` for instants
/// in year 10000 or later.
pub fn civil_from_unix(t: u64) -> (r: Option<Civil>)
    ensures
        r is Some <==> spec_in_range(t),
        r matches Some(c) ==> civil_of(t, c) && 1970 <= c.year <= 9999 && 1 <= c.month <= 12 && 1
            <= c.day <= 31 && c.hour <= 23 && c.minute <= 59 && c.dow <= 6,
{
    let total_days = t / 86400;
    let sod = t % 86400;
    let mut y: u64 = 1970;
    let mut days: u64 = total_days;
    loop
        invariant
            1970 <= y,
            total_days == t / 86400,
            spec_year_from(1970, total_days as int) == spec_year_from(y as int, days as int),
            days <= total_days,
        ensures
            1970 <= y <= 9999,
            days < spec_days_in_year(y as int),
            spec_year_from(1970, total_days as int) == (y as int, days as int),
        decreases days,
    {
        if y > 9999 {
            proof {
                lemma_year_from_bounds(y as int, days as int);
                assert(spec_year_from(y as int, days as int).0 >= y as int);
                assert(total_days as int == t as int / 86400);
                assert(spec_year_of(t) == spec_year_from(1970, total_days as int).0);
            }
            return None;
        }
        let diy = days_in_year(y);
        if days < diy {
            break ;
        }
        days = days - diy;
        y = y + 1;
    }
    proof {
        lemma_year_from_bounds(1970, total_days as int);
    }
    let mut m: u64 = 1;
    let mut d: u64 = days;
    proof {
        assert(spec_days_before_month(y as int, 1) == 0);
    }
    loop
        invariant
            1 <= m <= 13,
            d <= days < spec_days_in_year(y as int),
            d as int + spec_days_before_month(y as int, m as int) == days,
            spec_month_from(y as int, 1, days as int) == spec_month_from(
                y as int,
                m as int,
                d as int,
            ),
        ensures
            1 <= m <= 12,
            d < spec_days_in_month(y as int, m as int),
            spec_month_from(y as int, 1, days as int) == (m as int, d as int),
        decreases d,
    {
        let dim = days_in_month(y, m);
        if d < dim {
            proof {
                if m == 13 {
                    reveal_with_fuel(spec_days_before_month, 14);
                }
            }
            break ;
        }
        proof {
            if m >= 12 {
                reveal_with_fuel(spec_days_before_month, 14);
                assert(false);
            }
        }
        d = d - dim;
        m = m + 1;
    }
    let hour = sod / 3600;
    let minute = (sod % 3600) / 60;
    let dow = (total_days + 4) % 7;
    Some(
        Civil {
            year: y as u16,
            month: m as u8,
            day: (d + 1) as u8,
            hour: hour as u8,
            minute: minute as u8,
            dow: dow as u8,
        },
    )
}

/// All instants of one day share its calendar date and weekday.
pub proof fn lemma_same_day_fields(day_start: u64, u: u64)
    requires
        day_start % 86400 == 0,
        day_start <= u < day_start + 86400,
    ensures
        u as int / 86400 == day_start as int / 86400,
        spec_year_of(u) == spec_year_of(day_start),
        spec_month_of(u) == spec_month_of(day_start),
        spec_day_of(u) == spec_day_of(day_start),
        spec_dow_of(u) == spec_dow_of(day_start),
        u as int % 86400 == u - day_start,
{
    assert(u as int / 86400 == day_start as int / 86400 && u as int % 86400 == u as int
        - day_start as int) by (nonlinear_arith)
        requires
            day_start % 86400 == 0,
            day_start <= u < day_start + 86400,
    ;
}


} // verus!
