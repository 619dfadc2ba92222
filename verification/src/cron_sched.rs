//! Schedules and next-fire computation.
//!
//! A schedule fires once at a fixed instant, every fixed number of seconds,
//! or on the minutes a cron expression denotes.  `next_match` returns the
//! first minute strictly after a reference instant that a cron expression
//! matches, searching four calendar years ahead.

use vstd::prelude::*;

use crate::calendar::{
    civil_from_unix, lemma_same_day_fields, spec_day_of, spec_dow_of, spec_hour_of, spec_in_range,
    spec_minute_of, spec_month_of, spec_year_from, spec_year_of, civil_of,
};
use crate::cron_expr::{
    parse_cron_expr, spec_cron_ok, spec_field_has, spec_ws_tokens, CronError, CronExpr,
};
use crate::text::{str_to_chars, trim_chars, parse_u64_chars, spec_trim, spec_all_digits,
    spec_digits_val};

verus! {

/// When a job runs.
#[derive(Debug)]
pub enum Schedule {
    Once { at_unix: u64 },
    Interval { every_seconds: u64 },
    Cron { expr: String },
}

/// Whether the lists of a parsed cron expression match the calendar fields
/// of an instant.
pub open spec fn spec_matches(e: CronExpr, t: u64) -> bool {
    &&& e.minutes@.contains(spec_minute_of(t) as u8)
    &&& e.hours@.contains(spec_hour_of(t) as u8)
    &&& e.doms@.contains(spec_day_of(t) as u8)
    &&& e.months@.contains(spec_month_of(t) as u8)
    &&& e.dows@.contains(spec_dow_of(t) as u8)
}

/// Whether a cron expression text matches an instant, field by field.
pub open spec fn spec_expr_matches(s: Seq<char>, t: u64) -> bool {
    let toks = spec_ws_tokens(s);
    &&& spec_field_has(toks[0], 0, 59, spec_minute_of(t) as u8)
    &&& spec_field_has(toks[1], 0, 23, spec_hour_of(t) as u8)
    &&& spec_field_has(toks[2], 1, 31, spec_day_of(t) as u8)
    &&& spec_field_has(toks[3], 1, 12, spec_month_of(t) as u8)
    &&& spec_field_has(toks[4], 0, 6, spec_dow_of(t) as u8)
}

/// The first whole minute strictly after `after`.
pub open spec fn spec_scan_start(after: u64) -> int {
    ((after as int) / 60 + 1) * 60
}

/// The last calendar year the search covers: four years past the year the
/// scan starts in.
pub open spec fn spec_limit_year(after: u64) -> int {
    spec_year_from(1970, spec_scan_start(after) / 86400).0 + 4
}

/// Later days never reach an earlier year.
proof fn lemma_year_from_mono(y: int, d1: int, d2: int)
    requires
        0 <= d1 <= d2,
    ensures
        spec_year_from(y, d1).0 <= spec_year_from(y, d2).0,
    decreases d2,
{
    if d2 >= spec_days_in_year_at(y) {
        if d1 >= spec_days_in_year_at(y) {
            lemma_year_from_mono(y + 1, d1 - spec_days_in_year_at(y), d2 - spec_days_in_year_at(y));
        } else {
            crate::calendar::lemma_year_from_bounds(y + 1, d2 - spec_days_in_year_at(y));
        }
    }
}

spec fn spec_days_in_year_at(y: int) -> int {
    crate::calendar::spec_days_in_year(y)
}

/// Calendar years never decrease along the timeline.
pub proof fn lemma_year_of_mono(t1: u64, t2: u64)
    requires
        t1 <= t2,
    ensures
        spec_year_of(t1) <= spec_year_of(t2),
{
    assert(t1 as int / 86400 <= t2 as int / 86400) by (nonlinear_arith)
        requires
            t1 <= t2,
    ;
    lemma_year_from_mono(1970, t1 as int / 86400, t2 as int / 86400);
}

/// Everything up to year 9999 lies well below 2.6e11 Unix seconds.
proof fn lemma_year_from_day_bound(y: int, d: int)
    requires
        1970 <= y,
        0 <= d,
        spec_year_from(y, d).0 <= 9999,
    ensures
        d <= (9999 - y + 1) * 366,
    decreases d,
{
    if d >= spec_days_in_year_at(y) {
        lemma_year_from_day_bound(y + 1, d - spec_days_in_year_at(y));
    }
}

pub proof fn lemma_in_range_bound(u: u64)
    requires
        spec_in_range(u),
    ensures
        u < 260_000_000_000,
{
    lemma_year_from_day_bound(1970, u as int / 86400);
    assert(u as int / 86400 <= 8030 * 366);
    assert(u < 260_000_000_000) by (nonlinear_arith)
        requires
            u as int / 86400 <= 2938980,
    ;
}

/// A whole minute strictly after `after` is no earlier than the scan start.
proof fn lemma_aligned_past(after: u64, u: u64)
    requires
        after < u,
        u % 60 == 0,
    ensures
        u >= spec_scan_start(after),
{
    assert(u >= ((after as int) / 60 + 1) * 60) by (nonlinear_arith)
        requires
            after < u,
            u % 60 == 0,
    ;
}

fn contains_u8(v: &Vec<u8>, x: u8) -> (b: bool)
    ensures
        b == v@.contains(x),
{
    let mut i: usize = 0;
    while i < v.len()
        invariant
            0 <= i <= v@.len(),
            forall|k: int| 0 <= k < i ==> v@[k] != x,
        decreases v@.len() - i,
    {
        if v[i] == x {
            return true;
        }
        i = i + 1;
    }
    false
}

/// The first whole minute strictly after `after_unix` that the expression
/// matches, if one exists within the four-year search horizon.
pub fn next_match(expr: &CronExpr, after_unix: u64) -> (r: Option<u64>)
    ensures
        match r {
            Some(t) => {
                &&& after_unix < t
                &&& t % 60 == 0
                &&& spec_in_range(t)
                &&& spec_year_of(t) <= spec_limit_year(after_unix)
                &&& spec_matches(*expr, t)
                &&& forall|u: u64|
                    after_unix < u < t && u % 60 == 0 ==> !spec_matches(*expr, u)
            },
            None => forall|u: u64|
                after_unix < u && u % 60 == 0 && spec_in_range(u) && spec_year_of(u)
                    <= spec_limit_year(after_unix) ==> !spec_matches(*expr, u),
        },
{
    let q = after_unix / 60;
    if q >= u64::MAX / 60 {
        proof {
            assert forall|u: u64|
                after_unix < u && u % 60 == 0 && spec_in_range(u) && spec_year_of(u)
                    <= spec_limit_year(after_unix) implies !spec_matches(*expr, u) by {
                lemma_in_range_bound(u);
                assert(after_unix >= (after_unix / 60) * 60) by (nonlinear_arith);
                assert((u64::MAX / 60) * 60 > 260_000_000_000);
            }
        }
        return None;
    }
    let start = (q + 1) * 60;
    proof {
        assert((q + 1) * 60 <= u64::MAX) by (nonlinear_arith)
            requires
                q < u64::MAX / 60,
        ;
        assert(after_unix < start && start % 60 == 0 && start == spec_scan_start(after_unix))
            by (nonlinear_arith)
            requires
                q == after_unix / 60,
                start == (q + 1) * 60,
        ;
    }
    let start_civil = match civil_from_unix(start) {
        Some(c) => c,
        None => {
            proof {
                assert forall|u: u64|
                    after_unix < u && u % 60 == 0 && spec_in_range(u) && spec_year_of(u)
                        <= spec_limit_year(after_unix) implies !spec_matches(*expr, u) by {
                    lemma_aligned_past(after_unix, u);
                    lemma_year_of_mono(start, u);
                }
            }
            return None;
        },
    };
    let limit: u64 = start_civil.year as u64 + 4;
    proof {
        assert(limit == spec_limit_year(after_unix));
    }
    let mut t_day: u64 = start - start % 86400;
    proof {
        assert(t_day % 86400 == 0 && t_day <= start < t_day + 86400) by (nonlinear_arith)
            requires
                t_day == start - start % 86400,
        ;
        assert forall|u: u64|
            after_unix < u && u % 60 == 0 && u < (if start > t_day {
                start as int
            } else {
                t_day as int
            }) implies !spec_matches(*expr, u) by {
            lemma_aligned_past(after_unix, u);
        }
        lemma_in_range_bound(start);
    }
    loop
        invariant
            t_day % 86400 == 0,
            start % 60 == 0,
            after_unix < start,
            start == spec_scan_start(after_unix),
            start < t_day + 86400,
            t_day < 260_000_086_400,
            limit == spec_limit_year(after_unix),
            forall|u: u64|
                after_unix < u && u % 60 == 0 && u < (if start > t_day {
                    start as int
                } else {
                    t_day as int
                }) ==> !spec_matches(*expr, u),
        decreases 300_000_000_000int - t_day,
    {
        let c = match civil_from_unix(t_day) {
            Some(c) => c,
            None => {
                proof {
                    assert forall|u: u64|
                        after_unix < u && u % 60 == 0 && spec_in_range(u) && spec_year_of(u)
                            <= spec_limit_year(after_unix) implies !spec_matches(*expr, u) by {
                        lemma_aligned_past(after_unix, u);
                        if u >= t_day {
                            lemma_year_of_mono(t_day, u);
                        }
                    }
                }
                return None;
            },
        };
        if c.year as u64 > limit {
            proof {
                assert forall|u: u64|
                    after_unix < u && u % 60 == 0 && spec_in_range(u) && spec_year_of(u)
                        <= spec_limit_year(after_unix) implies !spec_matches(*expr, u) by {
                    lemma_aligned_past(after_unix, u);
                    if u >= t_day {
                        lemma_year_of_mono(t_day, u);
                    }
                }
            }
            return None;
        }
        let date_ok = contains_u8(&expr.months, c.month) && contains_u8(&expr.doms, c.day)
            && contains_u8(&expr.dows, c.dow);
        if date_ok {
            let mut u: u64 = if start > t_day {
                start
            } else {
                t_day
            };
            proof {
                assert(t_day % 60 == 0) by (nonlinear_arith)
                    requires
                        t_day % 86400 == 0,
                ;
            }
            while u < t_day + 86400
                invariant
                    t_day % 86400 == 0,
                    t_day < 260_000_086_400,
                    t_day <= u <= t_day + 86400,
                    u % 60 == 0,
                    after_unix < u,
                    start <= u,
                    civil_of(t_day, c),
                    spec_in_range(t_day),
                    expr.months@.contains(c.month),
                    expr.doms@.contains(c.day),
                    expr.dows@.contains(c.dow),
                    c.month == spec_month_of(t_day),
                    c.day == spec_day_of(t_day),
                    c.dow == spec_dow_of(t_day),
                    c.year as int == spec_year_of(t_day),
                    c.year <= limit,
                    limit == spec_limit_year(after_unix),
                    forall|w: u64|
                        after_unix < w && w % 60 == 0 && w < u ==> !spec_matches(*expr, w),
                decreases t_day + 86400 - u,
            {
                let off = u - t_day;
                let hod = off / 3600;
                let moh = (off % 3600) / 60;
                proof {
                    lemma_same_day_fields(t_day, u);
                    assert(spec_hour_of(u) == off as int / 3600);
                    assert(spec_minute_of(u) == (off as int % 3600) / 60);
                    assert(hod <= 23 && moh <= 59) by (nonlinear_arith)
                        requires
                            off < 86400,
                            hod == off / 3600,
                            moh == (off % 3600) / 60,
                    ;
                }
                if contains_u8(&expr.hours, hod as u8) && contains_u8(&expr.minutes, moh as u8) {
                    proof {
                        assert(spec_year_of(u) == spec_year_of(t_day));
                    }
                    return Some(u);
                }
                proof {
                    assert(!spec_matches(*expr, u));
                }
                u = u + 60;
            }
            proof {
                assert forall|w: u64|
                    after_unix < w && w % 60 == 0 && w < (if start > t_day + 86400 {
                        start as int
                    } else {
                        t_day as int + 86400
                    }) implies !spec_matches(*expr, w) by {}
            }
        } else {
            proof {
                assert forall|w: u64|
                    after_unix < w && w % 60 == 0 && w < (if start > t_day + 86400 {
                        start as int
                    } else {
                        t_day as int + 86400
                    }) implies !spec_matches(*expr, w) by {
                    lemma_aligned_past(after_unix, w);
                    if t_day <= w < t_day + 86400 {
                        lemma_same_day_fields(t_day, w);
                    }
                }
            }
        }
        proof {
            lemma_in_range_bound(t_day);
        }
        t_day = t_day + 86400;
    }
}

/// No instant within the search horizon after `after` matches the
/// expression text.
pub open spec fn spec_no_match_in_horizon(s: Seq<char>, after: u64) -> bool {
    forall|u: u64|
        after < u && u % 60 == 0 && spec_in_range(u) && spec_year_of(u) <= spec_limit_year(after)
            ==> !spec_expr_matches(s, u)
}

/// What a next-fire computation for a cron expression text may return.
pub open spec fn spec_cron_next(s: Seq<char>, after: u64, r: Option<u64>) -> bool {
    &&& !spec_cron_ok(s) ==> r is None
    &&& spec_cron_ok(s) ==> match r {
        Some(t) => {
            &&& after < t
            &&& t % 60 == 0
            &&& spec_in_range(t)
            &&& spec_year_of(t) <= spec_limit_year(after)
            &&& spec_expr_matches(s, t)
            &&& forall|u: u64| after < u < t && u % 60 == 0 ==> !spec_expr_matches(s, u)
        },
        None => spec_no_match_in_horizon(s, after),
    }
}

/// An interval schedule must not push the next fire past the end of time.
pub open spec fn spec_no_overflow(s: Schedule, after: u64) -> bool {
    s matches Schedule::Interval { every_seconds } ==> after + every_seconds <= u64::MAX
}

/// What `next_fire_after` returns, for each schedule kind.
pub open spec fn spec_next_fire(s: Schedule, after: u64, r: Option<u64>) -> bool {
    match s {
        Schedule::Once { at_unix } => r == (if at_unix > after {
            Some(at_unix)
        } else {
            None::<u64>
        }),
        Schedule::Interval { every_seconds } => r == Some((after + every_seconds) as u64),
        Schedule::Cron { expr } => spec_cron_next(expr@, after, r),
    }
}

impl Schedule {
    /// The next instant strictly after `after_unix` at which this schedule
    /// fires: the fixed instant if still ahead, the interval added to the
    /// reference, or the cron expression's next matching minute.
    pub fn next_fire_after(&self, after_unix: u64) -> (r: Option<u64>)
        requires
            spec_no_overflow(*self, after_unix),
        ensures
            spec_next_fire(*self, after_unix, r),
    {
        match self {
            Schedule::Once { at_unix } => {
                if *at_unix > after_unix {
                    Some(*at_unix)
                } else {
                    None
                }
            },
            Schedule::Interval { every_seconds } => Some(after_unix + *every_seconds),
            Schedule::Cron { expr } => {
                match parse_cron_expr(expr.as_str()) {
                    Ok(e) => {
                        let r = next_match(&e, after_unix);
                        proof {
                            assert forall|u: u64|
                                spec_matches(e, u) == spec_expr_matches(expr@, u) by {
                                let toks = spec_ws_tokens(expr@);
                                assert(e.minutes@.contains(spec_minute_of(u) as u8)
                                    == spec_field_has(toks[0], 0, 59, spec_minute_of(u) as u8));
                                assert(e.hours@.contains(spec_hour_of(u) as u8) == spec_field_has(
                                    toks[1],
                                    0,
                                    23,
                                    spec_hour_of(u) as u8,
                                ));
                                assert(e.doms@.contains(spec_day_of(u) as u8) == spec_field_has(
                                    toks[2],
                                    1,
                                    31,
                                    spec_day_of(u) as u8,
                                ));
                                assert(e.months@.contains(spec_month_of(u) as u8) == spec_field_has(
                                    toks[3],
                                    1,
                                    12,
                                    spec_month_of(u) as u8,
                                ));
                                assert(e.dows@.contains(spec_dow_of(u) as u8) == spec_field_has(
                                    toks[4],
                                    0,
                                    6,
                                    spec_dow_of(u) as u8,
                                ));
                            }
                            if r is Some {
                                let t = r->0;
                                assert(spec_expr_matches(expr@, t));
                                assert forall|u: u64|
                                    after_unix < u < t && u % 60 == 0 implies !spec_expr_matches(
                                    expr@,
                                    u,
                                ) by {
                                    assert(!spec_matches(e, u));
                                }
                            } else {
                                assert forall|u: u64|
                                    after_unix < u && u % 60 == 0 && spec_in_range(u)
                                        && spec_year_of(u) <= spec_limit_year(after_unix) implies
                                    !spec_expr_matches(expr@, u) by {
                                    assert(!spec_matches(e, u));
                                }
                            }
                        }
                        r
                    },
                    Err(_) => None,
                }
            },
        }
    }
}

pub open spec fn spec_is_alpha(c: char) -> bool {
    (97 <= c as u32 && c as u32 <= 122) || (65 <= c as u32 && c as u32 <= 90)
}

pub open spec fn spec_unit_mult(c: char) -> int {
    if c == 's' {
        1
    } else if c == 'm' {
        60
    } else if c == 'h' {
        3600
    } else if c == 'd' {
        86400
    } else if c == 'w' {
        604800
    } else {
        0
    }
}

/// The number of seconds a delay string denotes: a number, optionally
/// followed by a unit letter (`s`, `m`, `h`, `d`, `w`; minutes when absent).
pub open spec fn spec_delay(s: Seq<char>) -> Option<int> {
    let t = spec_trim(s);
    if t.len() == 0 {
        None
    } else {
        let num = if spec_is_alpha(t.last()) {
            spec_trim(t.drop_last())
        } else {
            t
        };
        let unit = if spec_is_alpha(t.last()) {
            t.last()
        } else {
            'm'
        };
        if spec_all_digits(num) && spec_digits_val(num) <= u64::MAX {
            if spec_unit_mult(unit) == 0 {
                None
            } else if spec_digits_val(num) * spec_unit_mult(unit) <= u64::MAX {
                Some(spec_digits_val(num) * spec_unit_mult(unit))
            } else {
                None
            }
        } else {
            None
        }
    }
}

/// Parse a delay string such as `30m`, `2h` or `1d` into seconds.
pub fn parse_delay(input: &str) -> (r: Result<u64, CronError>)
    ensures
        match r {
            Ok(n) => spec_delay(input@) == Some(n as int),
            Err(_) => spec_delay(input@) is None,
        },
{
    let v = str_to_chars(input);
    let t = trim_chars(&v);
    if t.len() == 0 {
        return Err(CronError::Validation("delay string is empty".to_owned()));
    }
    let last = t[t.len() - 1];
    let is_alpha = (last as u32 >= 97 && last as u32 <= 122) || (last as u32 >= 65 && last as u32
        <= 90);
    let (num_raw, unit) = if is_alpha {
        let head = crate::text::sub_chars(&t, 0, t.len() - 1);
        (head, last)
    } else {
        (t, 'm')
    };
    proof {
        assert(num_raw@ =~= (if spec_is_alpha(spec_trim(v@).last()) {
            spec_trim(v@).drop_last()
        } else {
            spec_trim(v@)
        }));
    }
    let num = trim_chars(&num_raw);
    proof {
        crate::text::lemma_trim_idempotent(v@);
    }
    let n = match parse_u64_chars(&num) {
        Some(n) => n,
        None => {
            return Err(CronError::Validation("invalid delay number".to_owned()));
        },
    };
    let mult: u64 = if unit == 's' {
        1
    } else if unit == 'm' {
        60
    } else if unit == 'h' {
        3600
    } else if unit == 'd' {
        86400
    } else if unit == 'w' {
        604800
    } else {
        return Err(CronError::Validation("unknown delay unit, expected s/m/h/d/w".to_owned()));
    };
    if n > u64::MAX / mult {
        proof {
            assert(n * mult > u64::MAX) by (nonlinear_arith)
                requires
                    n > u64::MAX / mult,
                    mult >= 1,
            ;
        }
        return Err(CronError::Validation("delay value too large".to_owned()));
    }
    proof {
        assert(n * mult <= u64::MAX) by (nonlinear_arith)
            requires
                n <= u64::MAX / mult,
                mult >= 1,
        ;
    }
    Ok(n * mult)
}

} // verus!
