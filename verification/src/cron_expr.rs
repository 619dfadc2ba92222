//! Five-field cron expression grammar: `minute hour dom month dow`, each
//! field `*`, `N`, `N,M`, `N-M`, `*/S` or `N-M/S`.
//!
//! The specification functions define the grammar exactly; the parser is
//! proved to accept precisely the valid fields and to produce, for each
//! field, the sorted duplicate-free list of the values the grammar denotes.

use vstd::prelude::*;

use crate::text::{
    chars_eq, find_char_from, find_ws_from, is_space, parse_u64_chars, is_space_char,
    lemma_find_ws_unique, spec_all_digits, spec_digits_val, spec_find_char, spec_find_ws,
    spec_starts_with, spec_trim, starts_with_chars, str_to_chars, sub_chars, trim_chars,
};

verus! {

/// Cron engine errors.
#[derive(Clone, Debug)]
pub enum CronError {
    Io(String),
    Parse(String),
    Validation(String),
}

impl CronError {
    /// Human-readable rendering, in the shape `cron <kind>: <detail>`.
    pub fn text(&self) -> (r: String)
        ensures
            r@ == match self {
                CronError::Io(s) => "cron io: "@ + s@,
                CronError::Parse(s) => "cron parse: "@ + s@,
                CronError::Validation(s) => "cron validation: "@ + s@,
            },
    {
        match self {
            CronError::Io(s) => {
                let mut r = String::new();
                r.append("cron io: ");
                r.append(s.as_str());
                r
            },
            CronError::Parse(s) => {
                let mut r = String::new();
                r.append("cron parse: ");
                r.append(s.as_str());
                r
            },
            CronError::Validation(s) => {
                let mut r = String::new();
                r.append("cron validation: ");
                r.append(s.as_str());
                r
            },
        }
    }
}

/// A parsed cron expression: the allowed values of each field, each list
/// sorted and duplicate-free.
#[derive(Clone, Debug)]
pub struct CronExpr {
    pub minutes: Vec<u8>,
    pub hours: Vec<u8>,
    pub doms: Vec<u8>,
    pub months: Vec<u8>,
    pub dows: Vec<u8>,
}

/// `str::parse::<u8>` on digits: the value of an all-digit string fitting
/// in eight bits.
pub open spec fn spec_u8_of(s: Seq<char>) -> Option<int> {
    if spec_all_digits(s) && spec_digits_val(s) <= 255 {
        Some(spec_digits_val(s))
    } else {
        None
    }
}

/// Whether one comma-separated part (already trimmed) is valid.
pub open spec fn spec_part_ok(t: Seq<char>, min: u8, max: u8) -> bool {
    if t.len() == 0 {
        true
    } else if t == seq!['*'] {
        true
    } else if spec_starts_with(t, seq!['*', '/']) {
        match spec_u8_of(t.subrange(2, t.len() as int)) {
            Some(n) => n >= 1,
            None => false,
        }
    } else if spec_find_char(t, '-') < t.len() {
        spec_range_ok(t, min, max)
    } else {
        match spec_u8_of(t) {
            Some(n) => min <= n <= max,
            None => false,
        }
    }
}

/// The pieces of a range part `A-B` or `A-B/S`: start, end, and step.
pub open spec fn spec_range_parts(t: Seq<char>) -> (Option<int>, Option<int>, int) {
    let i = spec_find_char(t, '-');
    let left = spec_trim(t.subrange(0, i));
    let right = spec_trim(t.subrange(i + 1, t.len() as int));
    let slash = spec_find_char(right, '/');
    let end_str = right.subrange(0, slash);
    let step = if slash < right.len() {
        let rest = right.subrange(slash + 1, right.len() as int);
        let j = spec_find_char(rest, '/');
        match spec_u8_of(rest.subrange(0, j)) {
            Some(n) => n,
            None => 1,
        }
    } else {
        1
    };
    (spec_u8_of(left), spec_u8_of(end_str), step)
}

pub open spec fn spec_range_ok(t: Seq<char>, min: u8, max: u8) -> bool {
    let (start, end, step) = spec_range_parts(t);
    &&& start is Some
    &&& end is Some
    &&& start->0 <= end->0
    &&& min <= start->0
    &&& end->0 <= max
    &&& step >= 1
}

/// Whether a valid part denotes the value `v`.
pub open spec fn spec_part_has(t: Seq<char>, min: u8, max: u8, v: u8) -> bool {
    if !spec_part_ok(t, min, max) {
        false
    } else if t.len() == 0 {
        false
    } else if t == seq!['*'] {
        min <= v <= max
    } else if spec_starts_with(t, seq!['*', '/']) {
        let n = spec_u8_of(t.subrange(2, t.len() as int))->0;
        min <= v <= max && (v - min) % n == 0
    } else if spec_find_char(t, '-') < t.len() {
        let (start, end, step) = spec_range_parts(t);
        start->0 <= v <= end->0 && (v - start->0) % step == 0
    } else {
        v == spec_u8_of(t)->0
    }
}

/// Whether every comma-separated part of the field is valid.
pub open spec fn spec_field_ok(s: Seq<char>, min: u8, max: u8) -> bool
    decreases s.len(),
{
    let i = spec_find_char(s, ',');
    if 0 <= i < s.len() {
        spec_part_ok(spec_trim(s.subrange(0, i)), min, max) && spec_field_ok(
            s.subrange(i + 1, s.len() as int),
            min,
            max,
        )
    } else {
        spec_part_ok(spec_trim(s), min, max)
    }
}

/// Whether some part of the field denotes the value `v`.
pub open spec fn spec_field_has(s: Seq<char>, min: u8, max: u8, v: u8) -> bool
    decreases s.len(),
{
    let i = spec_find_char(s, ',');
    if 0 <= i < s.len() {
        spec_part_has(spec_trim(s.subrange(0, i)), min, max, v) || spec_field_has(
            s.subrange(i + 1, s.len() as int),
            min,
            max,
            v,
        )
    } else {
        spec_part_has(spec_trim(s), min, max, v)
    }
}

/// A field list as the parser returns it: the sorted duplicate-free values
/// of the field, within bounds and non-empty.
pub open spec fn spec_field_list(out: Seq<u8>, s: Seq<char>, min: u8, max: u8) -> bool {
    &&& spec_field_ok(s, min, max)
    &&& out.len() > 0
    &&& forall|k: int| 0 <= k < out.len() ==> min <= #[trigger] out[k] <= max
    &&& forall|k1: int, k2: int| 0 <= k1 < k2 < out.len() ==> out[k1] < out[k2]
    &&& forall|v: u8| out.contains(v) <==> spec_field_has(s, min, max, v)
}

fn parse_u8(v: &Vec<char>) -> (r: Option<u8>)
    ensures
        match r {
            Some(n) => spec_u8_of(v@) == Some(n as int),
            None => spec_u8_of(v@) is None,
        },
{
    match parse_u64_chars(v) {
        Some(n) => if n <= 255 {
            Some(n as u8)
        } else {
            None
        },
        None => None,
    }
}

fn validation(msg: &str) -> (r: CronError)
    ensures
        r matches CronError::Validation(s) && s@ == msg@,
{
    CronError::Validation(msg.to_owned())
}

/// Mark every value `from + k*step` up to `to` in `marks`.
fn mark_step_range(marks: &mut Vec<bool>, from: u8, to: u8, step: u8)
    requires
        old(marks)@.len() == 256,
        step >= 1,
        from <= to,
    ensures
        final(marks)@.len() == 256,
        forall|w: u8|
            final(marks)@[w as int] <==> old(marks)@[w as int] || (from <= w <= to && (w - from)
                % (step as int) == 0),
{
    let mut v: u16 = from as u16;
    proof {
        assert((v - from) % (step as int) == 0) by (nonlinear_arith)
            requires
                v == from,
                step >= 1,
        ;
    }
    while v <= to as u16
        invariant
            marks@.len() == 256,
            from <= v,
            (v - from) % (step as int) == 0,
            step >= 1,
            v <= to + step,
            forall|w: u8|
                marks@[w as int] <==> old(marks)@[w as int] || (from <= w <= to && w < v && (w
                    - from) % (step as int) == 0),
        decreases to + step - v,
    {
        marks.set(v as usize, true);
        proof {
            assert forall|w: u8|
                marks@[w as int] <==> old(marks)@[w as int] || (from <= w <= to && w < v
                    + step as u16 && (w - from) % (step as int) == 0) by {
                if w as int != v as int && v < w < v + step {
                    assert((w - from) % (step as int) != 0) by (nonlinear_arith)
                        requires
                            (v - from) % (step as int) == 0,
                            v < w < v + step,
                            from <= v,
                            step >= 1,
                    ;
                }
            }
        }
        proof {
            assert(((v + step) - from) % (step as int) == 0) by (nonlinear_arith)
                requires
                    (v - from) % (step as int) == 0,
                    step >= 1,
                    from <= v,
            ;
        }
        v = v + step as u16;
    }
    proof {
        assert forall|w: u8|
            marks@[w as int] <==> old(marks)@[w as int] || (from <= w <= to && (w - from) % (
            step as int) == 0) by {}
    }
}

/// Process one comma-separated (untrimmed) part, marking the values it
/// denotes.
fn apply_part(marks: &mut Vec<bool>, part: &Vec<char>, min: u8, max: u8) -> (r: Result<
    (),
    String,
>)
    requires
        old(marks)@.len() == 256,
        min <= max,
    ensures
        final(marks)@.len() == 256,
        r is Ok <==> spec_part_ok(spec_trim(part@), min, max),
        r is Ok ==> forall|w: u8|
            final(marks)@[w as int] <==> old(marks)@[w as int] || spec_part_has(
                spec_trim(part@),
                min,
                max,
                w,
            ),
{
    let t = trim_chars(part);
    if t.len() == 0 {
        return Ok(());
    }
    let mut star: Vec<char> = Vec::new();
    star.push('*');
    proof {
        assert(star@ =~= seq!['*']);
    }
    if chars_eq(&t, &star) {
        mark_step_range(marks, min, max, 1);
        proof {
            assert forall|w: u8|
                marks@[w as int] <==> old(marks)@[w as int] || spec_part_has(
                    spec_trim(part@),
                    min,
                    max,
                    w,
                ) by {}
        }
        return Ok(());
    }
    let mut star_slash: Vec<char> = Vec::new();
    star_slash.push('*');
    star_slash.push('/');
    proof {
        assert(star_slash@ =~= seq!['*', '/']);
    }
    if starts_with_chars(&t, &star_slash) {
        let rest = sub_chars(&t, 2, t.len());
        let step = match parse_u8(&rest) {
            Some(n) => n,
            None => {
                return Err("invalid step".to_owned());
            },
        };
        if step == 0 {
            return Err("step must be positive".to_owned());
        }
        mark_step_range(marks, min, max, step);
        return Ok(());
    }
    let dash = find_char_from(&t, 0, '-');
    proof {
        crate::text::lemma_find_char_unique(t@, '-', dash as int);
    }
    if dash < t.len() {
        let left_raw = sub_chars(&t, 0, dash);
        let left = trim_chars(&left_raw);
        let right_raw = sub_chars(&t, dash + 1, t.len());
        let right = trim_chars(&right_raw);
        let slash = find_char_from(&right, 0, '/');
        proof {
            crate::text::lemma_find_char_unique(right@, '/', slash as int);
        }
        let end_str = sub_chars(&right, 0, slash);
        let start = match parse_u8(&left) {
            Some(n) => n,
            None => {
                return Err("invalid range start".to_owned());
            },
        };
        let end = match parse_u8(&end_str) {
            Some(n) => n,
            None => {
                return Err("invalid range end".to_owned());
            },
        };
        if start > end {
            return Err("range start > end".to_owned());
        }
        if start < min || end > max {
            return Err("range out of bounds".to_owned());
        }
        let step: u8 = if slash < right.len() {
            let rest = sub_chars(&right, slash + 1, right.len());
            let j = find_char_from(&rest, 0, '/');
            proof {
                crate::text::lemma_find_char_unique(rest@, '/', j as int);
            }
            let step_str = sub_chars(&rest, 0, j);
            match parse_u8(&step_str) {
                Some(n) => n,
                None => 1,
            }
        } else {
            1
        };
        if step == 0 {
            return Err("step must be positive".to_owned());
        }
        mark_step_range(marks, start, end, step);
        return Ok(());
    }
    let n = match parse_u8(&t) {
        Some(n) => n,
        None => {
            return Err("invalid number".to_owned());
        },
    };
    if n < min || n > max {
        return Err("value out of range".to_owned());
    }
    mark_step_range(marks, n, n, 1);
    Ok(())
}

/// Parse one cron field into the sorted duplicate-free list of its values.
#[verifier::rlimit(100)]
#[verifier::spinoff_prover]
pub fn parse_field(token: &Vec<char>, min: u8, max: u8) -> (r: Result<Vec<u8>, CronError>)
    requires
        min <= max,
    ensures
        match r {
            Ok(out) => spec_field_list(out@, token@, min, max),
            Err(e) => (e is Validation) && (!spec_field_ok(token@, min, max) || (forall|v: u8|
                !spec_field_has(token@, min, max, v))),
        },
{
    let mut marks: Vec<bool> = Vec::new();
    let mut z: usize = 0;
    while z < 256
        invariant
            marks@.len() == z <= 256,
            forall|k: int| 0 <= k < z ==> !marks@[k],
        decreases 256 - z,
    {
        marks.push(false);
        z = z + 1;
    }
    let s = token;
    let mut pos: usize = 0;
    let ghost whole = s@;
    proof {
        assert(s@.subrange(0, s@.len() as int) =~= s@);
    }
    loop
        invariant
            0 <= pos <= s@.len(),
            marks@.len() == 256,
            min <= max,
            pos > 0 ==> s@[pos - 1] == ',',
            spec_field_ok(whole, min, max) <==> spec_field_ok(
                s@.subrange(pos as int, s@.len() as int),
                min,
                max,
            ),
            forall|v: u8|
                spec_field_has(whole, min, max, v) <==> marks@[v as int] || spec_field_has(
                    s@.subrange(pos as int, s@.len() as int),
                    min,
                    max,
                    v,
                ),
            whole == s@,
            whole == token@,
        ensures
            marks@.len() == 256,
            spec_field_ok(whole, min, max),
            forall|v: u8| spec_field_has(whole, min, max, v) <==> marks@[v as int],
        decreases s@.len() - pos,
    {
        let ghost suffix = s@.subrange(pos as int, s@.len() as int);
        let comma = find_char_from(s, pos, ',');
        let part = sub_chars(s, pos, comma);
        proof {
            assert forall|k: int| 0 <= k < comma - pos implies suffix[k] != ',' by {
                assert(suffix[k] == s@[pos + k]);
            }
            if comma < s@.len() {
                assert(suffix[comma - pos] == s@[comma as int]);
            }
            crate::text::lemma_find_char_unique(suffix, ',', comma - pos);
            assert(part@ =~= suffix.subrange(0, comma - pos));
            if comma < s@.len() {
                assert(s@.subrange(comma + 1, s@.len() as int) =~= suffix.subrange(
                    comma - pos + 1,
                    suffix.len() as int,
                ));
            } else {
                assert(part@ =~= suffix);
            }
        }
        let ghost marks0 = marks@;
        proof {
            assert forall|v: u8|
                #![trigger marks0[v as int]]
                spec_field_has(whole, min, max, v) <==> marks0[v as int] || spec_field_has(
                    suffix,
                    min,
                    max,
                    v,
                ) by {}
        }
        match apply_part(&mut marks, &part, min, max) {
            Ok(()) => {},
            Err(msg) => {
                proof {
                    assert(!spec_field_ok(suffix, min, max));
                }
                return Err(CronError::Validation(msg));
            },
        }
        if comma < s.len() {
            pos = comma + 1;
            proof {
                assert forall|v: u8|
                    spec_field_has(whole, min, max, v) <==> marks@[v as int] || spec_field_has(
                        s@.subrange(pos as int, s@.len() as int),
                        min,
                        max,
                        v,
                    ) by {
                    assert(s@.subrange(pos as int, s@.len() as int) =~= s@.subrange(
                        comma + 1,
                        s@.len() as int,
                    ));
                    assert(spec_field_has(whole, min, max, v) <==> marks0[v as int]
                        || spec_field_has(suffix, min, max, v));
                    assert(marks@[v as int] <==> marks0[v as int] || spec_part_has(
                        spec_trim(part@),
                        min,
                        max,
                        v,
                    ));
                    assert(spec_field_has(suffix, min, max, v) == (spec_part_has(
                        spec_trim(part@),
                        min,
                        max,
                        v,
                    ) || spec_field_has(
                        s@.subrange(comma + 1, s@.len() as int),
                        min,
                        max,
                        v,
                    )));
                }
            }
        } else {
            proof {
                assert(spec_field_ok(suffix, min, max));
                assert forall|v: u8|
                    spec_field_has(whole, min, max, v) <==> marks@[v as int] || spec_field_has(
                        s@.subrange(pos as int, s@.len() as int),
                        min,
                        max,
                        v,
                    ) by {
                    assert(s@.subrange(pos as int, s@.len() as int) =~= suffix);
                    assert(spec_field_has(whole, min, max, v) <==> marks0[v as int]
                        || spec_field_has(suffix, min, max, v));
                    assert(marks@[v as int] <==> marks0[v as int] || spec_part_has(
                        spec_trim(part@),
                        min,
                        max,
                        v,
                    ));
                    assert(spec_field_has(suffix, min, max, v) == spec_part_has(
                        spec_trim(part@),
                        min,
                        max,
                        v,
                    ));
                }
                assert forall|v: u8|
                    spec_field_has(whole, min, max, v) <==> marks@[v as int] by {
                    assert(spec_field_has(suffix, min, max, v) == spec_part_has(
                        spec_trim(part@),
                        min,
                        max,
                        v,
                    ));
                }
            }
            break ;
        }
    }
    proof {
        assert forall|w: u8| w < min implies !marks@[w as int] by {
            if marks@[w as int] {
                lemma_field_has_in_bounds(whole, min, max, w);
            }
        }
    }
    let mut out: Vec<u8> = Vec::new();
    let mut v: u16 = min as u16;
    while v <= max as u16
        invariant
            marks@.len() == 256,
            min <= v <= max + 1,
            min <= max,
            forall|k: int| 0 <= k < out@.len() ==> min <= #[trigger] out@[k] <= max,
            forall|k1: int, k2: int| 0 <= k1 < k2 < out@.len() ==> out@[k1] < out@[k2],
            forall|k: int| 0 <= k < out@.len() ==> out@[k] < v,
            forall|w: u8| out@.contains(w) <==> (marks@[w as int] && w < v),
        decreases max + 1 - v,
    {
        if marks[v as usize] {
            let ghost before = out@;
            out.push(v as u8);
            proof {
                assert forall|w: u8| out@.contains(w) <==> (marks@[w as int] && w < v + 1) by {
                    if w == v as u8 {
                        assert(out@[out@.len() - 1] == w);
                    } else if before.contains(w) {
                        let k = choose|k: int| 0 <= k < before.len() && before[k] == w;
                        assert(out@[k] == w);
                    } else if out@.contains(w) {
                        let k = choose|k: int| 0 <= k < out@.len() && out@[k] == w;
                        assert(before[k] == w);
                    }
                }
            }
        } else {
            proof {
                assert forall|w: u8| out@.contains(w) <==> (marks@[w as int] && w < v + 1) by {
                    if w == v as u8 && marks@[w as int] {
                        assert(!out@.contains(w));
                    }
                }
            }
        }
        v = v + 1;
    }
    if out.len() == 0 {
        proof {
            assert forall|w: u8| !spec_field_has(whole, min, max, w) by {
                if marks@[w as int] {
                    lemma_field_has_in_bounds(whole, min, max, w);
                }
            }
        }
        return Err(validation("empty field"));
    }
    proof {
        assert forall|w: u8| out@.contains(w) <==> spec_field_has(whole, min, max, w) by {
            if marks@[w as int] {
                lemma_field_has_in_bounds(whole, min, max, w);
            }
            if spec_field_has(whole, min, max, w) {
                lemma_field_has_in_bounds(whole, min, max, w);
            }
        }
    }
    Ok(out)
}

/// A value a field denotes always lies within the field's bounds.
proof fn lemma_field_has_in_bounds(s: Seq<char>, min: u8, max: u8, v: u8)
    requires
        spec_field_has(s, min, max, v),
    ensures
        min <= v <= max,
    decreases s.len(),
{
    let i = spec_find_char(s, ',');
    if 0 <= i < s.len() {
        if !spec_part_has(spec_trim(s.subrange(0, i)), min, max, v) {
            lemma_field_has_in_bounds(s.subrange(i + 1, s.len() as int), min, max, v);
        } else {
            lemma_part_has_in_bounds(spec_trim(s.subrange(0, i)), min, max, v);
        }
    } else {
        lemma_part_has_in_bounds(spec_trim(s), min, max, v);
    }
}

proof fn lemma_part_has_in_bounds(t: Seq<char>, min: u8, max: u8, v: u8)
    requires
        spec_part_has(t, min, max, v),
    ensures
        min <= v <= max,
{
}

/// The whitespace-separated tokens of a string.
pub open spec fn spec_ws_tokens(s: Seq<char>) -> Seq<Seq<char>>
    decreases s.len(),
{
    if s.len() == 0 {
        Seq::<Seq<char>>::empty()
    } else if is_space_char(s[0]) {
        spec_ws_tokens(s.drop_first())
    } else {
        let j = spec_find_ws(s);
        if 1 <= j <= s.len() {
            seq![s.subrange(0, j)] + spec_ws_tokens(s.subrange(j, s.len() as int))
        } else {
            Seq::<Seq<char>>::empty()
        }
    }
}

/// Split into whitespace-separated tokens.
pub fn tokenize(v: &Vec<char>) -> (r: Vec<Vec<char>>)
    ensures
        r@.map_values(|t: Vec<char>| t@) == spec_ws_tokens(v@),
{
    let mut out: Vec<Vec<char>> = Vec::new();
    let mut pos: usize = 0;
    proof {
        assert(out@.map_values(|t: Vec<char>| t@) =~= Seq::<Seq<char>>::empty());
        assert(v@.subrange(0, v@.len() as int) =~= v@);
    }
    while pos < v.len()
        invariant
            0 <= pos <= v@.len(),
            spec_ws_tokens(v@) == out@.map_values(|t: Vec<char>| t@) + spec_ws_tokens(
                v@.subrange(pos as int, v@.len() as int),
            ),
        decreases v@.len() - pos,
    {
        let ghost suffix = v@.subrange(pos as int, v@.len() as int);
        if is_space(v[pos]) {
            proof {
                assert(suffix[0] == v@[pos as int]);
                assert(suffix.drop_first() =~= v@.subrange(pos + 1, v@.len() as int));
                assert(spec_ws_tokens(suffix) == spec_ws_tokens(
                    v@.subrange(pos + 1, v@.len() as int),
                ));
            }
            pos = pos + 1;
        } else {
            let j = find_ws_from(v, pos);
            let tok = sub_chars(v, pos, j);
            proof {
                assert(suffix[0] == v@[pos as int]);
                assert forall|k: int| 0 <= k < j - pos implies !is_space_char(suffix[k]) by {
                    assert(suffix[k] == v@[pos + k]);
                }
                if j < v@.len() {
                    assert(suffix[j - pos] == v@[j as int]);
                }
                lemma_find_ws_unique(suffix, j - pos);
                assert(tok@ =~= suffix.subrange(0, j - pos));
                assert(v@.subrange(j as int, v@.len() as int) =~= suffix.subrange(
                    j - pos,
                    suffix.len() as int,
                ));
                assert(spec_ws_tokens(suffix) == seq![tok@] + spec_ws_tokens(
                    v@.subrange(j as int, v@.len() as int),
                ));
            }
            let ghost before = out@.map_values(|t: Vec<char>| t@);
            out.push(tok);
            proof {
                assert(out@.map_values(|t: Vec<char>| t@) =~= before + seq![
                    v@.subrange(pos as int, j as int),
                ]);
                assert(spec_ws_tokens(v@) =~= out@.map_values(|t: Vec<char>| t@)
                    + spec_ws_tokens(v@.subrange(j as int, v@.len() as int)));
            }
            pos = j;
        }
    }
    proof {
        assert(spec_ws_tokens(v@.subrange(pos as int, v@.len() as int))
            =~= Seq::<Seq<char>>::empty());
        assert(spec_ws_tokens(v@) =~= out@.map_values(|t: Vec<char>| t@));
    }
    out
}

/// A field that parses and denotes at least one value.
pub open spec fn spec_field_valid(tok: Seq<char>, min: u8, max: u8) -> bool {
    spec_field_ok(tok, min, max) && exists|v: u8| spec_field_has(tok, min, max, v)
}

/// A well-formed five-field cron expression.
pub open spec fn spec_cron_ok(s: Seq<char>) -> bool {
    let toks = spec_ws_tokens(s);
    &&& toks.len() == 5
    &&& spec_field_valid(toks[0], 0, 59)
    &&& spec_field_valid(toks[1], 0, 23)
    &&& spec_field_valid(toks[2], 1, 31)
    &&& spec_field_valid(toks[3], 1, 12)
    &&& spec_field_valid(toks[4], 0, 6)
}

/// Parse a five-field cron expression: minute, hour, day of month, month,
/// day of week.  Accepts exactly the well-formed expressions.
pub fn parse_cron_expr(expr: &str) -> (r: Result<CronExpr, CronError>)
    ensures
        r is Ok <==> spec_cron_ok(expr@),
        r matches Err(e) ==> e is Validation,
        r matches Ok(e) ==> {
            let toks = spec_ws_tokens(expr@);
            &&& spec_field_list(e.minutes@, toks[0], 0, 59)
            &&& spec_field_list(e.hours@, toks[1], 0, 23)
            &&& spec_field_list(e.doms@, toks[2], 1, 31)
            &&& spec_field_list(e.months@, toks[3], 1, 12)
            &&& spec_field_list(e.dows@, toks[4], 0, 6)
        },
{
    let v = str_to_chars(expr);
    let toks = tokenize(&v);
    proof {
        assert(toks@.map_values(|t: Vec<char>| t@).len() == toks@.len());
    }
    if toks.len() != 5 {
        return Err(
            validation("cron expression must have exactly 5 fields (minute hour dom month dow)"),
        );
    }
    proof {
        assert forall|k: int| 0 <= k < 5 implies spec_ws_tokens(expr@)[k] == toks@[k]@ by {
            assert(toks@.map_values(|t: Vec<char>| t@)[k] == toks@[k]@);
        }
    }
    let minutes = match parse_field(&toks[0], 0, 59) {
        Ok(x) => x,
        Err(e) => {
            return Err(e);
        },
    };
    let hours = match parse_field(&toks[1], 0, 23) {
        Ok(x) => x,
        Err(e) => {
            return Err(e);
        },
    };
    let doms = match parse_field(&toks[2], 1, 31) {
        Ok(x) => x,
        Err(e) => {
            return Err(e);
        },
    };
    let months = match parse_field(&toks[3], 1, 12) {
        Ok(x) => x,
        Err(e) => {
            return Err(e);
        },
    };
    let dows = match parse_field(&toks[4], 0, 6) {
        Ok(x) => x,
        Err(e) => {
            return Err(e);
        },
    };
    proof {
        assert(minutes@.contains(minutes@[0]));
        assert(hours@.contains(hours@[0]));
        assert(doms@.contains(doms@[0]));
        assert(months@.contains(months@[0]));
        assert(dows@.contains(dows@[0]));
    }
    Ok(CronExpr { minutes, hours, doms, months, dows })
}

} // verus!
