//! The stored form of a schedule: a single tagged object, written and read
//! back without loss.
//!
//! Every schedule has exactly one stored text, so reading a stored text
//! back yields a schedule that stores to the same text again: the stored
//! form cannot drift.

use vstd::prelude::*;

use crate::cron_sched::Schedule;
use crate::stored::{lemma_digits_at, scan_digits};
use crate::text::{
    chars_to_string, find_char_from, lemma_digits_of_u64, parse_u64_chars, spec_u64_digits,
    starts_with_chars, str_to_chars, sub_chars, spec_starts_with,
};

verus! {

/// The observable content of a schedule: its kind and fields.  The kind is
/// zero for a fixed instant, one for an interval, two for an expression.
pub open spec fn spec_sched_view(s: Schedule) -> (int, u64, Seq<char>) {
    match s {
        Schedule::Once { at_unix } => (0, at_unix, Seq::<char>::empty()),
        Schedule::Interval { every_seconds } => (1, every_seconds, Seq::<char>::empty()),
        Schedule::Cron { expr } => (2, 0, expr@),
    }
}

/// The stored text of a schedule view.
pub open spec fn spec_format_view(sv: (int, u64, Seq<char>)) -> Seq<char> {
    if sv.0 == 0 {
        "{\"type\":\"once\",\"at_unix\":"@ + spec_u64_digits(sv.1) + "}"@
    } else if sv.0 == 1 {
        "{\"type\":\"interval\",\"every_seconds\":"@ + spec_u64_digits(sv.1) + "}"@
    } else {
        "{\"type\":\"cron\",\"expr\":\""@ + sv.2 + "\"}"@
    }
}

/// A storable view: an expression text free of quotes, which a five-field
/// cron expression always is.
pub open spec fn spec_storable(sv: (int, u64, Seq<char>)) -> bool {
    sv.0 != 0 && sv.0 != 1 ==> forall|k: int| 0 <= k < sv.2.len() ==> sv.2[k] != '"'
}

/// Write a schedule in its stored form.
pub fn format_schedule(s: &Schedule) -> (r: String)
    ensures
        r@ == spec_format_view(spec_sched_view(*s)),
{
    match s {
        Schedule::Once { at_unix } => {
            let mut buf = String::new();
            buf.append("{\"type\":\"once\",\"at_unix\":");
            let d = crate::text::u64_to_chars(*at_unix);
            let ds = chars_to_string(&d);
            buf.append(ds.as_str());
            buf.append("}");
            buf
        },
        Schedule::Interval { every_seconds } => {
            let mut buf = String::new();
            buf.append("{\"type\":\"interval\",\"every_seconds\":");
            let d = crate::text::u64_to_chars(*every_seconds);
            let ds = chars_to_string(&d);
            buf.append(ds.as_str());
            buf.append("}");
            buf
        },
        Schedule::Cron { expr } => {
            let mut buf = String::new();
            buf.append("{\"type\":\"cron\",\"expr\":\"");
            buf.append(expr.as_str());
            buf.append("\"}");
            buf
        },
    }
}

/// Parse a number-carrying stored form: the known prefix, digits, `}`.
fn parse_numbered(v: &Vec<char>, prefix: &str, expect: Ghost<Option<u64>>) -> (r: Option<u64>)
    requires
        expect@ matches Some(n) ==> v@ == prefix@ + spec_u64_digits(n) + "}"@,
    ensures
        expect@ matches Some(n) ==> r == Some(n),
        r matches Some(n2) ==> v@ == prefix@ + spec_u64_digits(n2) + "}"@,
{
    let p = str_to_chars(prefix);
    if !starts_with_chars(v, &p) {
        proof {
            if expect@ is Some {
                let n = expect@->0;
                assert(v@.subrange(0, p@.len() as int) =~= p@);
            }
        }
        return None;
    }
    let start = p.len();
    let e = scan_digits(v, start);
    proof {
        if expect@ is Some {
            let n = expect@->0;
            let d = spec_u64_digits(n);
            lemma_digits_of_u64(n);
            reveal_strlit("}");
            assert forall|k: int| 0 <= k < d.len() implies v@[start + k] == d[k] by {
                assert(v@[start + k] == (prefix@ + d + "}"@)[start + k]);
            }
            assert(v@[start + d.len()] == (prefix@ + d + "}"@)[start + d.len()]);
            assert(v@[start + d.len()] == '}');
            assert(!crate::text::spec_is_digit('}'));
            assert(v@.subrange(start as int, v@.len() as int).subrange(0, d.len() as int) =~= d);
            lemma_digits_at(v@, start as int, n, e as int);
        }
    }
    if e >= v.len() || e == start {
        return None;
    }
    if v[e] != '}' || e + 1 != v.len() {
        return None;
    }
    if e > start + 1 && crate::text::digit_val(v[start]) == 0 {
        proof {
            if expect@ is Some {
                let n = expect@->0;
                crate::text::lemma_digits_no_leading_zero(n);
            }
        }
        return None;
    }
    let seg = sub_chars(v, start, e);
    let n2 = match parse_u64_chars(&seg) {
        Some(x) => x,
        None => {
            return None;
        },
    };
    proof {
        crate::text::lemma_canonical_digits(seg@, n2);
        reveal_strlit("}");
        assert(v@ =~= v@.subrange(0, start as int) + v@.subrange(start as int, e as int)
            + v@.subrange(e as int, v@.len() as int));
        assert(v@.subrange(e as int, v@.len() as int) =~= "}"@);
        assert(v@ =~= p@ + spec_u64_digits(n2) + "}"@);
    }
    Some(n2)
}

/// Read a stored schedule back.  A text some storable schedule writes
/// always reads back, and what it reads back stores to the same text.
pub fn parse_schedule(txt: &str) -> (r: Option<Schedule>)
    ensures
        (exists|sv: (int, u64, Seq<char>)|
            spec_storable(sv) && txt@ == spec_format_view(sv)) ==> r is Some,
        r matches Some(s2) ==> txt@ == spec_format_view(spec_sched_view(s2)),
{
    let ghost witness: Option<(int, u64, Seq<char>)> = if exists|sv: (int, u64, Seq<char>)|
        spec_storable(sv) && txt@ == spec_format_view(sv) {
        Some(
            choose|sv: (int, u64, Seq<char>)| spec_storable(sv) && txt@ == spec_format_view(sv),
        )
    } else {
        None
    };
    let v = str_to_chars(txt);
    if let Some(n) = parse_numbered(
        &v,
        "{\"type\":\"once\",\"at_unix\":",
        Ghost(
            match witness {
                Some(sv) => if sv.0 == 0 {
                    Some(sv.1)
                } else {
                    None
                },
                None => None,
            },
        ),
    ) {
        return Some(Schedule::Once { at_unix: n });
    }
    if let Some(n) = parse_numbered(
        &v,
        "{\"type\":\"interval\",\"every_seconds\":",
        Ghost(
            match witness {
                Some(sv) => if sv.0 == 1 {
                    Some(sv.1)
                } else {
                    None
                },
                None => None,
            },
        ),
    ) {
        return Some(Schedule::Interval { every_seconds: n });
    }
    let p = str_to_chars("{\"type\":\"cron\",\"expr\":\"");
    proof {
        if witness is Some {
            reveal_strlit("{\"type\":\"once\",\"at_unix\":");
            reveal_strlit("{\"type\":\"interval\",\"every_seconds\":");
            reveal_strlit("{\"type\":\"cron\",\"expr\":\"");
        }
    }
    if !starts_with_chars(&v, &p) {
        proof {
            if witness is Some {
                let sv = witness->0;
                if sv.0 != 0 && sv.0 != 1 {
                    lemma_kind_prefixes(v@, sv);
                }
            }
        }
        return None;
    }
    let start = p.len();
    let q = find_char_from(&v, start, '"');
    proof {
        if witness is Some {
            let sv = witness->0;
            if sv.0 != 0 && sv.0 != 1 {
                lemma_cron_shape(v@, sv, start as int, q as int);
            }
        }
    }
    if q >= v.len() {
        return None;
    }
    if v.len() - q != 2 {
        return None;
    }
    if v[q + 1] != '}' {
        return None;
    }
    let expr_chars = sub_chars(&v, start, q);
    let expr = chars_to_string(&expr_chars);
    let s2 = Schedule::Cron { expr };
    proof {
        reveal_strlit("\"}");
        assert(v@ =~= v@.subrange(0, start as int) + v@.subrange(start as int, q as int)
            + v@.subrange(q as int, v@.len() as int));
        assert(v@.subrange(q as int, v@.len() as int) =~= "\"}"@);
        assert(v@ =~= p@ + expr_chars@ + "\"}"@);
    }
    Some(s2)
}

/// If the text starts with the cron prefix the witness cannot be of the
/// numbered kinds, whose prefixes differ within the first eleven
/// characters.
proof fn lemma_kind_prefixes(v: Seq<char>, sv: (int, u64, Seq<char>))
    requires
        spec_storable(sv),
        v == spec_format_view(sv),
        sv.0 != 0 && sv.0 != 1,
    ensures
        spec_starts_with(v, "{\"type\":\"cron\",\"expr\":\""@),
{
    reveal_strlit("{\"type\":\"cron\",\"expr\":\"");
    let p = "{\"type\":\"cron\",\"expr\":\""@;
    assert forall|k: int| 0 <= k < p.len() implies v[k] == p[k] by {
        assert(v[k] == (p + sv.2 + "\"}"@)[k]);
    }
    assert(v.subrange(0, p.len() as int) =~= p);
}

/// Where the expression and its terminator sit in a stored cron schedule.
proof fn lemma_cron_shape(v: Seq<char>, sv: (int, u64, Seq<char>), start: int, q: int)
    requires
        spec_storable(sv),
        v == spec_format_view(sv),
        sv.0 != 0 && sv.0 != 1,
        start == "{\"type\":\"cron\",\"expr\":\""@.len(),
        start <= q <= v.len(),
        forall|k: int| start <= k < q ==> v[k] != '"',
        q < v.len() ==> v[q] == '"',
    ensures
        q == start + sv.2.len(),
        q + 2 == v.len(),
        v[q + 1] == '}',
        v.subrange(start, q) == sv.2,
{
    reveal_strlit("{\"type\":\"cron\",\"expr\":\"");
    reveal_strlit("\"}");
    let p = "{\"type\":\"cron\",\"expr\":\""@;
    assert forall|k: int| 0 <= k < sv.2.len() implies v[start + k] == sv.2[k] by {
        assert(v[start + k] == (p + sv.2 + "\"}"@)[start + k]);
    }
    assert(v[start + sv.2.len()] == (p + sv.2 + "\"}"@)[start + sv.2.len()]);
    assert(v[start + sv.2.len()] == '"');
    assert(v[start + sv.2.len() + 1] == (p + sv.2 + "\"}"@)[start + sv.2.len() + 1]);
    if q < start + sv.2.len() {
        assert(v[q] == sv.2[q - start]);
        assert(false);
    }
    if q > start + sv.2.len() {
        assert(v[start + sv.2.len()] != '"');
        assert(false);
    }
    assert(v.subrange(start, q) =~= sv.2);
}

} // verus!
