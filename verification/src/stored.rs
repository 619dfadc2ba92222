//! Flat storage form of a chat message, and the lossless encoding of
//! tool-call lists into the single text column that holds them.
//!
//! The encoding is length-prefixed: the number of calls, then for each call
//! the character counts of its four fields followed by the field texts
//! themselves.  Lengths delimit everything, so no escaping is needed and
//! every list has exactly one encoding.
//!
//! This is the only format the `tool_calls` column is read and written in:
//! a database whose rows hold tool calls in some other form must be
//! migrated (or started afresh) before this store reads them.

use vstd::prelude::*;

use crate::messages::{Message, Role, ToolCall, ToolCallFunction};
use crate::text::{
    chars_to_string, lemma_digits_of_u64, parse_u64_chars, spec_is_digit, spec_u64_digits,
    str_to_chars, sub_chars, u64_to_chars,
};

verus! {

/// A chat message as stored: role and content text, plus the two optional
/// tool columns.
#[derive(Debug)]
pub struct StoredMessage {
    pub role: String,
    pub content: String,
    pub tool_call_id: Option<String>,
    pub tool_calls: Option<String>,
}

/// The observable content of a stored row.
pub open spec fn spec_stored_view(m: StoredMessage) -> (
    Seq<char>,
    Seq<char>,
    Option<Seq<char>>,
    Option<Seq<char>>,
) {
    (
        m.role@,
        m.content@,
        match m.tool_call_id {
            Some(s) => Some(s@),
            None => None,
        },
        match m.tool_calls {
            Some(s) => Some(s@),
            None => None,
        },
    )
}

/// The observable content of one tool call.
pub open spec fn spec_call_view(c: ToolCall) -> (Seq<char>, Seq<char>, Seq<char>, Seq<char>) {
    (c.id@, c.type_@, c.function.name@, c.function.arguments@)
}

/// The encoding of one call: the four field lengths, then the field texts.
pub open spec fn spec_enc_call(c: (Seq<char>, Seq<char>, Seq<char>, Seq<char>)) -> Seq<char> {
    spec_u64_digits(c.0.len() as u64) + seq![':'] + spec_u64_digits(c.1.len() as u64) + seq![':']
        + spec_u64_digits(c.2.len() as u64) + seq![':'] + spec_u64_digits(c.3.len() as u64)
        + seq![':'] + c.0 + c.1 + c.2 + c.3
}

pub open spec fn spec_enc_list(cs: Seq<(Seq<char>, Seq<char>, Seq<char>, Seq<char>)>) -> Seq<char>
    decreases cs.len(),
{
    if cs.len() == 0 {
        Seq::<char>::empty()
    } else {
        spec_enc_call(cs[0]) + spec_enc_list(cs.drop_first())
    }
}

/// The encoding of a whole list: the count, then the calls.
pub open spec fn spec_encode_calls(cs: Seq<(Seq<char>, Seq<char>, Seq<char>, Seq<char>)>) -> Seq<
    char,
> {
    spec_u64_digits(cs.len() as u64) + seq![';'] + spec_enc_list(cs)
}

/// `txt` is the encoding of the call list `cs`.
pub open spec fn spec_encodes(
    txt: Seq<char>,
    cs: Seq<(Seq<char>, Seq<char>, Seq<char>, Seq<char>)>,
) -> bool {
    cs.len() <= u64::MAX && txt == spec_encode_calls(cs)
}

proof fn lemma_enc_list_snoc(
    cs: Seq<(Seq<char>, Seq<char>, Seq<char>, Seq<char>)>,
    x: (Seq<char>, Seq<char>, Seq<char>, Seq<char>),
)
    ensures
        spec_enc_list(cs.push(x)) == spec_enc_list(cs) + spec_enc_call(x),
    decreases cs.len(),
{
    if cs.len() == 0 {
        assert(cs.push(x)[0] == x);
        assert(cs.push(x).drop_first() =~= cs);
        assert(spec_enc_list(cs.push(x)) =~= spec_enc_list(cs) + spec_enc_call(x));
    } else {
        lemma_enc_list_snoc(cs.drop_first(), x);
        assert(cs.push(x).drop_first() =~= cs.drop_first().push(x));
        assert(cs.push(x)[0] == cs[0]);
        assert(spec_enc_list(cs.push(x)) =~= spec_enc_list(cs) + spec_enc_call(x));
    }
}

proof fn lemma_enc_list_split(cs: Seq<(Seq<char>, Seq<char>, Seq<char>, Seq<char>)>, k: int)
    requires
        0 <= k < cs.len(),
    ensures
        spec_enc_list(cs.subrange(k, cs.len() as int)) == spec_enc_call(cs[k]) + spec_enc_list(
            cs.subrange(k + 1, cs.len() as int),
        ),
{
    let tail = cs.subrange(k, cs.len() as int);
    assert(tail[0] == cs[k]);
    assert(tail.drop_first() =~= cs.subrange(k + 1, cs.len() as int));
}

fn push_digits(out: &mut Vec<char>, n: u64)
    ensures
        final(out)@ == old(out)@ + spec_u64_digits(n),
{
    let d = u64_to_chars(n);
    crate::text::push_all(out, &d);
}

fn push_str_chars(out: &mut Vec<char>, s: &str)
    ensures
        final(out)@ == old(out)@ + s@,
{
    let d = str_to_chars(s);
    crate::text::push_all(out, &d);
}

/// Number of characters in a string.
fn char_len(s: &str) -> (r: u64)
    ensures
        r == s@.len(),
{
    let v = str_to_chars(s);
    v.len() as u64
}

fn push_call(out: &mut Vec<char>, c: &ToolCall)
    ensures
        final(out)@ == old(out)@ + spec_enc_call(spec_call_view(*c)),
{
    push_digits(out, char_len(c.id.as_str()));
    out.push(':');
    push_digits(out, char_len(c.type_.as_str()));
    out.push(':');
    push_digits(out, char_len(c.function.name.as_str()));
    out.push(':');
    push_digits(out, char_len(c.function.arguments.as_str()));
    out.push(':');
    push_str_chars(out, c.id.as_str());
    push_str_chars(out, c.type_.as_str());
    push_str_chars(out, c.function.name.as_str());
    push_str_chars(out, c.function.arguments.as_str());
    proof {
        assert(final(out)@ =~= old(out)@ + spec_enc_call(spec_call_view(*c)));
    }
}

/// Encode a tool-call list for storage.
pub fn encode_tool_calls(calls: &Vec<ToolCall>) -> (r: String)
    ensures
        r@ == spec_encode_calls(calls@.map_values(|c: ToolCall| spec_call_view(c))),
{
    let ghost views = calls@.map_values(|c: ToolCall| spec_call_view(c));
    let mut out: Vec<char> = Vec::new();
    push_digits(&mut out, calls.len() as u64);
    out.push(';');
    let ghost head = out@;
    proof {
        assert(out@ =~= spec_u64_digits(views.len() as u64) + seq![';'] + spec_enc_list(
            views.subrange(0, 0),
        ));
    }
    let mut k: usize = 0;
    while k < calls.len()
        invariant
            0 <= k <= calls@.len(),
            views == calls@.map_values(|c: ToolCall| spec_call_view(c)),
            out@ == spec_u64_digits(views.len() as u64) + seq![';'] + spec_enc_list(
                views.subrange(0, k as int),
            ),
        decreases calls@.len() - k,
    {
        push_call(&mut out, &calls[k]);
        proof {
            lemma_enc_list_snoc(views.subrange(0, k as int), views[k as int]);
            assert(views.subrange(0, k + 1 as int) =~= views.subrange(0, k as int).push(
                views[k as int],
            ));
            assert(out@ =~= spec_u64_digits(views.len() as u64) + seq![';'] + spec_enc_list(
                views.subrange(0, k + 1 as int),
            ));
        }
        k = k + 1;
    }
    proof {
        assert(views.subrange(0, views.len() as int) =~= views);
    }
    chars_to_string(&out)
}

/// First index at or after `from` holding a non-digit, or `v.len()`.
pub(crate) fn scan_digits(v: &Vec<char>, from: usize) -> (r: usize)
    requires
        from <= v@.len(),
    ensures
        from <= r <= v@.len(),
        forall|k: int| from <= k < r ==> spec_is_digit(v@[k]),
        r < v@.len() ==> !spec_is_digit(v@[r as int]),
{
    let mut i: usize = from;
    while i < v.len()
        invariant
            from <= i <= v@.len(),
            forall|k: int| from <= k < i ==> spec_is_digit(v@[k]),
        decreases v@.len() - i,
    {
        if crate::text::digit_val(v[i]) >= 10 {
            return i;
        }
        i = i + 1;
    }
    i
}

/// The digits of `n` sit at `pos` in `v`, followed by a non-digit: then the
/// digit scan stops exactly past them, and they read back as `n`.
pub(crate) proof fn lemma_digits_at(v: Seq<char>, pos: int, n: u64, scan: int)
    requires
        0 <= pos,
        pos + spec_u64_digits(n).len() < v.len(),
        v.subrange(pos, v.len() as int).subrange(
            0,
            spec_u64_digits(n).len() as int,
        ) == spec_u64_digits(n),
        !spec_is_digit(v[pos + spec_u64_digits(n).len()]),
        pos <= scan <= v.len(),
        forall|k: int| pos <= k < scan ==> spec_is_digit(v[k]),
        scan < v.len() ==> !spec_is_digit(v[scan]),
    ensures
        scan == pos + spec_u64_digits(n).len(),
        crate::text::spec_digits_val(v.subrange(pos, scan)) == n,
        crate::text::spec_all_digits(v.subrange(pos, scan)),
{
    lemma_digits_of_u64(n);
    let d = spec_u64_digits(n);
    assert forall|k: int| 0 <= k < d.len() implies v[pos + k] == d[k] by {
        assert(v.subrange(pos, v.len() as int).subrange(0, d.len() as int)[k] == v[pos + k]);
    }
    if scan < pos + d.len() {
        assert(spec_is_digit(d[scan - pos]));
        assert(false);
    }
    if scan > pos + d.len() {
        assert(spec_is_digit(v[pos + d.len()]));
        assert(false);
    }
    assert(v.subrange(pos, scan) =~= d);
}

/// The count digits and their terminator sit at the start of an encoding.
proof fn lemma_count_at(v: Seq<char>, cs: Seq<(Seq<char>, Seq<char>, Seq<char>, Seq<char>)>)
    requires
        spec_encodes(v, cs),
    ensures
        ({
            let d = spec_u64_digits(cs.len() as u64);
            &&& d.len() < v.len()
            &&& v.subrange(0, v.len() as int).subrange(0, d.len() as int) == d
            &&& v[d.len() as int] == ';'
        }),
{
    let d = spec_u64_digits(cs.len() as u64);
    assert forall|k: int| 0 <= k < d.len() implies v[k] == d[k] by {
        assert(v[k] == (d + seq![';'] + spec_enc_list(cs))[k]);
    }
    assert(v[d.len() as int] == (d + seq![';'] + spec_enc_list(cs))[d.len() as int]);
    assert(v.subrange(0, v.len() as int).subrange(0, d.len() as int) =~= d);
}

/// Decode a stored tool-call list.
///
/// The ghost witness carries the list the text is known to encode, when the
/// caller knows one; decoding is then guaranteed to succeed and to return
/// exactly that list.
pub(crate) fn parse_tool_calls(txt: &str, expect: Ghost<
    Option<Seq<(Seq<char>, Seq<char>, Seq<char>, Seq<char>)>>,
>) -> (r: Option<Vec<ToolCall>>)
    requires
        expect@ matches Some(cs) ==> spec_encodes(txt@, cs),
    ensures
        expect@ matches Some(cs) ==> r matches Some(out) && out@.map_values(
            |c: ToolCall| spec_call_view(c),
        ) == cs,
{
    let v = str_to_chars(txt);
    let ghost exp = expect@;
    let e1 = scan_digits(&v, 0);
    if e1 >= v.len() || v[e1] != ';' {
        proof {
            if exp is Some {
                let cs = exp->0;
                lemma_digits_of_u64(cs.len() as u64);
                lemma_count_at(v@, cs);
                lemma_digits_at(v@, 0, cs.len() as u64, e1 as int);
            }
        }
        return None;
    }
    let seg = sub_chars(&v, 0, e1);
    let n = match parse_u64_chars(&seg) {
        Some(n) => n,
        None => {
            proof {
                if exp is Some {
                    let cs = exp->0;
                    lemma_digits_of_u64(cs.len() as u64);
                    lemma_count_at(v@, cs);
                    lemma_digits_at(v@, 0, cs.len() as u64, e1 as int);
                }
            }
            return None;
        },
    };
    proof {
        if exp is Some {
            let cs = exp->0;
            lemma_digits_of_u64(cs.len() as u64);
            lemma_count_at(v@, cs);
            lemma_digits_at(v@, 0, cs.len() as u64, e1 as int);
            assert(n == cs.len());
        }
    }
    let mut out: Vec<ToolCall> = Vec::new();
    let mut pos: usize = e1 + 1;
    let mut k: u64 = 0;
    proof {
        if exp is Some {
            let cs = exp->0;
            assert(pos == spec_u64_digits(cs.len() as u64).len() + 1 + spec_enc_list(
                cs.subrange(0, 0),
            ).len());
            assert(out@.map_values(|c: ToolCall| spec_call_view(c)) =~= cs.subrange(0, 0));
        }
    }
    while k < n
        invariant
            exp == expect@,
            exp matches Some(cs) ==> {
                &&& v@ == spec_encode_calls(cs)
                &&& n == cs.len()
                &&& k <= n
                &&& pos == spec_u64_digits(cs.len() as u64).len() + 1 + spec_enc_list(
                    cs.subrange(0, k as int),
                ).len()
                &&& out@.map_values(|c: ToolCall| spec_call_view(c)) == cs.subrange(0, k as int)
            },
            pos <= v@.len(),
        decreases n - k,
    {
        let ghost pre_views = out@.map_values(|c: ToolCall| spec_call_view(c));
        proof {
            if exp is Some {
                let cs = exp->0;
                lemma_enc_list_split(cs, k as int);
                lemma_encode_prefix(v@, cs, k as int, pos as int);
                assert(v@.subrange(pos as int, v@.len() as int).subrange(
                    0,
                    spec_enc_call(cs[k as int]).len() as int,
                ) =~= spec_enc_call(cs[k as int]));
            }
        }
        let ghost sub_expect: Option<(Seq<char>, Seq<char>, Seq<char>, Seq<char>)> = match exp {
            Some(cs) => Some(cs[k as int]),
            None => None,
        };
        let (call, new_pos) = match parse_one_call(&v, pos, Ghost(sub_expect)) {
            Some(x) => x,
            None => {
                proof {
                    if exp is Some {
                        assert(sub_expect is Some);
                        assert(false);
                    }
                }
                return None;
            },
        };
        out.push(call);
        proof {
            if exp is Some {
                let cs = exp->0;
                assert(out@.map_values(|c: ToolCall| spec_call_view(c)) =~= pre_views.push(
                    spec_call_view(call),
                ));
                assert(cs.subrange(0, k + 1 as int) =~= cs.subrange(0, k as int).push(
                    cs[k as int],
                ));
                lemma_enc_list_snoc(cs.subrange(0, k as int), cs[k as int]);
            }
        }
        pos = new_pos;
        k = k + 1;
    }
    if pos != v.len() {
        proof {
            if exp is Some {
                let cs = exp->0;
                assert(cs.subrange(0, n as int) =~= cs);
            }
        }
        return None;
    }
    proof {
        if exp is Some {
            let cs = exp->0;
            assert(cs.subrange(0, n as int) =~= cs);
        }
    }
    Some(out)
}

/// The encoding of the remaining calls sits at `pos`.
proof fn lemma_encode_prefix(
    v: Seq<char>,
    cs: Seq<(Seq<char>, Seq<char>, Seq<char>, Seq<char>)>,
    k: int,
    pos: int,
)
    requires
        v == spec_encode_calls(cs),
        0 <= k < cs.len(),
        pos == spec_u64_digits(cs.len() as u64).len() + 1 + spec_enc_list(
            cs.subrange(0, k),
        ).len(),
    ensures
        pos + spec_enc_call(cs[k]).len() + spec_enc_list(
            cs.subrange(k + 1, cs.len() as int),
        ).len() == v.len(),
        v.subrange(pos, v.len() as int) == spec_enc_call(cs[k]) + spec_enc_list(
            cs.subrange(k + 1, cs.len() as int),
        ),
{
    lemma_enc_list_concat(cs, k);
    lemma_enc_list_split(cs, k);
    assert(v.subrange(pos, v.len() as int) =~= spec_enc_call(cs[k]) + spec_enc_list(
        cs.subrange(k + 1, cs.len() as int),
    ));
}

/// The whole list's encoding is the prefix encodings laid end to end.
proof fn lemma_enc_list_concat(cs: Seq<(Seq<char>, Seq<char>, Seq<char>, Seq<char>)>, k: int)
    requires
        0 <= k <= cs.len(),
    ensures
        spec_enc_list(cs) == spec_enc_list(cs.subrange(0, k)) + spec_enc_list(
            cs.subrange(k, cs.len() as int),
        ),
    decreases k,
{
    if k == 0 {
        assert(cs.subrange(0, 0) =~= Seq::<(Seq<char>, Seq<char>, Seq<char>, Seq<char>)>::empty());
        assert(cs.subrange(0, cs.len() as int) =~= cs);
        assert(spec_enc_list(cs) =~= spec_enc_list(cs.subrange(0, 0)) + spec_enc_list(
            cs.subrange(0, cs.len() as int),
        ));
    } else {
        lemma_enc_list_concat(cs, k - 1);
        lemma_enc_list_split(cs, k - 1);
        lemma_enc_list_snoc(cs.subrange(0, k - 1), cs[k - 1]);
        assert(cs.subrange(0, k) =~= cs.subrange(0, k - 1).push(cs[k - 1]));
        assert(spec_enc_list(cs) =~= spec_enc_list(cs.subrange(0, k)) + spec_enc_list(
            cs.subrange(k, cs.len() as int),
        ));
    }
}

/// Parse one length-prefixed field of a call.
fn parse_len_field(v: &Vec<char>, pos: usize, expect: Ghost<Option<u64>>) -> (r: Option<
    (u64, usize),
>)
    requires
        pos <= v@.len(),
        expect@ matches Some(n) ==> {
            &&& pos + spec_u64_digits(n).len() < v@.len()
            &&& v@.subrange(pos as int, v@.len() as int).subrange(
                0,
                spec_u64_digits(n).len() as int,
            ) == spec_u64_digits(n)
            &&& v@[pos + spec_u64_digits(n).len()] == ':'
        },
    ensures
        r matches Some((n2, p2)) ==> pos < p2 <= v@.len(),
        expect@ matches Some(n) ==> r matches Some((n2, p2)) && n2 == n && p2 == pos
            + spec_u64_digits(n).len() + 1,
{
    let e = scan_digits(v, pos);
    if e >= v.len() || v[e] != ':' {
        proof {
            if expect@ is Some {
                let n = expect@->0;
                lemma_digits_of_u64(n);
                lemma_digits_at(v@, pos as int, n, e as int);
            }
        }
        return None;
    }
    if e == pos {
        proof {
            if expect@ is Some {
                let n = expect@->0;
                lemma_digits_of_u64(n);
                lemma_digits_at(v@, pos as int, n, e as int);
            }
        }
        return None;
    }
    let seg = sub_chars(v, pos, e);
    match parse_u64_chars(&seg) {
        Some(x) => {
            proof {
                if expect@ is Some {
                    let n = expect@->0;
                    lemma_digits_of_u64(n);
                    lemma_digits_at(v@, pos as int, n, e as int);
                }
            }
            Some((x, e + 1))
        },
        None => {
            proof {
                if expect@ is Some {
                    let n = expect@->0;
                    lemma_digits_of_u64(n);
                    lemma_digits_at(v@, pos as int, n, e as int);
                }
            }
            None
        },
    }
}

/// Parse one call at `pos`: four length fields, then the four field texts.
fn parse_one_call(v: &Vec<char>, pos: usize, expect: Ghost<
    Option<(Seq<char>, Seq<char>, Seq<char>, Seq<char>)>,
>) -> (r: Option<(ToolCall, usize)>)
    requires
        pos <= v@.len(),
        expect@ matches Some(c) ==> {
            &&& pos + spec_enc_call(c).len() <= v@.len()
            &&& v@.subrange(pos as int, v@.len() as int).subrange(
                0,
                spec_enc_call(c).len() as int,
            ) == spec_enc_call(c)
        },
    ensures
        r matches Some((call, p2)) ==> pos < p2 <= v@.len(),
        expect@ matches Some(c) ==> r matches Some((call, p2)) && spec_call_view(call) == c && p2
            == pos + spec_enc_call(c).len(),
{
    let ghost exp = expect@;
    proof {
        if exp is Some {
            lemma_enc_call_shape(v@, pos as int, exp->0);
        }
    }
    let (l1, p1) = match parse_len_field(
        v,
        pos,
        Ghost(
            match exp {
                Some(c) => Some(c.0.len() as u64),
                None => None,
            },
        ),
    ) {
        Some(x) => x,
        None => {
            return None;
        },
    };
    let (l2, p2) = match parse_len_field(
        v,
        p1,
        Ghost(
            match exp {
                Some(c) => Some(c.1.len() as u64),
                None => None,
            },
        ),
    ) {
        Some(x) => x,
        None => {
            return None;
        },
    };
    let (l3, p3) = match parse_len_field(
        v,
        p2,
        Ghost(
            match exp {
                Some(c) => Some(c.2.len() as u64),
                None => None,
            },
        ),
    ) {
        Some(x) => x,
        None => {
            return None;
        },
    };
    let (l4, p4) = match parse_len_field(
        v,
        p3,
        Ghost(
            match exp {
                Some(c) => Some(c.3.len() as u64),
                None => None,
            },
        ),
    ) {
        Some(x) => x,
        None => {
            return None;
        },
    };
    let rem = (v.len() - p4) as u64;
    if l1 > rem || l2 > rem - l1 || l3 > rem - l1 - l2 || l4 > rem - l1 - l2 - l3 {
        proof {
            if exp is Some {
                lemma_enc_call_shape(v@, pos as int, exp->0);
            }
        }
        return None;
    }
    let q1 = p4 + l1 as usize;
    let q2 = q1 + l2 as usize;
    let q3 = q2 + l3 as usize;
    let q4 = q3 + l4 as usize;
    let id = sub_chars(v, p4, q1);
    let ty = sub_chars(v, q1, q2);
    let name = sub_chars(v, q2, q3);
    let args = sub_chars(v, q3, q4);
    let call = ToolCall {
        id: chars_to_string(&id),
        type_: chars_to_string(&ty),
        function: ToolCallFunction {
            name: chars_to_string(&name),
            arguments: chars_to_string(&args),
        },
    };
    proof {
        if exp is Some {
            let c = exp->0;
            lemma_enc_call_shape(v@, pos as int, c);
            assert(id@ =~= c.0);
            assert(ty@ =~= c.1);
            assert(name@ =~= c.2);
            assert(args@ =~= c.3);
        }
    }
    Some((call, q4))
}

/// Where each piece of one call's encoding sits, relative to `pos`.
#[verifier::rlimit(100)]
proof fn lemma_enc_call_shape(
    v: Seq<char>,
    pos: int,
    c: (Seq<char>, Seq<char>, Seq<char>, Seq<char>),
)
    requires
        0 <= pos,
        pos + spec_enc_call(c).len() <= v.len(),
        v.subrange(pos, v.len() as int).subrange(0, spec_enc_call(c).len() as int) == spec_enc_call(
            c,
        ),
    ensures
        ({
            let d1 = spec_u64_digits(c.0.len() as u64);
            let d2 = spec_u64_digits(c.1.len() as u64);
            let d3 = spec_u64_digits(c.2.len() as u64);
            let d4 = spec_u64_digits(c.3.len() as u64);
            let h1 = pos + d1.len() + 1;
            let h2 = h1 + d2.len() + 1;
            let h3 = h2 + d3.len() + 1;
            let h4 = h3 + d4.len() + 1;
            &&& pos + d1.len() < v.len() && v.subrange(pos, v.len() as int).subrange(
                0,
                d1.len() as int,
            ) == d1 && v[pos + d1.len()] == ':'
            &&& h1 + d2.len() < v.len() && v.subrange(h1, v.len() as int).subrange(
                0,
                d2.len() as int,
            ) == d2 && v[h1 + d2.len()] == ':'
            &&& h2 + d3.len() < v.len() && v.subrange(h2, v.len() as int).subrange(
                0,
                d3.len() as int,
            ) == d3 && v[h2 + d3.len()] == ':'
            &&& h3 + d4.len() < v.len() && v.subrange(h3, v.len() as int).subrange(
                0,
                d4.len() as int,
            ) == d4 && v[h3 + d4.len()] == ':'
            &&& v.subrange(h4, h4 + c.0.len() as int) == c.0
            &&& v.subrange(h4 + c.0.len(), h4 + c.0.len() + c.1.len()) == c.1
            &&& v.subrange(
                h4 + c.0.len() + c.1.len(),
                h4 + c.0.len() + c.1.len() + c.2.len(),
            ) == c.2
            &&& v.subrange(
                h4 + c.0.len() + c.1.len() + c.2.len(),
                h4 + c.0.len() + c.1.len() + c.2.len() + c.3.len(),
            ) == c.3
            &&& h4 + c.0.len() + c.1.len() + c.2.len() + c.3.len() == pos + spec_enc_call(c).len()
        }),
{
    let e = spec_enc_call(c);
    assert forall|k: int| 0 <= k < e.len() implies v[pos + k] == e[k] by {
        assert(v.subrange(pos, v.len() as int).subrange(0, e.len() as int)[k] == v[pos + k]);
    }
    let d1 = spec_u64_digits(c.0.len() as u64);
    let d2 = spec_u64_digits(c.1.len() as u64);
    let d3 = spec_u64_digits(c.2.len() as u64);
    let d4 = spec_u64_digits(c.3.len() as u64);
    let h1 = pos + d1.len() + 1;
    let h2 = h1 + d2.len() + 1;
    let h3 = h2 + d3.len() + 1;
    let h4 = h3 + d4.len() + 1;
    let o2 = d1.len() + 1;
    let o3 = o2 + d2.len() + 1;
    let o4 = o3 + d3.len() + 1;
    let b0 = o4 + d4.len() + 1;
    let b1 = b0 + c.0.len();
    let b2 = b1 + c.1.len();
    let b3 = b2 + c.2.len();
    assert forall|k: int| 0 <= k < d1.len() implies v[pos + k] == d1[k] by {
        assert(e[k] == d1[k]);
    }
    assert(v[pos + d1.len()] == ':') by {
        assert(e[d1.len() as int] == ':');
    }
    assert forall|k: int| 0 <= k < d2.len() implies v[h1 + k] == d2[k] by {
        assert(v[pos + (o2 + k)] == e[o2 + k]);
        assert(e[o2 + k] == d2[k]);
    }
    assert(v[h1 + d2.len()] == ':') by {
        assert(e[o2 + d2.len() as int] == ':');
    }
    assert forall|k: int| 0 <= k < d3.len() implies v[h2 + k] == d3[k] by {
        assert(v[pos + (o3 + k)] == e[o3 + k]);
        assert(e[o3 + k] == d3[k]);
    }
    assert(v[h2 + d3.len()] == ':') by {
        assert(e[o3 + d3.len() as int] == ':');
    }
    assert forall|k: int| 0 <= k < d4.len() implies v[h3 + k] == d4[k] by {
        assert(v[pos + (o4 + k)] == e[o4 + k]);
        assert(e[o4 + k] == d4[k]);
    }
    assert(v[h3 + d4.len()] == ':') by {
        assert(e[o4 + d4.len() as int] == ':');
    }
    assert forall|k: int| 0 <= k < c.0.len() implies v[h4 + k] == c.0[k] by {
        assert(v[pos + (b0 + k)] == e[b0 + k]);
        assert(e[b0 + k] == c.0[k]);
    }
    assert forall|k: int| 0 <= k < c.1.len() implies v[h4 + c.0.len() + k] == c.1[k] by {
        assert(v[pos + (b1 + k)] == e[b1 + k]);
        assert(e[b1 + k] == c.1[k]);
    }
    assert forall|k: int| 0 <= k < c.2.len() implies v[h4 + c.0.len() + c.1.len() + k] == c.2[k]
        by {
        assert(v[pos + (b2 + k)] == e[b2 + k]);
        assert(e[b2 + k] == c.2[k]);
    }
    assert forall|k: int|
        0 <= k < c.3.len() implies v[h4 + c.0.len() + c.1.len() + c.2.len() + k] == c.3[k] by {
        assert(v[pos + (b3 + k)] == e[b3 + k]);
        assert(e[b3 + k] == c.3[k]);
    }
    assert(v.subrange(pos, v.len() as int).subrange(0, d1.len() as int) =~= d1);
    assert(v.subrange(h1, v.len() as int).subrange(0, d2.len() as int) =~= d2);
    assert(v.subrange(h2, v.len() as int).subrange(0, d3.len() as int) =~= d3);
    assert(v.subrange(h3, v.len() as int).subrange(0, d4.len() as int) =~= d4);
    assert(v.subrange(h4, h4 + c.0.len() as int) =~= c.0);
    assert(v.subrange(h4 + c.0.len(), h4 + c.0.len() + c.1.len()) =~= c.1);
    assert(v.subrange(h4 + c.0.len() + c.1.len(), h4 + c.0.len() + c.1.len() + c.2.len())
        =~= c.2);
    assert(v.subrange(
        h4 + c.0.len() + c.1.len() + c.2.len(),
        h4 + c.0.len() + c.1.len() + c.2.len() + c.3.len(),
    ) =~= c.3);
}

} // verus!
