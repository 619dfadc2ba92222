//! Heartbeat task file parsing: each markdown bullet (`- `) line becomes one
//! task for a stateless agent run.

use vstd::prelude::*;

use crate::text::{
    chars_to_string, find_char_from, spec_find_char, spec_starts_with, spec_trim, starts_with_chars,
    str_to_chars, sub_chars, trim_chars,
};

verus! {

pub open spec fn spec_dash_space() -> Seq<char> {
    seq!['-', ' ']
}

/// The task carried by one line: the trimmed text after a leading `- `
/// marker, provided it is non-empty.
pub open spec fn spec_line_task(line: Seq<char>) -> Option<Seq<char>> {
    let t = spec_trim(line);
    if spec_starts_with(t, spec_dash_space()) {
        let rest = spec_trim(t.subrange(2, t.len() as int));
        if rest.len() > 0 {
            Some(rest)
        } else {
            None
        }
    } else {
        None
    }
}

pub open spec fn spec_maybe_task(line: Seq<char>) -> Seq<Seq<char>> {
    match spec_line_task(line) {
        Some(t) => seq![t],
        None => Seq::<Seq<char>>::empty(),
    }
}

/// The tasks of a whole file, line by line in file order.
pub open spec fn spec_tasks(s: Seq<char>) -> Seq<Seq<char>>
    decreases s.len(),
{
    if s.len() == 0 {
        Seq::<Seq<char>>::empty()
    } else {
        let i = spec_find_char(s, '\n');
        if 0 <= i < s.len() {
            spec_maybe_task(s.subrange(0, i)) + spec_tasks(s.subrange(i + 1, s.len() as int))
        } else {
            spec_maybe_task(s)
        }
    }
}

/// Parse markdown bullet tasks from heartbeat file content.
///
/// Lines whose trimmed form starts with `- ` are tasks; everything else is
/// ignored.  Whitespace around the task text is trimmed; blank tasks are
/// dropped.
pub fn parse_tasks(content: &str) -> (r: Vec<String>)
    ensures
        r@.map_values(|t: String| t@) == spec_tasks(content@),
{
    let v = str_to_chars(content);
    let mut ds: Vec<char> = Vec::new();
    ds.push('-');
    ds.push(' ');
    proof {
        assert(ds@ =~= spec_dash_space());
    }
    let mut out: Vec<String> = Vec::new();
    let mut pos: usize = 0;
    proof {
        assert(out@.map_values(|t: String| t@) =~= Seq::<Seq<char>>::empty());
        assert(v@.subrange(0, v@.len() as int) =~= v@);
    }
    while pos < v.len()
        invariant
            0 <= pos <= v@.len(),
            ds@ == spec_dash_space(),
            spec_tasks(v@) == out@.map_values(|t: String| t@) + spec_tasks(
                v@.subrange(pos as int, v@.len() as int),
            ),
        decreases v@.len() - pos,
    {
        let ghost suffix = v@.subrange(pos as int, v@.len() as int);
        let nl = find_char_from(&v, pos, '\n');
        let line = sub_chars(&v, pos, nl);
        proof {
            assert forall|k: int| 0 <= k < nl - pos implies suffix[k] != '\n' by {
                assert(suffix[k] == v@[pos + k]);
            }
            if nl < v@.len() {
                assert(suffix[nl - pos] == v@[nl as int]);
            }
            crate::text::lemma_find_char_unique(suffix, '\n', nl - pos);
            assert(line@ =~= suffix.subrange(0, nl - pos));
        }
        let next = if nl < v.len() {
            nl + 1
        } else {
            nl
        };
        proof {
            if nl < v@.len() {
                assert(v@.subrange(next as int, v@.len() as int) =~= suffix.subrange(
                    nl - pos + 1,
                    suffix.len() as int,
                ));
            } else {
                assert(line@ =~= suffix);
                assert(v@.subrange(next as int, v@.len() as int) =~= Seq::<char>::empty());
            }
        }
        let t = trim_chars(&line);
        if starts_with_chars(&t, &ds) {
            let rest = sub_chars(&t, 2, t.len());
            let rest_t = trim_chars(&rest);
            if rest_t.len() > 0 {
                let task = chars_to_string(&rest_t);
                proof {
                    assert(spec_line_task(line@) == Some(task@));
                }
                let ghost before = out@.map_values(|x: String| x@);
                out.push(task);
                proof {
                    assert(out@.map_values(|x: String| x@) =~= before.push(task@));
                }
            } else {
                proof {
                    assert(spec_line_task(line@) is None);
                }
            }
        } else {
            proof {
                assert(spec_line_task(line@) is None);
            }
        }
        proof {
            assert(spec_tasks(suffix) == spec_maybe_task(line@) + spec_tasks(
                v@.subrange(next as int, v@.len() as int),
            ));
            assert(spec_tasks(v@) =~= out@.map_values(|t: String| t@) + spec_tasks(
                v@.subrange(next as int, v@.len() as int),
            ));
        }
        pos = next;
    }
    proof {
        assert(spec_tasks(v@.subrange(pos as int, v@.len() as int)) =~= Seq::<Seq<char>>::empty());
        assert(spec_tasks(v@) =~= out@.map_values(|t: String| t@));
    }
    out
}

} // verus!
