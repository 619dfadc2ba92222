//! The tool catalog: the names and descriptions the serving loop knows,
//! registered last-write-wins and listed in name order.
//!
//! The tool implementations themselves, with their schemas and effects,
//! live with the caller under the same names; the catalog is what the
//! prompt builder and the unknown-name rule are verified against.

use vstd::prelude::*;

use crate::text::{chars_eq, str_to_chars};
use crate::tool_result::ToolResult;

verus! {

/// One catalog entry.
#[derive(Debug)]
pub struct ToolEntry {
    pub name: String,
    pub description: String,
}

/// The observable content of an entry.
pub open spec fn spec_entry_view(e: ToolEntry) -> (Seq<char>, Seq<char>) {
    (e.name@, e.description@)
}

/// Index of the first entry with the given name, or the length if absent.
pub open spec fn spec_entry_index(es: Seq<ToolEntry>, name: Seq<char>) -> int
    decreases es.len(),
{
    if es.len() == 0 {
        0
    } else if es[0].name@ == name {
        0
    } else {
        1 + spec_entry_index(es.drop_first(), name)
    }
}

pub proof fn lemma_entry_index_bounds(es: Seq<ToolEntry>, name: Seq<char>)
    ensures
        0 <= spec_entry_index(es, name) <= es.len(),
        forall|k: int| 0 <= k < spec_entry_index(es, name) ==> es[k].name@ != name,
        spec_entry_index(es, name) < es.len() ==> es[spec_entry_index(es, name)].name@ == name,
    decreases es.len(),
{
    if es.len() > 0 && es[0].name@ != name {
        lemma_entry_index_bounds(es.drop_first(), name);
        assert forall|k: int| 0 <= k < spec_entry_index(es, name) implies es[k].name@ != name by {
            if k > 0 {
                assert(es.drop_first()[k - 1] == es[k]);
            }
        }
        if spec_entry_index(es, name) < es.len() {
            assert(es.drop_first()[spec_entry_index(es, name) - 1] == es[spec_entry_index(
                es,
                name,
            )]);
        }
    }
}

proof fn lemma_entry_index_unique(es: Seq<ToolEntry>, name: Seq<char>, i: int)
    requires
        0 <= i <= es.len(),
        forall|k: int| 0 <= k < i ==> es[k].name@ != name,
        i < es.len() ==> es[i].name@ == name,
    ensures
        i == spec_entry_index(es, name),
{
    lemma_entry_index_bounds(es, name);
}

/// Strict lexicographic order on names, by code point, a proper prefix
/// coming first.
pub open spec fn spec_lex_lt(a: Seq<char>, b: Seq<char>) -> bool
    decreases a.len(),
{
    if b.len() == 0 {
        false
    } else if a.len() == 0 {
        true
    } else if a[0] != b[0] {
        (a[0] as u32) < (b[0] as u32)
    } else {
        spec_lex_lt(a.drop_first(), b.drop_first())
    }
}

/// A shared prefix does not decide the order: it is settled by the rest.
proof fn lemma_lex_skip(a: Seq<char>, b: Seq<char>, i: int)
    requires
        0 <= i <= a.len(),
        0 <= i <= b.len(),
        forall|k: int| 0 <= k < i ==> a[k] == b[k],
    ensures
        spec_lex_lt(a, b) == spec_lex_lt(a.skip(i), b.skip(i)),
    decreases i,
{
    if i > 0 {
        assert(a[0] == b[0]);
        assert forall|k: int| 0 <= k < i - 1 implies a.drop_first()[k] == b.drop_first()[k] by {
            assert(a.drop_first()[k] == a[k + 1]);
            assert(b.drop_first()[k] == b[k + 1]);
        }
        lemma_lex_skip(a.drop_first(), b.drop_first(), i - 1);
        assert(a.drop_first().skip(i - 1) =~= a.skip(i));
        assert(b.drop_first().skip(i - 1) =~= b.skip(i));
    } else {
        assert(a.skip(0) =~= a);
        assert(b.skip(0) =~= b);
    }
}

/// The order is total on distinct names, and strict.
pub proof fn lemma_lex_total(a: Seq<char>, b: Seq<char>)
    ensures
        a != b ==> spec_lex_lt(a, b) || spec_lex_lt(b, a),
        !(spec_lex_lt(a, b) && spec_lex_lt(b, a)),
    decreases a.len() + b.len(),
{
    if a.len() == 0 && b.len() == 0 {
        assert(a =~= b);
    } else if a.len() == 0 {
        assert(spec_lex_lt(a, b));
    } else if b.len() == 0 {
        assert(spec_lex_lt(b, a));
    } else if a[0] != b[0] {
        vstd::utf8::char_u32_cast(a[0], a[0] as u32);
        vstd::utf8::char_u32_cast(b[0], b[0] as u32);
        assert((a[0] as u32) != (b[0] as u32));
    } else if a.len() > 0 && b.len() > 0 && a[0] == b[0] {
        lemma_lex_total(a.drop_first(), b.drop_first());
        if a.drop_first() == b.drop_first() {
            assert forall|x: int| 0 <= x < a.len() implies a[x] == b[x] by {
                if x > 0 {
                    assert(a.drop_first()[x - 1] == a[x]);
                    assert(b.drop_first()[x - 1] == b[x]);
                }
            }
            assert(a =~= b);
        }
    }
}

/// The order is transitive.
pub proof fn lemma_lex_trans(a: Seq<char>, b: Seq<char>, c: Seq<char>)
    requires
        spec_lex_lt(a, b),
        spec_lex_lt(b, c),
    ensures
        spec_lex_lt(a, c),
    decreases a.len() + b.len() + c.len(),
{
    if a.len() > 0 && b.len() > 0 && c.len() > 0 && a[0] == b[0] && b[0] == c[0] {
        lemma_lex_trans(a.drop_first(), b.drop_first(), c.drop_first());
    }
}

fn lex_before(a: &Vec<char>, b: &Vec<char>) -> (r: bool)
    ensures
        r == spec_lex_lt(a@, b@),
{
    let mut i: usize = 0;
    loop
        invariant
            i <= a@.len(),
            i <= b@.len(),
            forall|k: int| 0 <= k < i ==> a@[k] == b@[k],
        decreases a@.len() - i,
    {
        if i >= a.len() {
            proof {
                lemma_lex_skip(a@, b@, i as int);
            }
            return i < b.len();
        }
        if i >= b.len() {
            proof {
                lemma_lex_skip(a@, b@, i as int);
            }
            return false;
        }
        let ca = a[i];
        let cb = b[i];
        if ca != cb {
            proof {
                lemma_lex_skip(a@, b@, i as int);
                assert(a@.skip(i as int)[0] == a@[i as int]);
                assert(b@.skip(i as int)[0] == b@[i as int]);
            }
            return (ca as u32) < (cb as u32);
        }
        i = i + 1;
    }
}

/// Where a new name is inserted: before the first entry it precedes.
pub open spec fn spec_insert_pos(es: Seq<ToolEntry>, name: Seq<char>) -> int
    decreases es.len(),
{
    if es.len() == 0 {
        0
    } else if spec_lex_lt(name, es[0].name@) {
        0
    } else {
        1 + spec_insert_pos(es.drop_first(), name)
    }
}

proof fn lemma_insert_pos_unique(es: Seq<ToolEntry>, name: Seq<char>, i: int)
    requires
        0 <= i <= es.len(),
        forall|k: int| 0 <= k < i ==> !spec_lex_lt(name, es[k].name@),
        i < es.len() ==> spec_lex_lt(name, es[i].name@),
    ensures
        i == spec_insert_pos(es, name),
    decreases es.len(),
{
    if es.len() > 0 && !spec_lex_lt(name, es[0].name@) {
        assert(i > 0);
        assert forall|k: int| 0 <= k < i - 1 implies !spec_lex_lt(
            name,
            es.drop_first()[k].name@,
        ) by {
            assert(es.drop_first()[k] == es[k + 1]);
        }
        if i - 1 < es.drop_first().len() {
            assert(es.drop_first()[i - 1] == es[i]);
        }
        lemma_insert_pos_unique(es.drop_first(), name, i - 1);
    }
}

/// The catalog order: strictly ascending by name.
pub open spec fn spec_sorted(es: Seq<ToolEntry>) -> bool {
    forall|i: int, j: int|
        0 <= i < j < es.len() ==> spec_lex_lt(#[trigger] es[i].name@, #[trigger] es[j].name@)
}

/// The catalog of registered tools.
pub struct ToolRegistry {
    entries: Vec<ToolEntry>,
}

impl ToolRegistry {
    pub closed spec fn spec_entries(&self) -> Seq<ToolEntry> {
        self.entries@
    }

    /// Whether a tool with this name is registered.
    pub open spec fn spec_has(&self, name: Seq<char>) -> bool {
        spec_entry_index(self.spec_entries(), name) < self.spec_entries().len()
    }

    /// An empty catalog.
    pub fn new() -> (r: ToolRegistry)
        ensures
            r.spec_entries().len() == 0,
            spec_sorted(r.spec_entries()),
    {
        ToolRegistry { entries: Vec::new() }
    }

    fn index_of(&self, name: &str) -> (r: usize)
        ensures
            r == spec_entry_index(self.spec_entries(), name@),
    {
        let nv = str_to_chars(name);
        let mut i: usize = 0;
        while i < self.entries.len()
            invariant
                0 <= i <= self.entries@.len(),
                forall|k: int| 0 <= k < i ==> self.entries@[k].name@ != name@,
                nv@ == name@,
            decreases self.entries@.len() - i,
        {
            let en = str_to_chars(self.entries[i].name.as_str());
            if chars_eq(&en, &nv) {
                proof {
                    lemma_entry_index_unique(self.entries@, name@, i as int);
                }
                return i;
            }
            i = i + 1;
        }
        proof {
            lemma_entry_index_unique(self.entries@, name@, i as int);
        }
        i
    }

    /// Register a tool: an existing entry with the name is overwritten,
    /// otherwise the entry joins the catalog before the first name it
    /// precedes, so the catalog stays in name order.
    pub fn register(&mut self, name: String, description: String) -> (r: bool)
        requires
            spec_sorted(old(self).spec_entries()),
        ensures
            spec_sorted(final(self).spec_entries()),
            ({
                let k = spec_entry_index(old(self).spec_entries(), name@);
                if k < old(self).spec_entries().len() {
                    &&& r
                    &&& final(self).spec_entries().len() == old(self).spec_entries().len()
                    &&& forall|i: int|
                        0 <= i < old(self).spec_entries().len() && i != k
                            ==> final(self).spec_entries()[i] == old(self).spec_entries()[i]
                    &&& final(self).spec_entries()[k].name@ == name@
                    &&& final(self).spec_entries()[k].description@ == description@
                } else {
                    let p = spec_insert_pos(old(self).spec_entries(), name@);
                    &&& !r
                    &&& final(self).spec_entries() == old(self).spec_entries().insert(
                        p,
                        (final(self).spec_entries()[p]),
                    )
                    &&& final(self).spec_entries()[p].name@ == name@
                    &&& final(self).spec_entries()[p].description@ == description@
                }
            }),
    {
        let k = self.index_of(name.as_str());
        proof {
            lemma_entry_index_bounds(self.spec_entries(), name@);
        }
        if k < self.entries.len() {
            self.entries.set(k, ToolEntry { name, description });
            proof {
                let es = old(self).spec_entries();
                let es2 = self.spec_entries();
                assert forall|i: int, j: int| 0 <= i < j < es2.len() implies spec_lex_lt(
                    es2[i].name@,
                    es2[j].name@,
                ) by {
                    assert(es2[i].name@ == es[i].name@);
                    assert(es2[j].name@ == es[j].name@);
                }
            }
            true
        } else {
            let ghost es = self.spec_entries();
            let nv = str_to_chars(name.as_str());
            let mut p: usize = 0;
            loop
                invariant
                    0 <= p <= self.entries@.len(),
                    self.entries@ == es,
                    nv@ == name@,
                    forall|k2: int| 0 <= k2 < p ==> !spec_lex_lt(name@, es[k2].name@),
                ensures
                    0 <= p <= es.len(),
                    self.entries@ == es,
                    forall|k2: int| 0 <= k2 < p ==> !spec_lex_lt(name@, es[k2].name@),
                    p < es.len() ==> spec_lex_lt(name@, es[p as int].name@),
                decreases es.len() - p,
            {
                if p >= self.entries.len() {
                    break ;
                }
                let en = str_to_chars(self.entries[p].name.as_str());
                if lex_before(&nv, &en) {
                    break ;
                }
                p = p + 1;
            }
            let ghost pos = p as int;
            proof {
                lemma_insert_pos_unique(es, name@, pos);
            }
            self.entries.insert(p, ToolEntry { name, description });
            proof {
                let es2 = self.spec_entries();
                assert(es2 == es.insert(pos, es2[pos]));
                assert(es2[pos].name@ == name@);
                assert(es2[pos].description@ == description@);
                assert forall|k2: int| 0 <= k2 < es.len() implies es[k2].name@ != name@ by {}
                assert forall|i: int, j: int| 0 <= i < j < es2.len() implies spec_lex_lt(
                    es2[i].name@,
                    es2[j].name@,
                ) by {
                    if j < pos {
                        assert(es2[i] == es[i]);
                        assert(es2[j] == es[j]);
                    } else if i < pos && j == pos {
                        assert(es2[i] == es[i]);
                        lemma_lex_total(es[i].name@, name@);
                    } else if i < pos && j > pos {
                        assert(es2[i] == es[i]);
                        assert(es2[j] == es[j - 1]);
                        assert(i < j - 1);
                    } else if i == pos {
                        assert(es2[j] == es[j - 1]);
                        assert(spec_lex_lt(name@, es[pos].name@));
                        if j - 1 > pos {
                            assert(spec_lex_lt(es[pos].name@, es[j - 1].name@));
                            lemma_lex_trans(name@, es[pos].name@, es[j - 1].name@);
                        }
                    } else {
                        assert(es2[i] == es[i - 1]);
                        assert(es2[j] == es[j - 1]);
                    }
                }
            }
            false
        }
    }

    /// Whether a tool with this name is registered.
    pub fn has(&self, name: &str) -> (r: bool)
        ensures
            r == self.spec_has(name@),
    {
        let k = self.index_of(name);
        proof {
            lemma_entry_index_bounds(self.spec_entries(), name@);
        }
        k < self.entries.len()
    }

    /// The registered names, in catalog order.
    pub fn list(&self) -> (r: Vec<String>)
        ensures
            r@.map_values(|s: String| s@) == self.spec_entries().map_values(
                |e: ToolEntry| e.name@,
            ),
    {
        let ghost goal = self.spec_entries().map_values(|e: ToolEntry| e.name@);
        let mut out: Vec<String> = Vec::new();
        let mut i: usize = 0;
        proof {
            assert(out@.map_values(|s: String| s@) =~= goal.subrange(0, 0));
        }
        while i < self.entries.len()
            invariant
                0 <= i <= self.entries@.len(),
                goal == self.spec_entries().map_values(|e: ToolEntry| e.name@),
                out@.map_values(|s: String| s@) == goal.subrange(0, i as int),
            decreases self.entries@.len() - i,
        {
            let ghost pre = out@.map_values(|s: String| s@);
            out.push(self.entries[i].name.clone());
            proof {
                assert(out@.map_values(|s: String| s@) =~= pre.push(goal[i as int]));
                assert(goal.subrange(0, i + 1 as int) =~= goal.subrange(0, i as int).push(
                    goal[i as int],
                ));
            }
            i = i + 1;
        }
        proof {
            assert(goal.subrange(0, goal.len() as int) =~= goal);
        }
        out
    }

    /// One `name - description` line per tool, in catalog order.
    pub fn summaries(&self) -> (r: Vec<String>)
        ensures
            r@.map_values(|s: String| s@) == self.spec_entries().map_values(
                |e: ToolEntry| e.name@ + " - "@ + e.description@,
            ),
    {
        let ghost goal = self.spec_entries().map_values(
            |e: ToolEntry| e.name@ + " - "@ + e.description@,
        );
        let mut out: Vec<String> = Vec::new();
        let mut i: usize = 0;
        proof {
            assert(out@.map_values(|s: String| s@) =~= goal.subrange(0, 0));
        }
        while i < self.entries.len()
            invariant
                0 <= i <= self.entries@.len(),
                goal == self.spec_entries().map_values(
                    |e: ToolEntry| e.name@ + " - "@ + e.description@,
                ),
                out@.map_values(|s: String| s@) == goal.subrange(0, i as int),
            decreases self.entries@.len() - i,
        {
            let ghost pre = out@.map_values(|s: String| s@);
            let mut line = String::new();
            line.append(self.entries[i].name.as_str());
            line.append(" - ");
            line.append(self.entries[i].description.as_str());
            out.push(line);
            proof {
                assert(out@.map_values(|s: String| s@) =~= pre.push(goal[i as int]));
                assert(goal.subrange(0, i + 1 as int) =~= goal.subrange(0, i as int).push(
                    goal[i as int],
                ));
            }
            i = i + 1;
        }
        proof {
            assert(goal.subrange(0, goal.len() as int) =~= goal);
        }
        out
    }
}

/// The result handed back for a tool name the catalog does not know:
/// always an error, never a panic.
pub fn unknown_tool_result(name: &str) -> (r: ToolResult)
    ensures
        r.is_error,
        r.for_llm@ == "tool '"@ + name@ + "' not found"@,
        r.for_user is None,
        !r.silent,
        !r.async_,
{
    let mut msg = String::new();
    msg.append("tool '");
    msg.append(name);
    msg.append("' not found");
    ToolResult::error(msg.as_str())
}

} // verus!
