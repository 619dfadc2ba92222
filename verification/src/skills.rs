//! Skill descriptions: pull a one-line description out of a skill file and
//! lay the discovered skills out for the system prompt.
//!
//! Walking the skills directory is the caller's work; this module owns the
//! text rules: the `description:` header line wins, otherwise the first
//! paragraph, truncated to a fixed length.

use vstd::prelude::*;

use crate::text::{
    chars_to_string, find_char_from, spec_find_char, spec_trim, str_to_chars, sub_chars,
    trim_chars,
};

verus! {

/// Longest description kept, in characters.
pub const MAX_DESC_LEN: usize = 200;

/// One discovered skill: directory name, path of its skill file, one-line
/// description.
#[derive(Debug)]
pub struct SkillInfo {
    pub name: String,
    pub relative_path: String,
    pub description: String,
}

/// A description truncated to the cap, with an ellipsis when cut.
pub open spec fn spec_truncate_desc(s: Seq<char>) -> Seq<char> {
    if s.len() <= 200 {
        s
    } else {
        s.subrange(0, 200) + "..."@
    }
}

/// Truncate to at most the cap, marking the cut.
pub fn truncate_desc(s: &Vec<char>) -> (r: String)
    ensures
        r@ == spec_truncate_desc(s@),
{
    if s.len() <= MAX_DESC_LEN {
        chars_to_string(s)
    } else {
        let mut head = sub_chars(s, 0, MAX_DESC_LEN);
        head.push('.');
        head.push('.');
        head.push('.');
        let r = chars_to_string(&head);
        proof {
            reveal_strlit("...");
            assert(r@ =~= spec_truncate_desc(s@));
        }
        r
    }
}

/// The lower-case description header.
pub open spec fn spec_desc_prefix() -> Seq<char> {
    seq!['d', 'e', 's', 'c', 'r', 'i', 'p', 't', 'i', 'o', 'n', ':']
}

/// `a` equals the lower-case letter `b`, ignoring ASCII case.
pub open spec fn spec_ci_match(a: char, b: char) -> bool {
    a == b || (97 <= b as u32 <= 122 && a as u32 + 32 == b as u32)
}

/// Whether a trimmed line starts with `description:` in any case.
pub open spec fn spec_is_desc_line(t: Seq<char>) -> bool {
    t.len() >= 12 && forall|k: int| 0 <= k < 12 ==> spec_ci_match(t[k], spec_desc_prefix()[k])
}

/// The description a header line carries, when non-empty.
pub open spec fn spec_desc_of_line(t: Seq<char>) -> Option<Seq<char>> {
    if spec_is_desc_line(t) {
        let rest = spec_trim(t.subrange(12, t.len() as int));
        if rest.len() > 0 {
            Some(spec_truncate_desc(rest))
        } else {
            None
        }
    } else {
        None
    }
}

/// Paragraph lines joined with single blanks.
pub open spec fn spec_join_sp(lines: Seq<Seq<char>>) -> Seq<char>
    decreases lines.len(),
{
    if lines.len() == 0 {
        Seq::<char>::empty()
    } else if lines.len() == 1 {
        lines[0]
    } else {
        spec_join_sp(lines.drop_last()) + seq![' '] + lines.last()
    }
}

/// What the first paragraph yields when no header line was found.
pub open spec fn spec_finish_para(para: Seq<Seq<char>>) -> Seq<char> {
    if spec_join_sp(para).len() == 0 {
        "(no description)"@
    } else {
        spec_truncate_desc(spec_join_sp(para))
    }
}

/// Walk the content line by line: a `description:` header with text wins;
/// otherwise the first paragraph, gathered until the blank line after it.
pub open spec fn spec_extract_from(s: Seq<char>, para: Seq<Seq<char>>, in_para: bool) -> Seq<char>
    decreases s.len(),
{
    if s.len() == 0 {
        spec_finish_para(para)
    } else {
        let i = spec_find_char(s, '\n');
        if 0 <= i < s.len() {
            let t = spec_trim(s.subrange(0, i));
            let rest = s.subrange(i + 1, s.len() as int);
            match spec_desc_of_line(t) {
                Some(d) => d,
                None => if t.len() == 0 {
                    if in_para {
                        spec_finish_para(para)
                    } else {
                        spec_extract_from(rest, para, false)
                    }
                } else {
                    spec_extract_from(
                        rest,
                        if in_para {
                            para.push(t)
                        } else {
                            seq![t]
                        },
                        true,
                    )
                },
            }
        } else {
            let t = spec_trim(s);
            match spec_desc_of_line(t) {
                Some(d) => d,
                None => if t.len() == 0 {
                    spec_finish_para(para)
                } else {
                    spec_finish_para(
                        if in_para {
                            para.push(t)
                        } else {
                            seq![t]
                        },
                    )
                },
            }
        }
    }
}

/// The one-line description of a skill file's content.
pub open spec fn spec_extract_description(s: Seq<char>) -> Seq<char> {
    spec_extract_from(s, Seq::<Seq<char>>::empty(), false)
}

fn is_desc_line(t: &Vec<char>) -> (r: bool)
    ensures
        r == spec_is_desc_line(t@),
{
    let prefix = str_to_chars("description:");
    proof {
        reveal_strlit("description:");
        assert(prefix@ =~= spec_desc_prefix());
    }
    if t.len() < 12 {
        return false;
    }
    let mut k: usize = 0;
    while k < 12
        invariant
            0 <= k <= 12 <= t@.len(),
            prefix@ == spec_desc_prefix(),
            forall|j: int| 0 <= j < k ==> spec_ci_match(t@[j], spec_desc_prefix()[j]),
        decreases 12 - k,
    {
        let a = t[k];
        let b = prefix[k];
        let ok = a == b || (b as u32 >= 97 && b as u32 <= 122 && a as u32 == b as u32 - 32);
        if !ok {
            proof {
                assert(!spec_ci_match(t@[k as int], spec_desc_prefix()[k as int]));
            }
            return false;
        }
        k = k + 1;
    }
    true
}

fn join_sp(para: &Vec<Vec<char>>) -> (r: Vec<char>)
    ensures
        r@ == spec_join_sp(para@.map_values(|l: Vec<char>| l@)),
{
    let ghost views = para@.map_values(|l: Vec<char>| l@);
    let mut out: Vec<char> = Vec::new();
    let mut i: usize = 0;
    proof {
        assert(views.subrange(0, 0) =~= Seq::<Seq<char>>::empty());
    }
    while i < para.len()
        invariant
            0 <= i <= para@.len(),
            views == para@.map_values(|l: Vec<char>| l@),
            out@ == spec_join_sp(views.subrange(0, i as int)),
        decreases para@.len() - i,
    {
        if i > 0 {
            out.push(' ');
        }
        crate::text::push_all(&mut out, &para[i]);
        proof {
            let cur = views.subrange(0, i + 1 as int);
            assert(cur.drop_last() =~= views.subrange(0, i as int));
            assert(cur.last() == views[i as int]);
            if i == 0 {
                assert(out@ =~= spec_join_sp(cur));
            } else {
                assert(out@ =~= spec_join_sp(cur));
            }
        }
        i = i + 1;
    }
    proof {
        assert(views.subrange(0, views.len() as int) =~= views);
    }
    out
}

fn finish_para(para: &Vec<Vec<char>>) -> (r: String)
    ensures
        r@ == spec_finish_para(para@.map_values(|l: Vec<char>| l@)),
{
    let joined = join_sp(para);
    if joined.len() == 0 {
        "(no description)".to_owned()
    } else {
        truncate_desc(&joined)
    }
}

/// Extract the one-line description from a skill file's content: the first
/// `description:` header with text after it, in any case; otherwise the
/// first non-empty paragraph, its lines joined with blanks.
pub fn extract_description(content: &str) -> (r: String)
    ensures
        r@ == spec_extract_description(content@),
{
    let v = str_to_chars(content);
    let mut para: Vec<Vec<char>> = Vec::new();
    let mut in_para = false;
    let mut pos: usize = 0;
    proof {
        assert(para@.map_values(|l: Vec<char>| l@) =~= Seq::<Seq<char>>::empty());
        assert(v@.subrange(0, v@.len() as int) =~= v@);
    }
    while pos < v.len()
        invariant
            v@ == content@,
            0 <= pos <= v@.len(),
            spec_extract_description(v@) == spec_extract_from(
                v@.subrange(pos as int, v@.len() as int),
                para@.map_values(|l: Vec<char>| l@),
                in_para,
            ),
        decreases v@.len() - pos,
    {
        let ghost suffix = v@.subrange(pos as int, v@.len() as int);
        let nl = find_char_from(&v, pos, '\n');
        let line = sub_chars(&v, pos, nl);
        proof {
            assert forall|k: int| 0 <= k < nl - pos implies suffix[k] != '\n' by {
                assert(suffix[k] == v@[pos + k]);
            }
            if nl < v@.len() {
                assert(suffix[nl - pos] == v@[nl as int]);
            }
            crate::text::lemma_find_char_unique(suffix, '\n', nl - pos);
            assert(line@ =~= suffix.subrange(0, nl - pos));
            if nl < v@.len() {
                assert(v@.subrange(nl + 1, v@.len() as int) =~= suffix.subrange(
                    nl - pos + 1,
                    suffix.len() as int,
                ));
            } else {
                assert(line@ =~= suffix);
            }
        }
        let t = trim_chars(&line);
        if is_desc_line(&t) {
            let rest_raw = sub_chars(&t, 12, t.len());
            let rest = trim_chars(&rest_raw);
            if rest.len() > 0 {
                proof {
                    assert(spec_desc_of_line(spec_trim(line@)) == Some(
                        spec_truncate_desc(rest@),
                    ));
                    assert(spec_extract_from(
                        suffix,
                        para@.map_values(|l: Vec<char>| l@),
                        in_para,
                    ) == spec_truncate_desc(rest@));
                }
                return truncate_desc(&rest);
            }
        }
        let next = if nl < v.len() {
            nl + 1
        } else {
            nl
        };
        proof {
            if nl >= v@.len() {
                assert(v@.subrange(next as int, v@.len() as int) =~= Seq::<char>::empty());
            }
        }
        let ghost para_views = para@.map_values(|l: Vec<char>| l@);
        if t.len() == 0 {
            if in_para {
                proof {
                    assert(spec_extract_from(
                        suffix,
                        para@.map_values(|l: Vec<char>| l@),
                        in_para,
                    ) == spec_finish_para(para@.map_values(|l: Vec<char>| l@)));
                }
                return finish_para(&para);
            }
        } else {
            if in_para {
                para.push(t);
                proof {
                    assert(para@.map_values(|l: Vec<char>| l@) =~= para_views.push(
                        spec_trim(line@),
                    ));
                }
            } else {
                let mut fresh: Vec<Vec<char>> = Vec::new();
                fresh.push(t);
                para = fresh;
                proof {
                    assert(para@.map_values(|l: Vec<char>| l@) =~= seq![spec_trim(line@)]);
                }
                in_para = true;
            }
            proof {
                assert(in_para || para@.map_values(|l: Vec<char>| l@) == seq![spec_trim(line@)]);
            }
            in_para = true;
        }
        pos = next;
    }
    finish_para(&para)
}

/// The blank or sentence-closing suffix after a description in a skill
/// line: descriptions already ending a sentence get a blank, others a
/// period.
pub open spec fn spec_desc_suffix(desc: Seq<char>) -> Seq<char> {
    let t = spec_trim(desc);
    if t.len() > 0 && (t.last() == '.' || t.last() == '!' || t.last() == '?') {
        " "@
    } else {
        ". "@
    }
}

pub fn description_suffix(desc: &str) -> (r: &'static str)
    ensures
        r@ == spec_desc_suffix(desc@),
{
    let v = str_to_chars(desc);
    let t = trim_chars(&v);
    if t.len() > 0 {
        let c = t[t.len() - 1];
        if c == '.' || c == '!' || c == '?' {
            return " ";
        }
    }
    ". "
}

/// One skill's line in the system prompt.
pub open spec fn spec_skill_line(name: Seq<char>, desc: Seq<char>, path: Seq<char>) -> Seq<char> {
    "- **"@ + name + "** — "@ + desc + spec_desc_suffix(desc) + "Read "@ + path + " to use."@
}

pub open spec fn spec_skills_summary(skills: Seq<(Seq<char>, Seq<char>, Seq<char>)>) -> Seq<char>
    decreases skills.len(),
{
    if skills.len() == 0 {
        Seq::<char>::empty()
    } else if skills.len() == 1 {
        spec_skill_line(skills[0].0, skills[0].2, skills[0].1)
    } else {
        spec_skills_summary(skills.drop_last()) + "\n"@ + spec_skill_line(
            skills.last().0,
            skills.last().2,
            skills.last().1,
        )
    }
}

/// The observable content of a discovered skill.
pub open spec fn spec_skill_view(s: SkillInfo) -> (Seq<char>, Seq<char>, Seq<char>) {
    (s.name@, s.relative_path@, s.description@)
}

/// Build the skills section of the system prompt: one line per skill, in
/// the given order.
pub fn build_skills_summary(skills: &Vec<SkillInfo>) -> (r: String)
    ensures
        r@ == spec_skills_summary(skills@.map_values(|s: SkillInfo| spec_skill_view(s))),
{
    let ghost views = skills@.map_values(|s: SkillInfo| spec_skill_view(s));
    let mut buf = String::new();
    let mut i: usize = 0;
    proof {
        assert(views.subrange(0, 0) =~= Seq::<(Seq<char>, Seq<char>, Seq<char>)>::empty());
    }
    while i < skills.len()
        invariant
            0 <= i <= skills@.len(),
            views == skills@.map_values(|s: SkillInfo| spec_skill_view(s)),
            buf@ == spec_skills_summary(views.subrange(0, i as int)),
        decreases skills@.len() - i,
    {
        if i > 0 {
            buf.append("\n");
        }
        let s = &skills[i];
        buf.append("- **");
        buf.append(s.name.as_str());
        buf.append("** — ");
        buf.append(s.description.as_str());
        let suffix = description_suffix(s.description.as_str());
        buf.append(suffix);
        buf.append("Read ");
        buf.append(s.relative_path.as_str());
        buf.append(" to use.");
        proof {
            let cur = views.subrange(0, i + 1 as int);
            assert(cur.drop_last() =~= views.subrange(0, i as int));
            assert(cur.last() == views[i as int]);
        }
        i = i + 1;
    }
    proof {
        assert(views.subrange(0, views.len() as int) =~= views);
    }
    buf
}

} // verus!
