//! Search and scan result rendering: the texts handed back to the model by
//! the note search, the chat search, and the directory scan.

use vstd::prelude::*;

use crate::text::{
    chars_to_string, is_space, is_space_char, spec_trim, spec_u64_digits, str_to_chars, trim_chars,
    u64_to_chars,
};

verus! {

fn push_u64(buf: &mut String, n: u64)
    ensures
        final(buf)@ == old(buf)@ + spec_u64_digits(n),
{
    let d = u64_to_chars(n);
    let s = chars_to_string(&d);
    buf.append(s.as_str());
}

/// One numbered line block of the note search listing.
pub open spec fn spec_vault_row(k: int, row: (Seq<char>, Seq<char>)) -> Seq<char> {
    "\n"@ + spec_u64_digits(k as u64) + ". "@ + row.0 + "\n   "@ + row.1 + "\n"@
}

pub open spec fn spec_vault_rows(rows: Seq<(Seq<char>, Seq<char>)>) -> Seq<char>
    decreases rows.len(),
{
    if rows.len() == 0 {
        Seq::<char>::empty()
    } else {
        spec_vault_rows(rows.drop_last()) + spec_vault_row(rows.len() as int, rows.last())
    }
}

/// Lay note search results out for the model: a count line, then one
/// numbered path-and-snippet block per result.
pub fn format_vault_results(rows: &Vec<(String, String)>) -> (r: String)
    ensures
        rows@.len() == 0 ==> r@ == "No matching notes found in the vault."@,
        rows@.len() > 0 ==> r@ == "Found "@ + spec_u64_digits(rows@.len() as u64)
            + " result(s):\n"@ + spec_vault_rows(
            rows@.map_values(|p: (String, String)| (p.0@, p.1@)),
        ),
{
    if rows.len() == 0 {
        return "No matching notes found in the vault.".to_owned();
    }
    let ghost views = rows@.map_values(|p: (String, String)| (p.0@, p.1@));
    let mut buf = String::new();
    buf.append("Found ");
    push_u64(&mut buf, rows.len() as u64);
    buf.append(" result(s):\n");
    let ghost head = buf@;
    let mut i: usize = 0;
    proof {
        assert(views.subrange(0, 0) =~= Seq::<(Seq<char>, Seq<char>)>::empty());
        assert(buf@ =~= head + spec_vault_rows(views.subrange(0, 0)));
    }
    while i < rows.len()
        invariant
            0 <= i <= rows@.len(),
            views == rows@.map_values(|p: (String, String)| (p.0@, p.1@)),
            buf@ == head + spec_vault_rows(views.subrange(0, i as int)),
        decreases rows@.len() - i,
    {
        buf.append("\n");
        push_u64(&mut buf, (i + 1) as u64);
        buf.append(". ");
        buf.append(rows[i].0.as_str());
        buf.append("\n   ");
        buf.append(rows[i].1.as_str());
        buf.append("\n");
        proof {
            let cur = views.subrange(0, i + 1 as int);
            assert(cur.drop_last() =~= views.subrange(0, i as int));
            assert(cur.last() == views[i as int]);
            assert(buf@ =~= head + spec_vault_rows(cur));
        }
        i = i + 1;
    }
    proof {
        assert(views.subrange(0, views.len() as int) =~= views);
    }
    buf
}

/// One numbered line block of the chat search listing.
pub open spec fn spec_chat_row(k: int, row: (Seq<char>, Seq<char>, Seq<char>)) -> Seq<char> {
    "\n"@ + spec_u64_digits(k as u64) + ". ["@ + row.1 + "] "@ + row.0 + "\n   "@ + row.2 + "\n"@
}

pub open spec fn spec_chat_rows(rows: Seq<(Seq<char>, Seq<char>, Seq<char>)>) -> Seq<char>
    decreases rows.len(),
{
    if rows.len() == 0 {
        Seq::<char>::empty()
    } else {
        spec_chat_rows(rows.drop_last()) + spec_chat_row(rows.len() as int, rows.last())
    }
}

/// Lay chat search results out for the model: the chat, role and snippet
/// of each hit.
pub fn format_chat_results(rows: &Vec<(String, String, String)>) -> (r: String)
    ensures
        rows@.len() == 0 ==> r@ == "No matching messages found in chat history."@,
        rows@.len() > 0 ==> r@ == "Found "@ + spec_u64_digits(rows@.len() as u64)
            + " result(s) in chat history:\n"@ + spec_chat_rows(
            rows@.map_values(|p: (String, String, String)| (p.0@, p.1@, p.2@)),
        ),
{
    if rows.len() == 0 {
        return "No matching messages found in chat history.".to_owned();
    }
    let ghost views = rows@.map_values(|p: (String, String, String)| (p.0@, p.1@, p.2@));
    let mut buf = String::new();
    buf.append("Found ");
    push_u64(&mut buf, rows.len() as u64);
    buf.append(" result(s) in chat history:\n");
    let ghost head = buf@;
    let mut i: usize = 0;
    proof {
        assert(views.subrange(0, 0) =~= Seq::<(Seq<char>, Seq<char>, Seq<char>)>::empty());
        assert(buf@ =~= head + spec_chat_rows(views.subrange(0, 0)));
    }
    while i < rows.len()
        invariant
            0 <= i <= rows@.len(),
            views == rows@.map_values(|p: (String, String, String)| (p.0@, p.1@, p.2@)),
            buf@ == head + spec_chat_rows(views.subrange(0, i as int)),
        decreases rows@.len() - i,
    {
        buf.append("\n");
        push_u64(&mut buf, (i + 1) as u64);
        buf.append(". [");
        buf.append(rows[i].1.as_str());
        buf.append("] ");
        buf.append(rows[i].0.as_str());
        buf.append("\n   ");
        buf.append(rows[i].2.as_str());
        buf.append("\n");
        proof {
            let cur = views.subrange(0, i + 1 as int);
            assert(cur.drop_last() =~= views.subrange(0, i as int));
            assert(cur.last() == views[i as int]);
            assert(buf@ =~= head + spec_chat_rows(cur));
        }
        i = i + 1;
    }
    proof {
        assert(views.subrange(0, views.len() as int) =~= views);
    }
    buf
}

/// One match of the directory scan: path, line number, line text.
#[derive(Debug)]
pub struct GrepMatch {
    pub rel_path: String,
    pub line_no: u64,
    pub line: String,
}

pub open spec fn spec_grep_row(m: GrepMatch) -> Seq<char> {
    "\n"@ + m.rel_path@ + ":"@ + spec_u64_digits(m.line_no) + ": "@ + m.line@
}

pub open spec fn spec_grep_rows(ms: Seq<GrepMatch>) -> Seq<char>
    decreases ms.len(),
{
    if ms.len() == 0 {
        Seq::<char>::empty()
    } else {
        spec_grep_rows(ms.drop_last()) + spec_grep_row(ms.last())
    }
}

/// Cap on returned matches; a listing this long is marked truncated.
pub const MAX_MATCHES: usize = 50;

/// Lay directory scan matches out for the model, or say that nothing
/// matched.
pub fn format_grep_results(pattern: &str, dir_path: &str, matches: &Vec<GrepMatch>) -> (r: String)
    ensures
        matches@.len() == 0 ==> r@ == "No matches found for pattern \""@ + pattern@ + "\" in \""@
            + dir_path@ + "\"."@,
        matches@.len() > 0 ==> r@ == "Found "@ + spec_u64_digits(matches@.len() as u64)
            + " match(es) for \""@ + pattern@ + "\" in \""@ + dir_path@ + "\""@ + (if matches@.len()
            >= 50 {
            " (truncated)"@
        } else {
            Seq::<char>::empty()
        }) + ":\n"@ + spec_grep_rows(matches@),
{
    if matches.len() == 0 {
        let mut buf = String::new();
        buf.append("No matches found for pattern \"");
        buf.append(pattern);
        buf.append("\" in \"");
        buf.append(dir_path);
        buf.append("\".");
        return buf;
    }
    let mut buf = String::new();
    buf.append("Found ");
    push_u64(&mut buf, matches.len() as u64);
    buf.append(" match(es) for \"");
    buf.append(pattern);
    buf.append("\" in \"");
    buf.append(dir_path);
    buf.append("\"");
    if matches.len() >= MAX_MATCHES {
        buf.append(" (truncated)");
    }
    buf.append(":\n");
    let ghost head = buf@;
    let mut i: usize = 0;
    proof {
        assert(matches@.subrange(0, 0) =~= Seq::<GrepMatch>::empty());
        assert(buf@ =~= head + spec_grep_rows(matches@.subrange(0, 0)));
    }
    while i < matches.len()
        invariant
            0 <= i <= matches@.len(),
            buf@ == head + spec_grep_rows(matches@.subrange(0, i as int)),
        decreases matches@.len() - i,
    {
        buf.append("\n");
        buf.append(matches[i].rel_path.as_str());
        buf.append(":");
        push_u64(&mut buf, matches[i].line_no);
        buf.append(": ");
        buf.append(matches[i].line.as_str());
        proof {
            let cur = matches@.subrange(0, i + 1 as int);
            assert(cur.drop_last() =~= matches@.subrange(0, i as int));
            assert(cur.last() == matches@[i as int]);
            assert(buf@ =~= head + spec_grep_rows(cur));
        }
        i = i + 1;
    }
    proof {
        assert(matches@.subrange(0, matches@.len() as int) =~= matches@);
    }
    buf
}

/// Whether a user id is allowed to talk to the assistant: an absent or
/// empty allow-list admits everyone; otherwise only the listed ids.
pub fn is_allowed(allowed_user_ids: &Option<Vec<i64>>, user_id: i64) -> (r: bool)
    ensures
        r == match allowed_user_ids {
            None => true,
            Some(ids) => ids@.len() == 0 || ids@.contains(user_id),
        },
{
    match allowed_user_ids {
        None => true,
        Some(ids) => {
            if ids.len() == 0 {
                return true;
            }
            contains_i64(ids, user_id)
        },
    }
}

fn contains_i64(v: &Vec<i64>, x: i64) -> (b: bool)
    ensures
        b == v@.contains(x),
{
    let mut i: usize = 0;
    while i < v.len()
        invariant
            0 <= i <= v@.len(),
            forall|k: int| 0 <= k < i ==> v@[k] != x,
        decreases v@.len() - i,
    {
        if v[i] == x {
            proof {
                assert(v@.contains(x));
            }
            return true;
        }
        i = i + 1;
    }
    false
}

/// The six entities the unescaper knows, by first match at the head of the
/// remaining text.
pub open spec fn spec_unescape(s: Seq<char>) -> Seq<char>
    decreases s.len(),
{
    if s.len() == 0 {
        Seq::<char>::empty()
    } else if crate::text::spec_starts_with(s, seq!['&', 'a', 'm', 'p', ';']) {
        seq!['&'] + spec_unescape(s.skip(5))
    } else if crate::text::spec_starts_with(s, seq!['&', 'l', 't', ';']) {
        seq!['<'] + spec_unescape(s.skip(4))
    } else if crate::text::spec_starts_with(s, seq!['&', 'g', 't', ';']) {
        seq!['>'] + spec_unescape(s.skip(4))
    } else if crate::text::spec_starts_with(s, seq!['&', 'q', 'u', 'o', 't', ';']) {
        seq!['"'] + spec_unescape(s.skip(6))
    } else if crate::text::spec_starts_with(s, seq!['&', '#', '3', '9', ';']) {
        seq!['\''] + spec_unescape(s.skip(5))
    } else if crate::text::spec_starts_with(s, seq!['&', 'n', 'b', 's', 'p', ';']) {
        seq![' '] + spec_unescape(s.skip(6))
    } else {
        seq![s[0]] + spec_unescape(s.drop_first())
    }
}

/// Whether the pattern sits at `pos` in `v`.
fn has_at(v: &Vec<char>, pos: usize, pat: &Vec<char>) -> (b: bool)
    requires
        pos <= v@.len(),
    ensures
        b == crate::text::spec_starts_with(
            v@.subrange(pos as int, v@.len() as int),
            pat@,
        ),
{
    let ghost suffix = v@.subrange(pos as int, v@.len() as int);
    if v.len() - pos < pat.len() {
        return false;
    }
    let end = pos + pat.len();
    let seg = crate::text::sub_chars(v, pos, end);
    let r = crate::text::chars_eq(&seg, pat);
    proof {
        assert(seg@ =~= suffix.subrange(0, pat@.len() as int));
    }
    r
}

/// Decode the six common HTML entities, left to right; everything else is
/// copied through.
pub fn html_unescape(s: &str) -> (r: String)
    ensures
        r@ == spec_unescape(s@),
{
    let v = str_to_chars(s);
    let amp = str_to_chars("&amp;");
    let lt = str_to_chars("&lt;");
    let gt = str_to_chars("&gt;");
    let quot = str_to_chars("&quot;");
    let apos = str_to_chars("&#39;");
    let nbsp = str_to_chars("&nbsp;");
    proof {
        reveal_strlit("&amp;");
        reveal_strlit("&lt;");
        reveal_strlit("&gt;");
        reveal_strlit("&quot;");
        reveal_strlit("&#39;");
        reveal_strlit("&nbsp;");
        assert(amp@ =~= seq!['&', 'a', 'm', 'p', ';']);
        assert(lt@ =~= seq!['&', 'l', 't', ';']);
        assert(gt@ =~= seq!['&', 'g', 't', ';']);
        assert(quot@ =~= seq!['&', 'q', 'u', 'o', 't', ';']);
        assert(apos@ =~= seq!['&', '#', '3', '9', ';']);
        assert(nbsp@ =~= seq!['&', 'n', 'b', 's', 'p', ';']);
    }
    let mut out: Vec<char> = Vec::new();
    let mut pos: usize = 0;
    proof {
        assert(v@.subrange(0, v@.len() as int) =~= v@);
    }
    while pos < v.len()
        invariant
            0 <= pos <= v@.len(),
            v@ == s@,
            amp@ == seq!['&', 'a', 'm', 'p', ';'],
            lt@ == seq!['&', 'l', 't', ';'],
            gt@ == seq!['&', 'g', 't', ';'],
            quot@ == seq!['&', 'q', 'u', 'o', 't', ';'],
            apos@ == seq!['&', '#', '3', '9', ';'],
            nbsp@ == seq!['&', 'n', 'b', 's', 'p', ';'],
            spec_unescape(v@) == out@ + spec_unescape(v@.subrange(pos as int, v@.len() as int)),
        decreases v@.len() - pos,
    {
        let ghost suffix = v@.subrange(pos as int, v@.len() as int);
        let step: usize;
        if has_at(&v, pos, &amp) {
            out.push('&');
            step = 5;
        } else if has_at(&v, pos, &lt) {
            out.push('<');
            step = 4;
        } else if has_at(&v, pos, &gt) {
            out.push('>');
            step = 4;
        } else if has_at(&v, pos, &quot) {
            out.push('"');
            step = 6;
        } else if has_at(&v, pos, &apos) {
            out.push('\'');
            step = 5;
        } else if has_at(&v, pos, &nbsp) {
            out.push(' ');
            step = 6;
        } else {
            proof {
                assert(suffix[0] == v@[pos as int]);
            }
            out.push(v[pos]);
            step = 1;
        }
        proof {
            assert(suffix.skip(step as int) =~= v@.subrange(pos + step, v@.len() as int));
            assert(suffix.drop_first() =~= v@.subrange(pos + 1, v@.len() as int));
            assert(spec_unescape(v@) =~= out@ + spec_unescape(
                v@.subrange(pos + step, v@.len() as int),
            ));
        }
        pos = pos + step;
    }
    proof {
        assert(spec_unescape(v@.subrange(pos as int, v@.len() as int))
            =~= Seq::<char>::empty());
        assert(spec_unescape(v@) =~= out@);
    }
    chars_to_string(&out)
}

/// Text outside `open`..`close` blocks, each block (delimiters included)
/// replaced by one space; a block opened and never closed is dropped to
/// the end of the text.
pub open spec fn spec_strip_blocks(s: Seq<char>, open: Seq<char>, close: Seq<char>) -> Seq<char>
    decreases s.len(),
{
    if open.len() == 0 || close.len() == 0 {
        s
    } else if s.len() == 0 {
        Seq::<char>::empty()
    } else if s.len() >= open.len() && s.subrange(0, open.len() as int) == open {
        seq![' '] + spec_skip_block(s.skip(open.len() as int), open, close)
    } else {
        seq![s[0]] + spec_strip_blocks(s.drop_first(), open, close)
    }
}

/// The rest of the text after the current block ends.
pub open spec fn spec_skip_block(s: Seq<char>, open: Seq<char>, close: Seq<char>) -> Seq<char>
    decreases s.len(),
{
    if open.len() == 0 || close.len() == 0 {
        s
    } else if s.len() == 0 {
        Seq::<char>::empty()
    } else if s.len() >= close.len() && s.subrange(0, close.len() as int) == close {
        spec_strip_blocks(s.skip(close.len() as int), open, close)
    } else {
        spec_skip_block(s.drop_first(), open, close)
    }
}

/// The text with each `<`..`>` run replaced by one space; text after an
/// unclosed `<` is dropped.
pub open spec fn spec_strip_tags(s: Seq<char>, in_tag: bool) -> Seq<char>
    decreases s.len(),
{
    if s.len() == 0 {
        Seq::<char>::empty()
    } else if in_tag {
        if s[0] == '>' {
            seq![' '] + spec_strip_tags(s.drop_first(), false)
        } else {
            spec_strip_tags(s.drop_first(), true)
        }
    } else if s[0] == '<' {
        spec_strip_tags(s.drop_first(), true)
    } else {
        seq![s[0]] + spec_strip_tags(s.drop_first(), false)
    }
}

/// The text with each whitespace run collapsed to one blank.
pub open spec fn spec_collapse_ws(s: Seq<char>, after_ws: bool) -> Seq<char>
    decreases s.len(),
{
    if s.len() == 0 {
        Seq::<char>::empty()
    } else if is_space_char(s[0]) {
        if after_ws {
            spec_collapse_ws(s.drop_first(), true)
        } else {
            seq![' '] + spec_collapse_ws(s.drop_first(), true)
        }
    } else {
        seq![s[0]] + spec_collapse_ws(s.drop_first(), false)
    }
}

/// The plain text of an HTML page: script and style blocks dropped, tags
/// turned into spaces, whitespace runs collapsed, the ends trimmed.
pub open spec fn spec_html_text(s: Seq<char>) -> Seq<char> {
    spec_trim(
        spec_collapse_ws(
            spec_strip_tags(
                spec_strip_blocks(
                    spec_strip_blocks(s, "<script"@, "</script>"@),
                    "<style"@,
                    "</style>"@,
                ),
                false,
            ),
            false,
        ),
    )
}

/// Whether the pattern stands at position `i` of the text.
fn starts_with_at(v: &Vec<char>, i: usize, pat: &Vec<char>) -> (r: bool)
    requires
        i <= v@.len(),
    ensures
        r == (v@.skip(i as int).len() >= pat@.len() && v@.skip(i as int).subrange(
            0,
            pat@.len() as int,
        ) == pat@),
{
    let n = v.len();
    if n - i < pat.len() {
        return false;
    }
    let mut k: usize = 0;
    while k < pat.len()
        invariant
            0 <= k <= pat@.len(),
            n == v@.len(),
            i + pat@.len() <= n,
            forall|j: int| 0 <= j < k ==> v@[i + j] == pat@[j],
        decreases pat@.len() - k,
    {
        if v[i + k] != pat[k] {
            proof {
                let sub = v@.skip(i as int).subrange(0, pat@.len() as int);
                assert(sub[k as int] == v@[i + k]);
            }
            return false;
        }
        k = k + 1;
    }
    proof {
        assert(v@.skip(i as int).subrange(0, pat@.len() as int) =~= pat@);
    }
    true
}

fn strip_blocks_chars(v: &Vec<char>, open: &Vec<char>, close: &Vec<char>) -> (r: Vec<char>)
    requires
        open@.len() > 0,
        close@.len() > 0,
    ensures
        r@ == spec_strip_blocks(v@, open@, close@),
{
    let mut out: Vec<char> = Vec::new();
    let mut i: usize = 0;
    let mut in_block = false;
    proof {
        assert(v@.skip(0) =~= v@);
    }
    while i < v.len()
        invariant
            0 <= i <= v@.len(),
            open@.len() > 0,
            close@.len() > 0,
            spec_strip_blocks(v@, open@, close@) == out@ + (if in_block {
                spec_skip_block(v@.skip(i as int), open@, close@)
            } else {
                spec_strip_blocks(v@.skip(i as int), open@, close@)
            }),
        decreases v@.len() - i,
    {
        let ghost suf = v@.skip(i as int);
        let ghost out0 = out@;
        if in_block {
            if starts_with_at(v, i, close) {
                in_block = false;
                i = i + close.len();
                proof {
                    assert(suf.skip(close@.len() as int) =~= v@.skip(i as int));
                }
            } else {
                i = i + 1;
                proof {
                    assert(suf.drop_first() =~= v@.skip(i as int));
                }
            }
        } else {
            if starts_with_at(v, i, open) {
                out.push(' ');
                in_block = true;
                i = i + open.len();
                proof {
                    assert(suf.skip(open@.len() as int) =~= v@.skip(i as int));
                    assert(out@ =~= out0 + seq![' ']);
                    assert(out0 + (seq![' '] + spec_skip_block(v@.skip(i as int), open@, close@))
                        =~= out@ + spec_skip_block(v@.skip(i as int), open@, close@));
                }
            } else {
                out.push(v[i]);
                i = i + 1;
                proof {
                    assert(suf.drop_first() =~= v@.skip(i as int));
                    assert(out@ =~= out0 + seq![suf[0]]);
                    assert(out0 + (seq![suf[0]] + spec_strip_blocks(
                        v@.skip(i as int),
                        open@,
                        close@,
                    )) =~= out@ + spec_strip_blocks(v@.skip(i as int), open@, close@));
                }
            }
        }
    }
    proof {
        assert(v@.skip(v@.len() as int) =~= Seq::<char>::empty());
        assert(out@ =~= spec_strip_blocks(v@, open@, close@));
    }
    out
}

fn strip_tags_chars(v: &Vec<char>) -> (r: Vec<char>)
    ensures
        r@ == spec_strip_tags(v@, false),
{
    let mut out: Vec<char> = Vec::new();
    let mut i: usize = 0;
    let mut in_tag = false;
    proof {
        assert(v@.skip(0) =~= v@);
    }
    while i < v.len()
        invariant
            0 <= i <= v@.len(),
            spec_strip_tags(v@, false) == out@ + spec_strip_tags(v@.skip(i as int), in_tag),
        decreases v@.len() - i,
    {
        let ghost suf = v@.skip(i as int);
        let ghost out0 = out@;
        let c = v[i];
        if in_tag {
            if c == '>' {
                out.push(' ');
                in_tag = false;
            }
        } else {
            if c == '<' {
                in_tag = true;
            } else {
                out.push(c);
            }
        }
        i = i + 1;
        proof {
            assert(suf.drop_first() =~= v@.skip(i as int));
            assert(suf[0] == c);
            if out@ != out0 {
                assert(out@ =~= out0 + seq![out@.last()]);
                assert(out0 + (seq![out@.last()] + spec_strip_tags(v@.skip(i as int), in_tag))
                    =~= out@ + spec_strip_tags(v@.skip(i as int), in_tag));
            }
        }
    }
    proof {
        assert(v@.skip(v@.len() as int) =~= Seq::<char>::empty());
        assert(out@ =~= spec_strip_tags(v@, false));
    }
    out
}

fn collapse_ws_chars(v: &Vec<char>) -> (r: Vec<char>)
    ensures
        r@ == spec_collapse_ws(v@, false),
{
    let mut out: Vec<char> = Vec::new();
    let mut i: usize = 0;
    let mut after_ws = false;
    proof {
        assert(v@.skip(0) =~= v@);
    }
    while i < v.len()
        invariant
            0 <= i <= v@.len(),
            spec_collapse_ws(v@, false) == out@ + spec_collapse_ws(v@.skip(i as int), after_ws),
        decreases v@.len() - i,
    {
        let ghost suf = v@.skip(i as int);
        let ghost out0 = out@;
        let c = v[i];
        if is_space(c) {
            if !after_ws {
                out.push(' ');
            }
            after_ws = true;
        } else {
            out.push(c);
            after_ws = false;
        }
        i = i + 1;
        proof {
            assert(suf.drop_first() =~= v@.skip(i as int));
            assert(suf[0] == c);
            if out@ != out0 {
                assert(out@ =~= out0 + seq![out@.last()]);
                assert(out0 + (seq![out@.last()] + spec_collapse_ws(v@.skip(i as int), after_ws))
                    =~= out@ + spec_collapse_ws(v@.skip(i as int), after_ws));
            }
        }
    }
    proof {
        assert(v@.skip(v@.len() as int) =~= Seq::<char>::empty());
        assert(out@ =~= spec_collapse_ws(v@, false));
    }
    out
}

/// The plain text of an HTML page, for the model to read: script and
/// style blocks are dropped, tags become spaces, whitespace runs collapse
/// to single spaces, and the ends are trimmed.
pub fn html_to_text(s: &str) -> (r: String)
    ensures
        r@ == spec_html_text(s@),
{
    let v = str_to_chars(s);
    let script_open = str_to_chars("<script");
    let script_close = str_to_chars("</script>");
    let style_open = str_to_chars("<style");
    let style_close = str_to_chars("</style>");
    proof {
        reveal_strlit("<script");
        reveal_strlit("</script>");
        reveal_strlit("<style");
        reveal_strlit("</style>");
        assert("<script"@.len() == 7);
        assert("</script>"@.len() == 9);
        assert("<style"@.len() == 6);
        assert("</style>"@.len() == 8);
    }
    let a = strip_blocks_chars(&v, &script_open, &script_close);
    let b = strip_blocks_chars(&a, &style_open, &style_close);
    let c = strip_tags_chars(&b);
    let d = collapse_ws_chars(&c);
    let e = trim_chars(&d);
    chars_to_string(&e)
}

} // verus!
