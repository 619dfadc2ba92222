//! Workspace layout: where the notes, skills, cron state and database live
//! under the workspace root, and the date arithmetic behind daily notes.

use vstd::prelude::*;

use crate::calendar::{civil_from_unix, days_in_month, spec_in_range};
use crate::text::{
    chars_to_string, parse_u64_chars, spec_all_digits, spec_digits_val, spec_trim, spec_u64_digits,
    str_to_chars, sub_chars, trim_chars, u64_to_chars,
};

verus! {

/// Characters kept in memory from the long-term note.
pub const MEMORY_SUMMARY_LEN: usize = 4000;

/// Characters kept from each daily note.
pub const DAILY_NOTE_SUMMARY_LEN: usize = 2000;

/// Daily notes included in the memory snippet: today and the previous two.
pub const RECENT_DAILY_DAYS: u32 = 3;

fn join_path(workspace: &str, tail: &str) -> (r: String)
    ensures
        r@ == workspace@ + "/"@ + tail@,
{
    let mut r = String::new();
    r.append(workspace);
    r.append("/");
    r.append(tail);
    r
}

/// The skills directory: `workspace/skills`.
pub fn skills_dir(workspace: &str) -> (r: String)
    ensures
        r@ == workspace@ + "/skills"@,
{
    let r = join_path(workspace, "skills");
    proof {
        reveal_strlit("/");
        reveal_strlit("skills");
        reveal_strlit("/skills");
        assert(r@ =~= workspace@ + "/skills"@);
    }
    r
}

/// The sessions directory: `workspace/sessions`.
pub fn sessions_dir(workspace: &str) -> (r: String)
    ensures
        r@ == workspace@ + "/sessions"@,
{
    let r = join_path(workspace, "sessions");
    proof {
        reveal_strlit("/");
        reveal_strlit("sessions");
        reveal_strlit("/sessions");
        assert(r@ =~= workspace@ + "/sessions"@);
    }
    r
}

/// A chat id as a safe file name character: letters, digits, hyphen and
/// underscore stay; everything else becomes an underscore.
pub open spec fn spec_safe_char(c: char) -> char {
    if (48 <= c as u32 <= 57) || (65 <= c as u32 <= 90) || (97 <= c as u32 <= 122) || c == '-'
        || c == '_' {
        c
    } else {
        '_'
    }
}

/// The session file of a chat: `workspace/sessions/<safe-id>.json`, with
/// `default` standing in for an empty id.
pub fn session_file(workspace: &str, chat_id: &str) -> (r: String)
    ensures
        r@ == workspace@ + "/sessions/"@ + (if chat_id@.len() == 0 {
            "default"@
        } else {
            chat_id@.map_values(|c: char| spec_safe_char(c))
        }) + ".json"@,
{
    let v = str_to_chars(chat_id);
    let mut safe: Vec<char> = Vec::new();
    let mut i: usize = 0;
    while i < v.len()
        invariant
            0 <= i <= v@.len(),
            safe@ == v@.subrange(0, i as int).map_values(|c: char| spec_safe_char(c)),
        decreases v@.len() - i,
    {
        let c = v[i];
        let keep = (c as u32 >= 48 && c as u32 <= 57) || (c as u32 >= 65 && c as u32 <= 90) || (
        c as u32 >= 97 && c as u32 <= 122) || c == '-' || c == '_';
        let ghost pre = safe@;
        if keep {
            safe.push(c);
        } else {
            safe.push('_');
        }
        proof {
            assert(safe@ =~= pre.push(spec_safe_char(v@[i as int])));
            assert(v@.subrange(0, i + 1 as int).map_values(|c: char| spec_safe_char(c))
                =~= v@.subrange(0, i as int).map_values(|c: char| spec_safe_char(c)).push(
                spec_safe_char(v@[i as int]),
            ));
        }
        i = i + 1;
    }
    proof {
        assert(v@.subrange(0, v@.len() as int) =~= v@);
    }
    let mut r = String::new();
    r.append(workspace);
    r.append("/sessions/");
    if safe.len() == 0 {
        r.append("default");
    } else {
        let name = chars_to_string(&safe);
        r.append(name.as_str());
    }
    r.append(".json");
    r
}

/// The memory directory: `workspace/memory`.
pub fn memory_dir(workspace: &str) -> (r: String)
    ensures
        r@ == workspace@ + "/memory"@,
{
    let r = join_path(workspace, "memory");
    proof {
        reveal_strlit("/");
        reveal_strlit("memory");
        reveal_strlit("/memory");
        assert(r@ =~= workspace@ + "/memory"@);
    }
    r
}

/// The long-term note: `workspace/memory/MEMORY.md`.
pub fn memory_file(workspace: &str) -> (r: String)
    ensures
        r@ == workspace@ + "/memory/MEMORY.md"@,
{
    let mut r = String::new();
    r.append(workspace);
    r.append("/memory/MEMORY.md");
    r
}

/// A daily note: `workspace/memory/YYYYMM/YYYYMMDD.md`.  The first six
/// characters of the date name its month directory.
pub fn daily_note_path(workspace: &str, yyyymmdd: &str) -> (r: String)
    ensures
        r@ == workspace@ + "/memory/"@ + yyyymmdd@.subrange(
            0,
            if yyyymmdd@.len() < 6 {
                yyyymmdd@.len() as int
            } else {
                6
            },
        ) + "/"@ + yyyymmdd@ + ".md"@,
{
    let v = str_to_chars(yyyymmdd);
    let cut = if v.len() < 6 {
        v.len()
    } else {
        6
    };
    let head = sub_chars(&v, 0, cut);
    let head_s = chars_to_string(&head);
    let mut r = String::new();
    r.append(workspace);
    r.append("/memory/");
    r.append(head_s.as_str());
    r.append("/");
    r.append(yyyymmdd);
    r.append(".md");
    r
}

/// `workspace/AGENT.md`.
pub fn agent_md(workspace: &str) -> (r: String)
    ensures
        r@ == workspace@ + "/AGENT.md"@,
{
    let mut r = String::new();
    r.append(workspace);
    r.append("/AGENT.md");
    r
}

/// `workspace/USER.md`.
pub fn user_md(workspace: &str) -> (r: String)
    ensures
        r@ == workspace@ + "/USER.md"@,
{
    let mut r = String::new();
    r.append(workspace);
    r.append("/USER.md");
    r
}

/// `workspace/IDENTITY.md`.
pub fn identity_md(workspace: &str) -> (r: String)
    ensures
        r@ == workspace@ + "/IDENTITY.md"@,
{
    let mut r = String::new();
    r.append(workspace);
    r.append("/IDENTITY.md");
    r
}

/// The cron job list: `workspace/cron/jobs.json`.
pub fn cron_jobs_file(workspace: &str) -> (r: String)
    ensures
        r@ == workspace@ + "/cron/jobs.json"@,
{
    let mut r = String::new();
    r.append(workspace);
    r.append("/cron/jobs.json");
    r
}

/// The runtime data directory: `workspace/.icrab`.
pub fn icrab_dir(workspace: &str) -> (r: String)
    ensures
        r@ == workspace@ + "/.icrab"@,
{
    let mut r = String::new();
    r.append(workspace);
    r.append("/.icrab");
    r
}

/// The embedded database: `workspace/.icrab/brain.db`.
pub fn brain_db_path(workspace: &str) -> (r: String)
    ensures
        r@ == workspace@ + "/.icrab/brain.db"@,
{
    let mut r = String::new();
    r.append(workspace);
    r.append("/.icrab/brain.db");
    r
}

/// `n` rendered with at least `width` digits, zero padded.
pub open spec fn spec_padded(n: u64, width: int) -> Seq<char>
    decreases width,
{
    if spec_u64_digits(n).len() >= width {
        spec_u64_digits(n)
    } else {
        spec_pad_zeros(width - spec_u64_digits(n).len()) + spec_u64_digits(n)
    }
}

pub open spec fn spec_pad_zeros(k: int) -> Seq<char>
    decreases k,
{
    if k <= 0 {
        Seq::<char>::empty()
    } else {
        seq!['0'] + spec_pad_zeros(k - 1)
    }
}

/// Render `n` zero-padded to at least `width` digits.
pub fn padded(n: u64, width: usize) -> (r: Vec<char>)
    ensures
        r@ == spec_padded(n, width as int),
{
    let digits = u64_to_chars(n);
    let mut r: Vec<char> = Vec::new();
    let mut k: usize = if digits.len() >= width {
        0
    } else {
        width - digits.len()
    };
    proof {
        assert(r@ =~= spec_pad_zeros(0));
    }
    let ghost total = k;
    let mut done: usize = 0;
    while done < k
        invariant
            done <= k,
            r@ == spec_pad_zeros(done as int),
        decreases k - done,
    {
        r.push('0');
        proof {
            lemma_pad_snoc(done as int);
        }
        done = done + 1;
    }
    crate::text::push_all(&mut r, &digits);
    r
}

/// Zeros append one at a time.
proof fn lemma_pad_snoc(k: int)
    requires
        k >= 0,
    ensures
        spec_pad_zeros(k + 1) == spec_pad_zeros(k).push('0'),
    decreases k,
{
    if k == 0 {
        assert(spec_pad_zeros(1) =~= spec_pad_zeros(0).push('0'));
    } else {
        lemma_pad_snoc(k - 1);
        assert(spec_pad_zeros(k + 1) =~= spec_pad_zeros(k).push('0'));
    }
}

/// The calendar date of an instant as `YYYYMMDD`, for daily note names.
pub fn today_yyyymmdd(now: u64) -> (r: String)
    ensures
        spec_in_range(now) ==> r@ == spec_padded(crate::calendar::spec_year_of(now) as u64, 4)
            + spec_padded(crate::calendar::spec_month_of(now) as u64, 2) + spec_padded(
            crate::calendar::spec_day_of(now) as u64,
            2,
        ),
{
    let c = match civil_from_unix(now) {
        Some(c) => c,
        None => {
            return "00000000".to_owned();
        },
    };
    let mut out = padded(c.year as u64, 4);
    let mm = padded(c.month as u64, 2);
    let dd = padded(c.day as u64, 2);
    crate::text::push_all(&mut out, &mm);
    crate::text::push_all(&mut out, &dd);
    chars_to_string(&out)
}

/// Eight digits naming a real calendar date: a month between one and
/// twelve, and a day the month actually has.
pub open spec fn spec_valid_yyyymmdd(s: Seq<char>) -> bool {
    &&& s.len() == 8
    &&& spec_all_digits(s.subrange(0, 4))
    &&& spec_all_digits(s.subrange(4, 6))
    &&& spec_all_digits(s.subrange(6, 8))
    &&& 1 <= spec_digits_val(s.subrange(4, 6)) <= 12
    &&& 1 <= spec_digits_val(s.subrange(6, 8)) <= crate::calendar::spec_days_in_month(
        spec_digits_val(s.subrange(0, 4)),
        spec_digits_val(s.subrange(4, 6)),
    )
}

/// Short digit strings have small values.
proof fn lemma_digits_val_small(s: Seq<char>)
    requires
        forall|k: int| 0 <= k < s.len() ==> crate::text::spec_is_digit(s[k]),
    ensures
        s.len() == 0 ==> spec_digits_val(s) == 0,
        s.len() <= 1 ==> spec_digits_val(s) <= 9,
        s.len() <= 2 ==> spec_digits_val(s) <= 99,
        s.len() <= 3 ==> spec_digits_val(s) <= 999,
        s.len() <= 4 ==> spec_digits_val(s) <= 9999,
    decreases s.len(),
{
    if s.len() > 0 {
        lemma_digits_val_small(s.drop_last());
    }
}

/// A calendar date parsed from `YYYYMMDD`: accepts exactly the eight-digit
/// texts naming a real date, and returns its three fields.
pub fn parse_yyyymmdd(s: &str) -> (r: Option<(u64, u64, u64)>)
    ensures
        r is Some <==> spec_valid_yyyymmdd(s@),
        r matches Some((y, m, d)) ==> {
            &&& y == spec_digits_val(s@.subrange(0, 4))
            &&& m == spec_digits_val(s@.subrange(4, 6))
            &&& d == spec_digits_val(s@.subrange(6, 8))
            &&& 1 <= m <= 12
            &&& 1 <= d <= 31
            &&& y <= 9999
        },
{
    proof {
        if spec_valid_yyyymmdd(s@) {
            lemma_digits_val_small(s@.subrange(0, 4));
            lemma_digits_val_small(s@.subrange(4, 6));
            lemma_digits_val_small(s@.subrange(6, 8));
        }
    }
    let v = str_to_chars(s);
    if v.len() != 8 {
        return None;
    }
    let ys = sub_chars(&v, 0, 4);
    let ms = sub_chars(&v, 4, 6);
    let ds = sub_chars(&v, 6, 8);
    let y = match parse_u64_chars(&ys) {
        Some(x) => x,
        None => {
            return None;
        },
    };
    let m = match parse_u64_chars(&ms) {
        Some(x) => x,
        None => {
            return None;
        },
    };
    let d = match parse_u64_chars(&ds) {
        Some(x) => x,
        None => {
            return None;
        },
    };
    if m < 1 || m > 12 || d < 1 {
        return None;
    }
    if d > days_in_month(y, m) {
        return None;
    }
    proof {
        lemma_digits_val_small(s@.subrange(0, 4));
    }
    Some((y, m, d))
}

/// The calendar day before `(y, m, d)`: the day below in the same month,
/// else the last day of the month before, else the last of December.
pub open spec fn spec_previous_day(y: int, m: int, d: int) -> (int, int, int) {
    if d > 1 {
        (y, m, d - 1)
    } else if m > 1 {
        (y, m - 1, crate::calendar::spec_days_in_month(y, m - 1))
    } else {
        (y - 1, 12, 31)
    }
}

/// The calendar day before a date.
pub fn previous_day(y: u64, m: u64, d: u64) -> (r: (u64, u64, u64))
    requires
        1 <= m <= 12,
        1 <= d <= 31,
        y >= 1,
    ensures
        (r.0 as int, r.1 as int, r.2 as int) == spec_previous_day(y as int, m as int, d as int),
        1 <= r.1 <= 12,
        1 <= r.2 <= 31,
        r.0 <= y,
{
    if d > 1 {
        (y, m, d - 1)
    } else if m > 1 {
        (y, m - 1, days_in_month(y, m - 1))
    } else {
        (y - 1, 12, 31)
    }
}

/// One date rendered `YYYYMMDD`, zero padded.
pub open spec fn spec_date_string(y: int, m: int, d: int) -> Seq<char> {
    spec_padded(y as u64, 4) + spec_padded(m as u64, 2) + spec_padded(d as u64, 2)
}

/// The dates of `(y, m, d)` and the `k - 1` days before it, most recent
/// first.
pub open spec fn spec_dates_back(y: int, m: int, d: int, k: nat) -> Seq<Seq<char>>
    decreases k,
{
    if k == 0 {
        Seq::<Seq<char>>::empty()
    } else {
        let prev = spec_previous_day(y, m, d);
        seq![spec_date_string(y, m, d)] + spec_dates_back(prev.0, prev.1, prev.2, (k - 1) as nat)
    }
}

/// Whether `k` days can be walked back from `(y, m, d)` without leaving
/// year one.
pub open spec fn spec_walk_ok(y: int, m: int, d: int, k: nat) -> bool
    decreases k,
{
    if k == 0 {
        true
    } else {
        let prev = spec_previous_day(y, m, d);
        y >= 1 && spec_walk_ok(prev.0, prev.1, prev.2, (k - 1) as nat)
    }
}

/// The dates of today and the previous days, most recent first, rendered
/// `YYYYMMDD`, zero padded: exactly `days` entries, starting with the given
/// date and stepping one calendar day back per entry.  Nothing when the
/// given text is not a real date, or the walk would leave year one.
pub fn recent_daily_dates(today_yyyymmdd: &str, days: u32) -> (r: Option<Vec<String>>)
    ensures
        ({
            let sv = today_yyyymmdd@;
            let y = spec_digits_val(sv.subrange(0, 4));
            let m = spec_digits_val(sv.subrange(4, 6));
            let d = spec_digits_val(sv.subrange(6, 8));
            &&& (r is Some <==> spec_valid_yyyymmdd(sv) && spec_walk_ok(y, m, d, days as nat))
            &&& (r matches Some(list) ==> list@.len() == days && list@.map_values(
                |t: String| t@,
            ) == spec_dates_back(y, m, d, days as nat))
        }),
{
    let parsed = match parse_yyyymmdd(today_yyyymmdd) {
        Some(x) => x,
        None => {
            return None;
        },
    };
    let ghost y0 = parsed.0 as int;
    let ghost m0 = parsed.1 as int;
    let ghost d0 = parsed.2 as int;
    let mut y = parsed.0;
    let mut m = parsed.1;
    let mut d = parsed.2;
    let mut out: Vec<String> = Vec::new();
    let mut k: u32 = 0;
    proof {
        assert(out@.map_values(|t: String| t@) =~= Seq::<Seq<char>>::empty());
    }
    while k < days
        invariant
            out@.len() == k <= days,
            1 <= m <= 12,
            1 <= d <= 31,
            spec_valid_yyyymmdd(today_yyyymmdd@),
            y0 == spec_digits_val(today_yyyymmdd@.subrange(0, 4)),
            m0 == spec_digits_val(today_yyyymmdd@.subrange(4, 6)),
            d0 == spec_digits_val(today_yyyymmdd@.subrange(6, 8)),
            spec_dates_back(y0, m0, d0, days as nat) == out@.map_values(|t: String| t@)
                + spec_dates_back(y as int, m as int, d as int, (days - k) as nat),
            spec_walk_ok(y0, m0, d0, days as nat) == spec_walk_ok(
                y as int,
                m as int,
                d as int,
                (days - k) as nat,
            ),
        decreases days - k,
    {
        if y == 0 {
            proof {
                assert(!spec_walk_ok(y as int, m as int, d as int, (days - k) as nat));
            }
            return None;
        }
        let mut date = padded(y, 4);
        let mm = padded(m, 2);
        let dd = padded(d, 2);
        crate::text::push_all(&mut date, &mm);
        crate::text::push_all(&mut date, &dd);
        let ghost before = out@.map_values(|t: String| t@);
        out.push(chars_to_string(&date));
        proof {
            assert(out@.map_values(|t: String| t@) =~= before.push(
                spec_date_string(y as int, m as int, d as int),
            ));
        }
        let prev = previous_day(y, m, d);
        proof {
            assert(spec_dates_back(y as int, m as int, d as int, (days - k) as nat)
                == seq![spec_date_string(y as int, m as int, d as int)] + spec_dates_back(
                prev.0 as int,
                prev.1 as int,
                prev.2 as int,
                (days - k - 1) as nat,
            ));
            assert(spec_dates_back(y0, m0, d0, days as nat) =~= out@.map_values(|t: String| t@)
                + spec_dates_back(
                prev.0 as int,
                prev.1 as int,
                prev.2 as int,
                (days - k - 1) as nat,
            ));
        }
        y = prev.0;
        m = prev.1;
        d = prev.2;
        k = k + 1;
    }
    proof {
        assert(spec_dates_back(y0, m0, d0, days as nat) =~= out@.map_values(|t: String| t@));
    }
    Some(out)
}

/// A text cut to `cap` characters, a single ellipsis marking the cut.
pub open spec fn spec_truncated(s: Seq<char>, cap: int) -> Seq<char> {
    if s.len() <= cap {
        s
    } else {
        s.subrange(0, cap) + seq!['\u{2026}']
    }
}

fn truncated_chars(v: &Vec<char>, cap: usize) -> (r: Vec<char>)
    ensures
        r@ == spec_truncated(v@, cap as int),
{
    if v.len() <= cap {
        let r = v.clone();
        proof {
            assert(r@ =~= v@);
        }
        r
    } else {
        let mut r = sub_chars(v, 0, cap);
        r.push('\u{2026}');
        proof {
            assert(r@ =~= spec_truncated(v@, cap as int));
        }
        r
    }
}

/// One daily note's block in the memory section: nothing when the note is
/// blank, else a dated header and the trimmed note cut to 2000 characters.
pub open spec fn spec_note_block(date: Seq<char>, note: Seq<char>) -> Seq<char> {
    if spec_trim(note).len() == 0 {
        Seq::<char>::empty()
    } else {
        "\n--- "@ + date + " ---\n"@ + spec_truncated(spec_trim(note), 2000)
    }
}

pub open spec fn spec_note_blocks(notes: Seq<(Seq<char>, Seq<char>)>) -> Seq<char>
    decreases notes.len(),
{
    if notes.len() == 0 {
        Seq::<char>::empty()
    } else {
        spec_note_blocks(notes.drop_last()) + spec_note_block(
            notes.last().0,
            notes.last().1,
        )
    }
}

/// The whole memory section: the trimmed long-term note cut to 4000
/// characters when it has any text, then the daily-note blocks in the
/// given order, blank notes skipped.
pub open spec fn spec_memory_snippet(memory: Seq<char>, notes: Seq<(Seq<char>, Seq<char>)>) -> Seq<
    char,
> {
    (if spec_trim(memory).len() == 0 {
        Seq::<char>::empty()
    } else {
        spec_truncated(spec_trim(memory), 4000) + "\n"@
    }) + spec_note_blocks(notes)
}

/// Compose the memory section from the long-term note's text and the
/// recent daily notes, each beside its date, oldest last as handed in.
pub fn build_memory_snippet(memory: &str, notes: &Vec<(String, String)>) -> (r: String)
    ensures
        r@ == spec_memory_snippet(
            memory@,
            notes@.map_values(|p: (String, String)| (p.0@, p.1@)),
        ),
{
    let mut buf = String::new();
    let mv = str_to_chars(memory);
    let mt = trim_chars(&mv);
    if mt.len() > 0 {
        let cut = truncated_chars(&mt, 4000);
        let cs = chars_to_string(&cut);
        buf.append(cs.as_str());
        buf.append("\n");
    }
    let ghost head = buf@;
    let ghost nviews = notes@.map_values(|p: (String, String)| (p.0@, p.1@));
    proof {
        assert(head =~= (if spec_trim(memory@).len() == 0 {
            Seq::<char>::empty()
        } else {
            spec_truncated(spec_trim(memory@), 4000) + "\n"@
        }));
        assert(nviews.subrange(0, 0) =~= Seq::<(Seq<char>, Seq<char>)>::empty());
        assert(buf@ =~= head + spec_note_blocks(nviews.subrange(0, 0)));
    }
    let mut i: usize = 0;
    while i < notes.len()
        invariant
            0 <= i <= notes@.len(),
            nviews == notes@.map_values(|p: (String, String)| (p.0@, p.1@)),
            head == (if spec_trim(memory@).len() == 0 {
                Seq::<char>::empty()
            } else {
                spec_truncated(spec_trim(memory@), 4000) + "\n"@
            }),
            buf@ == head + spec_note_blocks(nviews.subrange(0, i as int)),
        decreases notes@.len() - i,
    {
        let nv = str_to_chars(notes[i].1.as_str());
        let nt = trim_chars(&nv);
        if nt.len() > 0 {
            buf.append("\n--- ");
            buf.append(notes[i].0.as_str());
            buf.append(" ---\n");
            let cut = truncated_chars(&nt, 2000);
            let cs = chars_to_string(&cut);
            buf.append(cs.as_str());
        }
        proof {
            let cur = nviews.subrange(0, i + 1 as int);
            assert(cur.drop_last() =~= nviews.subrange(0, i as int));
            assert(cur.last() == nviews[i as int]);
            assert(buf@ =~= head + spec_note_blocks(cur));
        }
        i = i + 1;
    }
    proof {
        assert(nviews.subrange(0, nviews.len() as int) =~= nviews);
        assert(buf@ =~= spec_memory_snippet(memory@, nviews));
    }
    buf
}

} // verus!
