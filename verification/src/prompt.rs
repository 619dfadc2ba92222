//! The system prompt and the message list sent with each model call.
//!
//! Section order is fixed: identity line with the clock, bootstrap files,
//! memory snippet, skills, tools, then the current chat and its summary.
//! Any section may be empty; the identity line never is.

use vstd::prelude::*;

use crate::calendar::{
    civil_from_unix, spec_day_of, spec_dow_of, spec_hour_of, spec_in_range, spec_minute_of,
    spec_month_of, spec_year_of,
};
use crate::messages::{Message, Role};
use crate::session::{spec_msg_view, CallView, MsgView};
use crate::text::{is_space_char, spec_trim, str_to_chars, trim_chars, chars_to_string};
use crate::workspace::spec_padded;

verus! {

pub open spec fn spec_weekday_name(dow: int) -> Seq<char> {
    if dow == 0 {
        "Sunday"@
    } else if dow == 1 {
        "Monday"@
    } else if dow == 2 {
        "Tuesday"@
    } else if dow == 3 {
        "Wednesday"@
    } else if dow == 4 {
        "Thursday"@
    } else if dow == 5 {
        "Friday"@
    } else {
        "Saturday"@
    }
}

pub open spec fn spec_sec_of(t: u64) -> int {
    ((t as int % 86400) % 3600) % 60
}

/// The identity line: who the assistant is, the wall clock, the workspace.
pub open spec fn spec_identity_line(workspace: Seq<char>, now: u64) -> Seq<char> {
    "You are iCrab, a minimal personal AI assistant. Current time: "@ + spec_weekday_name(
        spec_dow_of(now),
    ) + " "@ + spec_padded(spec_year_of(now) as u64, 4) + "-"@ + spec_padded(
        spec_month_of(now) as u64,
        2,
    ) + "-"@ + spec_padded(spec_day_of(now) as u64, 2) + " "@ + spec_padded(
        spec_hour_of(now) as u64,
        2,
    ) + ":"@ + spec_padded(spec_minute_of(now) as u64, 2) + ":"@ + spec_padded(
        spec_sec_of(now) as u64,
        2,
    ) + " UTC. Unix: "@ + crate::text::spec_u64_digits(now) + ". Workspace: "@ + workspace
        + ".\n\n"@
}

/// One bootstrap file's block, when its trimmed content is non-empty.
pub open spec fn spec_bootstrap_block(name: Seq<char>, content: Seq<char>) -> Seq<char> {
    if spec_trim(content).len() > 0 {
        "--- "@ + name + " ---\n"@ + spec_trim(content) + "\n\n"@
    } else {
        Seq::<char>::empty()
    }
}

pub open spec fn spec_bootstrap_blocks(files: Seq<(Seq<char>, Seq<char>)>) -> Seq<char>
    decreases files.len(),
{
    if files.len() == 0 {
        Seq::<char>::empty()
    } else {
        spec_bootstrap_blocks(files.drop_last()) + spec_bootstrap_block(
            files.last().0,
            files.last().1,
        )
    }
}

pub open spec fn spec_tool_lines(tools: Seq<Seq<char>>) -> Seq<char>
    decreases tools.len(),
{
    if tools.len() == 0 {
        Seq::<char>::empty()
    } else {
        spec_tool_lines(tools.drop_last()) + tools.last() + "\n"@
    }
}

/// The whole system prompt before trimming.
pub open spec fn spec_raw_prompt(
    workspace: Seq<char>,
    now: u64,
    files: Seq<(Seq<char>, Seq<char>)>,
    memory: Seq<char>,
    skills: Seq<char>,
    tools: Seq<Seq<char>>,
    chat_id: Option<Seq<char>>,
    summary: Seq<char>,
) -> Seq<char> {
    spec_identity_line(workspace, now) + spec_bootstrap_blocks(files) + (if memory.len() > 0 {
        "--- Memory ---\n"@ + memory + "\n\n"@
    } else {
        Seq::<char>::empty()
    }) + (if skills.len() > 0 {
        "--- Skills ---\n"@ + skills + "\n\n"@
    } else {
        Seq::<char>::empty()
    }) + "--- Tools ---\n"@ + (if tools.len() == 0 {
        "No tools registered.\n"@
    } else {
        spec_tool_lines(tools)
    }) + (match chat_id {
        Some(c) => "\nCurrent chat: "@ + c + ".\n"@,
        None => Seq::<char>::empty(),
    }) + (if summary.len() > 0 {
        "\nSession summary: "@ + summary + "\n"@
    } else {
        Seq::<char>::empty()
    })
}

/// The system prompt: the raw sections, trimmed.
pub open spec fn spec_system_prompt(
    workspace: Seq<char>,
    now: u64,
    files: Seq<(Seq<char>, Seq<char>)>,
    memory: Seq<char>,
    skills: Seq<char>,
    tools: Seq<Seq<char>>,
    chat_id: Option<Seq<char>>,
    summary: Seq<char>,
) -> Seq<char> {
    spec_trim(spec_raw_prompt(workspace, now, files, memory, skills, tools, chat_id, summary))
}

fn weekday_name(dow: u8) -> (r: &'static str)
    ensures
        r@ == spec_weekday_name(dow as int),
{
    if dow == 0 {
        "Sunday"
    } else if dow == 1 {
        "Monday"
    } else if dow == 2 {
        "Tuesday"
    } else if dow == 3 {
        "Wednesday"
    } else if dow == 4 {
        "Thursday"
    } else if dow == 5 {
        "Friday"
    } else {
        "Saturday"
    }
}

fn push_padded(buf: &mut String, n: u64, width: usize)
    ensures
        final(buf)@ == old(buf)@ + spec_padded(n, width as int),
{
    let p = crate::workspace::padded(n, width);
    let s = chars_to_string(&p);
    buf.append(s.as_str());
}

/// Build the system prompt from what the caller read off disk and out of
/// the catalog.
#[verifier::rlimit(100)]
pub fn build_system_prompt(
    workspace: &str,
    now: u64,
    files: &Vec<(String, String)>,
    memory: &str,
    skills: &str,
    tools: &Vec<String>,
    chat_id: &Option<String>,
    summary: &str,
) -> (r: String)
    requires
        spec_in_range(now),
    ensures
        r@ == spec_system_prompt(
            workspace@,
            now,
            files@.map_values(|f: (String, String)| (f.0@, f.1@)),
            memory@,
            skills@,
            tools@.map_values(|t: String| t@),
            match chat_id {
                Some(c) => Some(c@),
                None => None,
            },
            summary@,
        ),
{
    let c = match civil_from_unix(now) {
        Some(c) => c,
        None => {
            proof {
                assert(false);
            }
            crate::calendar::Civil { year: 1970, month: 1, day: 1, hour: 0, minute: 0, dow: 4 }
        },
    };
    let mut buf = String::new();
    buf.append("You are iCrab, a minimal personal AI assistant. Current time: ");
    buf.append(weekday_name(c.dow));
    buf.append(" ");
    push_padded(&mut buf, c.year as u64, 4);
    buf.append("-");
    push_padded(&mut buf, c.month as u64, 2);
    buf.append("-");
    push_padded(&mut buf, c.day as u64, 2);
    buf.append(" ");
    push_padded(&mut buf, c.hour as u64, 2);
    buf.append(":");
    push_padded(&mut buf, c.minute as u64, 2);
    buf.append(":");
    let sec = (now % 86400) % 3600 % 60;
    push_padded(&mut buf, sec, 2);
    buf.append(" UTC. Unix: ");
    let unix_digits = crate::text::u64_to_chars(now);
    let unix_s = chars_to_string(&unix_digits);
    buf.append(unix_s.as_str());
    buf.append(". Workspace: ");
    buf.append(workspace);
    buf.append(".\n\n");
    let ghost fviews = files@.map_values(|f: (String, String)| (f.0@, f.1@));
    proof {
        assert(buf@ =~= spec_identity_line(workspace@, now));
        assert(fviews.subrange(0, 0) =~= Seq::<(Seq<char>, Seq<char>)>::empty());
    }
    let ghost ident = spec_identity_line(workspace@, now);
    let mut i: usize = 0;
    while i < files.len()
        invariant
            0 <= i <= files@.len(),
            fviews == files@.map_values(|f: (String, String)| (f.0@, f.1@)),
            ident == spec_identity_line(workspace@, now),
            buf@ == ident + spec_bootstrap_blocks(fviews.subrange(0, i as int)),
        decreases files@.len() - i,
    {
        let content_chars = str_to_chars(files[i].1.as_str());
        let trimmed = trim_chars(&content_chars);
        if trimmed.len() > 0 {
            buf.append("--- ");
            buf.append(files[i].0.as_str());
            buf.append(" ---\n");
            let t = chars_to_string(&trimmed);
            buf.append(t.as_str());
            buf.append("\n\n");
        }
        proof {
            let cur = fviews.subrange(0, i + 1 as int);
            assert(cur.drop_last() =~= fviews.subrange(0, i as int));
            assert(cur.last() == fviews[i as int]);
            assert(buf@ =~= ident + spec_bootstrap_blocks(cur));
        }
        i = i + 1;
    }
    proof {
        assert(fviews.subrange(0, fviews.len() as int) =~= fviews);
    }
    if !memory.is_empty() {
        buf.append("--- Memory ---\n");
        buf.append(memory);
        buf.append("\n\n");
    }
    if !skills.is_empty() {
        buf.append("--- Skills ---\n");
        buf.append(skills);
        buf.append("\n\n");
    }
    buf.append("--- Tools ---\n");
    let ghost tviews = tools@.map_values(|t: String| t@);
    if tools.len() == 0 {
        buf.append("No tools registered.\n");
    } else {
        let ghost head = buf@;
        proof {
            assert(tviews.subrange(0, 0) =~= Seq::<Seq<char>>::empty());
            assert(buf@ =~= head + spec_tool_lines(tviews.subrange(0, 0)));
        }
        let mut j: usize = 0;
        while j < tools.len()
            invariant
                0 <= j <= tools@.len(),
                tviews == tools@.map_values(|t: String| t@),
                buf@ == head + spec_tool_lines(tviews.subrange(0, j as int)),
            decreases tools@.len() - j,
        {
            buf.append(tools[j].as_str());
            buf.append("\n");
            proof {
                let cur = tviews.subrange(0, j + 1 as int);
                assert(cur.drop_last() =~= tviews.subrange(0, j as int));
                assert(cur.last() == tviews[j as int]);
                assert(buf@ =~= head + spec_tool_lines(cur));
            }
            j = j + 1;
        }
        proof {
            assert(tviews.subrange(0, tviews.len() as int) =~= tviews);
        }
    }
    match chat_id {
        Some(cid) => {
            buf.append("\nCurrent chat: ");
            buf.append(cid.as_str());
            buf.append(".\n");
        },
        None => {},
    }
    if !summary.is_empty() {
        buf.append("\nSession summary: ");
        buf.append(summary);
        buf.append("\n");
    }
    proof {
        assert(buf@ =~= spec_raw_prompt(
            workspace@,
            now,
            fviews,
            memory@,
            skills@,
            tviews,
            match chat_id {
                Some(c) => Some(c@),
                None => None,
            },
            summary@,
        ));
    }
    let chars = str_to_chars(buf.as_str());
    let trimmed = trim_chars(&chars);
    chars_to_string(&trimmed)
}

/// The subagent's system prompt: the fixed preamble, then a skills block
/// when any skills text exists, then a tools block when any tool line
/// exists.
pub open spec fn spec_subagent_prompt(skills: Seq<char>, tool_lines: Seq<Seq<char>>) -> Seq<char> {
    "You are a subagent. Complete the given task independently and report the result.\nYou have access to tools - use them as needed to complete your task.\nAfter completing the task, provide a clear summary of what was done.\nSend your result to the user with the message tool.\n"@
        + (if skills.len() > 0 {
        "\n--- Skills ---\n"@ + skills + "\n"@
    } else {
        Seq::<char>::empty()
    }) + (if tool_lines.len() > 0 {
        "\n--- Tools ---\n"@ + spec_tool_lines(tool_lines)
    } else {
        Seq::<char>::empty()
    })
}

/// Build the subagent's system prompt from the skills summary and the
/// tool summary lines.
pub fn build_subagent_prompt(skills: &str, tool_lines: &Vec<String>) -> (r: String)
    ensures
        r@ == spec_subagent_prompt(skills@, tool_lines@.map_values(|t: String| t@)),
{
    let mut buf = String::new();
    buf.append(
        "You are a subagent. Complete the given task independently and report the result.\nYou have access to tools - use them as needed to complete your task.\nAfter completing the task, provide a clear summary of what was done.\nSend your result to the user with the message tool.\n",
    );
    if !skills.is_empty() {
        buf.append("\n--- Skills ---\n");
        buf.append(skills);
        buf.append("\n");
    }
    let ghost tviews = tool_lines@.map_values(|t: String| t@);
    if tool_lines.len() > 0 {
        buf.append("\n--- Tools ---\n");
        let ghost head = buf@;
        proof {
            assert(tviews.subrange(0, 0) =~= Seq::<Seq<char>>::empty());
            assert(buf@ =~= head + spec_tool_lines(tviews.subrange(0, 0)));
        }
        let mut j: usize = 0;
        while j < tool_lines.len()
            invariant
                0 <= j <= tool_lines@.len(),
                tviews == tool_lines@.map_values(|t: String| t@),
                buf@ == head + spec_tool_lines(tviews.subrange(0, j as int)),
            decreases tool_lines@.len() - j,
        {
            buf.append(tool_lines[j].as_str());
            buf.append("\n");
            proof {
                let cur = tviews.subrange(0, j + 1 as int);
                assert(cur.drop_last() =~= tviews.subrange(0, j as int));
                assert(cur.last() == tviews[j as int]);
                assert(buf@ =~= head + spec_tool_lines(cur));
            }
            j = j + 1;
        }
        proof {
            assert(tviews.subrange(0, tviews.len() as int) =~= tviews);
        }
    }
    proof {
        assert(buf@ =~= spec_subagent_prompt(skills@, tviews));
    }
    buf
}

/// The full message list for one turn: the system prompt, the history
/// verbatim, then the new user message.
pub fn build_messages(
    system_prompt: String,
    history: &Vec<Message>,
    user_message: &str,
) -> (r: Vec<Message>)
    ensures
        r@.map_values(|m: Message| spec_msg_view(m)) == seq![
            (
                Role::System,
                system_prompt@,
                None::<Seq<char>>,
                None::<Seq<CallView>>,
            ),
        ] + history@.map_values(|m: Message| spec_msg_view(m)) + seq![
            (Role::User, user_message@, None::<Seq<char>>, None::<Seq<CallView>>),
        ],
{
    let ghost hviews = history@.map_values(|m: Message| spec_msg_view(m));
    let mut out: Vec<Message> = Vec::new();
    let sys = Message {
        role: Role::System,
        content: system_prompt,
        tool_call_id: None,
        tool_calls: None,
    };
    let ghost sys_view = spec_msg_view(sys);
    out.push(sys);
    proof {
        assert(out@.map_values(|m: Message| spec_msg_view(m)) =~= seq![sys_view]);
        assert(hviews.subrange(0, 0) =~= Seq::<MsgView>::empty());
        assert(out@.map_values(|m: Message| spec_msg_view(m)) =~= seq![sys_view]
            + hviews.subrange(0, 0));
    }
    let mut i: usize = 0;
    while i < history.len()
        invariant
            0 <= i <= history@.len(),
            hviews == history@.map_values(|m: Message| spec_msg_view(m)),
            out@.map_values(|m: Message| spec_msg_view(m)) == seq![sys_view] + hviews.subrange(
                0,
                i as int,
            ),
        decreases history@.len() - i,
    {
        let ghost pre = out@.map_values(|m: Message| spec_msg_view(m));
        out.push(history[i].clone());
        proof {
            assert(out@.map_values(|m: Message| spec_msg_view(m)) =~= pre.push(hviews[i as int]));
            assert(seq![sys_view] + hviews.subrange(0, i + 1 as int) =~= (seq![sys_view]
                + hviews.subrange(0, i as int)).push(hviews[i as int]));
        }
        i = i + 1;
    }
    proof {
        assert(hviews.subrange(0, hviews.len() as int) =~= hviews);
    }
    let ghost pre = out@.map_values(|m: Message| spec_msg_view(m));
    let user = Message {
        role: Role::User,
        content: user_message.to_owned(),
        tool_call_id: None,
        tool_calls: None,
    };
    let ghost user_view = spec_msg_view(user);
    out.push(user);
    proof {
        assert(out@.map_values(|m: Message| spec_msg_view(m)) =~= pre.push(user_view));
        assert(seq![sys_view] + hviews + seq![user_view] =~= (seq![sys_view] + hviews).push(
            user_view,
        ));
    }
    out
}

/// With no bootstrap files, no memory, no skills and no tools, and no chat
/// or summary, the system prompt still opens with the identity line.
pub proof fn lemma_empty_prompt_keeps_identity(workspace: Seq<char>, now: u64)
    ensures
        crate::text::spec_starts_with(
            spec_system_prompt(
                workspace,
                now,
                Seq::<(Seq<char>, Seq<char>)>::empty(),
                Seq::<char>::empty(),
                Seq::<char>::empty(),
                Seq::<Seq<char>>::empty(),
                None,
                Seq::<char>::empty(),
            ),
            "You are iCrab, a minimal personal AI assistant. Current time: "@,
        ),
{
    let raw = spec_raw_prompt(
        workspace,
        now,
        Seq::<(Seq<char>, Seq<char>)>::empty(),
        Seq::<char>::empty(),
        Seq::<char>::empty(),
        Seq::<Seq<char>>::empty(),
        None,
        Seq::<char>::empty(),
    );
    let p = "You are iCrab, a minimal personal AI assistant. Current time: "@;
    let tail = "--- Tools ---\nNo tools registered.\n"@;
    reveal_strlit("You are iCrab, a minimal personal AI assistant. Current time: ");
    reveal_strlit("--- Tools ---\n");
    reveal_strlit("No tools registered.\n");
    assert(raw =~= spec_identity_line(workspace, now) + "--- Tools ---\n"@
        + "No tools registered.\n"@);
    assert forall|k: int| 0 <= k < p.len() implies raw[k] == p[k] by {
        assert(spec_identity_line(workspace, now)[k] == p[k]);
    }
    assert(raw[0] == 'Y');
    assert(!is_space_char(raw[0]));
    assert(raw[raw.len() - 2] == '.') by {
        assert(raw[raw.len() - 2] == "No tools registered.\n"@[19]);
    }
    crate::text::lemma_leading_ws_bounds(raw);
    crate::text::lemma_trailing_ws_bounds(raw);
    assert(crate::text::spec_leading_ws(raw) == 0);
    assert(crate::text::spec_trailing_ws(raw) <= 1) by {
        if crate::text::spec_trailing_ws(raw) >= 2 {
            assert(is_space_char(raw[raw.len() - 2]));
        }
    }
    let t = spec_trim(raw);
    assert(raw.len() >= p.len() + 35);
    assert(t.len() >= p.len());
    assert forall|k: int| 0 <= k < p.len() implies t[k] == p[k] by {
        assert(t[k] == raw[k]);
    }
    assert(t.subrange(0, p.len() as int) =~= p);
}

} // verus!
