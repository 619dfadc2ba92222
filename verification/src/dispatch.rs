//! Dispatcher decisions: which serving entry a message takes, what the
//! heartbeat runner enqueues, and whether the final reply goes out at all.

use vstd::prelude::*;

use crate::channel::{spec_inbound_view, InboundMsg, OutboundMsg};
use crate::tool_result::ToolResult;
use crate::text::str_to_chars;

verus! {

/// Whether a message came from the heartbeat runner and therefore takes
/// the stateless entry.
pub fn is_heartbeat(channel: &str) -> (r: bool)
    ensures
        r == (channel@ == "heartbeat"@),
{
    let a = str_to_chars(channel);
    let b = str_to_chars("heartbeat");
    crate::text::chars_eq(&a, &b)
}

/// The text of one heartbeat task's dispatcher message.
pub fn heartbeat_text(task: &str) -> (r: String)
    ensures
        r@ == "[Heartbeat Task] "@ + task@,
{
    let mut r = String::new();
    r.append("[Heartbeat Task] ");
    r.append(task);
    r
}

/// The inbound view of one heartbeat task for a chat.
pub open spec fn spec_heartbeat_view(chat_id: i64, task: Seq<char>) -> (
    int,
    int,
    Seq<char>,
    Seq<char>,
) {
    (chat_id as int, 0, "[Heartbeat Task] "@ + task, "heartbeat"@)
}

/// One dispatcher message per task, in file order, each with channel
/// `heartbeat`, user id zero, and the task text behind the fixed prefix.
pub fn make_heartbeat_messages(chat_id: i64, tasks: &Vec<String>) -> (r: Vec<InboundMsg>)
    ensures
        r@.map_values(|m: InboundMsg| spec_inbound_view(m)) == tasks@.map_values(
            |t: String| spec_heartbeat_view(chat_id, t@),
        ),
{
    let ghost goal = tasks@.map_values(|t: String| spec_heartbeat_view(chat_id, t@));
    let mut out: Vec<InboundMsg> = Vec::new();
    let mut i: usize = 0;
    proof {
        assert(out@.map_values(|m: InboundMsg| spec_inbound_view(m)) =~= goal.subrange(0, 0));
    }
    while i < tasks.len()
        invariant
            0 <= i <= tasks@.len(),
            goal == tasks@.map_values(|t: String| spec_heartbeat_view(chat_id, t@)),
            out@.map_values(|m: InboundMsg| spec_inbound_view(m)) == goal.subrange(0, i as int),
        decreases tasks@.len() - i,
    {
        let ghost pre = out@.map_values(|m: InboundMsg| spec_inbound_view(m));
        let m = InboundMsg {
            chat_id,
            user_id: 0,
            text: heartbeat_text(tasks[i].as_str()),
            channel: "heartbeat".to_owned(),
        };
        out.push(m);
        proof {
            assert(out@.map_values(|x: InboundMsg| spec_inbound_view(x)) =~= pre.push(
                goal[i as int],
            ));
            assert(goal.subrange(0, i + 1 as int) =~= goal.subrange(0, i as int).push(
                goal[i as int],
            ));
        }
        i = i + 1;
    }
    proof {
        assert(goal.subrange(0, goal.len() as int) =~= goal);
    }
    out
}

/// The reply the dispatcher sends the user when a turn fails.
pub fn error_reply(detail: &str) -> (r: String)
    ensures
        r@ == "Error: "@ + detail@ + "."@,
{
    let mut r = String::new();
    r.append("Error: ");
    r.append(detail);
    r.append(".");
    r
}

/// Decide what leaves the dispatcher at the end of a turn.  A reply a tool
/// already delivered is suppressed, so the user never sees it twice; a
/// heartbeat turn with no known chat is dropped; everything else goes out
/// on the incoming chat and channel.
pub fn reply_decision(chat_id: i64, channel: &str, delivered: bool, reply: String) -> (r: Option<
    OutboundMsg,
>)
    ensures
        delivered ==> r is None,
        !delivered && channel@ == "heartbeat"@ && chat_id == 0 ==> r is None,
        !delivered && !(channel@ == "heartbeat"@ && chat_id == 0) ==> (r matches Some(m)
            && m.chat_id == chat_id && m.text@ == reply@ && m.channel@ == channel@),
{
    if delivered {
        return None;
    }
    if is_heartbeat(channel) && chat_id == 0 {
        return None;
    }
    Some(OutboundMsg { chat_id, text: reply, channel: channel.to_owned() })
}

/// Decide what a tool's result sends at once, before the loop goes on: a
/// non-silent `for_user` text goes out on the incoming chat, on the
/// incoming channel or the default; everything else sends nothing now
/// (`for_llm` is recorded separately either way).
pub fn tool_reply(result: &ToolResult, chat_id: i64, channel: &Option<String>) -> (r: Option<
    OutboundMsg,
>)
    ensures
        r is Some <==> (result.for_user is Some && !result.silent),
        r matches Some(m) ==> (result.for_user matches Some(t) && m.chat_id == chat_id && m.text@
            == t@ && m.channel@ == (match channel {
            Some(c) => c@,
            None => "telegram"@,
        })),
{
    match &result.for_user {
        Some(t) if !result.silent => {
            let ch = match channel {
                Some(c) => c.clone(),
                None => "telegram".to_owned(),
            };
            Some(OutboundMsg { chat_id, text: t.clone(), channel: ch })
        },
        _ => None,
    }
}

} // verus!
