//! Session history summarization: the decisions and text shaping around
//! compressing older turns into the session summary.
//!
//! The model calls themselves belong to the caller; this module decides
//! when to summarize, which messages qualify, and how the pieces of the
//! produced summary are put together.

use vstd::prelude::*;

use crate::messages::{Message, Role};
use crate::session::{spec_msg_view, MsgView};
use crate::text::str_to_chars;

verus! {

/// History length beyond which a summarization pass runs.
pub const SUMMARIZE_THRESHOLD: usize = 20;

/// Messages kept verbatim at the end of the history.
pub const KEEP_RECENT_MESSAGES: usize = 4;

/// Largest per-message token estimate fed to the summarizer: half of the
/// default context window of 128000 tokens.
pub const MAX_SUMMARY_INPUT_TOKENS: usize = 64000;

/// Batch size beyond which summarization splits into two passes.
pub const MULTI_PASS_THRESHOLD: usize = 10;

/// Whether the history is long enough to summarize.
pub fn should_summarize(history: &Vec<Message>) -> (r: bool)
    ensures
        r == (history@.len() > 20),
{
    history.len() > SUMMARIZE_THRESHOLD
}

/// Fast token estimate: one token per three characters.
pub fn estimate_tokens(text: &str) -> (r: usize)
    ensures
        r == text@.len() / 3,
{
    let v = str_to_chars(text);
    v.len() / 3
}

/// A message the summarizer accepts: user or assistant, within the size
/// budget.
pub open spec fn spec_summarizable(m: MsgView, max_tokens: int) -> bool {
    (m.0 is User || m.0 is Assistant) && m.1.len() / 3 <= max_tokens
}

/// A message skipped for size alone.
pub open spec fn spec_oversize(m: MsgView, max_tokens: int) -> bool {
    (m.0 is User || m.0 is Assistant) && m.1.len() / 3 > max_tokens
}

/// Keep the user and assistant messages within the size budget; report
/// whether any qualifying message was skipped for size.
pub fn filter_valid_messages(messages: &Vec<Message>, max_tokens: usize) -> (r: (
    Vec<Message>,
    bool,
))
    ensures
        r.0@.map_values(|m: Message| spec_msg_view(m)) == messages@.map_values(
            |m: Message| spec_msg_view(m),
        ).filter(|m: MsgView| spec_summarizable(m, max_tokens as int)),
        r.1 == exists|i: int|
            #![trigger spec_msg_view(messages@[i])]
            0 <= i < messages@.len() && spec_oversize(
                spec_msg_view(messages@[i]),
                max_tokens as int,
            ),
{
    let ghost views = messages@.map_values(|m: Message| spec_msg_view(m));
    let mut valid: Vec<Message> = Vec::new();
    let mut omitted = false;
    let mut i: usize = 0;
    proof {
        reveal(Seq::filter);
        assert(views.subrange(0, 0) =~= Seq::<MsgView>::empty());
    }
    while i < messages.len()
        invariant
            0 <= i <= messages@.len(),
            views == messages@.map_values(|m: Message| spec_msg_view(m)),
            valid@.map_values(|m: Message| spec_msg_view(m)) == views.subrange(0, i as int).filter(
                |m: MsgView| spec_summarizable(m, max_tokens as int),
            ),
            omitted == exists|k: int|
                0 <= k < i && spec_oversize(#[trigger] views[k], max_tokens as int),
        decreases messages@.len() - i,
    {
        let m = &messages[i];
        let role_ok = match m.role {
            Role::User => true,
            Role::Assistant => true,
            _ => false,
        };
        let ghost pre = valid@.map_values(|x: Message| spec_msg_view(x));
        if role_ok {
            let tokens = estimate_tokens(m.content.as_str());
            if tokens > max_tokens {
                omitted = true;
                proof {
                    assert(spec_oversize(views[i as int], max_tokens as int));
                }
            } else {
                valid.push(messages[i].clone());
                proof {
                    assert(valid@.map_values(|x: Message| spec_msg_view(x)) =~= pre.push(
                        views[i as int],
                    ));
                }
            }
        }
        proof {
            reveal(Seq::filter);
            let prefix = views.subrange(0, i as int);
            let cur = views.subrange(0, i + 1 as int);
            assert(cur.drop_last() =~= prefix);
            assert(cur.last() == views[i as int]);
        }
        i = i + 1;
    }
    proof {
        assert(views.subrange(0, views.len() as int) =~= views);
        if omitted {
            let k = choose|k: int|
                0 <= k < messages@.len() && spec_oversize(#[trigger] views[k], max_tokens as int);
            assert(spec_msg_view(messages@[k]) == views[k]);
        } else {
            assert forall|i: int|
                0 <= i < messages@.len() implies !spec_oversize(
                spec_msg_view(messages@[i]),
                max_tokens as int,
            ) by {
                assert(views[i] == spec_msg_view(messages@[i]));
            }
        }
    }
    (valid, omitted)
}

/// The formatted line block of one message: its role label, the content,
/// and a blank line.
pub open spec fn spec_format_one(m: MsgView) -> Seq<char> {
    if m.0 is User {
        "User: "@ + m.1 + "\n\n"@
    } else if m.0 is Assistant {
        "Assistant: "@ + m.1 + "\n\n"@
    } else {
        Seq::<char>::empty()
    }
}

pub open spec fn spec_format_messages(ms: Seq<MsgView>) -> Seq<char>
    decreases ms.len(),
{
    if ms.len() == 0 {
        Seq::<char>::empty()
    } else {
        spec_format_messages(ms.drop_last()) + spec_format_one(ms.last())
    }
}

/// Lay user and assistant messages out for the summarization prompt, one
/// `Role: content` block per message.
pub fn format_messages_for_summary(messages: &Vec<Message>) -> (r: String)
    ensures
        r@ == spec_format_messages(messages@.map_values(|m: Message| spec_msg_view(m))),
{
    let ghost views = messages@.map_values(|m: Message| spec_msg_view(m));
    let mut buf = String::new();
    let mut i: usize = 0;
    proof {
        assert(views.subrange(0, 0) =~= Seq::<MsgView>::empty());
    }
    while i < messages.len()
        invariant
            0 <= i <= messages@.len(),
            views == messages@.map_values(|m: Message| spec_msg_view(m)),
            buf@ == spec_format_messages(views.subrange(0, i as int)),
        decreases messages@.len() - i,
    {
        let m = &messages[i];
        match m.role {
            Role::User => {
                buf.append("User: ");
                buf.append(m.content.as_str());
                buf.append("\n\n");
            },
            Role::Assistant => {
                buf.append("Assistant: ");
                buf.append(m.content.as_str());
                buf.append("\n\n");
            },
            _ => {},
        }
        proof {
            let cur = views.subrange(0, i + 1 as int);
            assert(cur.drop_last() =~= views.subrange(0, i as int));
            assert(cur.last() == views[i as int]);
        }
        i = i + 1;
    }
    proof {
        assert(views.subrange(0, views.len() as int) =~= views);
    }
    buf
}

/// What one summarization round should do, decided from the history
/// alone: nothing yet, a bare truncation, one summarizing pass, or two
/// passes over the halves of the qualifying batch.
pub enum SummarizePlan {
    /// The history is still short enough.
    TooShort,
    /// No message qualifies for the summarizer: truncate the history to
    /// this many messages and write no summary.
    NoValid { truncate_to: usize },
    /// Summarize this batch in one pass.
    OnePass { batch: Vec<Message> },
    /// Summarize each half separately, then merge the two summaries.
    TwoPass { first: Vec<Message>, second: Vec<Message> },
}

/// The messages one summarization round feeds the summarizer: all but the
/// last four of the history, kept to the user and assistant messages
/// within the size budget.
pub open spec fn spec_summary_batch(views: Seq<MsgView>) -> Seq<MsgView> {
    views.subrange(0, views.len() - 4).filter(|m: MsgView| spec_summarizable(m, 64000))
}

/// Decide one summarization round from the history: nothing under 21
/// messages; a bare truncation to 14 when no message qualifies; one pass
/// over a batch of up to 10 messages; otherwise two passes over the
/// batch's halves.
pub fn plan_summarize(history: &Vec<Message>) -> (r: SummarizePlan)
    ensures
        history@.len() <= 20 ==> r is TooShort,
        history@.len() > 20 ==> {
            let valid = spec_summary_batch(history@.map_values(|m: Message| spec_msg_view(m)));
            &&& valid.len() == 0 ==> (r matches SummarizePlan::NoValid { truncate_to }
                && truncate_to == 14)
            &&& 0 < valid.len() <= 10 ==> (r matches SummarizePlan::OnePass { batch }
                && batch@.map_values(|m: Message| spec_msg_view(m)) == valid)
            &&& valid.len() > 10 ==> (r matches SummarizePlan::TwoPass { first, second }
                && first@.map_values(|m: Message| spec_msg_view(m)) == valid.subrange(
                0,
                valid.len() as int / 2,
            ) && second@.map_values(|m: Message| spec_msg_view(m)) == valid.subrange(
                valid.len() as int / 2,
                valid.len() as int,
            ))
        },
{
    if history.len() <= SUMMARIZE_THRESHOLD {
        return SummarizePlan::TooShort;
    }
    let ghost views = history@.map_values(|m: Message| spec_msg_view(m));
    let end = history.len() - KEEP_RECENT_MESSAGES;
    let mut older: Vec<Message> = Vec::new();
    let mut i: usize = 0;
    proof {
        assert(older@.map_values(|m: Message| spec_msg_view(m)) =~= views.subrange(0, 0));
    }
    while i < end
        invariant
            0 <= i <= end,
            end == history@.len() - 4,
            views == history@.map_values(|m: Message| spec_msg_view(m)),
            older@.map_values(|m: Message| spec_msg_view(m)) == views.subrange(0, i as int),
        decreases end - i,
    {
        let ghost pre = older@.map_values(|m: Message| spec_msg_view(m));
        older.push(history[i].clone());
        proof {
            assert(older@.map_values(|m: Message| spec_msg_view(m)) =~= pre.push(
                views[i as int],
            ));
            assert(views.subrange(0, i + 1 as int) =~= views.subrange(0, i as int).push(
                views[i as int],
            ));
        }
        i = i + 1;
    }
    let (valid, _omitted) = filter_valid_messages(&older, MAX_SUMMARY_INPUT_TOKENS);
    let ghost goal = spec_summary_batch(views);
    proof {
        assert(views.subrange(0, views.len() - 4) == older@.map_values(
            |m: Message| spec_msg_view(m),
        ));
        assert(valid@.map_values(|m: Message| spec_msg_view(m)) == goal);
    }
    if valid.len() == 0 {
        return SummarizePlan::NoValid { truncate_to: KEEP_RECENT_MESSAGES + 10 };
    }
    if valid.len() > MULTI_PASS_THRESHOLD {
        let mid = valid.len() / 2;
        let ghost vviews = valid@.map_values(|m: Message| spec_msg_view(m));
        let mut first: Vec<Message> = Vec::new();
        let mut j: usize = 0;
        proof {
            assert(first@.map_values(|m: Message| spec_msg_view(m)) =~= vviews.subrange(0, 0));
        }
        while j < mid
            invariant
                0 <= j <= mid <= valid@.len(),
                vviews == valid@.map_values(|m: Message| spec_msg_view(m)),
                first@.map_values(|m: Message| spec_msg_view(m)) == vviews.subrange(0, j as int),
            decreases mid - j,
        {
            let ghost pre = first@.map_values(|m: Message| spec_msg_view(m));
            first.push(valid[j].clone());
            proof {
                assert(first@.map_values(|m: Message| spec_msg_view(m)) =~= pre.push(
                    vviews[j as int],
                ));
                assert(vviews.subrange(0, j + 1 as int) =~= vviews.subrange(0, j as int).push(
                    vviews[j as int],
                ));
            }
            j = j + 1;
        }
        let mut second: Vec<Message> = Vec::new();
        let mut k: usize = mid;
        proof {
            assert(second@.map_values(|m: Message| spec_msg_view(m)) =~= vviews.subrange(
                mid as int,
                mid as int,
            ));
        }
        while k < valid.len()
            invariant
                mid <= k <= valid@.len(),
                vviews == valid@.map_values(|m: Message| spec_msg_view(m)),
                second@.map_values(|m: Message| spec_msg_view(m)) == vviews.subrange(
                    mid as int,
                    k as int,
                ),
            decreases valid@.len() - k,
        {
            let ghost pre = second@.map_values(|m: Message| spec_msg_view(m));
            second.push(valid[k].clone());
            proof {
                assert(second@.map_values(|m: Message| spec_msg_view(m)) =~= pre.push(
                    vviews[k as int],
                ));
                assert(vviews.subrange(mid as int, k + 1 as int) =~= vviews.subrange(
                    mid as int,
                    k as int,
                ).push(vviews[k as int]));
            }
            k = k + 1;
        }
        SummarizePlan::TwoPass { first, second }
    } else {
        SummarizePlan::OnePass { batch: valid }
    }
}

/// Append the standard note when oversize messages were left out of a
/// non-empty summary.
pub fn apply_omission_note(summary: String, omitted: bool) -> (r: String)
    ensures
        r@ == if omitted && summary@.len() > 0 {
            summary@
                + "\n\n[Note: Some oversized messages were omitted from this summary for efficiency.]"@
        } else {
            summary@
        },
{
    if omitted && !summary.as_str().is_empty() {
        let mut r = summary;
        r.append(
            "\n\n[Note: Some oversized messages were omitted from this summary for efficiency.]",
        );
        r
    } else {
        summary
    }
}

/// Two partial summaries joined with a blank line, the merge fallback.
pub fn merge_summaries_fallback(s1: &str, s2: &str) -> (r: String)
    ensures
        r@ == s1@ + "\n\n"@ + s2@,
{
    let mut r = String::new();
    r.append(s1);
    r.append("\n\n");
    r.append(s2);
    r
}

/// The produced summary hung onto the existing one, blank-line separated;
/// an empty existing summary is replaced outright.
pub fn combined_summary(existing: &str, produced: &str) -> (r: String)
    ensures
        r@ == if existing@.len() == 0 {
            produced@
        } else {
            existing@ + "\n\n"@ + produced@
        },
{
    if existing.is_empty() {
        produced.to_owned()
    } else {
        let mut r = String::new();
        r.append(existing);
        r.append("\n\n");
        r.append(produced);
        r
    }
}

} // verus!
