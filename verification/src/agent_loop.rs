//! The tool-using agent loop as a state machine.
//!
//! The caller owns the model call and the tool execution; this type owns
//! every decision: when the loop is allowed another model call, what joins
//! the message list, and what the final reply is.  The iteration cap bounds
//! the number of model calls a run may make, and tool results join the
//! conversation in exactly the order they are recorded.

use vstd::prelude::*;

use crate::messages::{Message, Role, ToolCall};
use crate::session::{spec_msg_view, CallView, MsgView};
use crate::stored::spec_call_view;
use crate::text::{chars_to_string, spec_trim, str_to_chars, trim_chars};

verus! {

/// Outcome of handing one model response to the loop.
#[derive(Debug)]
pub enum StepOutcome {
    /// The model sent a plain reply; the loop is over.
    Final(String),
    /// The model requested tool calls; run them in this order.
    RunTools(Vec<ToolCall>),
}

/// The view of the tool-result message recorded for one call.
pub open spec fn spec_tool_result_view(id: Seq<char>, for_llm: Seq<char>) -> MsgView {
    (Role::Tool, for_llm, Some(id), None::<Seq<CallView>>)
}

/// One run of the agent loop: the conversation so far and the model-call
/// budget.
pub struct AgentLoop {
    messages: Vec<Message>,
    calls_made: u32,
    max_iterations: u32,
}

impl AgentLoop {
    pub closed spec fn spec_messages(&self) -> Seq<MsgView> {
        self.messages@.map_values(|m: Message| spec_msg_view(m))
    }

    pub closed spec fn spec_calls_made(&self) -> u32 {
        self.calls_made
    }

    pub closed spec fn spec_max_iterations(&self) -> u32 {
        self.max_iterations
    }

    /// Start a run over an initial message list with a model-call cap.
    pub fn new(messages: Vec<Message>, max_iterations: u32) -> (r: AgentLoop)
        ensures
            r.spec_messages() == messages@.map_values(|m: Message| spec_msg_view(m)),
            r.spec_calls_made() == 0,
            r.spec_max_iterations() == max_iterations,
    {
        AgentLoop { messages, calls_made: 0, max_iterations }
    }

    /// The conversation to send with the next model call.
    pub fn messages(&self) -> (r: &Vec<Message>)
        ensures
            r@.map_values(|m: Message| spec_msg_view(m)) == self.spec_messages(),
    {
        &self.messages
    }

    pub fn calls_made(&self) -> (r: u32)
        ensures
            r == self.spec_calls_made(),
    {
        self.calls_made
    }

    /// Whether the loop may make another model call.  Once this is false
    /// the run is over: the loop has made its full budget of calls.
    pub fn can_call(&self) -> (r: bool)
        ensures
            r == (self.spec_calls_made() < self.spec_max_iterations()),
    {
        self.calls_made < self.max_iterations
    }

    /// Hand the loop one model response.  A response without tool calls
    /// ends the run with its trimmed content, or `(No response)` when that
    /// is empty.  A response with tool calls joins the conversation as an
    /// assistant message, and the calls come back to be run in order.
    pub fn on_llm_response(&mut self, content: String, tool_calls: Vec<ToolCall>) -> (r:
        StepOutcome)
        requires
            old(self).spec_calls_made() < old(self).spec_max_iterations(),
        ensures
            final(self).spec_calls_made() == old(self).spec_calls_made() + 1,
            final(self).spec_max_iterations() == old(self).spec_max_iterations(),
            tool_calls@.len() == 0 ==> (r matches StepOutcome::Final(reply) && reply@ == (
            if spec_trim(content@).len() == 0 {
                "(No response)"@
            } else {
                spec_trim(content@)
            }) && final(self).spec_messages() == old(self).spec_messages()),
            tool_calls@.len() > 0 ==> (r matches StepOutcome::RunTools(cs) && cs@.map_values(
                |c: ToolCall| spec_call_view(c),
            ) == tool_calls@.map_values(|c: ToolCall| spec_call_view(c))
                && final(self).spec_messages() == old(self).spec_messages().push(
                (
                    Role::Assistant,
                    content@,
                    None::<Seq<char>>,
                    Some(tool_calls@.map_values(|c: ToolCall| spec_call_view(c))),
                ),
            )),
    {
        self.calls_made = self.calls_made + 1;
        if tool_calls.len() == 0 {
            let chars = str_to_chars(content.as_str());
            let trimmed = trim_chars(&chars);
            let reply = if trimmed.len() == 0 {
                "(No response)".to_owned()
            } else {
                chars_to_string(&trimmed)
            };
            StepOutcome::Final(reply)
        } else {
            let mut copies: Vec<ToolCall> = Vec::new();
            let mut i: usize = 0;
            while i < tool_calls.len()
                invariant
                    0 <= i <= tool_calls@.len(),
                    copies@.map_values(|c: ToolCall| spec_call_view(c)) == tool_calls@.subrange(
                        0,
                        i as int,
                    ).map_values(|c: ToolCall| spec_call_view(c)),
                decreases tool_calls@.len() - i,
            {
                let ghost pre = copies@.map_values(|c: ToolCall| spec_call_view(c));
                copies.push(tool_calls[i].clone());
                proof {
                    assert(copies@.map_values(|c: ToolCall| spec_call_view(c)) =~= pre.push(
                        spec_call_view(tool_calls@[i as int]),
                    ));
                    assert(tool_calls@.subrange(0, i + 1 as int).map_values(
                        |c: ToolCall| spec_call_view(c),
                    ) =~= tool_calls@.subrange(0, i as int).map_values(
                        |c: ToolCall| spec_call_view(c),
                    ).push(spec_call_view(tool_calls@[i as int])));
                }
                i = i + 1;
            }
            proof {
                assert(tool_calls@.subrange(0, tool_calls@.len() as int) =~= tool_calls@);
            }
            let ghost pre_msgs = self.spec_messages();
            let msg = Message {
                role: Role::Assistant,
                content,
                tool_call_id: None,
                tool_calls: Some(tool_calls),
            };
            let ghost mv = spec_msg_view(msg);
            self.messages.push(msg);
            proof {
                assert(self.spec_messages() =~= pre_msgs.push(mv));
            }
            StepOutcome::RunTools(copies)
        }
    }

    /// Record one tool result: it joins the conversation as a tool message
    /// carrying the call's id, after everything already there.  Recording
    /// results in call order therefore keeps them in call order.
    pub fn on_tool_result(&mut self, tool_call_id: &str, for_llm: &str)
        ensures
            final(self).spec_messages() == old(self).spec_messages().push(
                spec_tool_result_view(tool_call_id@, for_llm@),
            ),
            final(self).spec_calls_made() == old(self).spec_calls_made(),
            final(self).spec_max_iterations() == old(self).spec_max_iterations(),
    {
        let msg = Message {
            role: Role::Tool,
            content: for_llm.to_owned(),
            tool_call_id: Some(tool_call_id.to_owned()),
            tool_calls: None,
        };
        let ghost pre = self.spec_messages();
        let ghost mv = spec_msg_view(msg);
        self.messages.push(msg);
        proof {
            assert(self.spec_messages() =~= pre.push(mv));
        }
    }

    /// The reply a run ends with when the model never stopped asking for
    /// tools within its budget.
    pub fn max_iterations_reply() -> (r: String)
        ensures
            r@ == "Max iterations reached."@,
    {
        "Max iterations reached.".to_owned()
    }

    /// The tool message recorded when a call's arguments are not valid
    /// JSON: the error text behind a fixed prefix.
    pub fn invalid_args_text(err: &str) -> (r: String)
        ensures
            r@ == "Invalid JSON arguments: "@ + err@,
    {
        let mut r = String::new();
        r.append("Invalid JSON arguments: ");
        r.append(err);
        r
    }
}

/// Tool messages recorded one after another, starting from `msgs`.
pub open spec fn spec_apply_results(msgs: Seq<MsgView>, results: Seq<(Seq<char>, Seq<char>)>) -> Seq<
    MsgView,
>
    decreases results.len(),
{
    if results.len() == 0 {
        msgs
    } else {
        spec_apply_results(
            msgs.push(spec_tool_result_view(results[0].0, results[0].1)),
            results.drop_first(),
        )
    }
}

/// Recording tool results in call order appends exactly one tool message
/// per call, in the same order as the calls: the conversation ends with the
/// results, position for position.
pub proof fn lemma_tool_results_in_order(msgs: Seq<MsgView>, results: Seq<(Seq<char>, Seq<char>)>)
    ensures
        spec_apply_results(msgs, results).len() == msgs.len() + results.len(),
        forall|i: int|
            0 <= i < msgs.len() ==> spec_apply_results(msgs, results)[i] == msgs[i],
        forall|i: int|
            0 <= i < results.len() ==> spec_apply_results(msgs, results)[msgs.len() + i]
                == spec_tool_result_view(#[trigger] results[i].0, results[i].1),
    decreases results.len(),
{
    if results.len() > 0 {
        let msgs2 = msgs.push(spec_tool_result_view(results[0].0, results[0].1));
        lemma_tool_results_in_order(msgs2, results.drop_first());
        assert(spec_apply_results(msgs, results) == spec_apply_results(
            msgs2,
            results.drop_first(),
        ));
        assert forall|i: int|
            0 <= i < msgs.len() implies spec_apply_results(msgs, results)[i] == msgs[i] by {
            assert(spec_apply_results(msgs2, results.drop_first())[i] == msgs2[i]);
            assert(msgs2[i] == msgs[i]);
        }
        assert forall|i: int|
            0 <= i < results.len() implies spec_apply_results(msgs, results)[msgs.len() + i]
            == spec_tool_result_view(#[trigger] results[i].0, results[i].1) by {
            if i == 0 {
                assert(spec_apply_results(msgs2, results.drop_first())[msgs.len() as int]
                    == msgs2[msgs.len() as int]);
                assert(msgs2[msgs.len() as int] == spec_tool_result_view(
                    results[0].0,
                    results[0].1,
                ));
            } else {
                assert(results.drop_first()[i - 1] == results[i]);
                assert(spec_apply_results(msgs2, results.drop_first())[msgs2.len() + (i - 1)]
                    == spec_tool_result_view(results.drop_first()[i - 1].0, results.drop_first()[i
                    - 1].1));
            }
        }
    }
}

/// Law: the model-call budget is never exceeded.  A run starts with zero
/// calls made (`new`), a call is possible only while the counter is below
/// `max_iterations` (`can_call`, required by `on_llm_response`), and each
/// response counts exactly one call; so each absorbed response keeps the
/// counter within the cap, and a run absorbs at most `max_iterations`
/// responses before `can_call` goes false for good.
pub proof fn lemma_call_budget(before: AgentLoop, after: AgentLoop)
    requires
        before.spec_calls_made() < before.spec_max_iterations(),
        after.spec_calls_made() == before.spec_calls_made() + 1,
        after.spec_max_iterations() == before.spec_max_iterations(),
    ensures
        after.spec_calls_made() <= after.spec_max_iterations(),
{
}

/// What `serde_json::from_str` makes of a tool call's argument text:
/// nothing when the text is valid JSON, else the parse error's text.  The
/// outcome depends on the text alone.
pub uninterp spec fn json_args_check(s: Seq<char>) -> Option<Seq<char>>;

/// Relies on `serde_json::from_str` for JSON well-formedness of model
/// supplied tool arguments: returns the parse error's text, or nothing
/// when the text is valid JSON.
#[verifier::external_body]
pub fn json_args_error(args: &str) -> (r: Option<String>)
    ensures
        r is Some <==> json_args_check(args@) is Some,
        r matches Some(e) ==> json_args_check(args@) == Some(e@),
{
    match serde_json::from_str::<serde_json::Value>(args) {
        Ok(_) => None,
        Err(e) => Some(e.to_string()),
    }
}

/// What the loop does with one tool call's arguments.
pub enum ToolArgsDecision {
    /// The arguments are valid JSON: execute the tool.
    Run,
    /// The arguments are not valid JSON: do not execute the tool; record
    /// this text as its tool message and go on with the remaining calls.
    Skip { text: String },
}

/// Decide one tool call's arguments: a call whose arguments are not valid
/// JSON is skipped, and the fixed invalid-arguments message takes its
/// result's place.
pub fn decide_tool_args(args: &str) -> (r: ToolArgsDecision)
    ensures
        r is Run <==> json_args_check(args@) is None,
        r matches ToolArgsDecision::Skip { text } ==> (json_args_check(args@) matches Some(e)
            && text@ == "Invalid JSON arguments: "@ + e),
{
    match json_args_error(args) {
        None => ToolArgsDecision::Run,
        Some(err) => ToolArgsDecision::Skip { text: AgentLoop::invalid_args_text(err.as_str()) },
    }
}

} // verus!
