//! Chat message data model: roles, messages, tool-call requests, and the
//! textual role encoding used by the session store.

use vstd::prelude::*;

verus! {

/// Chat message role.
#[derive(Clone, Copy, Debug, PartialEq, Eq, Structural)]
pub enum Role {
    System,
    User,
    Assistant,
    Tool,
}

/// One tool invocation requested by the model: opaque id, wire type tag,
/// function name and raw JSON argument text.
#[derive(Debug)]
pub struct ToolCall {
    pub id: String,
    pub type_: String,
    pub function: ToolCallFunction,
}

#[derive(Debug)]
pub struct ToolCallFunction {
    pub name: String,
    pub arguments: String,
}

/// A single chat message.  `tool_call_id` is set exactly on tool-result
/// messages; `tool_calls` exactly on assistant messages that requested
/// invocations.
#[derive(Debug)]
pub struct Message {
    pub role: Role,
    pub content: String,
    pub tool_call_id: Option<String>,
    pub tool_calls: Option<Vec<ToolCall>>,
}

/// Token usage reported by the model provider.
#[derive(Clone, Debug)]
pub struct UsageInfo {
    pub prompt_tokens: Option<u64>,
    pub completion_tokens: Option<u64>,
    pub total_tokens: Option<u64>,
}

/// One model response: text content plus the ordered tool-call requests.
#[derive(Clone, Debug)]
pub struct LlmResponse {
    pub content: String,
    pub tool_calls: Vec<ToolCall>,
    pub finish_reason: String,
    pub usage: Option<UsageInfo>,
}

/// The stored text for each role.
pub open spec fn spec_role_str(role: Role) -> Seq<char> {
    match role {
        Role::System => "system"@,
        Role::User => "user"@,
        Role::Assistant => "assistant"@,
        Role::Tool => "tool"@,
    }
}

/// The role a stored text decodes to; unknown texts decode to `User`.
pub open spec fn spec_str_role(s: Seq<char>) -> Role {
    if s == "system"@ {
        Role::System
    } else if s == "assistant"@ {
        Role::Assistant
    } else if s == "tool"@ {
        Role::Tool
    } else {
        Role::User
    }
}

pub fn role_to_str(role: &Role) -> (r: &'static str)
    ensures
        r@ == spec_role_str(*role),
{
    match role {
        Role::System => "system",
        Role::User => "user",
        Role::Assistant => "assistant",
        Role::Tool => "tool",
    }
}

pub fn str_to_role(s: &str) -> (r: Role)
    ensures
        r == spec_str_role(s@),
{
    let v = crate::text::str_to_chars(s);
    let sys = crate::text::str_to_chars("system");
    let asst = crate::text::str_to_chars("assistant");
    let tool = crate::text::str_to_chars("tool");
    if crate::text::chars_eq(&v, &sys) {
        Role::System
    } else if crate::text::chars_eq(&v, &asst) {
        Role::Assistant
    } else if crate::text::chars_eq(&v, &tool) {
        Role::Tool
    } else {
        proof {
            reveal_strlit("system");
            reveal_strlit("assistant");
            reveal_strlit("tool");
            reveal_strlit("user");
        }
        Role::User
    }
}

/// Encoding a role and decoding it again yields the same role: the four
/// stored texts are distinct.
pub proof fn lemma_role_str_round_trip(role: Role)
    ensures
        spec_str_role(spec_role_str(role)) == role,
{
    reveal_strlit("system");
    reveal_strlit("user");
    reveal_strlit("assistant");
    reveal_strlit("tool");
    assert("system"@.len() == 6);
    assert("user"@.len() == 4);
    assert("assistant"@.len() == 9);
    assert("tool"@.len() == 4);
    assert("user"@[0] == 'u');
    assert("tool"@[0] == 't');
    assert("user"@ != "tool"@);
}

} // verus!
