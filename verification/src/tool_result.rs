//! Tool execution result: content for the model, optional user-facing text,
//! and the silent / error / background-work flags.

use vstd::prelude::*;

verus! {

/// Result of executing a tool.
#[derive(Clone, Debug)]
pub struct ToolResult {
    /// Content appended to the conversation for the model.
    pub for_llm: String,
    /// If present and not silent, sent to the user immediately.
    pub for_user: Option<String>,
    /// If true, `for_user` is withheld even when set.
    pub silent: bool,
    /// If true, the tool failed; the model decides how to recover.
    pub is_error: bool,
    /// If true, the tool started background work.
    pub async_: bool,
}

impl ToolResult {
    /// Success: content for the model only.
    pub fn ok(for_llm: &str) -> (r: ToolResult)
        ensures
            r.for_llm@ == for_llm@,
            r.for_user is None,
            !r.silent,
            !r.is_error,
            !r.async_,
    {
        ToolResult {
            for_llm: for_llm.to_owned(),
            for_user: None,
            silent: false,
            is_error: false,
            async_: false,
        }
    }

    /// User-facing message: the same text goes to the model and the user.
    pub fn user(content: &str) -> (r: ToolResult)
        ensures
            r.for_llm@ == content@,
            r.for_user matches Some(u) && u@ == content@,
            !r.silent,
            !r.is_error,
            !r.async_,
    {
        ToolResult {
            for_llm: content.to_owned(),
            for_user: Some(content.to_owned()),
            silent: false,
            is_error: false,
            async_: false,
        }
    }

    /// Silent success: for the model only, nothing sent to the user.
    pub fn silent(for_llm: &str) -> (r: ToolResult)
        ensures
            r.for_llm@ == for_llm@,
            r.for_user is None,
            r.silent,
            !r.is_error,
            !r.async_,
    {
        ToolResult {
            for_llm: for_llm.to_owned(),
            for_user: None,
            silent: true,
            is_error: false,
            async_: false,
        }
    }

    /// Error: the message goes to the model with the error flag set.
    pub fn error(msg: &str) -> (r: ToolResult)
        ensures
            r.for_llm@ == msg@,
            r.for_user is None,
            !r.silent,
            r.is_error,
            !r.async_,
    {
        ToolResult {
            for_llm: msg.to_owned(),
            for_user: None,
            silent: false,
            is_error: true,
            async_: false,
        }
    }

    /// Background work started; `for_llm` describes what was launched.
    pub fn async_(for_llm: &str) -> (r: ToolResult)
        ensures
            r.for_llm@ == for_llm@,
            r.for_user is None,
            !r.silent,
            !r.is_error,
            r.async_,
    {
        ToolResult {
            for_llm: for_llm.to_owned(),
            for_user: None,
            silent: false,
            is_error: false,
            async_: true,
        }
    }
}

} // verus!
