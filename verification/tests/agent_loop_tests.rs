//! Agent loop state machine tests: the iteration cap, the final-reply
//! rules, and tool-result ordering.

use icrab::agent_loop::{AgentLoop, StepOutcome};
use icrab::messages::{Message, Role, ToolCall, ToolCallFunction};
use icrab::registry::unknown_tool_result;

fn call(id: &str, name: &str) -> ToolCall {
    ToolCall {
        id: id.to_string(),
        type_: "function".to_string(),
        function: ToolCallFunction { name: name.to_string(), arguments: "{}".to_string() },
    }
}

fn user(content: &str) -> Message {
    Message { role: Role::User, content: content.to_string(), tool_call_id: None, tool_calls: None }
}

#[test]
fn plain_reply_ends_the_run() {
    let mut lp = AgentLoop::new(vec![user("Hi")], 20);
    match lp.on_llm_response("  done  ".to_string(), Vec::new()) {
        StepOutcome::Final(reply) => assert_eq!(reply, "done"),
        StepOutcome::RunTools(_) => panic!("expected a final reply"),
    }
    assert_eq!(lp.calls_made(), 1);
}

#[test]
fn empty_reply_becomes_no_response() {
    let mut lp = AgentLoop::new(Vec::new(), 20);
    match lp.on_llm_response("   ".to_string(), Vec::new()) {
        StepOutcome::Final(reply) => assert_eq!(reply, "(No response)"),
        StepOutcome::RunTools(_) => panic!("expected a final reply"),
    }
}

#[test]
fn max_iterations_caps_llm_calls() {
    // With a cap of two, a model that always asks for a tool gets exactly
    // two calls; the run then ends with the sentinel reply.
    let mut lp = AgentLoop::new(vec![user("Hi")], 2);
    let mut llm_calls = 0;
    let reply = loop {
        if !lp.can_call() {
            break AgentLoop::max_iterations_reply();
        }
        llm_calls += 1;
        match lp.on_llm_response("".to_string(), vec![call("c1", "read_file")]) {
            StepOutcome::Final(r) => break r,
            StepOutcome::RunTools(calls) => {
                for c in &calls {
                    lp.on_tool_result(&c.id, "listing");
                }
            },
        }
    };
    assert_eq!(llm_calls, 2);
    assert_eq!(reply, "Max iterations reached.");
}

#[test]
fn tool_results_keep_call_order() {
    // The tool messages for one response appear in the order the model
    // asked for the calls.
    let mut lp = AgentLoop::new(vec![user("Hi")], 5);
    let outcome = lp.on_llm_response(
        "".to_string(),
        vec![call("a", "one"), call("b", "two"), call("c", "three")],
    );
    let calls = match outcome {
        StepOutcome::RunTools(cs) => cs,
        StepOutcome::Final(_) => panic!("expected tool calls"),
    };
    assert_eq!(calls.len(), 3);
    for c in &calls {
        lp.on_tool_result(&c.id, &format!("result-{}", c.id));
    }
    let msgs = lp.messages();
    let n = msgs.len();
    assert_eq!(msgs[n - 3].tool_call_id.as_deref(), Some("a"));
    assert_eq!(msgs[n - 3].content, "result-a");
    assert_eq!(msgs[n - 2].tool_call_id.as_deref(), Some("b"));
    assert_eq!(msgs[n - 1].tool_call_id.as_deref(), Some("c"));
    for m in &msgs[n - 3..] {
        assert_eq!(m.role, Role::Tool);
    }
}

#[test]
fn assistant_message_recorded_with_calls() {
    let mut lp = AgentLoop::new(vec![user("Hi")], 5);
    lp.on_llm_response("thinking".to_string(), vec![call("x", "read_file")]);
    let msgs = lp.messages();
    let last = &msgs[msgs.len() - 1];
    assert_eq!(last.role, Role::Assistant);
    assert_eq!(last.content, "thinking");
    assert_eq!(last.tool_calls.as_ref().unwrap()[0].id, "x");
}

#[test]
fn invalid_args_text_shape() {
    assert_eq!(
        AgentLoop::invalid_args_text("expected value at line 1"),
        "Invalid JSON arguments: expected value at line 1"
    );
}

#[test]
fn unknown_tool_is_an_error_result() {
    // Executing a name the catalog does not know yields an error result,
    // never a panic.
    let r = unknown_tool_result("no_such_tool");
    assert!(r.is_error);
    assert_eq!(r.for_llm, "tool 'no_such_tool' not found");
    assert!(r.for_user.is_none());
}

#[test]
fn invalid_json_arguments_are_skipped_with_fixed_text() {
    match icrab::agent_loop::decide_tool_args("{\"a\": 1}") {
        icrab::agent_loop::ToolArgsDecision::Run => {}
        _ => panic!("valid JSON must run"),
    }
    match icrab::agent_loop::decide_tool_args("{not json") {
        icrab::agent_loop::ToolArgsDecision::Skip { text } => {
            assert!(text.starts_with("Invalid JSON arguments: "));
        }
        _ => panic!("invalid JSON must be skipped"),
    }
}
