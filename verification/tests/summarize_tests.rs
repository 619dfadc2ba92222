//! Summarizer decision tests.

use icrab::messages::{Message, Role};
use icrab::summarize::{
    combined_summary, estimate_tokens, filter_valid_messages, format_messages_for_summary,
    plan_summarize, should_summarize, SummarizePlan, SUMMARIZE_THRESHOLD,
};

fn user_msg(content: &str) -> Message {
    Message { role: Role::User, content: content.to_string(), tool_call_id: None, tool_calls: None }
}

fn assistant_msg(content: &str) -> Message {
    Message {
        role: Role::Assistant,
        content: content.to_string(),
        tool_call_id: None,
        tool_calls: None,
    }
}

#[test]
fn should_summarize_returns_false_when_below_threshold() {
    let mut history = Vec::new();
    for _ in 0..SUMMARIZE_THRESHOLD {
        history.push(user_msg("test"));
    }
    assert!(!should_summarize(&history));
}

#[test]
fn should_summarize_returns_true_when_above_threshold() {
    let mut history = Vec::new();
    for _ in 0..SUMMARIZE_THRESHOLD + 1 {
        history.push(user_msg("test"));
    }
    assert!(should_summarize(&history));
}

#[test]
fn estimate_tokens_basic() {
    assert_eq!(estimate_tokens("hello"), 1);
    assert_eq!(estimate_tokens("hello world"), 3);
}

#[test]
fn filter_valid_messages_skips_tool_messages() {
    let messages = vec![
        user_msg("test"),
        Message {
            role: Role::Tool,
            content: "tool result".to_string(),
            tool_call_id: Some("call_1".to_string()),
            tool_calls: None,
        },
        assistant_msg("response"),
    ];
    let (valid, omitted) = filter_valid_messages(&messages, 1000);
    assert_eq!(valid.len(), 2);
    assert!(!omitted);
}

#[test]
fn filter_valid_messages_skips_oversized() {
    let max_tokens = 64000;
    let min_chars_to_exceed = max_tokens * 3 + 3;
    let large_content = "x".repeat(min_chars_to_exceed);
    let messages = vec![user_msg("normal"), user_msg(&large_content)];
    let (valid, omitted) = filter_valid_messages(&messages, max_tokens);
    assert_eq!(valid.len(), 1);
    assert!(omitted);
}

#[test]
fn format_messages_for_summary_formats_correctly() {
    let messages = vec![user_msg("Hello"), assistant_msg("Hi there")];
    let formatted = format_messages_for_summary(&messages);
    assert!(formatted.contains("User: Hello"));
    assert!(formatted.contains("Assistant: Hi there"));
}

#[test]
fn combined_summary_replaces_or_appends() {
    assert_eq!(combined_summary("", "new"), "new");
    assert_eq!(combined_summary("old", "new"), "old\n\nnew");
}

fn tool_msg(content: &str) -> Message {
    Message {
        role: Role::Tool,
        content: content.to_string(),
        tool_call_id: Some("c1".to_string()),
        tool_calls: None,
    }
}

#[test]
fn plan_summarize_short_history_is_too_short() {
    let history: Vec<Message> = (0..20).map(|i| user_msg(&format!("m{i}"))).collect();
    assert!(matches!(plan_summarize(&history), SummarizePlan::TooShort));
}

#[test]
fn plan_summarize_no_valid_truncates_to_fourteen() {
    let history: Vec<Message> = (0..21).map(|i| tool_msg(&format!("t{i}"))).collect();
    match plan_summarize(&history) {
        SummarizePlan::NoValid { truncate_to } => assert_eq!(truncate_to, 14),
        _ => panic!("expected NoValid"),
    }
}

#[test]
fn plan_summarize_small_batch_is_one_pass() {
    // 21 messages; the first 17 are older, of which only 8 are summarizable.
    let mut history: Vec<Message> = Vec::new();
    for i in 0..8 {
        history.push(user_msg(&format!("m{i}")));
    }
    for i in 0..9 {
        history.push(tool_msg(&format!("t{i}")));
    }
    for i in 0..4 {
        history.push(assistant_msg(&format!("r{i}")));
    }
    match plan_summarize(&history) {
        SummarizePlan::OnePass { batch } => {
            assert_eq!(batch.len(), 8);
            assert_eq!(batch[0].content, "m0");
            assert_eq!(batch[7].content, "m7");
        }
        _ => panic!("expected OnePass"),
    }
}

#[test]
fn plan_summarize_large_batch_splits_at_midpoint() {
    // 25 messages: the older 21 are all summarizable, so two passes.
    let history: Vec<Message> = (0..25).map(|i| user_msg(&format!("m{i}"))).collect();
    match plan_summarize(&history) {
        SummarizePlan::TwoPass { first, second } => {
            assert_eq!(first.len(), 10);
            assert_eq!(second.len(), 11);
            assert_eq!(first[0].content, "m0");
            assert_eq!(second[0].content, "m10");
            assert_eq!(second[10].content, "m20");
        }
        _ => panic!("expected TwoPass"),
    }
}
