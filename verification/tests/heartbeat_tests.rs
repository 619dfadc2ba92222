//! Heartbeat parsing and the dispatcher messages it produces.

use icrab::dispatch::make_heartbeat_messages;
use icrab::heartbeat::parse_tasks;

#[test]
fn heartbeat_parse_empty() {
    assert!(parse_tasks("").is_empty());
}

#[test]
fn parse_single_bullet() {
    assert_eq!(parse_tasks("- Check weather"), ["Check weather"]);
}

#[test]
fn parse_multiple_bullets() {
    let tasks = parse_tasks("- First\n- Second\n- Third");
    assert_eq!(tasks, ["First", "Second", "Third"]);
}

#[test]
fn parse_skips_non_bullet_lines() {
    let content = "# Heartbeat\n\nProse.\n\n- Do thing\n<!-- comment -->\n- Another";
    assert_eq!(parse_tasks(content), ["Do thing", "Another"]);
}

#[test]
fn parse_unicode_task() {
    assert_eq!(parse_tasks("- こんにちは 🦀"), ["こんにちは 🦀"]);
}

#[test]
fn parse_strips_inner_whitespace() {
    assert_eq!(parse_tasks("- \t  trim me  \t"), ["trim me"]);
}

#[test]
fn parse_skips_empty_bullets() {
    assert_eq!(parse_tasks("- \n- real task"), ["real task"]);
}

#[test]
fn parse_mixed_indentation_ignored() {
    let tasks = parse_tasks("  - indented\n- normal");
    assert_eq!(tasks, ["indented", "normal"]);
}

#[test]
fn heartbeat_messages_have_format_and_channel() {
    // Three bullets become three dispatcher messages in file order, each
    // with channel heartbeat and the task behind the fixed prefix.
    let tasks = parse_tasks("- Task A\n- Task B\n- Task C\n");
    assert_eq!(tasks.len(), 3);
    let msgs = make_heartbeat_messages(42, &tasks);
    assert_eq!(msgs.len(), 3);
    assert_eq!(msgs[0].chat_id, 42);
    assert_eq!(msgs[0].user_id, 0);
    assert_eq!(msgs[0].text, "[Heartbeat Task] Task A");
    assert_eq!(msgs[0].channel, "heartbeat");
    assert_eq!(msgs[1].text, "[Heartbeat Task] Task B");
    assert_eq!(msgs[2].text, "[Heartbeat Task] Task C");
}
