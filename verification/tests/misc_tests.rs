//! Tool results, dispatcher decisions, the tool catalog, workspace paths,
//! and the prompt builder.

use icrab::dispatch::{error_reply, heartbeat_text, reply_decision};
use icrab::messages::{role_to_str, str_to_role, Role};
use icrab::prompt::{build_messages, build_system_prompt};
use icrab::registry::ToolRegistry;
use icrab::render::{
    format_chat_results, format_grep_results, format_vault_results, html_to_text, html_unescape,
    is_allowed,
    GrepMatch,
};
use icrab::tool_result::ToolResult;
use icrab::workspace::{daily_note_path, recent_daily_dates, session_file, today_yyyymmdd};
use icrab::config::{Config, LlmConfig, TelegramConfig};

#[test]
fn constructors_set_fields() {
    let r = ToolResult::ok("done");
    assert_eq!(r.for_llm, "done");
    assert!(r.for_user.is_none());
    assert!(!r.is_error);
    assert!(!r.async_);

    let r = ToolResult::error("failed");
    assert_eq!(r.for_llm, "failed");
    assert!(r.is_error);

    let r = ToolResult::async_("Subagent started");
    assert!(r.async_);

    let r = ToolResult::user("hello");
    assert_eq!(r.for_llm, "hello");
    assert_eq!(r.for_user.as_deref(), Some("hello"));
    assert!(!r.silent);

    let r = ToolResult::silent("sent");
    assert!(r.silent);
    assert!(r.for_user.is_none());
}

#[test]
fn roles_round_trip() {
    for role in [Role::System, Role::User, Role::Assistant, Role::Tool] {
        assert_eq!(str_to_role(role_to_str(&role)), role);
    }
    assert_eq!(str_to_role("anything else"), Role::User);
}

#[test]
fn delivered_reply_is_suppressed() {
    // A tool already delivered the text; the dispatcher must not send the
    // final reply again.
    let r = reply_decision(5, "telegram", true, "Hello".to_string());
    assert!(r.is_none());
}

#[test]
fn heartbeat_reply_without_chat_is_dropped() {
    let r = reply_decision(0, "heartbeat", false, "tick".to_string());
    assert!(r.is_none());
}

#[test]
fn ordinary_reply_goes_out() {
    let r = reply_decision(5, "telegram", false, "Hello".to_string()).unwrap();
    assert_eq!(r.chat_id, 5);
    assert_eq!(r.text, "Hello");
    assert_eq!(r.channel, "telegram");
}

#[test]
fn error_reply_shape() {
    assert_eq!(error_reply("llm http: timeout"), "Error: llm http: timeout.");
}

#[test]
fn heartbeat_text_shape() {
    assert_eq!(heartbeat_text("water the plants"), "[Heartbeat Task] water the plants");
}

#[test]
fn registry_registers_and_lists_sorted() {
    let mut reg = ToolRegistry::new();
    reg.register("write_file".to_string(), "Write a file.".to_string());
    reg.register("cron".to_string(), "Manage scheduled jobs.".to_string());
    reg.register("read_file".to_string(), "Read a file.".to_string());
    assert_eq!(reg.list(), vec!["cron", "read_file", "write_file"]);
    assert!(reg.has("cron"));
    assert!(!reg.has("unknown"));
    let summaries = reg.summaries();
    assert_eq!(summaries[0], "cron - Manage scheduled jobs.");
}

#[test]
fn registry_register_overwrites() {
    let mut reg = ToolRegistry::new();
    reg.register("cron".to_string(), "old".to_string());
    reg.register("cron".to_string(), "new".to_string());
    assert_eq!(reg.summaries(), vec!["cron - new"]);
}

#[test]
fn session_file_safe_filename() {
    assert!(session_file("/ws", "123").ends_with("123.json"));
    assert!(session_file("/ws", "ab:c").contains("ab_c"));
    assert!(session_file("/ws", "").ends_with("default.json"));
}

#[test]
fn daily_note_path_shape() {
    let p = daily_note_path("/ws", "20250216");
    assert!(p.contains("202502"));
    assert!(p.ends_with("20250216.md"));
}

#[test]
fn today_and_recent_dates() {
    // Monday 2026-02-23 09:00 UTC.
    assert_eq!(today_yyyymmdd(1771837200), "20260223");
    let dates = recent_daily_dates("20260301", 3).unwrap();
    assert_eq!(dates, vec!["20260301", "20260228", "20260227"]);
}

#[test]
fn format_results_empty_returns_no_match_message() {
    let empty: Vec<(String, String)> = Vec::new();
    let r = format_vault_results(&empty);
    assert!(r.contains("No matching notes"));
}

#[test]
fn format_results_single_entry() {
    let rows = vec![("note.md".to_string(), "...some **keyword** here...".to_string())];
    let r = format_vault_results(&rows);
    assert!(r.contains("Found 1 result"));
    assert!(r.contains("note.md"));
    assert!(r.contains("**keyword**"));
}

#[test]
fn format_results_multiple_entries_numbered() {
    let rows = vec![
        ("a.md".to_string(), "snip a".to_string()),
        ("b.md".to_string(), "snip b".to_string()),
        ("c.md".to_string(), "snip c".to_string()),
    ];
    let r = format_vault_results(&rows);
    assert!(r.contains("Found 3 result"));
    assert!(r.contains("1. a.md"));
    assert!(r.contains("2. b.md"));
    assert!(r.contains("3. c.md"));
}

#[test]
fn format_results_empty() {
    let empty: Vec<(String, String, String)> = Vec::new();
    let r = format_chat_results(&empty);
    assert!(r.contains("No matching"));
}

#[test]
fn format_results_single() {
    let rows = vec![(
        "chat123".to_string(),
        "user".to_string(),
        "...did **squats** today...".to_string(),
    )];
    let r = format_chat_results(&rows);
    assert!(r.contains("1 result"));
    assert!(r.contains("chat123"));
    assert!(r.contains("user"));
}

#[test]
fn grep_results_rendering() {
    let empty: Vec<GrepMatch> = Vec::new();
    let r = format_grep_results("squats", "Workouts/", &empty);
    assert!(r.contains("No matches"));

    let ms = vec![GrepMatch {
        rel_path: "Workouts/program.md".to_string(),
        line_no: 2,
        line: "Monday: squats 5x5".to_string(),
    }];
    let r = format_grep_results("squats", "Workouts/", &ms);
    assert!(r.contains("Found 1 match(es)"));
    assert!(r.contains("Workouts/program.md:2: Monday: squats 5x5"));
}

#[test]
fn allow_list_rules() {
    assert!(is_allowed(&None, 7));
    assert!(is_allowed(&Some(Vec::new()), 7));
    assert!(is_allowed(&Some(vec![1, 7]), 7));
    assert!(!is_allowed(&Some(vec![1, 2]), 7));
}

#[test]
fn empty_prompt_still_has_identity_line() {
    // No bootstrap files, no memory, no skills, no tools, no chat, no
    // summary: the identity line still opens the system prompt.
    let files: Vec<(String, String)> = Vec::new();
    let tools: Vec<String> = Vec::new();
    let prompt = build_system_prompt("/ws", 1771837200, &files, "", "", &tools, &None, "");
    assert!(prompt.starts_with("You are iCrab, a minimal personal AI assistant. Current time: "));
    assert!(prompt.contains("Monday 2026-02-23 09:00:00 UTC."));
    assert!(prompt.contains("Unix: 1771837200."));
    assert!(prompt.contains("Workspace: /ws."));
    assert!(prompt.contains("No tools registered."));
}

#[test]
fn prompt_sections_appear_in_order() {
    let files = vec![("AGENT".to_string(), "Be helpful.".to_string())];
    let tools = vec!["read_file - Read a file.".to_string()];
    let prompt = build_system_prompt(
        "/ws",
        1771837200,
        &files,
        "remember things",
        "- **weather** — x. Read y to use.",
        &tools,
        &Some("42".to_string()),
        "the summary",
    );
    let a = prompt.find("--- AGENT ---").unwrap();
    let m = prompt.find("--- Memory ---").unwrap();
    let s = prompt.find("--- Skills ---").unwrap();
    let t = prompt.find("--- Tools ---").unwrap();
    let c = prompt.find("Current chat: 42.").unwrap();
    let su = prompt.find("Session summary: the summary").unwrap();
    assert!(a < m && m < s && s < t && t < c && c < su);
}

#[test]
fn message_list_is_system_history_user() {
    let history = vec![icrab::messages::Message {
        role: Role::Assistant,
        content: "earlier".to_string(),
        tool_call_id: None,
        tool_calls: None,
    }];
    let msgs = build_messages("sys".to_string(), &history, "hello");
    assert_eq!(msgs.len(), 3);
    assert_eq!(msgs[0].role, Role::System);
    assert_eq!(msgs[0].content, "sys");
    assert_eq!(msgs[1].content, "earlier");
    assert_eq!(msgs[2].role, Role::User);
    assert_eq!(msgs[2].content, "hello");
}

#[test]
fn html_unescape_entities() {
    assert_eq!(html_unescape("&amp;"), "&");
    assert_eq!(html_unescape("&lt;&gt;"), "<>");
    assert_eq!(html_unescape("&quot;x&#39;y"), "\"x'y");
    assert_eq!(html_unescape("a&nbsp;b"), "a b");
    assert_eq!(html_unescape("no entities"), "no entities");
}

#[test]
fn config_validation_rules() {
    let full = Config {
        workspace: Some("/ws".to_string()),
        telegram: Some(TelegramConfig {
            bot_token: Some("token".to_string()),
            allowed_user_ids: None,
            api_base: None,
        }),
        llm: Some(LlmConfig {
            provider: None,
            api_base: None,
            api_key: Some("key".to_string()),
            model: Some("model".to_string()),
        }),
        tools: None,
        heartbeat: None,
        restrict_to_workspace: None,
    };
    assert!(full.validate().is_ok());
    assert_eq!(full.workspace_path(), "/ws");

    let missing_ws = Config { workspace: Some("   ".to_string()), ..cfg_like(&full) };
    assert!(missing_ws.validate().is_err());
    let missing_tg = Config { telegram: None, ..cfg_like(&full) };
    assert!(missing_tg.validate().is_err());
    let missing_llm = Config { llm: None, ..cfg_like(&full) };
    assert!(missing_llm.validate().is_err());
}

fn cfg_like(c: &icrab::config::Config) -> icrab::config::Config {
    icrab::config::Config {
        workspace: c.workspace.clone(),
        telegram: c.telegram.as_ref().map(|t| icrab::config::TelegramConfig {
            bot_token: t.bot_token.clone(),
            allowed_user_ids: t.allowed_user_ids.clone(),
            api_base: t.api_base.clone(),
        }),
        llm: c.llm.as_ref().map(|l| icrab::config::LlmConfig {
            provider: l.provider.clone(),
            api_base: l.api_base.clone(),
            api_key: l.api_key.clone(),
            model: l.model.clone(),
        }),
        tools: None,
        heartbeat: None,
        restrict_to_workspace: c.restrict_to_workspace,
    }
}

#[test]
fn subagent_prompt_blocks_appear_only_when_nonempty() {
    let no_tools: Vec<String> = Vec::new();
    let bare = icrab::prompt::build_subagent_prompt("", &no_tools);
    assert!(bare.starts_with("You are a subagent."));
    assert!(!bare.contains("--- Skills ---"));
    assert!(!bare.contains("--- Tools ---"));

    let tools = vec!["cron - Manage scheduled jobs.".to_string(), "message - Send a message.".to_string()];
    let full = icrab::prompt::build_subagent_prompt("skill one", &tools);
    assert!(full.contains("\n--- Skills ---\nskill one\n"));
    assert!(full.contains("\n--- Tools ---\ncron - Manage scheduled jobs.\nmessage - Send a message.\n"));
}

#[test]
fn tool_reply_sends_nonsilent_for_user_only() {
    let mut r = icrab::tool_result::ToolResult::ok("done");
    assert!(icrab::dispatch::tool_reply(&r, 7, &None).is_none());

    r.for_user = Some("hello".to_string());
    let m = icrab::dispatch::tool_reply(&r, 7, &None).expect("expected a message");
    assert_eq!(m.chat_id, 7);
    assert_eq!(m.text, "hello");
    assert_eq!(m.channel, "telegram");

    let m2 = icrab::dispatch::tool_reply(&r, 9, &Some("cli".to_string())).expect("message");
    assert_eq!(m2.channel, "cli");

    r.silent = true;
    assert!(icrab::dispatch::tool_reply(&r, 7, &None).is_none());
}

#[test]
fn memory_snippet_layout_and_truncation() {
    let notes = vec![
        ("20260101".to_string(), "did things".to_string()),
        ("20251231".to_string(), "   ".to_string()),
        ("20251230".to_string(), "x".repeat(2500)),
    ];
    let long_memory = format!("  {}  ", "m".repeat(4100));
    let out = icrab::workspace::build_memory_snippet(&long_memory, &notes);
    let expected_mem: String = "m".repeat(4000) + "\u{2026}\n";
    assert!(out.starts_with(&expected_mem));
    assert!(out.contains("\n--- 20260101 ---\ndid things"));
    assert!(!out.contains("20251231"));
    let tail = format!("\n--- 20251230 ---\n{}\u{2026}", "x".repeat(2000));
    assert!(out.ends_with(&tail));
}

#[test]
fn memory_snippet_empty_memory_has_no_leading_line() {
    let notes = vec![("20260101".to_string(), "note".to_string())];
    let out = icrab::workspace::build_memory_snippet("   ", &notes);
    assert_eq!(out, "\n--- 20260101 ---\nnote");
    let none: Vec<(String, String)> = Vec::new();
    assert_eq!(icrab::workspace::build_memory_snippet("", &none), "");
}

#[test]
fn html_to_text_strips_script_style_and_tags() {
    let html = "<html><head><script>alert(1)</script><style>.x{}</style></head><body><p>Hello</p>  <b>world</b></body></html>";
    let t = html_to_text(html);
    assert!(!t.contains("alert"));
    assert!(!t.contains(".x"));
    assert!(t.contains("Hello"));
    assert!(t.contains("world"));
}

#[test]
fn html_to_text_collapses_whitespace() {
    let html = "<p>One</p>   <p>Two</p>\n\n<p>Three</p>";
    let t = html_to_text(html);
    assert!(t.contains("One"));
    assert!(t.contains("Two"));
    assert!(t.contains("Three"));
    assert!(!t.contains("   "));
}

#[test]
fn html_to_text_empty_after_strip() {
    let html = "<script>only script</script><style>only style</style>";
    let t = html_to_text(html);
    assert!(t.trim().is_empty() || t.len() < 20);
}
