//! Session store tests: the in-memory cap, the pending buffer, and the
//! append-only round trip through a real database file.

use icrab::agent_loop::{AgentLoop, StepOutcome};
use icrab::braindb::BrainDb;
use icrab::messages::{Message, Role, ToolCall, ToolCallFunction};
use icrab::prompt::build_messages;
use icrab::session::Session;
use tempfile::TempDir;

fn temp_db() -> (TempDir, BrainDb) {
    let tmp = TempDir::new().unwrap();
    let path = tmp.path().join("brain.db");
    let db = BrainDb::open(path.to_str().unwrap()).unwrap();
    (tmp, db)
}

#[test]
fn session_load_missing_returns_empty() {
    let (_tmp, mut db) = temp_db();
    let s = Session::load(&mut db, "nonexistent", "sid-1").unwrap();
    assert!(s.history().is_empty());
    assert!(s.summary().is_empty());
}

#[test]
fn session_save_load_roundtrip() {
    let (_tmp, mut db) = temp_db();
    let mut session = Session::load(&mut db, "chat1", "sid-1").unwrap();
    session.add_user_message("Hi");
    session.add_assistant_message("Hello!", None);
    session.set_summary("brief".to_string());
    session.save(&mut db).unwrap();

    let loaded = Session::load(&mut db, "chat1", "sid-other").unwrap();
    assert_eq!(loaded.history().len(), 2);
    assert_eq!(loaded.history()[0].content, "Hi");
    assert_eq!(loaded.history()[1].content, "Hello!");
    assert_eq!(loaded.summary(), "brief");
    assert_eq!(loaded.session_id(), "sid-1");
}

#[test]
fn session_save_appends() {
    let (_tmp, mut db) = temp_db();
    let mut s1 = Session::load(&mut db, "c", "sid-1").unwrap();
    s1.add_user_message("First");
    s1.save(&mut db).unwrap();

    let mut s2 = Session::load(&mut db, "c", "sid-x").unwrap();
    assert_eq!(s2.history().len(), 1);
    s2.add_assistant_message("OK", None);
    s2.add_user_message("Second");
    s2.set_summary("updated summary".to_string());
    s2.save(&mut db).unwrap();

    let loaded = Session::load(&mut db, "c", "sid-x").unwrap();
    assert_eq!(loaded.history().len(), 3);
    assert_eq!(loaded.summary(), "updated summary");
}

#[test]
fn session_add_messages_caps_history() {
    let mut session = Session::empty("cap", "sid");
    for i in 0..55 {
        session.add_user_message(&format!("msg {}", i));
    }
    assert_eq!(session.history().len(), 50);
    assert_eq!(session.history().first().unwrap().content, "msg 5");
}

#[test]
fn session_all_pending_inserts_saved_to_db() {
    // Push 55, save, reload: the memory view holds 50, storage all 55.
    let (_tmp, mut db) = temp_db();
    let mut session = Session::load(&mut db, "cap2", "sid").unwrap();
    for i in 0..55 {
        session.add_user_message(&format!("msg {}", i));
    }
    assert_eq!(session.history().len(), 50);
    session.save(&mut db).unwrap();

    let rows = db.load_history("cap2").unwrap();
    assert_eq!(rows.len(), 55);
    assert_eq!(rows[0].content, "msg 0");
    assert_eq!(rows[54].content, "msg 54");

    let reloaded = Session::load(&mut db, "cap2", "sid").unwrap();
    assert_eq!(reloaded.history().len(), 50);
    assert_eq!(reloaded.history().first().unwrap().content, "msg 5");
}

#[test]
fn session_truncate_history() {
    let mut session = Session::empty("truncate", "test-session");
    for i in 0..10 {
        session.add_user_message(&format!("msg {}", i));
    }
    assert_eq!(session.history().len(), 10);

    session.truncate_history(4);
    assert_eq!(session.history().len(), 4);
    assert_eq!(session.history()[0].content, "msg 6");
    assert_eq!(session.history()[3].content, "msg 9");

    session.truncate_history(10);
    assert_eq!(session.history().len(), 4);
}

#[test]
fn session_tool_message_roundtrip() {
    let (_tmp, mut db) = temp_db();
    let mut session = Session::load(&mut db, "tool", "sid").unwrap();
    session.add_tool_message("call_1", "file contents");
    session.save(&mut db).unwrap();

    let loaded = Session::load(&mut db, "tool", "sid").unwrap();
    assert_eq!(loaded.history().len(), 1);
    assert_eq!(loaded.history()[0].role, Role::Tool);
    assert_eq!(loaded.history()[0].tool_call_id.as_deref(), Some("call_1"));
    assert_eq!(loaded.history()[0].content, "file contents");
}

#[test]
fn session_tool_calls_roundtrip() {
    // An assistant message's tool-call list survives storage whole.
    let (_tmp, mut db) = temp_db();
    let mut session = Session::load(&mut db, "calls", "sid").unwrap();
    let calls = vec![ToolCall {
        id: "c1".to_string(),
        type_: "function".to_string(),
        function: ToolCallFunction {
            name: "read_file".to_string(),
            arguments: "{\"path\":\"x\"}".to_string(),
        },
    }];
    session.add_assistant_message("", Some(calls));
    session.save(&mut db).unwrap();

    let loaded = Session::load(&mut db, "calls", "sid").unwrap();
    assert_eq!(loaded.history().len(), 1);
    let got = loaded.history()[0].tool_calls.as_ref().unwrap();
    assert_eq!(got.len(), 1);
    assert_eq!(got[0].id, "c1");
    assert_eq!(got[0].type_, "function");
    assert_eq!(got[0].function.name, "read_file");
    assert_eq!(got[0].function.arguments, "{\"path\":\"x\"}");
}

#[test]
fn session_sessions_isolated_by_chat_id() {
    let (_tmp, mut db) = temp_db();
    let mut a = Session::load(&mut db, "A", "sid-a").unwrap();
    a.add_user_message("from A");
    a.save(&mut db).unwrap();

    let mut b = Session::load(&mut db, "B", "sid-b").unwrap();
    b.add_user_message("from B");
    b.save(&mut db).unwrap();

    let la = Session::load(&mut db, "A", "x").unwrap();
    let lb = Session::load(&mut db, "B", "x").unwrap();
    assert_eq!(la.history()[0].content, "from A");
    assert_eq!(lb.history()[0].content, "from B");
}

#[test]
fn session_persists_across_db_reopen() {
    let tmp = TempDir::new().unwrap();
    let path = tmp.path().join("brain.db");
    {
        let mut db = BrainDb::open(path.to_str().unwrap()).unwrap();
        let mut s = Session::load(&mut db, "persist", "sid").unwrap();
        s.add_user_message("survive restart");
        s.set_summary("persisted summary".to_string());
        s.save(&mut db).unwrap();
    }
    let mut db2 = BrainDb::open(path.to_str().unwrap()).unwrap();
    let loaded = Session::load(&mut db2, "persist", "other").unwrap();
    assert_eq!(loaded.history().len(), 1);
    assert_eq!(loaded.history()[0].content, "survive restart");
    assert_eq!(loaded.summary(), "persisted summary");
    assert_eq!(loaded.session_id(), "sid");
}

#[test]
fn session_unicode_roundtrip() {
    let (_tmp, mut db) = temp_db();
    let mut s = Session::load(&mut db, "uni", "sid").unwrap();
    s.add_user_message("こんにちは 🚀");
    s.set_summary("日本語".to_string());
    s.save(&mut db).unwrap();

    let loaded = Session::load(&mut db, "uni", "sid").unwrap();
    assert_eq!(loaded.history()[0].content, "こんにちは 🚀");
    assert_eq!(loaded.summary(), "日本語");
}

#[test]
fn save_without_changes_is_a_no_op() {
    let (_tmp, mut db) = temp_db();
    let mut s = Session::load(&mut db, "noop", "sid").unwrap();
    s.save(&mut db).unwrap();
    assert!(db.load_history("noop").unwrap().is_empty());
}

#[test]
fn two_turn_session_persistence() {
    // Turn one: the model asks for one tool call, then sends a final
    // reply; four rows reach storage.  Turn two: the message list built
    // for the model carries those four rows and the new user turn.
    let (_tmp, mut db) = temp_db();
    let mut session = Session::load(&mut db, "chat", "sid").unwrap();

    let first_turn = build_messages("sys".to_string(), session.history(), "Hi");
    session.add_user_message("Hi");
    let mut lp = AgentLoop::new(first_turn, 20);
    let call = ToolCall {
        id: "c1".to_string(),
        type_: "function".to_string(),
        function: ToolCallFunction {
            name: "write_file".to_string(),
            arguments: "{\"path\":\"a.txt\",\"content\":\"x\"}".to_string(),
        },
    };
    let outcome = lp.on_llm_response("".to_string(), vec![call]);
    let calls = match outcome {
        StepOutcome::RunTools(cs) => cs,
        StepOutcome::Final(_) => panic!("expected a tool call"),
    };
    session.add_assistant_message("", Some(calls.clone()));
    for c in &calls {
        lp.on_tool_result(&c.id, "written");
        session.add_tool_message(&c.id, "written");
    }
    let reply = match lp.on_llm_response("done".to_string(), Vec::new()) {
        StepOutcome::Final(r) => r,
        StepOutcome::RunTools(_) => panic!("expected a final reply"),
    };
    session.add_assistant_message(&reply, None);
    session.save(&mut db).unwrap();
    assert_eq!(db.load_history("chat").unwrap().len(), 4);

    let session2 = Session::load(&mut db, "chat", "other").unwrap();
    assert_eq!(session2.history().len(), 4);
    let second_turn: Vec<Message> =
        build_messages("sys".to_string(), session2.history(), "Hi again");
    assert_eq!(second_turn.len(), 6);
    assert_eq!(second_turn[1].content, "Hi");
    assert_eq!(
        second_turn[2].tool_calls.as_ref().unwrap()[0].function.name,
        "write_file"
    );
    assert_eq!(second_turn[3].tool_call_id.as_deref(), Some("c1"));
    assert_eq!(second_turn[4].content, "done");
    assert_eq!(second_turn[5].content, "Hi again");
}
