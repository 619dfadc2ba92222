//! Subagent ledger tests: stable ids, one-way transitions, idempotent
//! completion, cancellation, bounded retention.

use icrab::subagents::{SubagentManager, SubagentStatus, MAX_COMPLETED_TASKS};

#[test]
fn status_display() {
    assert_eq!(SubagentStatus::Running.text(), "running");
    assert_eq!(SubagentStatus::Completed.text(), "completed");
    assert_eq!(SubagentStatus::Failed.text(), "failed");
    assert_eq!(SubagentStatus::Cancelled.text(), "cancelled");
}

#[test]
fn spawn_assigns_stable_ids() {
    let mut mgr = SubagentManager::new();
    let id1 = mgr.spawn("a".to_string(), None, 1);
    let id2 = mgr.spawn("b".to_string(), Some("label".to_string()), 2);
    assert_eq!(id1, "subagent-1");
    assert_eq!(id2, "subagent-2");
    let t = mgr.get_task("subagent-2").unwrap();
    assert_eq!(t.status, SubagentStatus::Running);
    assert_eq!(t.label.as_deref(), Some("label"));
    assert!(t.result.is_none());
}

#[test]
fn prune_keeps_bounded() {
    let mut mgr = SubagentManager::new();
    for i in 0..(MAX_COMPLETED_TASKS + 10) {
        let id = mgr.spawn("t".to_string(), None, i as u64);
        mgr.complete_task(&id, SubagentStatus::Completed, Some("ok".to_string()));
    }
    assert!(mgr.list_tasks().len() <= MAX_COMPLETED_TASKS);
}

#[test]
fn prune_never_evicts_running() {
    let mut mgr = SubagentManager::new();
    let keep = mgr.spawn("keep".to_string(), None, 0);
    for i in 0..(MAX_COMPLETED_TASKS + 10) {
        let id = mgr.spawn("t".to_string(), None, (i + 1) as u64);
        mgr.complete_task(&id, SubagentStatus::Completed, Some("ok".to_string()));
    }
    let t = mgr.get_task(&keep).unwrap();
    assert_eq!(t.status, SubagentStatus::Running);
}

#[test]
fn cancel_nonexistent_returns_false() {
    let mut mgr = SubagentManager::new();
    assert!(!mgr.cancel("subagent-999"));
}

#[test]
fn complete_task_idempotent() {
    // The first completion wins; a second one changes nothing.
    let mut mgr = SubagentManager::new();
    let id = mgr.spawn("t".to_string(), None, 1);
    mgr.complete_task(&id, SubagentStatus::Completed, Some("a".to_string()));
    mgr.complete_task(&id, SubagentStatus::Failed, Some("b".to_string()));
    let t = mgr.get_task(&id).unwrap();
    assert_eq!(t.status, SubagentStatus::Completed);
    assert_eq!(t.result.as_deref(), Some("a"));
}

#[test]
fn cancel_running_then_cancel_again() {
    // Cancel moves a running task to cancelled and reports true; on an
    // already terminal task it reports false and changes nothing.
    let mut mgr = SubagentManager::new();
    let id = mgr.spawn("t".to_string(), None, 1);
    assert!(mgr.cancel(&id));
    let t = mgr.get_task(&id).unwrap();
    assert_eq!(t.status, SubagentStatus::Cancelled);
    assert_eq!(t.result.as_deref(), Some("Cancelled"));
    assert!(!mgr.cancel(&id));
    let t2 = mgr.get_task(&id).unwrap();
    assert_eq!(t2.status, SubagentStatus::Cancelled);
    assert_eq!(t2.result.as_deref(), Some("Cancelled"));
}

#[test]
fn complete_after_cancel_is_a_no_op() {
    // A terminal status is reached exactly once.
    let mut mgr = SubagentManager::new();
    let id = mgr.spawn("t".to_string(), None, 1);
    assert!(mgr.cancel(&id));
    mgr.complete_task(&id, SubagentStatus::Completed, Some("late".to_string()));
    let t = mgr.get_task(&id).unwrap();
    assert_eq!(t.status, SubagentStatus::Cancelled);
    assert_eq!(t.result.as_deref(), Some("Cancelled"));
}
