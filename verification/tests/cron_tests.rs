//! Cron engine tests: the expression grammar, schedule next-fire, the job
//! store, and the tick decision.

use icrab::cron_command::{cron_execute, render_job_list, CronArgs};
use icrab::cron_expr::parse_cron_expr;
use icrab::channel::{InboundMsg, OutboundMsg};
use icrab::cron_runner::tick_plan;
use icrab::cron_sched::{next_match, parse_delay, Schedule};
use icrab::cron_store::{CronStore, JobAction};

#[test]
fn once_next_fire() {
    let s = Schedule::Once { at_unix: 1000 };
    assert_eq!(s.next_fire_after(500), Some(1000));
}

#[test]
fn once_past() {
    let s = Schedule::Once { at_unix: 1000 };
    assert_eq!(s.next_fire_after(2000), None);
}

#[test]
fn interval_next_fire() {
    let s = Schedule::Interval { every_seconds: 300 };
    assert_eq!(s.next_fire_after(1000), Some(1300));
}

#[test]
fn parse_every_minute() {
    let e = parse_cron_expr("* * * * *").unwrap();
    assert_eq!(e.minutes.len(), 60);
    assert_eq!(e.hours.len(), 24);
}

#[test]
fn parse_single_values() {
    let e = parse_cron_expr("0 9 1 1 0").unwrap();
    assert_eq!(e.minutes, vec![0]);
    assert_eq!(e.hours, vec![9]);
    assert_eq!(e.doms, vec![1]);
    assert_eq!(e.months, vec![1]);
    assert_eq!(e.dows, vec![0]);
}

#[test]
fn parse_comma_list() {
    let e = parse_cron_expr("0,30 9,17 * * *").unwrap();
    assert_eq!(e.minutes, vec![0, 30]);
    assert_eq!(e.hours, vec![9, 17]);
}

#[test]
fn parse_range() {
    let e = parse_cron_expr("0 9 * * 1-5").unwrap();
    assert_eq!(e.dows, vec![1, 2, 3, 4, 5]);
}

#[test]
fn parse_step_wildcard() {
    let e = parse_cron_expr("*/15 * * * *").unwrap();
    assert_eq!(e.minutes, vec![0, 15, 30, 45]);
}

#[test]
fn parse_step_range() {
    let e = parse_cron_expr("0-30/10 * * * *").unwrap();
    assert_eq!(e.minutes, vec![0, 10, 20, 30]);
}

#[test]
fn parse_too_few_fields() {
    assert!(parse_cron_expr("* * *").is_err());
}

#[test]
fn parse_too_many_fields() {
    assert!(parse_cron_expr("* * * * * *").is_err());
}

#[test]
fn parse_out_of_range() {
    assert!(parse_cron_expr("60 * * * *").is_err());
}

#[test]
fn parse_invalid_range() {
    assert!(parse_cron_expr("5-2 * * * *").is_err());
}

#[test]
fn cron_parse_empty() {
    assert!(parse_cron_expr("").is_err());
}

#[test]
fn parse_zero_step_rejected() {
    assert!(parse_cron_expr("*/0 * * * *").is_err());
    assert!(parse_cron_expr("0-30/0 * * * *").is_err());
}

#[test]
fn cron_next_fire() {
    let s = Schedule::Cron { expr: "0 9 * * *".to_string() };
    let ref_time = 1739707200u64;
    let next = s.next_fire_after(ref_time);
    assert!(next.is_some());
}

#[test]
fn cron_invalid_expr() {
    let s = Schedule::Cron { expr: "bad".to_string() };
    assert_eq!(s.next_fire_after(1000), None);
}

#[test]
fn weekday_expression_next_fire() {
    // Sunday 2026-02-22 12:00 UTC; weekdays at 09:00 fire next on Monday
    // 2026-02-23 09:00 UTC.
    let e = parse_cron_expr("0 9 * * 1-5").unwrap();
    assert_eq!(next_match(&e, 1771761600), Some(1771837200));
}

#[test]
fn daily_expression_next_fire_exact() {
    // Sunday 2025-06-15 10:30 UTC; daily at 09:00 fires next at 09:00 the
    // following day.
    let e = parse_cron_expr("0 9 * * *").unwrap();
    assert_eq!(next_match(&e, 1749983400), Some(1750064400));
}

#[test]
fn impossible_date_has_no_match() {
    // The 30th of February never exists.
    let e = parse_cron_expr("0 0 30 2 *").unwrap();
    assert_eq!(next_match(&e, 1749983400), None);
}

#[test]
fn next_match_is_deterministic() {
    let e = parse_cron_expr("*/5 3 * * *").unwrap();
    assert_eq!(next_match(&e, 1749983400), next_match(&e, 1749983400));
}

#[test]
fn parse_delay_accepts_units() {
    assert_eq!(parse_delay("30s").unwrap(), 30);
    assert_eq!(parse_delay("5m").unwrap(), 300);
    assert_eq!(parse_delay("2h").unwrap(), 7200);
    assert_eq!(parse_delay("1d").unwrap(), 86400);
    assert_eq!(parse_delay("1w").unwrap(), 604_800);
    assert!(parse_delay("x").is_err());
    assert!(parse_delay("30x").is_err());
}

#[test]
fn parse_delay_defaults_to_minutes() {
    assert_eq!(parse_delay("45").unwrap(), 2700);
    assert!(parse_delay("").is_err());
}

#[test]
fn add_returns_job_with_id() {
    let mut store = CronStore::empty();
    let job = store
        .add(
            None,
            "hello".to_string(),
            JobAction::Direct,
            Schedule::Once { at_unix: 9999999999 },
            123,
            1000,
        )
        .unwrap();
    assert!(job.id.starts_with("job-"));
    assert!(job.enabled);
    assert!(job.next_run.is_some());
}

#[test]
fn remove_existing() {
    let mut store = CronStore::empty();
    store
        .add(
            None,
            "x".to_string(),
            JobAction::Direct,
            Schedule::Once { at_unix: 9999999999 },
            1,
            1000,
        )
        .unwrap();
    assert!(store.remove("job-1"));
    assert!(store.list().is_empty());
}

#[test]
fn find_due_filters() {
    let mut store = CronStore::empty();
    let base = 1_700_000_000u64;
    store
        .add(
            None,
            "due".to_string(),
            JobAction::Direct,
            Schedule::Once { at_unix: base + 100 },
            1,
            base,
        )
        .unwrap();
    store
        .add(
            None,
            "later".to_string(),
            JobAction::Direct,
            Schedule::Once { at_unix: base + 10_000 },
            1,
            base,
        )
        .unwrap();
    let due = store.find_due(base + 500);
    assert_eq!(due.len(), 1);
    assert_eq!(due[0].message, "due");
}

#[test]
fn mark_fired_once_disables() {
    // A one-shot job fires once: afterwards it is disabled, its next fire
    // is cleared and its last fire is recorded.
    let mut store = CronStore::empty();
    let base = 1_700_000_000u64;
    store
        .add(
            None,
            "x".to_string(),
            JobAction::Direct,
            Schedule::Once { at_unix: base + 100 },
            1,
            base,
        )
        .unwrap();
    store.mark_fired("job-1", base + 100);
    let j = store.get("job-1").unwrap();
    assert!(!j.enabled);
    assert!(j.next_run.is_none());
    assert_eq!(j.last_run, Some(base + 100));
}

#[test]
fn mark_fired_interval_advances() {
    // An interval job fired at t has its next fire at exactly t plus the
    // interval.
    let mut store = CronStore::empty();
    let base = 1_700_000_000u64;
    store
        .add(
            None,
            "x".to_string(),
            JobAction::Direct,
            Schedule::Interval { every_seconds: 300 },
            1,
            base,
        )
        .unwrap();
    store.mark_fired("job-1", base + 1234);
    let j = store.get("job-1").unwrap();
    assert!(j.enabled);
    assert_eq!(j.next_run, Some(base + 1234 + 300));
    assert_eq!(j.last_run, Some(base + 1234));
}

#[test]
fn add_once_past_returns_error() {
    let mut store = CronStore::empty();
    let now = 1_700_000_000u64;
    let err = store
        .add(
            None,
            "x".to_string(),
            JobAction::Direct,
            Schedule::Once { at_unix: now - 1 },
            1,
            now,
        )
        .unwrap_err();
    assert!(err.text().contains("future"));
}

#[test]
fn add_interval_under_minute_rejected() {
    let mut store = CronStore::empty();
    let err = store
        .add(
            None,
            "x".to_string(),
            JobAction::Direct,
            Schedule::Interval { every_seconds: 59 },
            1,
            1000,
        )
        .unwrap_err();
    assert!(err.text().contains("60"));
}

/// One tick with every send succeeding: plan, then mark each planned id.
fn tick_deliver_all(store: &mut CronStore, now: u64) -> (Vec<InboundMsg>, Vec<OutboundMsg>) {
    let plan = tick_plan(store, now);
    for id in plan.inbound_ids.iter().chain(plan.outbound_ids.iter()) {
        store.mark_fired(id, now);
    }
    (plan.inbound, plan.outbound)
}

#[test]
fn tick_fires_due_direct_job() {
    let mut store = CronStore::empty();
    let base = 1_700_000_000u64;
    store
        .add(
            None,
            "Reminder".to_string(),
            JobAction::Direct,
            Schedule::Once { at_unix: base + 60 },
            12345,
            base,
        )
        .unwrap();
    let (inbound, outbound) = tick_deliver_all(&mut store, base + 61);
    assert!(inbound.is_empty());
    assert_eq!(outbound.len(), 1);
    assert_eq!(outbound[0].chat_id, 12345);
    assert_eq!(outbound[0].text, "Reminder");
    assert_eq!(outbound[0].channel, "cron");
    let job = store.get("job-1").unwrap();
    assert!(job.last_run.is_some());
    assert!(!job.enabled);
}

#[test]
fn tick_fires_due_agent_job() {
    let mut store = CronStore::empty();
    let base = 1_700_000_000u64;
    store
        .add(
            None,
            "Agent task".to_string(),
            JobAction::Agent,
            Schedule::Once { at_unix: base + 60 },
            999,
            base,
        )
        .unwrap();
    let (inbound, outbound) = tick_deliver_all(&mut store, base + 61);
    assert!(outbound.is_empty());
    assert_eq!(inbound.len(), 1);
    assert_eq!(inbound[0].chat_id, 999);
    assert_eq!(inbound[0].text, "Agent task");
    assert_eq!(inbound[0].channel, "cron");
    assert_eq!(inbound[0].user_id, 0);
}

#[test]
fn tick_skips_not_due() {
    let mut store = CronStore::empty();
    let base = 1_700_000_000u64;
    store
        .add(
            None,
            "Later".to_string(),
            JobAction::Direct,
            Schedule::Once { at_unix: base + 1000 },
            1,
            base,
        )
        .unwrap();
    let (inbound, outbound) = tick_deliver_all(&mut store, base + 500);
    assert!(inbound.is_empty());
    assert!(outbound.is_empty());
}

#[test]
fn one_shot_fires_exactly_once() {
    // A one-shot due job produces one message; later ticks produce none.
    let mut store = CronStore::empty();
    let base = 1_700_000_000u64;
    store
        .add(
            None,
            "ping".to_string(),
            JobAction::Direct,
            Schedule::Once { at_unix: base + 1 },
            7,
            base,
        )
        .unwrap();
    let (_, outbound) = tick_deliver_all(&mut store, base + 2);
    assert_eq!(outbound.len(), 1);
    assert!(!store.get("job-1").unwrap().enabled);
    let (_, outbound2) = tick_deliver_all(&mut store, base + 4);
    assert!(outbound2.is_empty());
}

#[test]
fn interval_fires_repeatedly() {
    // An interval job fires at every tick its next fire has passed.
    let mut store = CronStore::empty();
    let base = 1_700_000_000u64;
    store
        .add(
            None,
            "tick".to_string(),
            JobAction::Direct,
            Schedule::Interval { every_seconds: 60 },
            7,
            base,
        )
        .unwrap();
    let (_, o1) = tick_deliver_all(&mut store, base + 61);
    assert_eq!(o1.len(), 1);
    let (_, o2) = tick_deliver_all(&mut store, base + 121);
    assert_eq!(o2.len(), 1);
    let (_, o3) = tick_deliver_all(&mut store, base + 140);
    assert!(o3.is_empty());
}

#[test]
fn undelivered_fire_is_retried_next_tick() {
    // A full queue drops the message; the job is not marked, keeps its
    // next fire time, and the following tick plans it again.
    let mut store = CronStore::empty();
    let base = 1_700_000_000u64;
    store
        .add(
            None,
            "ping".to_string(),
            JobAction::Direct,
            Schedule::Once { at_unix: base + 1 },
            7,
            base,
        )
        .unwrap();
    let plan = tick_plan(&store, base + 2);
    assert_eq!(plan.outbound.len(), 1);
    assert_eq!(plan.outbound_ids, vec!["job-1"]);
    // The send failed: nothing is marked.
    let j = store.get("job-1").unwrap();
    assert!(j.enabled);
    assert_eq!(j.next_run, Some(base + 1));
    assert!(j.last_run.is_none());
    // The next tick plans the same fire; this time the send succeeds.
    let plan2 = tick_plan(&store, base + 4);
    assert_eq!(plan2.outbound.len(), 1);
    store.mark_fired(&plan2.outbound_ids[0], base + 4);
    assert!(!store.get("job-1").unwrap().enabled);
    let plan3 = tick_plan(&store, base + 6);
    assert!(plan3.outbound.is_empty());
}

fn empty_args() -> CronArgs {
    CronArgs {
        action: None,
        id: None,
        message: None,
        schedule_type: None,
        at_unix: None,
        delay: None,
        every_seconds: None,
        cron_expr: None,
        job_action: None,
        label: None,
    }
}

#[test]
fn cron_tool_list_empty() {
    let mut store = CronStore::empty();
    let mut args = empty_args();
    args.action = Some("list".to_string());
    let res = cron_execute(&mut store, &args, Some(1), 1000);
    assert!(!res.is_error);
    assert!(res.for_llm.contains("No scheduled jobs"));
}

#[test]
fn cron_tool_add_success() {
    let mut store = CronStore::empty();
    let mut args = empty_args();
    args.action = Some("add".to_string());
    args.message = Some("Hello".to_string());
    args.schedule_type = Some("once".to_string());
    args.at_unix = Some(2_000_000_000);
    let res = cron_execute(&mut store, &args, Some(42), 1000);
    assert!(!res.is_error);
    assert!(res.for_llm.contains("job-"));
    assert_eq!(res.for_llm, "Added job job-1 ((no label)): next_run=Some(2000000000)");
}

#[test]
fn cron_tool_add_missing_chat_id() {
    let mut store = CronStore::empty();
    let mut args = empty_args();
    args.action = Some("add".to_string());
    args.message = Some("Hi".to_string());
    args.schedule_type = Some("once".to_string());
    args.at_unix = Some(2_000_000_000);
    let res = cron_execute(&mut store, &args, None, 1000);
    assert!(res.is_error);
    assert!(res.for_llm.contains("chat_id"));
}

#[test]
fn cron_tool_add_once_with_delay_success() {
    let mut store = CronStore::empty();
    let now = 1_700_000_000u64;
    let mut args = empty_args();
    args.action = Some("add".to_string());
    args.message = Some("Remind me in 5 minutes".to_string());
    args.schedule_type = Some("once".to_string());
    args.delay = Some("5m".to_string());
    let res = cron_execute(&mut store, &args, Some(1), now);
    assert!(!res.is_error, "{}", res.for_llm);
    let jobs = store.list();
    assert_eq!(jobs.len(), 1);
    assert_eq!(jobs[0].next_run, Some(now + 300));
}

#[test]
fn cron_tool_add_once_neither_at_unix_nor_delay_returns_error() {
    let mut store = CronStore::empty();
    let mut args = empty_args();
    args.action = Some("add".to_string());
    args.message = Some("Hi".to_string());
    args.schedule_type = Some("once".to_string());
    let res = cron_execute(&mut store, &args, Some(1), 1000);
    assert!(res.is_error);
    assert!(res.for_llm.contains("at_unix") || res.for_llm.contains("delay"));
}

#[test]
fn cron_tool_add_once_both_at_unix_and_delay_returns_error() {
    let mut store = CronStore::empty();
    let mut args = empty_args();
    args.action = Some("add".to_string());
    args.message = Some("Hi".to_string());
    args.schedule_type = Some("once".to_string());
    args.at_unix = Some(2_000_000_000);
    args.delay = Some("1h".to_string());
    let res = cron_execute(&mut store, &args, Some(1), 1000);
    assert!(res.is_error);
    assert!(res.for_llm.contains("not both") || res.for_llm.contains("either"));
}

#[test]
fn cron_tool_remove_and_disable() {
    let mut store = CronStore::empty();
    let mut add = empty_args();
    add.action = Some("add".to_string());
    add.message = Some("x".to_string());
    add.schedule_type = Some("interval".to_string());
    add.every_seconds = Some(300);
    let res = cron_execute(&mut store, &add, Some(1), 1000);
    assert!(!res.is_error);

    let mut dis = empty_args();
    dis.action = Some("disable".to_string());
    dis.id = Some("job-1".to_string());
    let res = cron_execute(&mut store, &dis, Some(1), 1000);
    assert_eq!(res.for_llm, "Disabled.");
    assert!(!store.get("job-1").unwrap().enabled);

    let mut rm = empty_args();
    rm.action = Some("remove".to_string());
    rm.id = Some("job-1".to_string());
    let res = cron_execute(&mut store, &rm, Some(1), 1000);
    assert_eq!(res.for_llm, "Removed.");
    assert!(store.get("job-1").is_none());
}

#[test]
fn job_list_rendering() {
    let mut store = CronStore::empty();
    store
        .add(
            Some("daily".to_string()),
            "Morning".to_string(),
            JobAction::Direct,
            Schedule::Once { at_unix: 2_000_000_000 },
            1,
            1000,
        )
        .unwrap();
    let text = render_job_list(&store.list());
    assert_eq!(text, "job-1 | daily | enabled=true | next_run=Some(2000000000) | Morning");
}

#[test]
fn schedule_stored_form_round_trips() {
    // Writing a schedule and reading it back preserves its semantics.
    let cases = vec![
        Schedule::Once { at_unix: 2_000_000_000 },
        Schedule::Interval { every_seconds: 300 },
        Schedule::Cron { expr: "0 9 * * 1-5".to_string() },
    ];
    for s in cases {
        let text = icrab::cron_codec::format_schedule(&s);
        let back = icrab::cron_codec::parse_schedule(&text).unwrap();
        match (&s, &back) {
            (Schedule::Once { at_unix: a }, Schedule::Once { at_unix: b }) => assert_eq!(a, b),
            (
                Schedule::Interval { every_seconds: a },
                Schedule::Interval { every_seconds: b },
            ) => assert_eq!(a, b),
            (Schedule::Cron { expr: a }, Schedule::Cron { expr: b }) => assert_eq!(a, b),
            _ => panic!("schedule kind changed across the stored form"),
        }
        assert_eq!(icrab::cron_codec::format_schedule(&back), text);
    }
}

#[test]
fn schedule_stored_form_examples() {
    let text = icrab::cron_codec::format_schedule(&Schedule::Once { at_unix: 42 });
    assert_eq!(text, "{\"type\":\"once\",\"at_unix\":42}");
    assert!(icrab::cron_codec::parse_schedule("{\"type\":\"interval\",\"every_seconds\":60}").is_some());
    assert!(icrab::cron_codec::parse_schedule("not a schedule").is_none());
}
