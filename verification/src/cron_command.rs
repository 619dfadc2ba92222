//! The cron tool's command handling: argument validation, the store
//! operation each action performs, and the texts handed back to the model.
//!
//! The caller unpacks the tool-call arguments into plain fields and
//! persists the job list after each mutation; every decision in between is
//! made here.

use vstd::prelude::*;

use crate::cron_expr::parse_cron_expr;
use crate::cron_sched::{parse_delay, spec_no_overflow, Schedule};
use crate::cron_store::{
    spec_disabled_effect, spec_enabled_effect, spec_job_index, CronJob, CronStore, JobAction,
};
use crate::text::{chars_to_string, spec_u64_digits, str_to_chars, sub_chars, u64_to_chars};
use crate::tool_result::ToolResult;

verus! {

/// The cron tool's arguments, unpacked from the call's JSON object.
#[derive(Debug)]
pub struct CronArgs {
    pub action: Option<String>,
    pub id: Option<String>,
    pub message: Option<String>,
    pub schedule_type: Option<String>,
    pub at_unix: Option<i64>,
    pub delay: Option<String>,
    pub every_seconds: Option<i64>,
    pub cron_expr: Option<String>,
    pub job_action: Option<String>,
    pub label: Option<String>,
}

/// `Some(n)` or `None`, as the job texts render a next-fire time.
pub open spec fn spec_opt_u64_text(v: Option<u64>) -> Seq<char> {
    match v {
        Some(n) => "Some("@ + spec_u64_digits(n) + ")"@,
        None => "None"@,
    }
}

fn opt_u64_text(v: &Option<u64>) -> (r: String)
    ensures
        r@ == spec_opt_u64_text(*v),
{
    match v {
        Some(n) => {
            let mut s = String::new();
            s.append("Some(");
            let d = u64_to_chars(*n);
            let ds = chars_to_string(&d);
            s.append(ds.as_str());
            s.append(")");
            s
        },
        None => "None".to_owned(),
    }
}

/// A job's label, or the placeholder when it has none.
pub open spec fn spec_label_text(label: Option<Seq<char>>) -> Seq<char> {
    match label {
        Some(l) => l,
        None => "(no label)"@,
    }
}

fn label_text(label: &Option<String>) -> (r: String)
    ensures
        r@ == spec_label_text(
            match label {
                Some(l) => Some(l@),
                None => None,
            },
        ),
{
    match label {
        Some(l) => l.clone(),
        None => "(no label)".to_owned(),
    }
}

/// A message cut to forty characters for the listing, marked when cut.
pub open spec fn spec_preview(m: Seq<char>) -> Seq<char> {
    if m.len() > 40 {
        m.subrange(0, 40) + seq!['\u{2026}']
    } else {
        m
    }
}

fn preview(m: &str) -> (r: String)
    ensures
        r@ == spec_preview(m@),
{
    let v = str_to_chars(m);
    if v.len() > 40 {
        let mut head = sub_chars(&v, 0, 40);
        head.push('\u{2026}');
        let r = chars_to_string(&head);
        proof {
            assert(r@ =~= spec_preview(m@));
        }
        r
    } else {
        chars_to_string(&v)
    }
}

/// One job's line in the listing.
pub open spec fn spec_job_line(j: CronJob) -> Seq<char> {
    j.id@ + " | "@ + spec_label_text(
        match j.label {
            Some(l) => Some(l@),
            None => None,
        },
    ) + " | enabled="@ + (if j.enabled {
        "true"@
    } else {
        "false"@
    }) + " | next_run="@ + spec_opt_u64_text(j.next_run) + " | "@ + spec_preview(j.message@)
}

pub open spec fn spec_job_lines(jobs: Seq<CronJob>) -> Seq<char>
    decreases jobs.len(),
{
    if jobs.len() == 0 {
        Seq::<char>::empty()
    } else if jobs.len() == 1 {
        spec_job_line(jobs[0])
    } else {
        spec_job_lines(jobs.drop_last()) + "\n"@ + spec_job_line(jobs.last())
    }
}

fn job_line_into(buf: &mut String, j: &CronJob)
    ensures
        final(buf)@ == old(buf)@ + spec_job_line(*j),
{
    buf.append(j.id.as_str());
    buf.append(" | ");
    let l = label_text(&j.label);
    buf.append(l.as_str());
    buf.append(" | enabled=");
    if j.enabled {
        buf.append("true");
    } else {
        buf.append("false");
    }
    buf.append(" | next_run=");
    let n = opt_u64_text(&j.next_run);
    buf.append(n.as_str());
    buf.append(" | ");
    let p = preview(j.message.as_str());
    buf.append(p.as_str());
}

/// Render the job listing, or the fixed line when there are none.
pub fn render_job_list(jobs: &Vec<CronJob>) -> (r: String)
    ensures
        jobs@.len() == 0 ==> r@ == "No scheduled jobs."@,
        jobs@.len() > 0 ==> r@ == spec_job_lines(jobs@),
{
    if jobs.len() == 0 {
        return "No scheduled jobs.".to_owned();
    }
    let mut buf = String::new();
    let mut i: usize = 0;
    proof {
        assert(jobs@.subrange(0, 0) =~= Seq::<CronJob>::empty());
    }
    while i < jobs.len()
        invariant
            0 <= i <= jobs@.len(),
            buf@ == spec_job_lines(jobs@.subrange(0, i as int)),
        decreases jobs@.len() - i,
    {
        if i > 0 {
            buf.append("\n");
        }
        job_line_into(&mut buf, &jobs[i]);
        proof {
            let cur = jobs@.subrange(0, i + 1 as int);
            assert(cur.drop_last() =~= jobs@.subrange(0, i as int));
            assert(cur.last() == jobs@[i as int]);
        }
        i = i + 1;
    }
    proof {
        assert(jobs@.subrange(0, jobs@.len() as int) =~= jobs@);
    }
    buf
}

/// Saturating add of a delay onto the clock.
fn saturating_add(now: u64, secs: u64) -> (r: u64)
    ensures
        r == if now + secs <= u64::MAX {
            (now + secs) as u64
        } else {
            u64::MAX
        },
{
    if now > u64::MAX - secs {
        u64::MAX
    } else {
        now + secs
    }
}

/// Validate the schedule fields of an `add` command and build the
/// schedule, or the error result describing what is missing or invalid.
fn build_schedule(args: &CronArgs, now: u64) -> (r: Result<Schedule, ToolResult>)
    requires
        now < 4611686018427387904,
    ensures
        r matches Ok(sched) ==> spec_no_overflow(sched, now),
        r matches Err(t) ==> t.is_error && t.for_user is None && !t.silent && !t.async_,
{
    let st = match &args.schedule_type {
        Some(s) => s.clone(),
        None => String::new(),
    };
    let stv = str_to_chars(st.as_str());
    let once_s = str_to_chars("once");
    let interval_s = str_to_chars("interval");
    let cron_s = str_to_chars("cron");
    if crate::text::chars_eq(&stv, &once_s) {
        let at_unix: u64 = match (&args.at_unix, &args.delay) {
            (Some(t), None) => #[verifier::truncate] (*t as u64),
            (None, Some(d)) => {
                let secs = match parse_delay(d.as_str()) {
                    Ok(s) => s,
                    Err(e) => {
                        let msg = e.text();
                        return Err(ToolResult::error(msg.as_str()));
                    },
                };
                saturating_add(now, secs)
            },
            (None, None) => {
                return Err(
                    ToolResult::error(
                        "once requires either 'at_unix' or 'delay' (e.g. '30m', '2h')",
                    ),
                );
            },
            (Some(_), Some(_)) => {
                return Err(
                    ToolResult::error("once accepts either 'at_unix' or 'delay', not both"),
                );
            },
        };
        Ok(Schedule::Once { at_unix })
    } else if crate::text::chars_eq(&stv, &interval_s) {
        let every = match &args.every_seconds {
            Some(x) => *x,
            None => {
                return Err(ToolResult::error("interval requires 'every_seconds' (min 60)"));
            },
        };
        if every < 60 {
            return Err(ToolResult::error("every_seconds must be at least 60"));
        }
        Ok(Schedule::Interval { every_seconds: every as u64 })
    } else if crate::text::chars_eq(&stv, &cron_s) {
        let expr = match &args.cron_expr {
            Some(s) => s.clone(),
            None => {
                return Err(ToolResult::error("cron requires 'cron_expr'"));
            },
        };
        match parse_cron_expr(expr.as_str()) {
            Ok(_) => {},
            Err(_) => {
                return Err(ToolResult::error("invalid cron expression"));
            },
        }
        Ok(Schedule::Cron { expr })
    } else {
        Err(ToolResult::error("add requires 'schedule_type': once, interval, or cron"))
    }
}

/// The view of an optional string argument.
pub open spec fn spec_opt_str(o: Option<String>) -> Option<Seq<char>> {
    match o {
        Some(s) => Some(s@),
        None => None,
    }
}

/// What an `add` command leaves behind: on any error the store is
/// untouched; on success exactly one job was appended, enabled, scheduled,
/// carrying the given message and chat, and the reply names its id, label
/// and first fire time.
pub open spec fn spec_add_outcome(
    before: Seq<CronJob>,
    before_next: u64,
    after: Seq<CronJob>,
    after_next: u64,
    message: Option<Seq<char>>,
    chat_id: Option<i64>,
    r: ToolResult,
) -> bool {
    &&& (r.is_error ==> after == before && after_next == before_next)
    &&& (!r.is_error ==> {
        let j = after.last();
        &&& (message matches Some(m) && m.len() > 0 && j.message@ == m)
        &&& (chat_id matches Some(c) && j.chat_id == c)
        &&& after.len() == before.len() + 1
        &&& after.subrange(0, before.len() as int) == before
        &&& j.enabled
        &&& j.next_run is Some
        &&& r.for_llm@ == "Added job "@ + j.id@ + " ("@ + spec_label_text(
            match j.label {
                Some(l) => Some(l@),
                None => None,
            },
        ) + "): next_run="@ + spec_opt_u64_text(j.next_run)
    })
}

/// What a `list` command replies: never an error, the rendered job lines,
/// or the fixed text when the store is empty.
pub open spec fn spec_list_outcome(jobs: Seq<CronJob>, r: ToolResult) -> bool {
    &&& !r.is_error
    &&& r.for_llm@ == if jobs.len() == 0 {
        "No scheduled jobs."@
    } else {
        spec_job_lines(jobs)
    }
}

/// What a `remove` command leaves behind: without an id an error and no
/// change; with one, the first job of that id removed and "Removed.", or
/// "Job not found." and no change.
pub open spec fn spec_remove_outcome(
    before: Seq<CronJob>,
    after: Seq<CronJob>,
    id: Option<Seq<char>>,
    r: ToolResult,
) -> bool {
    match id {
        Some(s) => if s.len() > 0 {
            let k = spec_job_index(before, s);
            &&& !r.is_error
            &&& if k < before.len() {
                after == before.remove(k) && r.for_llm@ == "Removed."@
            } else {
                after == before && r.for_llm@ == "Job not found."@
            }
        } else {
            r.is_error && r.for_llm@ == "remove requires 'id'"@ && after == before
        },
        None => r.is_error && r.for_llm@ == "remove requires 'id'"@ && after == before,
    }
}

/// What an `enable` command leaves behind: without an id an error and no
/// change; with one, the job re-enabled with its next fire recomputed and
/// "Enabled.", or "Job not found." and no change.
pub open spec fn spec_enable_outcome(
    before: Seq<CronJob>,
    after: Seq<CronJob>,
    id: Option<Seq<char>>,
    now: u64,
    r: ToolResult,
) -> bool {
    match id {
        Some(s) => if s.len() > 0 {
            let k = spec_job_index(before, s);
            &&& !r.is_error
            &&& if k < before.len() {
                spec_enabled_effect(before, after, k, now) && r.for_llm@ == "Enabled."@
            } else {
                after == before && r.for_llm@ == "Job not found."@
            }
        } else {
            r.is_error && r.for_llm@ == "enable requires 'id'"@ && after == before
        },
        None => r.is_error && r.for_llm@ == "enable requires 'id'"@ && after == before,
    }
}

/// What a `disable` command leaves behind: without an id an error and no
/// change; with one, the job disabled with its next fire cleared and
/// "Disabled.", or "Job not found." and no change.
pub open spec fn spec_disable_outcome(
    before: Seq<CronJob>,
    after: Seq<CronJob>,
    id: Option<Seq<char>>,
    r: ToolResult,
) -> bool {
    match id {
        Some(s) => if s.len() > 0 {
            let k = spec_job_index(before, s);
            &&& !r.is_error
            &&& if k < before.len() {
                spec_disabled_effect(before, after, k) && r.for_llm@ == "Disabled."@
            } else {
                after == before && r.for_llm@ == "Job not found."@
            }
        } else {
            r.is_error && r.for_llm@ == "disable requires 'id'"@ && after == before
        },
        None => r.is_error && r.for_llm@ == "disable requires 'id'"@ && after == before,
    }
}

/// Handle one `add` command: validate the schedule fields, add the job,
/// and describe the outcome.
fn cron_add(store: &mut CronStore, args: &CronArgs, chat_id: Option<i64>, now: u64) -> (r:
    ToolResult)
    requires
        old(store).spec_next_id() < u64::MAX,
        now < 4611686018427387904,
    ensures
        r.for_user is None && !r.silent && !r.async_,
        spec_add_outcome(
            old(store).spec_jobs(),
            old(store).spec_next_id(),
            final(store).spec_jobs(),
            final(store).spec_next_id(),
            spec_opt_str(args.message),
            chat_id,
            r,
        ),
{
    let message: Option<String> = match &args.message {
        Some(m) if !m.as_str().is_empty() => Some(m.clone()),
        _ => None,
    };
    match message {
        None => ToolResult::error("add requires non-empty 'message'"),
        Some(message) => match build_schedule(args, now) {
            Err(t) => t,
            Ok(schedule) => {
                let job_action = match &args.job_action {
                    Some(a) => {
                        let av = str_to_chars(a.as_str());
                        let agent_s = str_to_chars("agent");
                        if crate::text::chars_eq(&av, &agent_s) {
                            JobAction::Agent
                        } else {
                            JobAction::Direct
                        }
                    },
                    None => JobAction::Direct,
                };
                let label = match &args.label {
                    Some(l) => Some(l.clone()),
                    None => None,
                };
                match chat_id {
                    None => ToolResult::error("cron add requires chat_id (current chat)"),
                    Some(cid) => add_and_describe(
                        store,
                        label,
                        message,
                        job_action,
                        schedule,
                        cid,
                        now,
                    ),
                }
            },
        },
    }
}

/// Add a validated job and describe the outcome: either the new job's id,
/// label and first fire time, or the validation error, with the store
/// untouched on failure.
fn add_and_describe(
    store: &mut CronStore,
    label: Option<String>,
    message: String,
    job_action: JobAction,
    schedule: Schedule,
    cid: i64,
    now: u64,
) -> (r: ToolResult)
    requires
        old(store).spec_next_id() < u64::MAX,
        spec_no_overflow(schedule, now),
    ensures
        r.for_user is None && !r.silent && !r.async_,
        r.is_error ==> final(store).spec_jobs() == old(store).spec_jobs()
            && final(store).spec_next_id() == old(store).spec_next_id(),
        !r.is_error ==> {
            let j = final(store).spec_jobs().last();
            &&& final(store).spec_jobs().len() == old(store).spec_jobs().len() + 1
            &&& final(store).spec_jobs().subrange(0, old(store).spec_jobs().len() as int)
                == old(store).spec_jobs()
            &&& j.enabled
            &&& j.next_run is Some
            &&& j.message == message
            &&& j.chat_id == cid
            &&& r.for_llm@ == "Added job "@ + j.id@ + " ("@ + spec_label_text(
                match j.label {
                    Some(l) => Some(l@),
                    None => None,
                },
            ) + "): next_run="@ + spec_opt_u64_text(j.next_run)
        },
{
    match store.add(label, message, job_action, schedule, cid, now) {
        Ok(job) => {
            let mut msg = String::new();
            msg.append("Added job ");
            msg.append(job.id.as_str());
            msg.append(" (");
            let l = label_text(&job.label);
            msg.append(l.as_str());
            msg.append("): next_run=");
            let n = opt_u64_text(&job.next_run);
            msg.append(n.as_str());
            ToolResult::ok(msg.as_str())
        },
        Err(e) => {
            let msg = e.text();
            ToolResult::error(msg.as_str())
        },
    }
}

/// Handle one `list` command: render every job, the store untouched.
fn cron_list(store: &CronStore) -> (r: ToolResult)
    ensures
        r.for_user is None && !r.silent && !r.async_,
        spec_list_outcome(store.spec_jobs(), r),
{
    let jobs = store.list();
    let text = render_job_list(&jobs);
    ToolResult::ok(text.as_str())
}

/// Handle one `remove` command: drop the named job, or say what is wrong.
fn cron_remove(store: &mut CronStore, id: &Option<String>) -> (r: ToolResult)
    ensures
        r.for_user is None && !r.silent && !r.async_,
        final(store).spec_next_id() == old(store).spec_next_id(),
        spec_remove_outcome(old(store).spec_jobs(), final(store).spec_jobs(), spec_opt_str(*id), r),
{
    let idv: Option<String> = match id {
        Some(i) if !i.as_str().is_empty() => Some(i.clone()),
        _ => None,
    };
    match idv {
        None => ToolResult::error("remove requires 'id'"),
        Some(idv) => {
            let ok = store.remove(idv.as_str());
            if ok {
                ToolResult::ok("Removed.")
            } else {
                ToolResult::ok("Job not found.")
            }
        },
    }
}

/// Handle one `enable` command: re-enable the named job and recompute its
/// next fire, or say what is wrong.
fn cron_enable(store: &mut CronStore, id: &Option<String>, now: u64) -> (r: ToolResult)
    requires
        forall|i: int|
            0 <= i < old(store).spec_jobs().len() ==> spec_no_overflow(
                #[trigger] old(store).spec_jobs()[i].schedule,
                now,
            ),
    ensures
        r.for_user is None && !r.silent && !r.async_,
        final(store).spec_next_id() == old(store).spec_next_id(),
        spec_enable_outcome(
            old(store).spec_jobs(),
            final(store).spec_jobs(),
            spec_opt_str(*id),
            now,
            r,
        ),
{
    let idv: Option<String> = match id {
        Some(i) if !i.as_str().is_empty() => Some(i.clone()),
        _ => None,
    };
    match idv {
        None => ToolResult::error("enable requires 'id'"),
        Some(idv) => {
            let ok = store.enable(idv.as_str(), now);
            if ok {
                ToolResult::ok("Enabled.")
            } else {
                ToolResult::ok("Job not found.")
            }
        },
    }
}

/// Handle one `disable` command: disable the named job and clear its next
/// fire, or say what is wrong.
fn cron_disable(store: &mut CronStore, id: &Option<String>) -> (r: ToolResult)
    ensures
        r.for_user is None && !r.silent && !r.async_,
        final(store).spec_next_id() == old(store).spec_next_id(),
        spec_disable_outcome(
            old(store).spec_jobs(),
            final(store).spec_jobs(),
            spec_opt_str(*id),
            r,
        ),
{
    let idv: Option<String> = match id {
        Some(i) if !i.as_str().is_empty() => Some(i.clone()),
        _ => None,
    };
    match idv {
        None => ToolResult::error("disable requires 'id'"),
        Some(idv) => {
            let ok = store.disable(idv.as_str());
            if ok {
                ToolResult::ok("Disabled.")
            } else {
                ToolResult::ok("Job not found.")
            }
        },
    }
}

/// Execute one cron tool command against the store: `add`, `list`,
/// `remove`, `enable` or `disable`.  An unknown or missing action is an
/// error; nothing here panics, and the store is only changed as the
/// action's outcome says.
pub fn cron_execute(store: &mut CronStore, args: &CronArgs, chat_id: Option<i64>, now: u64) -> (r:
    ToolResult)
    requires
        old(store).spec_next_id() < u64::MAX,
        now < 4611686018427387904,
        forall|i: int|
            0 <= i < old(store).spec_jobs().len() ==> spec_no_overflow(
                #[trigger] old(store).spec_jobs()[i].schedule,
                now,
            ),
    ensures
        r.for_user is None && !r.silent && !r.async_,
        args.action is None ==> r.is_error && r.for_llm@ == "missing 'action' argument"@ && final(store).spec_jobs() == old(store).spec_jobs() && final(store).spec_next_id() == old(
            store,
        ).spec_next_id(),
        args.action matches Some(a) ==> {
            &&& a@ == "add"@ ==> spec_add_outcome(
                old(store).spec_jobs(),
                old(store).spec_next_id(),
                final(store).spec_jobs(),
                final(store).spec_next_id(),
                spec_opt_str(args.message),
                chat_id,
                r,
            )
            &&& a@ == "list"@ ==> final(store).spec_jobs() == old(store).spec_jobs() && final(store).spec_next_id() == old(store).spec_next_id() && spec_list_outcome(
                old(store).spec_jobs(),
                r,
            )
            &&& a@ == "remove"@ ==> final(store).spec_next_id() == old(store).spec_next_id()
                && spec_remove_outcome(
                old(store).spec_jobs(),
                final(store).spec_jobs(),
                spec_opt_str(args.id),
                r,
            )
            &&& a@ == "enable"@ ==> final(store).spec_next_id() == old(store).spec_next_id()
                && spec_enable_outcome(
                old(store).spec_jobs(),
                final(store).spec_jobs(),
                spec_opt_str(args.id),
                now,
                r,
            )
            &&& a@ == "disable"@ ==> final(store).spec_next_id() == old(store).spec_next_id()
                && spec_disable_outcome(
                old(store).spec_jobs(),
                final(store).spec_jobs(),
                spec_opt_str(args.id),
                r,
            )
            &&& (a@ != "add"@ && a@ != "list"@ && a@ != "remove"@ && a@ != "enable"@ && a@
                != "disable"@) ==> r.is_error && r.for_llm@
                == "action must be: add, list, remove, enable, disable"@ && final(store).spec_jobs() == old(store).spec_jobs() && final(store).spec_next_id() == old(
                store,
            ).spec_next_id()
        },
{
    proof {
        reveal_strlit("add");
        reveal_strlit("list");
        reveal_strlit("remove");
        reveal_strlit("enable");
        reveal_strlit("disable");
        assert("add"@.len() == 3);
        assert("list"@.len() == 4);
        assert("remove"@.len() == 6);
        assert("enable"@.len() == 6);
        assert("disable"@.len() == 7);
        assert("remove"@[0] == 'r');
        assert("enable"@[0] == 'e');
    }
    match &args.action {
        None => ToolResult::error("missing 'action' argument"),
        Some(action) => {
            let av = str_to_chars(action.as_str());
            let add_s = str_to_chars("add");
            let list_s = str_to_chars("list");
            let remove_s = str_to_chars("remove");
            let enable_s = str_to_chars("enable");
            let disable_s = str_to_chars("disable");
            if crate::text::chars_eq(&av, &add_s) {
                cron_add(store, args, chat_id, now)
            } else if crate::text::chars_eq(&av, &list_s) {
                cron_list(store)
            } else if crate::text::chars_eq(&av, &remove_s) {
                cron_remove(store, &args.id)
            } else if crate::text::chars_eq(&av, &enable_s) {
                cron_enable(store, &args.id, now)
            } else if crate::text::chars_eq(&av, &disable_s) {
                cron_disable(store, &args.id)
            } else {
                ToolResult::error("action must be: add, list, remove, enable, disable")
            }
        },
    }
}

} // verus!
