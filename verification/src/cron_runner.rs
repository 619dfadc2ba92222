//! One cron tick, in two verified halves: first the plan — which messages
//! the due jobs put on which queue, and under which job ids — then, per
//! message the caller actually delivered, the fire bookkeeping through
//! `CronStore::mark_fired`.
//!
//! A message the caller could not deliver (its queue was full) is simply
//! not marked: the job keeps its next fire time, so the following tick
//! plans it again.

use vstd::prelude::*;

use crate::channel::{spec_inbound_view, spec_outbound_view, InboundMsg, OutboundMsg};
use crate::cron_store::{spec_due, CronJob, CronStore, JobAction};

verus! {

/// The message a due agent job puts on the inbound queue.
pub open spec fn spec_cron_inbound(j: CronJob) -> (int, int, Seq<char>, Seq<char>) {
    (j.chat_id as int, 0, j.message@, "cron"@)
}

/// The message a due direct job puts on the outbound queue.
pub open spec fn spec_cron_outbound(j: CronJob) -> (int, Seq<char>, Seq<char>) {
    (j.chat_id as int, j.message@, "cron"@)
}

/// One tick's emissions: the messages of the due jobs, each beside the id
/// of the job it came from, agent jobs on the inbound side and direct jobs
/// on the outbound side.
pub struct TickPlan {
    pub inbound: Vec<InboundMsg>,
    pub inbound_ids: Vec<String>,
    pub outbound: Vec<OutboundMsg>,
    pub outbound_ids: Vec<String>,
}

/// Plan one tick at `now`: the store is only read.  The caller sends each
/// message and calls `CronStore::mark_fired` with the matching id exactly
/// when the send succeeded; ids of dropped messages are left unmarked, so
/// those jobs keep their next fire time.
pub fn tick_plan(store: &CronStore, now: u64) -> (r: TickPlan)
    ensures
        ({
            let agent_due = store.spec_jobs().filter(
                |j: CronJob| spec_due(j, now) && j.action == JobAction::Agent,
            );
            let direct_due = store.spec_jobs().filter(
                |j: CronJob| spec_due(j, now) && j.action == JobAction::Direct,
            );
            &&& r.inbound@.map_values(|m: InboundMsg| spec_inbound_view(m))
                == agent_due.map_values(|j: CronJob| spec_cron_inbound(j))
            &&& r.inbound_ids@.map_values(|s: String| s@) == agent_due.map_values(
                |j: CronJob| j.id@,
            )
            &&& r.outbound@.map_values(|m: OutboundMsg| spec_outbound_view(m))
                == direct_due.map_values(|j: CronJob| spec_cron_outbound(j))
            &&& r.outbound_ids@.map_values(|s: String| s@) == direct_due.map_values(
                |j: CronJob| j.id@,
            )
        }),
{
    let jobs = store.list();
    let ghost all = store.spec_jobs();
    let mut inbound: Vec<InboundMsg> = Vec::new();
    let mut inbound_ids: Vec<String> = Vec::new();
    let mut outbound: Vec<OutboundMsg> = Vec::new();
    let mut outbound_ids: Vec<String> = Vec::new();
    let mut i: usize = 0;
    proof {
        reveal(Seq::filter);
        assert(all.subrange(0, 0) =~= Seq::<CronJob>::empty());
        assert(inbound@.map_values(|m: InboundMsg| spec_inbound_view(m)) =~= all.subrange(
            0,
            0,
        ).filter(|j: CronJob| spec_due(j, now) && j.action == JobAction::Agent).map_values(
            |j: CronJob| spec_cron_inbound(j),
        ));
        assert(inbound_ids@.map_values(|s: String| s@) =~= all.subrange(0, 0).filter(
            |j: CronJob| spec_due(j, now) && j.action == JobAction::Agent,
        ).map_values(|j: CronJob| j.id@));
        assert(outbound@.map_values(|m: OutboundMsg| spec_outbound_view(m)) =~= all.subrange(
            0,
            0,
        ).filter(|j: CronJob| spec_due(j, now) && j.action == JobAction::Direct).map_values(
            |j: CronJob| spec_cron_outbound(j),
        ));
        assert(outbound_ids@.map_values(|s: String| s@) =~= all.subrange(0, 0).filter(
            |j: CronJob| spec_due(j, now) && j.action == JobAction::Direct,
        ).map_values(|j: CronJob| j.id@));
    }
    while i < jobs.len()
        invariant
            0 <= i <= jobs@.len(),
            jobs@ == all,
            all == store.spec_jobs(),
            inbound@.map_values(|m: InboundMsg| spec_inbound_view(m)) == all.subrange(
                0,
                i as int,
            ).filter(|j: CronJob| spec_due(j, now) && j.action == JobAction::Agent).map_values(
                |j: CronJob| spec_cron_inbound(j),
            ),
            inbound_ids@.map_values(|s: String| s@) == all.subrange(0, i as int).filter(
                |j: CronJob| spec_due(j, now) && j.action == JobAction::Agent,
            ).map_values(|j: CronJob| j.id@),
            outbound@.map_values(|m: OutboundMsg| spec_outbound_view(m)) == all.subrange(
                0,
                i as int,
            ).filter(|j: CronJob| spec_due(j, now) && j.action == JobAction::Direct).map_values(
                |j: CronJob| spec_cron_outbound(j),
            ),
            outbound_ids@.map_values(|s: String| s@) == all.subrange(0, i as int).filter(
                |j: CronJob| spec_due(j, now) && j.action == JobAction::Direct,
            ).map_values(|j: CronJob| j.id@),
        decreases jobs@.len() - i,
    {
        let j = &jobs[i];
        let due = j.enabled && match j.next_run {
            Some(t) => t <= now,
            None => false,
        };
        let ghost in0 = inbound@.map_values(|m: InboundMsg| spec_inbound_view(m));
        let ghost in_ids0 = inbound_ids@.map_values(|s: String| s@);
        let ghost out0 = outbound@.map_values(|m: OutboundMsg| spec_outbound_view(m));
        let ghost out_ids0 = outbound_ids@.map_values(|s: String| s@);
        if due {
            match j.action {
                JobAction::Agent => {
                    let m = InboundMsg {
                        chat_id: j.chat_id,
                        user_id: 0,
                        text: j.message.clone(),
                        channel: "cron".to_owned(),
                    };
                    inbound.push(m);
                    inbound_ids.push(j.id.clone());
                    proof {
                        assert(inbound@.map_values(|m: InboundMsg| spec_inbound_view(m))
                            =~= in0.push(spec_cron_inbound(all[i as int])));
                        assert(inbound_ids@.map_values(|s: String| s@) =~= in_ids0.push(
                            all[i as int].id@,
                        ));
                    }
                },
                JobAction::Direct => {
                    let m = OutboundMsg {
                        chat_id: j.chat_id,
                        text: j.message.clone(),
                        channel: "cron".to_owned(),
                    };
                    outbound.push(m);
                    outbound_ids.push(j.id.clone());
                    proof {
                        assert(outbound@.map_values(|m: OutboundMsg| spec_outbound_view(m))
                            =~= out0.push(spec_cron_outbound(all[i as int])));
                        assert(outbound_ids@.map_values(|s: String| s@) =~= out_ids0.push(
                            all[i as int].id@,
                        ));
                    }
                },
            }
        }
        proof {
            reveal(Seq::filter);
            let pre = all.subrange(0, i as int);
            let cur = all.subrange(0, i + 1 as int);
            assert(cur.drop_last() =~= pre);
            assert(cur.last() == all[i as int]);
        }
        i = i + 1;
    }
    proof {
        assert(all.subrange(0, all.len() as int) =~= all);
    }
    TickPlan { inbound, inbound_ids, outbound, outbound_ids }
}

/// Law: an undelivered fire is retried.  `tick_plan` only reads the
/// store, so a job whose message was not delivered — its id never handed
/// to `CronStore::mark_fired` — keeps its next fire time; being due does
/// not expire, so any later plan over the unchanged jobs emits the job's
/// message again, on the same queue.
pub proof fn lemma_undelivered_fire_retries(jobs: Seq<CronJob>, j: int, now: u64, later: u64)
    requires
        0 <= j < jobs.len(),
        spec_due(jobs[j], now),
        now <= later,
    ensures
        spec_due(jobs[j], later),
        jobs[j].action == JobAction::Agent ==> jobs.filter(
            |x: CronJob| spec_due(x, later) && x.action == JobAction::Agent,
        ).contains(jobs[j]),
        jobs[j].action == JobAction::Direct ==> jobs.filter(
            |x: CronJob| spec_due(x, later) && x.action == JobAction::Direct,
        ).contains(jobs[j]),
{
    if jobs[j].action == JobAction::Agent {
        jobs.lemma_filter_contains(
            |x: CronJob| spec_due(x, later) && x.action == JobAction::Agent,
            j,
        );
    } else {
        jobs.lemma_filter_contains(
            |x: CronJob| spec_due(x, later) && x.action == JobAction::Direct,
            j,
        );
    }
}

} // verus!
