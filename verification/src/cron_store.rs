//! The cron job list: add with validation, enable/disable, removal, due-job
//! lookup and fire bookkeeping.
//!
//! The store holds plain data; reading the clock and persisting the list to
//! disk belong to the caller, which passes the current time in and writes
//! the list out after each mutation.

use vstd::prelude::*;

use crate::cron_expr::CronError;
use crate::cron_sched::{
    spec_cron_next, spec_next_fire, spec_no_match_in_horizon, spec_no_overflow, Schedule,
};
use crate::text::{chars_to_string, spec_u64_digits, str_to_chars, u64_to_chars};

verus! {

/// What a fired job does: run a full agent turn, or send its message
/// directly to the chat.
#[derive(Clone, Copy, Debug, PartialEq, Eq, Structural)]
pub enum JobAction {
    Agent,
    Direct,
}

/// One scheduled job.
#[derive(Debug)]
pub struct CronJob {
    pub id: String,
    pub label: Option<String>,
    pub message: String,
    pub action: JobAction,
    pub schedule: Schedule,
    pub enabled: bool,
    pub chat_id: i64,
    pub created_at: u64,
    pub last_run: Option<u64>,
    pub next_run: Option<u64>,
}

fn clone_opt_string(o: &Option<String>) -> (r: Option<String>)
    ensures
        r == *o,
{
    match o {
        Some(s) => Some(s.clone()),
        None => None,
    }
}

impl Clone for Schedule {
    fn clone(&self) -> (r: Self)
        ensures
            r == *self,
    {
        match self {
            Schedule::Once { at_unix } => Schedule::Once { at_unix: *at_unix },
            Schedule::Interval { every_seconds } => Schedule::Interval {
                every_seconds: *every_seconds,
            },
            Schedule::Cron { expr } => Schedule::Cron { expr: expr.clone() },
        }
    }
}

impl Clone for CronJob {
    fn clone(&self) -> (r: Self)
        ensures
            r == *self,
    {
        CronJob {
            id: self.id.clone(),
            label: clone_opt_string(&self.label),
            message: self.message.clone(),
            action: self.action,
            schedule: self.schedule.clone(),
            enabled: self.enabled,
            chat_id: self.chat_id,
            created_at: self.created_at,
            last_run: self.last_run,
            next_run: self.next_run,
        }
    }
}

/// A job is due when it is enabled and its next fire time has arrived.
pub open spec fn spec_due(j: CronJob, now: u64) -> bool {
    &&& j.enabled
    &&& j.next_run is Some
    &&& j.next_run->0 <= now
}

/// Identification of the job a fire leaves behind: everything but the
/// enabled flag and the run times is kept.
pub open spec fn spec_job_base_eq(a: CronJob, b: CronJob) -> bool {
    &&& a.id == b.id
    &&& a.label == b.label
    &&& a.message == b.message
    &&& a.action == b.action
    &&& a.schedule == b.schedule
    &&& a.chat_id == b.chat_id
    &&& a.created_at == b.created_at
}

/// What firing a job at `now` does to it.
pub open spec fn spec_fired(j: CronJob, j2: CronJob, now: u64) -> bool {
    &&& spec_job_base_eq(j, j2)
    &&& j2.last_run == Some(now)
    &&& j.schedule is Once ==> !j2.enabled && j2.next_run is None
    &&& j.schedule matches Schedule::Interval { every_seconds } ==> j2.enabled == j.enabled
        && j2.next_run == Some((now + every_seconds) as u64)
    &&& j.schedule matches Schedule::Cron { expr } ==> j2.enabled == j.enabled && spec_cron_next(
        expr@,
        now,
        j2.next_run,
    )
}

/// What re-enabling the job at `k` at `now` leaves: the job enabled with
/// its next fire recomputed from `now`, everything else untouched.
pub open spec fn spec_enabled_effect(
    before: Seq<CronJob>,
    after: Seq<CronJob>,
    k: int,
    now: u64,
) -> bool {
    &&& after.len() == before.len()
    &&& forall|i: int| 0 <= i < before.len() && i != k ==> after[i] == before[i]
    &&& spec_job_base_eq(before[k], after[k])
    &&& after[k].last_run == before[k].last_run
    &&& after[k].enabled
    &&& spec_next_fire(before[k].schedule, now, after[k].next_run)
}

/// What disabling the job at `k` leaves: the job disabled with its next
/// fire cleared, everything else untouched.
pub open spec fn spec_disabled_effect(before: Seq<CronJob>, after: Seq<CronJob>, k: int) -> bool {
    &&& after.len() == before.len()
    &&& forall|i: int| 0 <= i < before.len() && i != k ==> after[i] == before[i]
    &&& spec_job_base_eq(before[k], after[k])
    &&& after[k].last_run == before[k].last_run
    &&& !after[k].enabled
    &&& after[k].next_run is None
}

/// Index of the first job with the given id, or the length if absent.
pub open spec fn spec_job_index(jobs: Seq<CronJob>, id: Seq<char>) -> int
    decreases jobs.len(),
{
    if jobs.len() == 0 {
        0
    } else if jobs[0].id@ == id {
        0
    } else {
        1 + spec_job_index(jobs.drop_first(), id)
    }
}

pub proof fn lemma_job_index_bounds(jobs: Seq<CronJob>, id: Seq<char>)
    ensures
        0 <= spec_job_index(jobs, id) <= jobs.len(),
        forall|k: int| 0 <= k < spec_job_index(jobs, id) ==> jobs[k].id@ != id,
        spec_job_index(jobs, id) < jobs.len() ==> jobs[spec_job_index(jobs, id)].id@ == id,
    decreases jobs.len(),
{
    if jobs.len() > 0 && jobs[0].id@ != id {
        lemma_job_index_bounds(jobs.drop_first(), id);
        assert forall|k: int| 0 <= k < spec_job_index(jobs, id) implies jobs[k].id@ != id by {
            if k > 0 {
                assert(jobs.drop_first()[k - 1] == jobs[k]);
            }
        }
        if spec_job_index(jobs, id) < jobs.len() {
            assert(jobs.drop_first()[spec_job_index(jobs, id) - 1] == jobs[spec_job_index(
                jobs,
                id,
            )]);
        }
    }
}

pub proof fn lemma_job_index_unique(jobs: Seq<CronJob>, id: Seq<char>, i: int)
    requires
        0 <= i <= jobs.len(),
        forall|k: int| 0 <= k < i ==> jobs[k].id@ != id,
        i < jobs.len() ==> jobs[i].id@ == id,
    ensures
        i == spec_job_index(jobs, id),
{
    lemma_job_index_bounds(jobs, id);
}

/// The in-memory job list.
pub struct CronStore {
    jobs: Vec<CronJob>,
    next_id: u64,
}

impl CronStore {
    /// A store with no jobs; ids start at one.
    pub fn empty() -> (r: CronStore)
        ensures
            r.spec_jobs().len() == 0,
            r.spec_next_id() == 1,
    {
        CronStore { jobs: Vec::new(), next_id: 1 }
    }

    /// A store over a job list read back from disk, continuing ids at
    /// `next_id`.
    pub fn from_jobs(jobs: Vec<CronJob>, next_id: u64) -> (r: CronStore)
        ensures
            r.spec_jobs() == jobs@,
            r.spec_next_id() == next_id,
    {
        CronStore { jobs, next_id }
    }

    pub closed spec fn spec_jobs(&self) -> Seq<CronJob> {
        self.jobs@
    }

    pub closed spec fn spec_next_id(&self) -> u64 {
        self.next_id
    }

    /// The id the next added job will get.
    pub fn next_id(&self) -> (r: u64)
        ensures
            r == self.spec_next_id(),
    {
        self.next_id
    }

    /// Snapshot of every job, in insertion order.
    pub fn list(&self) -> (r: Vec<CronJob>)
        ensures
            r@ == self.spec_jobs(),
    {
        let mut out: Vec<CronJob> = Vec::new();
        let mut i: usize = 0;
        while i < self.jobs.len()
            invariant
                0 <= i <= self.jobs@.len(),
                out@ == self.jobs@.subrange(0, i as int),
            decreases self.jobs@.len() - i,
        {
            out.push(self.jobs[i].clone());
            proof {
                assert(out@ =~= self.jobs@.subrange(0, i + 1 as int));
            }
            i = i + 1;
        }
        proof {
            assert(self.jobs@.subrange(0, self.jobs@.len() as int) =~= self.jobs@);
        }
        out
    }

    fn index_of(&self, id: &str) -> (r: usize)
        ensures
            r == spec_job_index(self.spec_jobs(), id@),
    {
        let idv = str_to_chars(id);
        let mut i: usize = 0;
        while i < self.jobs.len()
            invariant
                0 <= i <= self.jobs@.len(),
                forall|k: int| 0 <= k < i ==> self.jobs@[k].id@ != id@,
                idv@ == id@,
            decreases self.jobs@.len() - i,
        {
            let jid = str_to_chars(self.jobs[i].id.as_str());
            if crate::text::chars_eq(&jid, &idv) {
                proof {
                    lemma_job_index_unique(self.jobs@, id@, i as int);
                }
                return i;
            }
            i = i + 1;
        }
        proof {
            lemma_job_index_unique(self.jobs@, id@, i as int);
        }
        i
    }

    /// Snapshot of the job with the given id.
    pub fn get(&self, id: &str) -> (r: Option<CronJob>)
        ensures
            ({
                let k = spec_job_index(self.spec_jobs(), id@);
                if k < self.spec_jobs().len() {
                    r == Some(self.spec_jobs()[k])
                } else {
                    r is None
                }
            }),
    {
        let k = self.index_of(id);
        proof {
            lemma_job_index_bounds(self.spec_jobs(), id@);
        }
        if k < self.jobs.len() {
            Some(self.jobs[k].clone())
        } else {
            None
        }
    }

    /// Remove the job with the given id; reports whether one was removed.
    pub fn remove(&mut self, id: &str) -> (r: bool)
        ensures
            final(self).spec_next_id() == old(self).spec_next_id(),
            ({
                let k = spec_job_index(old(self).spec_jobs(), id@);
                if k < old(self).spec_jobs().len() {
                    r && final(self).spec_jobs() == old(self).spec_jobs().remove(k)
                } else {
                    !r && final(self).spec_jobs() == old(self).spec_jobs()
                }
            }),
    {
        let k = self.index_of(id);
        proof {
            lemma_job_index_bounds(self.spec_jobs(), id@);
        }
        if k < self.jobs.len() {
            self.jobs.remove(k);
            true
        } else {
            false
        }
    }

    /// Update the job at index `k` as one fire at `now` demands.
    fn fire_at(&mut self, k: usize, now: u64)
        requires
            k < old(self).spec_jobs().len(),
            spec_no_overflow(old(self).spec_jobs()[k as int].schedule, now),
        ensures
            final(self).spec_next_id() == old(self).spec_next_id(),
            final(self).spec_jobs().len() == old(self).spec_jobs().len(),
            forall|i: int|
                0 <= i < old(self).spec_jobs().len() && i != k ==> final(self).spec_jobs()[i]
                    == old(self).spec_jobs()[i],
            spec_fired(old(self).spec_jobs()[k as int], final(self).spec_jobs()[k as int], now),
    {
        let old_j = self.jobs[k].clone();
        let next = match &old_j.schedule {
            Schedule::Once { .. } => None,
            Schedule::Interval { every_seconds } => Some(now + *every_seconds),
            Schedule::Cron { .. } => old_j.schedule.next_fire_after(now),
        };
        let enabled = match &old_j.schedule {
            Schedule::Once { .. } => false,
            _ => old_j.enabled,
        };
        let new_j = CronJob {
            id: old_j.id,
            label: old_j.label,
            message: old_j.message,
            action: old_j.action,
            schedule: old_j.schedule,
            enabled,
            chat_id: old_j.chat_id,
            created_at: old_j.created_at,
            last_run: Some(now),
            next_run: next,
        };
        self.jobs.set(k, new_j);
    }

    /// Record that the job with the given id fired at `now`: set its last
    /// run, recompute its next fire, and disable it if it was one-shot.
    pub fn mark_fired(&mut self, id: &str, now: u64)
        requires
            forall|i: int|
                0 <= i < old(self).spec_jobs().len() ==> spec_no_overflow(
                    #[trigger] old(self).spec_jobs()[i].schedule,
                    now,
                ),
        ensures
            final(self).spec_next_id() == old(self).spec_next_id(),
            ({
                let k = spec_job_index(old(self).spec_jobs(), id@);
                if k < old(self).spec_jobs().len() {
                    &&& final(self).spec_jobs().len() == old(self).spec_jobs().len()
                    &&& forall|i: int|
                        0 <= i < old(self).spec_jobs().len() && i != k
                            ==> final(self).spec_jobs()[i] == old(self).spec_jobs()[i]
                    &&& spec_fired(old(self).spec_jobs()[k], final(self).spec_jobs()[k], now)
                } else {
                    final(self).spec_jobs() == old(self).spec_jobs()
                }
            }),
    {
        let k = self.index_of(id);
        proof {
            lemma_job_index_bounds(self.spec_jobs(), id@);
        }
        if k < self.jobs.len() {
            self.fire_at(k, now);
        }
    }

    /// Re-enable the job with the given id and recompute its next fire from
    /// `now`; reports whether the job exists.
    pub fn enable(&mut self, id: &str, now: u64) -> (r: bool)
        requires
            forall|i: int|
                0 <= i < old(self).spec_jobs().len() ==> spec_no_overflow(
                    #[trigger] old(self).spec_jobs()[i].schedule,
                    now,
                ),
        ensures
            final(self).spec_next_id() == old(self).spec_next_id(),
            ({
                let k = spec_job_index(old(self).spec_jobs(), id@);
                if k < old(self).spec_jobs().len() {
                    r && spec_enabled_effect(
                        old(self).spec_jobs(),
                        final(self).spec_jobs(),
                        k,
                        now,
                    )
                } else {
                    !r && final(self).spec_jobs() == old(self).spec_jobs()
                }
            }),
    {
        let k = self.index_of(id);
        proof {
            lemma_job_index_bounds(self.spec_jobs(), id@);
        }
        if k < self.jobs.len() {
            let old_j = self.jobs[k].clone();
            let next = old_j.schedule.next_fire_after(now);
            let new_j = CronJob {
                id: old_j.id,
                label: old_j.label,
                message: old_j.message,
                action: old_j.action,
                schedule: old_j.schedule,
                enabled: true,
                chat_id: old_j.chat_id,
                created_at: old_j.created_at,
                last_run: old_j.last_run,
                next_run: next,
            };
            self.jobs.set(k, new_j);
            true
        } else {
            false
        }
    }

    /// Disable the job with the given id and clear its next fire; reports
    /// whether the job exists.
    pub fn disable(&mut self, id: &str) -> (r: bool)
        ensures
            final(self).spec_next_id() == old(self).spec_next_id(),
            ({
                let k = spec_job_index(old(self).spec_jobs(), id@);
                if k < old(self).spec_jobs().len() {
                    r && spec_disabled_effect(old(self).spec_jobs(), final(self).spec_jobs(), k)
                } else {
                    !r && final(self).spec_jobs() == old(self).spec_jobs()
                }
            }),
    {
        let k = self.index_of(id);
        proof {
            lemma_job_index_bounds(self.spec_jobs(), id@);
        }
        if k < self.jobs.len() {
            let old_j = self.jobs[k].clone();
            let new_j = CronJob {
                id: old_j.id,
                label: old_j.label,
                message: old_j.message,
                action: old_j.action,
                schedule: old_j.schedule,
                enabled: false,
                chat_id: old_j.chat_id,
                created_at: old_j.created_at,
                last_run: old_j.last_run,
                next_run: None,
            };
            self.jobs.set(k, new_j);
            true
        } else {
            false
        }
    }

    /// Snapshots of the enabled jobs whose next fire time is at or before
    /// `now`, in insertion order.
    pub fn find_due(&self, now: u64) -> (r: Vec<CronJob>)
        ensures
            r@ == self.spec_jobs().filter(|j: CronJob| spec_due(j, now)),
    {
        let mut out: Vec<CronJob> = Vec::new();
        let mut i: usize = 0;
        proof {
            reveal(Seq::filter);
            assert(self.jobs@.subrange(0, 0) =~= Seq::<CronJob>::empty());
        }
        while i < self.jobs.len()
            invariant
                0 <= i <= self.jobs@.len(),
                out@ == self.jobs@.subrange(0, i as int).filter(|j: CronJob| spec_due(j, now)),
            decreases self.jobs@.len() - i,
        {
            let j = &self.jobs[i];
            let due = j.enabled && match j.next_run {
                Some(t) => t <= now,
                None => false,
            };
            if due {
                out.push(self.jobs[i].clone());
            }
            proof {
                reveal(Seq::filter);
                let pre = self.jobs@.subrange(0, i as int);
                let cur = self.jobs@.subrange(0, i + 1 as int);
                assert(cur.drop_last() =~= pre);
                assert(cur.last() == self.jobs@[i as int]);
            }
            i = i + 1;
        }
        proof {
            assert(self.jobs@.subrange(0, self.jobs@.len() as int) =~= self.jobs@);
        }
        out
    }

    /// Validate and add a job: one-shot times must lie in the future,
    /// intervals must be at least a minute, and a cron expression must
    /// parse and have an upcoming match.  The new job gets the next stable
    /// id, is enabled, and carries its first fire time.
    pub fn add(
        &mut self,
        label: Option<String>,
        message: String,
        action: JobAction,
        schedule: Schedule,
        chat_id: i64,
        now: u64,
    ) -> (r: Result<CronJob, CronError>)
        requires
            spec_no_overflow(schedule, now),
            old(self).spec_next_id() < u64::MAX,
        ensures
            match r {
                Ok(j) => {
                    &&& final(self).spec_jobs() == old(self).spec_jobs().push(j)
                    &&& final(self).spec_next_id() == old(self).spec_next_id() + 1
                    &&& j.id@ == "job-"@ + spec_u64_digits(old(self).spec_next_id())
                    &&& j.label == label
                    &&& j.message == message
                    &&& j.action == action
                    &&& j.schedule == schedule
                    &&& j.enabled
                    &&& j.chat_id == chat_id
                    &&& j.created_at == now
                    &&& j.last_run is None
                    &&& j.next_run is Some
                    &&& spec_next_fire(schedule, now, j.next_run)
                },
                Err(_) => {
                    &&& final(self).spec_jobs() == old(self).spec_jobs()
                    &&& final(self).spec_next_id() == old(self).spec_next_id()
                },
            },
            r is Err <==> match schedule {
                Schedule::Once { at_unix } => at_unix <= now,
                Schedule::Interval { every_seconds } => every_seconds < 60,
                Schedule::Cron { expr } => !crate::cron_expr::spec_cron_ok(expr@)
                    || spec_no_match_in_horizon(expr@, now),
            },
            r matches Err(e) ==> (e matches CronError::Validation(msg) && msg@ == (
            match schedule {
                Schedule::Once { .. } => "Scheduled time must be in the future"@,
                Schedule::Interval { .. } => "interval must be at least 60 seconds"@,
                Schedule::Cron { .. } => "cron expression has no upcoming matches"@,
            })),
    {
        if let Schedule::Interval { every_seconds } = &schedule {
            if *every_seconds < 60 {
                return Err(CronError::Validation("interval must be at least 60 seconds".to_owned()));
            }
        }
        if let Schedule::Once { at_unix } = &schedule {
            if *at_unix <= now {
                return Err(CronError::Validation("Scheduled time must be in the future".to_owned()));
            }
        }
        let next_run = schedule.next_fire_after(now);
        if next_run.is_none() {
            return Err(
                CronError::Validation("cron expression has no upcoming matches".to_owned()),
            );
        }
        let mut idc = str_to_chars("job-");
        let digits = u64_to_chars(self.next_id);
        crate::text::push_all(&mut idc, &digits);
        let id = chars_to_string(&idc);
        self.next_id = self.next_id + 1;
        let job = CronJob {
            id,
            label,
            message,
            action,
            schedule,
            enabled: true,
            chat_id,
            created_at: now,
            last_run: None,
            next_run,
        };
        let out = job.clone();
        self.jobs.push(job);
        Ok(out)
    }
}

} // verus!
