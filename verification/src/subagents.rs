//! The subagent task ledger: stable ids, one-way status transitions,
//! idempotent completion, cancellation, and bounded retention of finished
//! tasks.
//!
//! Launching and aborting the background work itself belongs to the caller;
//! the ledger records what each task is and where it stands.

use vstd::prelude::*;

use crate::text::{chars_to_string, spec_u64_digits, str_to_chars, u64_to_chars};

verus! {

/// Retention cap on finished tasks.
pub const MAX_COMPLETED_TASKS: usize = 50;

/// Status of a subagent task.
#[derive(Clone, Copy, Debug, PartialEq, Eq, Structural)]
pub enum SubagentStatus {
    Running,
    Completed,
    Failed,
    Cancelled,
}

impl SubagentStatus {
    /// The lower-case label of this status.
    pub fn text(&self) -> (r: String)
        ensures
            r@ == match self {
                SubagentStatus::Running => "running"@,
                SubagentStatus::Completed => "completed"@,
                SubagentStatus::Failed => "failed"@,
                SubagentStatus::Cancelled => "cancelled"@,
            },
    {
        match self {
            SubagentStatus::Running => "running".to_owned(),
            SubagentStatus::Completed => "completed".to_owned(),
            SubagentStatus::Failed => "failed".to_owned(),
            SubagentStatus::Cancelled => "cancelled".to_owned(),
        }
    }
}

/// Snapshot of one subagent task.
#[derive(Debug)]
pub struct SubagentTask {
    pub id: String,
    pub label: Option<String>,
    pub task: String,
    pub status: SubagentStatus,
    pub result: Option<String>,
    pub created_at: u64,
}

fn clone_opt_string(o: &Option<String>) -> (r: Option<String>)
    ensures
        r == *o,
{
    match o {
        Some(s) => Some(s.clone()),
        None => None,
    }
}

impl Clone for SubagentTask {
    fn clone(&self) -> (r: Self)
        ensures
            r == *self,
    {
        SubagentTask {
            id: self.id.clone(),
            label: clone_opt_string(&self.label),
            task: self.task.clone(),
            status: self.status,
            result: clone_opt_string(&self.result),
            created_at: self.created_at,
        }
    }
}

/// Index of the first task with the given id, or the length if absent.
pub open spec fn spec_task_index(ts: Seq<SubagentTask>, id: Seq<char>) -> int
    decreases ts.len(),
{
    if ts.len() == 0 {
        0
    } else if ts[0].id@ == id {
        0
    } else {
        1 + spec_task_index(ts.drop_first(), id)
    }
}

pub proof fn lemma_task_index_bounds(ts: Seq<SubagentTask>, id: Seq<char>)
    ensures
        0 <= spec_task_index(ts, id) <= ts.len(),
        forall|k: int| 0 <= k < spec_task_index(ts, id) ==> ts[k].id@ != id,
        spec_task_index(ts, id) < ts.len() ==> ts[spec_task_index(ts, id)].id@ == id,
    decreases ts.len(),
{
    if ts.len() > 0 && ts[0].id@ != id {
        lemma_task_index_bounds(ts.drop_first(), id);
        assert forall|k: int| 0 <= k < spec_task_index(ts, id) implies ts[k].id@ != id by {
            if k > 0 {
                assert(ts.drop_first()[k - 1] == ts[k]);
            }
        }
        if spec_task_index(ts, id) < ts.len() {
            assert(ts.drop_first()[spec_task_index(ts, id) - 1] == ts[spec_task_index(ts, id)]);
        }
    }
}

proof fn lemma_task_index_unique(ts: Seq<SubagentTask>, id: Seq<char>, i: int)
    requires
        0 <= i <= ts.len(),
        forall|k: int| 0 <= k < i ==> ts[k].id@ != id,
        i < ts.len() ==> ts[i].id@ == id,
    ensures
        i == spec_task_index(ts, id),
{
    lemma_task_index_bounds(ts, id);
}

pub open spec fn spec_is_running(t: SubagentTask) -> bool {
    t.status is Running
}

/// The running-task predicate, as one shared function value.
pub open spec fn p_running() -> spec_fn(SubagentTask) -> bool {
    |t: SubagentTask| spec_is_running(t)
}

/// The finished-task predicate, as one shared function value.
pub open spec fn p_finished() -> spec_fn(SubagentTask) -> bool {
    |t: SubagentTask| !spec_is_running(t)
}

/// Number of finished (non-running) tasks.
pub open spec fn spec_finished_count(ts: Seq<SubagentTask>) -> int {
    ts.filter(p_finished()).len() as int
}

/// Whether any finished task exists.
pub open spec fn spec_has_finished(ts: Seq<SubagentTask>) -> bool {
    exists|k: int| 0 <= k < ts.len() && !spec_is_running(#[trigger] ts[k])
}

/// A positive finished count names a finished task.
pub proof fn lemma_count_has_finished(ts: Seq<SubagentTask>)
    requires
        spec_finished_count(ts) > 0,
    ensures
        spec_has_finished(ts),
    decreases ts.len(),
{
    reveal(Seq::filter);
    if ts.len() > 0 {
        if !spec_is_running(ts.last()) {
            assert(!spec_is_running(ts[ts.len() - 1]));
        } else {
            lemma_count_has_finished(ts.drop_last());
            let k = choose|k: int|
                0 <= k < ts.drop_last().len() && !spec_is_running(#[trigger] ts.drop_last()[k]);
            assert(ts.drop_last()[k] == ts[k]);
            assert(!spec_is_running(ts[k]));
        }
    }
}

/// Index of the oldest finished task: the first one holding the smallest
/// creation time among the finished ones; the length when none exist.
pub open spec fn spec_oldest_finished(ts: Seq<SubagentTask>) -> int
    decreases ts.len(),
{
    if ts.len() == 0 {
        0
    } else {
        let rest = spec_oldest_finished(ts.drop_first());
        if !spec_is_running(ts[0]) && (!spec_has_finished(ts.drop_first()) || ts[0].created_at
            <= ts.drop_first()[rest].created_at) {
            0
        } else {
            1 + rest
        }
    }
}

/// The oldest finished task really is finished, no finished task is
/// younger, and every earlier finished task is strictly younger.
pub proof fn lemma_oldest_finished_props(ts: Seq<SubagentTask>)
    requires
        spec_has_finished(ts),
    ensures
        ({
            let o = spec_oldest_finished(ts);
            &&& 0 <= o < ts.len()
            &&& !spec_is_running(ts[o])
            &&& forall|k: int|
                0 <= k < ts.len() && !spec_is_running(#[trigger] ts[k]) ==> ts[o].created_at
                    <= ts[k].created_at
            &&& forall|k: int|
                0 <= k < o && !spec_is_running(#[trigger] ts[k]) ==> ts[o].created_at
                    < ts[k].created_at
        }),
    decreases ts.len(),
{
    let o = spec_oldest_finished(ts);
    let rest = ts.drop_first();
    let ro = spec_oldest_finished(rest);
    if !spec_is_running(ts[0]) && (!spec_has_finished(rest) || ts[0].created_at
        <= rest[ro].created_at) {
        assert forall|k: int|
            0 <= k < ts.len() && !spec_is_running(#[trigger] ts[k]) implies ts[o].created_at
            <= ts[k].created_at by {
            if k > 0 {
                assert(rest[k - 1] == ts[k]);
                assert(spec_has_finished(rest));
                lemma_oldest_finished_props(rest);
            }
        }
    } else {
        assert(spec_has_finished(rest)) by {
            let w = choose|k: int| 0 <= k < ts.len() && !spec_is_running(#[trigger] ts[k]);
            if w == 0 {
                assert(spec_has_finished(rest));
            } else {
                assert(rest[w - 1] == ts[w]);
            }
        }
        lemma_oldest_finished_props(rest);
        assert(ts[o] == rest[ro]);
        assert forall|k: int|
            0 <= k < ts.len() && !spec_is_running(#[trigger] ts[k]) implies ts[o].created_at
            <= ts[k].created_at by {
            if k > 0 {
                assert(rest[k - 1] == ts[k]);
            }
        }
        assert forall|k: int|
            0 <= k < o && !spec_is_running(#[trigger] ts[k]) implies ts[o].created_at
            < ts[k].created_at by {
            if k > 0 {
                assert(rest[k - 1] == ts[k]);
            }
        }
    }
}

/// Any index that looks like the oldest finished task is the oldest one.
pub proof fn lemma_oldest_finished_unique(ts: Seq<SubagentTask>, i: int)
    requires
        0 <= i < ts.len(),
        !spec_is_running(ts[i]),
        forall|k: int|
            0 <= k < ts.len() && !spec_is_running(#[trigger] ts[k]) ==> ts[i].created_at
                <= ts[k].created_at,
        forall|k: int|
            0 <= k < i && !spec_is_running(#[trigger] ts[k]) ==> ts[i].created_at
                < ts[k].created_at,
    ensures
        i == spec_oldest_finished(ts),
{
    assert(spec_has_finished(ts));
    lemma_oldest_finished_props(ts);
    let o = spec_oldest_finished(ts);
    if i < o {
        assert(ts[i].created_at > ts[o].created_at);
        assert(ts[i].created_at <= ts[o].created_at);
    }
    if o < i {
        assert(ts[o].created_at > ts[i].created_at);
        assert(ts[o].created_at <= ts[i].created_at);
    }
}

/// Retention: while more than the cap of finished tasks remain, drop the
/// oldest finished one.
pub open spec fn spec_prune_full(ts: Seq<SubagentTask>) -> Seq<SubagentTask>
    decreases ts.len(),
{
    if spec_finished_count(ts) <= 50 {
        ts
    } else {
        let o = spec_oldest_finished(ts);
        if 0 <= o < ts.len() {
            spec_prune_full(ts.remove(o))
        } else {
            ts
        }
    }
}

/// Pruning keeps every running task in order and leaves at most the cap
/// of finished tasks.
pub proof fn lemma_prune_full_props(ts: Seq<SubagentTask>)
    ensures
        spec_finished_count(spec_prune_full(ts)) <= 50,
        spec_prune_full(ts).filter(p_running()) == ts.filter(p_running()),
    decreases ts.len(),
{
    if spec_finished_count(ts) > 50 {
        lemma_count_has_finished(ts);
        lemma_oldest_finished_props(ts);
        let o = spec_oldest_finished(ts);
        lemma_filter_split_at(ts, o, p_running());
        lemma_filter_split_at(ts, o, p_finished());
        lemma_prune_full_props(ts.remove(o));
    }
}

/// Within the cap, pruning changes nothing.
pub proof fn lemma_prune_full_under_cap(ts: Seq<SubagentTask>)
    requires
        spec_finished_count(ts) <= 50,
    ensures
        spec_prune_full(ts) == ts,
{
}

/// The task ledger.
pub struct SubagentManager {
    tasks: Vec<SubagentTask>,
    next_id: u64,
}

impl SubagentManager {
    pub closed spec fn spec_tasks(&self) -> Seq<SubagentTask> {
        self.tasks@
    }

    pub closed spec fn spec_next_id(&self) -> u64 {
        self.next_id
    }

    /// The number the next spawned task's id will carry.
    pub fn next_id(&self) -> (r: u64)
        ensures
            r == self.spec_next_id(),
    {
        self.next_id
    }

    /// An empty ledger; ids start at one.
    pub fn new() -> (r: SubagentManager)
        ensures
            r.spec_tasks().len() == 0,
            r.spec_next_id() == 1,
    {
        SubagentManager { tasks: Vec::new(), next_id: 1 }
    }

    /// Record a newly spawned task as running and hand back its stable id.
    pub fn spawn(&mut self, task: String, label: Option<String>, created_at: u64) -> (r: String)
        requires
            old(self).spec_next_id() < u64::MAX,
        ensures
            r@ == "subagent-"@ + spec_u64_digits(old(self).spec_next_id()),
            final(self).spec_next_id() == old(self).spec_next_id() + 1,
            final(self).spec_tasks().len() == old(self).spec_tasks().len() + 1,
            final(self).spec_tasks().subrange(0, old(self).spec_tasks().len() as int) == old(
                self,
            ).spec_tasks(),
            ({
                let t = final(self).spec_tasks().last();
                &&& t.id@ == r@
                &&& t.label == label
                &&& t.task == task
                &&& t.status is Running
                &&& t.result is None
                &&& t.created_at == created_at
            }),
    {
        let mut idc = str_to_chars("subagent-");
        let digits = u64_to_chars(self.next_id);
        crate::text::push_all(&mut idc, &digits);
        let id = chars_to_string(&idc);
        self.next_id = self.next_id + 1;
        let entry = SubagentTask {
            id: id.clone(),
            label,
            task,
            status: SubagentStatus::Running,
            result: None,
            created_at,
        };
        self.tasks.push(entry);
        proof {
            assert(self.spec_tasks().subrange(0, old(self).spec_tasks().len() as int) =~= old(
                self,
            ).spec_tasks());
        }
        id
    }

    fn index_of(&self, id: &str) -> (r: usize)
        ensures
            r == spec_task_index(self.spec_tasks(), id@),
    {
        let idv = str_to_chars(id);
        let mut i: usize = 0;
        while i < self.tasks.len()
            invariant
                0 <= i <= self.tasks@.len(),
                forall|k: int| 0 <= k < i ==> self.tasks@[k].id@ != id@,
                idv@ == id@,
            decreases self.tasks@.len() - i,
        {
            let tid = str_to_chars(self.tasks[i].id.as_str());
            if crate::text::chars_eq(&tid, &idv) {
                proof {
                    lemma_task_index_unique(self.tasks@, id@, i as int);
                }
                return i;
            }
            i = i + 1;
        }
        proof {
            lemma_task_index_unique(self.tasks@, id@, i as int);
        }
        i
    }

    /// Snapshot of one task.
    pub fn get_task(&self, task_id: &str) -> (r: Option<SubagentTask>)
        ensures
            ({
                let k = spec_task_index(self.spec_tasks(), task_id@);
                if k < self.spec_tasks().len() {
                    r == Some(self.spec_tasks()[k])
                } else {
                    r is None
                }
            }),
    {
        let k = self.index_of(task_id);
        proof {
            lemma_task_index_bounds(self.spec_tasks(), task_id@);
        }
        if k < self.tasks.len() {
            Some(self.tasks[k].clone())
        } else {
            None
        }
    }

    /// Snapshot of every task, in spawn order.
    pub fn list_tasks(&self) -> (r: Vec<SubagentTask>)
        ensures
            r@ == self.spec_tasks(),
    {
        let mut out: Vec<SubagentTask> = Vec::new();
        let mut i: usize = 0;
        while i < self.tasks.len()
            invariant
                0 <= i <= self.tasks@.len(),
                out@ == self.tasks@.subrange(0, i as int),
            decreases self.tasks@.len() - i,
        {
            out.push(self.tasks[i].clone());
            proof {
                assert(out@ =~= self.tasks@.subrange(0, i + 1 as int));
            }
            i = i + 1;
        }
        proof {
            assert(self.tasks@.subrange(0, self.tasks@.len() as int) =~= self.tasks@);
        }
        out
    }

    /// Move a running task to a terminal status, recording its result.
    /// Idempotent: a task already terminal is left exactly as it is, so the
    /// first completion wins.  Finished tasks beyond the retention cap are
    /// pruned, oldest first; running tasks are never pruned.
    pub fn complete_task(&mut self, task_id: &str, status: SubagentStatus, result: Option<String>)
        requires
            !(status is Running),
        ensures
            final(self).spec_next_id() == old(self).spec_next_id(),
            ({
                let k = spec_task_index(old(self).spec_tasks(), task_id@);
                if k < old(self).spec_tasks().len() && old(self).spec_tasks()[k].status
                    is Running {
                    final(self).spec_tasks() == spec_prune_full(
                        old(self).spec_tasks().update(
                            k,
                            spec_completed(old(self).spec_tasks()[k], status, result),
                        ),
                    )
                } else {
                    final(self).spec_tasks() == old(self).spec_tasks()
                }
            }),
    {
        let k = self.index_of(task_id);
        proof {
            lemma_task_index_bounds(self.spec_tasks(), task_id@);
        }
        if k < self.tasks.len() {
            let running = match self.tasks[k].status {
                SubagentStatus::Running => true,
                _ => false,
            };
            if !running {
                return ;
            }
            let old_t = self.tasks[k].clone();
            let new_t = SubagentTask {
                id: old_t.id,
                label: old_t.label,
                task: old_t.task,
                status,
                result,
                created_at: old_t.created_at,
            };
            self.tasks.set(k, new_t);
            proof {
                assert(self.tasks@ =~= old(self).spec_tasks().update(
                    k as int,
                    spec_completed(old(self).spec_tasks()[k as int], status, result),
                ));
            }
            self.prune();
        }
    }

    /// Cancel a running task: it moves to `Cancelled` with result
    /// `Cancelled`, retention runs as after any terminal transition, and
    /// the call reports true.  A missing or already terminal task is left
    /// untouched and the call reports false.
    pub fn cancel(&mut self, task_id: &str) -> (r: bool)
        ensures
            final(self).spec_next_id() == old(self).spec_next_id(),
            ({
                let k = spec_task_index(old(self).spec_tasks(), task_id@);
                if k < old(self).spec_tasks().len() && old(self).spec_tasks()[k].status
                    is Running {
                    let t = old(self).spec_tasks()[k];
                    &&& r
                    &&& exists|t2: SubagentTask|
                        {
                            &&& t2.id == t.id
                            &&& t2.label == t.label
                            &&& t2.task == t.task
                            &&& t2.created_at == t.created_at
                            &&& t2.status is Cancelled
                            &&& (t2.result matches Some(msg) && msg@ == "Cancelled"@)
                            &&& final(self).spec_tasks() == spec_prune_full(
                                #[trigger] old(self).spec_tasks().update(k, t2),
                            )
                        }
                } else {
                    &&& !r
                    &&& final(self).spec_tasks() == old(self).spec_tasks()
                }
            }),
    {
        let k = self.index_of(task_id);
        proof {
            lemma_task_index_bounds(self.spec_tasks(), task_id@);
        }
        if k >= self.tasks.len() {
            return false;
        }
        let running = match self.tasks[k].status {
            SubagentStatus::Running => true,
            _ => false,
        };
        if !running {
            return false;
        }
        let old_t = self.tasks[k].clone();
        let new_t = SubagentTask {
            id: old_t.id,
            label: old_t.label,
            task: old_t.task,
            status: SubagentStatus::Cancelled,
            result: Some("Cancelled".to_owned()),
            created_at: old_t.created_at,
        };
        let ghost witness = new_t;
        self.tasks.set(k, new_t);
        proof {
            assert(self.tasks@ =~= old(self).spec_tasks().update(k as int, witness));
        }
        self.prune();
        true
    }

    /// Drop the oldest finished tasks, one at a time, until at most the
    /// cap remain.
    fn prune(&mut self)
        ensures
            final(self).spec_next_id() == old(self).spec_next_id(),
            final(self).spec_tasks() == spec_prune_full(old(self).spec_tasks()),
    {
        loop
            invariant
                self.spec_next_id() == old(self).spec_next_id(),
                spec_prune_full(old(self).spec_tasks()) == spec_prune_full(self.spec_tasks()),
            ensures
                self.spec_tasks() == spec_prune_full(old(self).spec_tasks()),
            decreases self.tasks@.len(),
        {
            let mut finished: usize = 0;
            let mut oldest: usize = self.tasks.len();
            let mut i: usize = 0;
            while i < self.tasks.len()
                invariant
                    0 <= i <= self.tasks@.len(),
                    finished == self.tasks@.subrange(0, i as int).filter(p_finished()).len(),
                    finished <= i,
                    oldest <= self.tasks@.len(),
                    finished > 0 <==> oldest < self.tasks@.len(),
                    oldest < self.tasks@.len() ==> {
                        let ts = self.tasks@;
                        &&& oldest < i
                        &&& !spec_is_running(ts[oldest as int])
                        &&& forall|k: int|
                            0 <= k < i && !spec_is_running(#[trigger] ts[k])
                                ==> ts[oldest as int].created_at <= ts[k].created_at
                        &&& forall|k: int|
                            0 <= k < oldest && !spec_is_running(#[trigger] ts[k])
                                ==> ts[oldest as int].created_at < ts[k].created_at
                    },
                decreases self.tasks@.len() - i,
            {
                let t_running = match self.tasks[i].status {
                    SubagentStatus::Running => true,
                    _ => false,
                };
                proof {
                    reveal(Seq::filter);
                    let pre = self.tasks@.subrange(0, i as int);
                    let cur = self.tasks@.subrange(0, i + 1 as int);
                    assert(cur.drop_last() =~= pre);
                    assert(cur.last() == self.tasks@[i as int]);
                }
                if !t_running {
                    if oldest == self.tasks.len()
                        || self.tasks[i].created_at < self.tasks[oldest].created_at {
                        proof {
                            let ts = self.tasks@;
                            let prev = oldest as int;
                            assert forall|k: int|
                                0 <= k < i && !spec_is_running(#[trigger] ts[k]) implies ts[
                                i as int].created_at < ts[k].created_at by {
                                if prev == ts.len() {
                                    ts.subrange(0, i as int).lemma_filter_contains(
                                        p_finished(),
                                        k,
                                    );
                                } else {
                                    assert(ts[prev].created_at <= ts[k].created_at);
                                }
                            }
                        }
                        oldest = i;
                    }
                    finished = finished + 1;
                }
                i = i + 1;
            }
            proof {
                assert(self.tasks@.subrange(0, self.tasks@.len() as int) =~= self.tasks@);
            }
            if finished <= MAX_COMPLETED_TASKS {
                proof {
                    assert(spec_finished_count(self.tasks@) <= 50);
                    assert(spec_prune_full(self.tasks@) == self.tasks@);
                }
                break ;
            }
            proof {
                lemma_count_has_finished(self.tasks@);
                lemma_oldest_finished_unique(self.tasks@, oldest as int);
            }
            let ghost pre = self.tasks@;
            self.tasks.remove(oldest);
            proof {
                assert(spec_prune_full(pre) == spec_prune_full(pre.remove(oldest as int)));
                assert(self.tasks@ == pre.remove(oldest as int));
            }
        }
    }
}

/// The task a completion leaves behind.
pub open spec fn spec_completed(
    t: SubagentTask,
    status: SubagentStatus,
    result: Option<String>,
) -> SubagentTask {
    SubagentTask {
        id: t.id,
        label: t.label,
        task: t.task,
        status,
        result,
        created_at: t.created_at,
    }
}


/// A sequence splits around an index for any filter.
proof fn lemma_filter_split_at(
    s: Seq<SubagentTask>,
    k: int,
    p: spec_fn(SubagentTask) -> bool,
)
    requires
        0 <= k < s.len(),
    ensures
        s.filter(p) == s.subrange(0, k).filter(p) + s.subrange(k, s.len() as int).filter(p),
        s.remove(k).filter(p) == s.subrange(0, k).filter(p) + s.subrange(
            k + 1,
            s.len() as int,
        ).filter(p),
        s.subrange(k, s.len() as int).filter(p) == (if p(s[k]) {
            seq![s[k]] + s.subrange(k + 1, s.len() as int).filter(p)
        } else {
            s.subrange(k + 1, s.len() as int).filter(p)
        }),
{
    broadcast use Seq::filter_distributes_over_add;
    assert(s =~= s.subrange(0, k) + s.subrange(k, s.len() as int));
    assert(s.remove(k) =~= s.subrange(0, k) + s.subrange(k + 1, s.len() as int));
    let tail = s.subrange(k, s.len() as int);
    assert(tail =~= seq![s[k]] + s.subrange(k + 1, s.len() as int));
    reveal(Seq::filter);
    assert(seq![s[k]].drop_last() =~= Seq::<SubagentTask>::empty());
    assert(Seq::<SubagentTask>::empty().filter(p) =~= Seq::<SubagentTask>::empty());
    if p(s[k]) {
        assert(seq![s[k]].filter(p) =~= seq![s[k]]);
    } else {
        assert(seq![s[k]].filter(p) =~= Seq::<SubagentTask>::empty());
    }
}

} // verus!
