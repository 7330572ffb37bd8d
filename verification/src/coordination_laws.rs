//! What coordinated checkpoints are for: when a pipeline gets one, who is asked to
//! prepare it, and who hears how it ended.

use vstd::prelude::*;

use crate::checkpoint_coordination::{
    delivered_upto, drop_notices, due_stages, due_stages_of, group_index, idle_stages, in_time, lemma_group_index,
    lemma_pending_index, new_pending, of_others, owed_triggers, pending_index, prepared, queued_for, queued_for_others,
    running_groups, timeout_notices, told, trigger_groups, trigger_jobs, without, Groups, TriggerStep,
};
use crate::checkpoint_laws::{
    in_flight, lemma_groups_elsewhere, lemma_jobs_elsewhere, lemma_own_stages, lemma_triggered_names, own_stages,
};
use crate::coordinator_laws::one_in_flight;
use crate::job::{JobV, TaskV};
use crate::job_coordinator::{CoordinatorV, PendingV, ResolutionV};
use crate::keyed;
use crate::keyed::{distinct, index_of, named, Named};
use crate::props;
use crate::props::Pairs;
use crate::trigger_laws::{lemma_groups_are_full, law_who_takes_part, running_in};

verus! {

// ---------------------------------------------------------------------------
// When a pipeline gets a checkpoint
// ---------------------------------------------------------------------------

/// Whether a job is to wait: it does not run, or its last checkpoint was triggered less
/// than its interval ago.
pub open spec fn waits(j: JobV, now: i64) -> bool {
    !(j.state is Running) || (0 < j.last_checkpoint_trigger_ms && j.checkpoint_interval_ms <= i64::MAX && now
        - j.last_checkpoint_trigger_ms < j.checkpoint_interval_ms)
}

/// Whether a running job's interval has passed, or it never had a checkpoint.
pub open spec fn is_ready(j: JobV, now: i64) -> bool {
    j.state is Running && j.checkpoint_interval_ms <= i64::MAX && (j.last_checkpoint_trigger_ms <= 0 || now
        - j.last_checkpoint_trigger_ms >= j.checkpoint_interval_ms)
}

/// Whether no checkpoint of a job's pipeline is in flight.
pub open spec fn none_in_flight(p: Seq<PendingV>, job: Seq<char>, stage: Seq<char>) -> bool {
    forall|i: int| 0 <= i < p.len() ==> !((#[trigger] p[i]).job_id == job && p[i].stage_id == stage)
}

proof fn lemma_prefix(jobs: Seq<JobV>, pending: Seq<PendingV>, now: i64)
    ensures
        pending.is_prefix_of(trigger_jobs(jobs, pending, now).1),
    decreases jobs.len(),
{
    if jobs.len() > 0 {
        lemma_prefix(jobs.drop_last(), pending, now);
        let j = jobs.last();
        let h = trigger_jobs(jobs.drop_last(), pending, now);
        lemma_step_prefix(
            TriggerStep { pending: h.1, next: j.next_checkpoint_id, fired: false },
            j.job_id,
            running_groups(j.tasks),
            now,
        );
    }
}

proof fn lemma_step_prefix(s: TriggerStep, job: Seq<char>, groups: Groups, now: i64)
    ensures
        s.pending.is_prefix_of(trigger_groups(s, job, groups, now).pending),
        forall|i: int|
            s.pending.len() <= i < trigger_groups(s, job, groups, now).pending.len() ==> (#[trigger] trigger_groups(
                s,
                job,
                groups,
                now,
            ).pending[i]).job_id == job,
    decreases groups.len(),
{
    if groups.len() > 0 {
        lemma_step_prefix(s, job, groups.drop_last(), now);
    }
}

proof fn lemma_due_members(jobs: Seq<JobV>, pending: Seq<PendingV>, now: i64, e: (Seq<char>, Seq<char>))
    requires
        due_stages(jobs, pending, now).contains(e),
    ensures
        exists|k: int| 0 <= k < jobs.len() && (#[trigger] jobs[k]).job_id == e.0 && due_stages_of(jobs[k], pending, now).contains(
            e,
        ),
    decreases jobs.len(),
{
    let d = jobs.drop_last();
    let a = due_stages(d, pending, now);
    let b = due_stages_of(jobs.last(), pending, now);
    let n = choose|n: int| 0 <= n < (a + b).len() && (a + b)[n] == e;
    if n < a.len() {
        assert(a[n] == e);
        lemma_due_members(d, pending, now, e);
        let k = choose|k: int|
            0 <= k < d.len() && (#[trigger] d[k]).job_id == e.0 && due_stages_of(d[k], pending, now).contains(e);
        assert(jobs[k] == d[k]);
    } else {
        assert(b[n - a.len()] == e);
        lemma_idle_job(jobs.last().job_id, running_groups(jobs.last().tasks), pending);
        assert(jobs[jobs.len() - 1].job_id == e.0);
    }
}

proof fn lemma_idle_job(job: Seq<char>, groups: Groups, pending: Seq<PendingV>)
    ensures
        forall|i: int|
            0 <= i < idle_stages(job, groups, pending).len() ==> (#[trigger] idle_stages(job, groups, pending)[i]).0
                == job,
    decreases groups.len(),
{
    if groups.len() > 0 {
        let h = idle_stages(job, groups.drop_last(), pending);
        let r = idle_stages(job, groups, pending);
        lemma_idle_job(job, groups.drop_last(), pending);
        assert forall|i: int| 0 <= i < r.len() implies (#[trigger] r[i]).0 == job by {
            if i < h.len() {
                assert(r[i] == h[i]);
            }
        }
    }
}

/// A job that does not run, or whose interval has not passed since its last checkpoint,
/// gets none: it stays as it is, none of its pipelines has a new checkpoint in flight,
/// and none is listed as due.
pub proof fn law_no_checkpoint_before_its_time(jobs: Seq<JobV>, pending: Seq<PendingV>, now: i64, k: int)
    requires
        distinct(jobs),
        0 <= k < jobs.len(),
        waits(jobs[k], now),
    ensures
        trigger_jobs(jobs, pending, now).0[k] == jobs[k],
        pending.is_prefix_of(trigger_jobs(jobs, pending, now).1),
        forall|i: int|
            pending.len() <= i < trigger_jobs(jobs, pending, now).1.len() ==> (#[trigger] trigger_jobs(
                jobs,
                pending,
                now,
            ).1[i]).job_id != jobs[k].job_id,
        forall|i: int|
            0 <= i < due_stages(jobs, pending, now).len() ==> (#[trigger] due_stages(jobs, pending, now)[i]).0
                != jobs[k].job_id,
{
    lemma_waiting_job(jobs, pending, now, jobs[k].job_id);
    lemma_prefix(jobs, pending, now);
    assert forall|i: int| 0 <= i < due_stages(jobs, pending, now).len() implies (#[trigger] due_stages(
        jobs,
        pending,
        now,
    )[i]).0 != jobs[k].job_id by {
        let e = due_stages(jobs, pending, now)[i];
        assert(due_stages(jobs, pending, now).contains(e));
        lemma_due_members(jobs, pending, now, e);
        let m = choose|m: int|
            0 <= m < jobs.len() && (#[trigger] jobs[m]).job_id == e.0 && due_stages_of(jobs[m], pending, now).contains(e);
        if e.0 == jobs[k].job_id {
            assert(jobs[m].name() == jobs[k].name());
            assert(m == k);
        }
    }
}

proof fn lemma_waiting_job(jobs: Seq<JobV>, pending: Seq<PendingV>, now: i64, job: Seq<char>)
    requires
        forall|k: int| 0 <= k < jobs.len() && (#[trigger] jobs[k]).job_id == job ==> waits(jobs[k], now),
    ensures
        trigger_jobs(jobs, pending, now).0.len() == jobs.len(),
        forall|k: int|
            0 <= k < jobs.len() && jobs[k].job_id == job ==> #[trigger] trigger_jobs(jobs, pending, now).0[k] == jobs[k],
        trigger_jobs(jobs, pending, now).1.len() >= pending.len(),
        forall|i: int|
            pending.len() <= i < trigger_jobs(jobs, pending, now).1.len() ==> (#[trigger] trigger_jobs(
                jobs,
                pending,
                now,
            ).1[i]).job_id != job,
    decreases jobs.len(),
{
    if jobs.len() > 0 {
        let d = jobs.drop_last();
        assert forall|k: int| 0 <= k < d.len() && (#[trigger] d[k]).job_id == job implies waits(d[k], now) by {
            assert(d[k] == jobs[k]);
        }
        lemma_waiting_job(d, pending, now, job);
        let j = jobs.last();
        assert(j == jobs[jobs.len() - 1]);
        let h = trigger_jobs(d, pending, now);
        let r = trigger_jobs(jobs, pending, now);
        lemma_step_prefix(
            TriggerStep { pending: h.1, next: j.next_checkpoint_id, fired: false },
            j.job_id,
            running_groups(j.tasks),
            now,
        );
        assert(h.1.is_prefix_of(r.1));
        assert forall|i: int| pending.len() <= i < r.1.len() implies (#[trigger] r.1[i]).job_id != job by {
            if i < h.1.len() {
                assert(r.1[i] == h.1[i]);
            } else if j.job_id == job {
                assert(r.1 == h.1);
            }
        }
    }
}

/// Once the interval of a running job has passed, every pipeline of it that has a
/// running task and no checkpoint in flight gets one: triggered now, not yet handed to
/// anybody, and waiting for the tasks that run in the pipeline, each on its worker. The
/// pipeline is listed as due; the job notes the time and goes on to the next ids.
pub proof fn law_due_pipelines_get_a_checkpoint(jobs: Seq<JobV>, pending: Seq<PendingV>, now: i64, k: int, x: int)
    requires
        distinct(jobs),
        0 <= k < jobs.len(),
        is_ready(jobs[k], now),
        0 <= x < jobs[k].tasks.len(),
        jobs[k].tasks[x].state is Running,
        none_in_flight(pending, jobs[k].job_id, jobs[k].tasks[x].stage_id),
    ensures
        due_stages(jobs, pending, now).contains((jobs[k].job_id, jobs[k].tasks[x].stage_id)),
        trigger_jobs(jobs, pending, now).0[k].last_checkpoint_trigger_ms == now,
        jobs[k].next_checkpoint_id < u64::MAX ==> trigger_jobs(jobs, pending, now).0[k].next_checkpoint_id
            > jobs[k].next_checkpoint_id,
        exists|i: int|
            pending.len() <= i < trigger_jobs(jobs, pending, now).1.len() && begun_for(
                #[trigger] trigger_jobs(jobs, pending, now).1[i],
                jobs[k],
                jobs[k].tasks[x].stage_id,
                now,
            ),
{
    lemma_due_at(jobs, pending, now, k, x);
    lemma_listed(jobs, pending, now, k, x);
}

/// Whether a checkpoint was triggered now for a pipeline of a job, with exactly the
/// tasks that run in it.
pub open spec fn begun_for(cp: PendingV, j: JobV, stage: Seq<char>, now: i64) -> bool {
    &&& cp.job_id == j.job_id && cp.stage_id == stage
    &&& cp.triggered_at_ms == now
    &&& cp.delivered.len() == 0
    &&& forall|x: int|
        0 <= x < j.tasks.len() && (#[trigger] j.tasks[x]).state is Running && j.tasks[x].stage_id == stage
            ==> cp.participants.contains((j.tasks[x].task_id, j.tasks[x].worker_id))
    &&& forall|n: int| 0 <= n < cp.participants.len() ==> is_run_by(j, stage, #[trigger] cp.participants[n])
    &&& cp.awaiting.len() == cp.participants.len()
    &&& forall|n: int| 0 <= n < cp.awaiting.len() ==> #[trigger] cp.awaiting[n] == cp.participants[n].0
}

/// Whether a task runs in a pipeline of a job on a worker.
pub open spec fn is_run_by(j: JobV, stage: Seq<char>, m: (Seq<char>, Seq<char>)) -> bool {
    exists|x: int|
        0 <= x < j.tasks.len() && (#[trigger] j.tasks[x]).state is Running && j.tasks[x].stage_id == stage && m == (
            j.tasks[x].task_id,
            j.tasks[x].worker_id,
        )
}

pub(crate) proof fn lemma_group_of(tasks: Seq<TaskV>, x: int)
    requires
        0 <= x < tasks.len(),
        tasks[x].state is Running,
    ensures
        group_index(running_groups(tasks), tasks[x].stage_id) matches Some(i) && 0 <= i < running_groups(tasks).len()
            && running_groups(tasks)[i].0 == tasks[x].stage_id && running_groups(tasks)[i].1 == running_in(
            tasks,
            tasks[x].stage_id,
        ),
{
    let stage = tasks[x].stage_id;
    lemma_groups_are_full(tasks);
    lemma_group_index(running_groups(tasks), stage);
    law_who_takes_part(tasks, stage, tasks[x].task_id, tasks[x].worker_id);
    assert(crate::trigger_laws::runs_on(tasks, stage, tasks[x].task_id, tasks[x].worker_id));
    assert(group_index(running_groups(tasks), stage) is Some);
    let i = group_index(running_groups(tasks), stage)->0;
    assert(running_groups(tasks)[i].1 == running_in(tasks, running_groups(tasks)[i].0));
}

proof fn lemma_group_triggered(s: TriggerStep, job: Seq<char>, groups: Groups, now: i64, m: int)
    requires
        own_stages(groups),
        0 <= m < groups.len(),
        !in_flight(s.pending, job, groups[m].0),
    ensures
        ({
            let r = trigger_groups(s, job, groups, now);
            &&& r.fired
            &&& exists|i: int|
                s.pending.len() <= i < r.pending.len() && #[trigger] r.pending[i] == new_pending(
                    job,
                    groups[m],
                    r.pending[i].checkpoint_id,
                    now,
                )
        }),
        s.next < u64::MAX ==> trigger_groups(s, job, groups, now).next > s.next,
    decreases groups.len(),
{
    let d = groups.drop_last();
    let h = trigger_groups(s, job, d, now);
    let r = trigger_groups(s, job, groups, now);
    let g = groups.last();
    assert(g == groups[groups.len() - 1]);
    lemma_step_prefix(s, job, d, now);
    lemma_next_rises(s, job, d, now);
    if m < d.len() {
        assert(own_stages(d)) by {
            assert forall|a: int, b: int| 0 <= a < b < d.len() implies (#[trigger] d[a]).0 != (#[trigger] d[b]).0 by {
                assert(groups[a].0 != groups[b].0);
            }
        }
        lemma_group_triggered(s, job, d, now, m);
        assert(d[m] == groups[m]);
        let i = choose|i: int|
            s.pending.len() <= i < h.pending.len() && #[trigger] h.pending[i] == new_pending(
                job,
                d[m],
                h.pending[i].checkpoint_id,
                now,
            );
        assert(r.pending[i] == h.pending[i]);
    } else {
        assert forall|k: int| 0 <= k < d.len() implies (#[trigger] d[k]).0 != g.0 by {
            assert(groups[k].0 != groups[m].0);
        }
        lemma_groups_elsewhere(s, job, d, now, job, g.0);
        assert(r.pending[h.pending.len() as int] == new_pending(job, g, h.next, now));
    }
}

proof fn lemma_next_rises(s: TriggerStep, job: Seq<char>, groups: Groups, now: i64)
    ensures
        trigger_groups(s, job, groups, now).next >= s.next,
    decreases groups.len(),
{
    if groups.len() > 0 {
        lemma_next_rises(s, job, groups.drop_last(), now);
    }
}

proof fn lemma_due_at(jobs: Seq<JobV>, pending: Seq<PendingV>, now: i64, k: int, x: int)
    requires
        distinct(jobs),
        0 <= k < jobs.len(),
        is_ready(jobs[k], now),
        0 <= x < jobs[k].tasks.len(),
        jobs[k].tasks[x].state is Running,
        none_in_flight(pending, jobs[k].job_id, jobs[k].tasks[x].stage_id),
    ensures
        ({
            let t = trigger_jobs(jobs, pending, now);
            &&& t.0[k].last_checkpoint_trigger_ms == now
            &&& jobs[k].next_checkpoint_id < u64::MAX ==> t.0[k].next_checkpoint_id > jobs[k].next_checkpoint_id
            &&& exists|i: int|
                pending.len() <= i < t.1.len() && begun_for(
                    #[trigger] t.1[i],
                    jobs[k],
                    jobs[k].tasks[x].stage_id,
                    now,
                )
        }),
    decreases jobs.len(),
{
    let d = jobs.drop_last();
    let h = trigger_jobs(d, pending, now);
    let t = trigger_jobs(jobs, pending, now);
    lemma_triggered_names(d, pending, now);
    lemma_prefix(d, pending, now);
    let last = jobs.last();
    assert(last == jobs[jobs.len() - 1]);
    let s0 = TriggerStep { pending: h.1, next: last.next_checkpoint_id, fired: false };
    let groups = running_groups(last.tasks);
    lemma_step_prefix(s0, last.job_id, groups, now);
    if k < d.len() {
        assert(distinct(d)) by {
            assert forall|a: int, b: int| 0 <= a < b < d.len() implies (#[trigger] d[a]).name() != (#[trigger] d[b]).name() by {
                assert(jobs[a].name() != jobs[b].name());
            }
        }
        lemma_due_at(d, pending, now, k, x);
        assert(d[k] == jobs[k]);
        assert(t.0[k] == h.0[k]);
        let i = choose|i: int|
            pending.len() <= i < h.1.len() && begun_for(#[trigger] h.1[i], jobs[k], jobs[k].tasks[x].stage_id, now);
        assert(t.1[i] == h.1[i]);
    } else {
        let j = last;
        let stage = j.tasks[x].stage_id;
        lemma_pending_index(pending, j.job_id, stage);
        assert forall|m: int| 0 <= m < d.len() implies (#[trigger] d[m]).job_id != j.job_id by {
            assert(jobs[m].name() != jobs[k].name());
        }
        lemma_jobs_elsewhere(d, pending, now, j.job_id, stage);
        lemma_own_stages(j.tasks);
        lemma_group_of(j.tasks, x);
        let m = group_index(groups, stage)->0;
        lemma_group_triggered(s0, j.job_id, groups, now, m);
        let r = trigger_groups(s0, j.job_id, groups, now);
        let i = choose|i: int|
            s0.pending.len() <= i < r.pending.len() && #[trigger] r.pending[i] == new_pending(
                j.job_id,
                groups[m],
                r.pending[i].checkpoint_id,
                now,
            );
        assert(t.1[i] == r.pending[i]);
        let cp = t.1[i];
        assert forall|y: int|
            0 <= y < j.tasks.len() && (#[trigger] j.tasks[y]).state is Running && j.tasks[y].stage_id
                == stage implies cp.participants.contains((j.tasks[y].task_id, j.tasks[y].worker_id)) by {
            law_who_takes_part(j.tasks, stage, j.tasks[y].task_id, j.tasks[y].worker_id);
            assert(crate::trigger_laws::runs_on(j.tasks, stage, j.tasks[y].task_id, j.tasks[y].worker_id));
        }
        assert forall|n: int| 0 <= n < cp.participants.len() implies is_run_by(j, stage, #[trigger] cp.participants[n]) by {
            let m = cp.participants[n];
            law_who_takes_part(j.tasks, stage, m.0, m.1);
            assert(running_in(j.tasks, stage).contains((m.0, m.1)));
            let y = choose|y: int|
                0 <= y < j.tasks.len() && (#[trigger] j.tasks[y]).task_id == m.0 && j.tasks[y].worker_id == m.1
                    && j.tasks[y].stage_id == stage && j.tasks[y].state is Running;
            assert(j.tasks[y].state is Running);
        }
        assert(begun_for(cp, j, stage, now));
    }
}

proof fn lemma_idle_group(job: Seq<char>, groups: Groups, pending: Seq<PendingV>, m: int)
    requires
        0 <= m < groups.len(),
        !in_flight(pending, job, groups[m].0),
    ensures
        idle_stages(job, groups, pending).contains((job, groups[m].0)),
    decreases groups.len(),
{
    let d = groups.drop_last();
    let h = idle_stages(job, d, pending);
    let r = idle_stages(job, groups, pending);
    if m < d.len() {
        assert(d[m] == groups[m]);
        lemma_idle_group(job, d, pending, m);
        let i = choose|i: int| 0 <= i < h.len() && h[i] == (job, groups[m].0);
        assert(r[i] == h[i]);
    } else {
        assert(r[h.len() as int] == (job, groups[m].0));
    }
}

proof fn lemma_listed(jobs: Seq<JobV>, pending: Seq<PendingV>, now: i64, k: int, x: int)
    requires
        0 <= k < jobs.len(),
        is_ready(jobs[k], now),
        0 <= x < jobs[k].tasks.len(),
        jobs[k].tasks[x].state is Running,
        none_in_flight(pending, jobs[k].job_id, jobs[k].tasks[x].stage_id),
    ensures
        due_stages(jobs, pending, now).contains((jobs[k].job_id, jobs[k].tasks[x].stage_id)),
    decreases jobs.len(),
{
    let e = (jobs[k].job_id, jobs[k].tasks[x].stage_id);
    let d = jobs.drop_last();
    let a = due_stages(d, pending, now);
    let b = due_stages_of(jobs.last(), pending, now);
    if k < d.len() {
        assert(d[k] == jobs[k]);
        lemma_listed(d, pending, now, k, x);
        let i = choose|i: int| 0 <= i < a.len() && a[i] == e;
        assert((a + b)[i] == e);
    } else {
        let j = jobs.last();
        assert(j == jobs[k]);
        lemma_pending_index(pending, j.job_id, e.1);
        lemma_group_of(j.tasks, x);
        let m = group_index(running_groups(j.tasks), e.1)->0;
        lemma_idle_group(j.job_id, running_groups(j.tasks), pending, m);
        let i = choose|i: int| 0 <= i < b.len() && b[i] == e;
        assert((a + b)[a.len() + i] == e);
    }
}

// ---------------------------------------------------------------------------
// Who is asked to prepare
// ---------------------------------------------------------------------------

proof fn lemma_told_upto(cp: PendingV, worker: Seq<char>, n: nat, t: Seq<char>, id: u64)
    requires
        n <= cp.participants.len(),
    ensures
        ({
            let r = delivered_upto(cp, worker, n);
            let part = cp.participants.take(n as int);
            &&& r.0.contains(t) <==> cp.delivered.contains(t) || part.contains((t, worker))
            &&& r.1.contains((t, id)) <==> id == cp.checkpoint_id && part.contains((t, worker)) && !cp.delivered.contains(t)
        }),
    decreases n,
{
    let part = cp.participants.take(n as int);
    let r = delivered_upto(cp, worker, n);
    if n == 0 {
        assert(part =~= Seq::empty());
        assert(!part.contains((t, worker)));
        assert(!r.1.contains((t, id)));
    } else {
        let h = delivered_upto(cp, worker, (n - 1) as nat);
        let rest = cp.participants.take(n - 1);
        lemma_told_upto(cp, worker, (n - 1) as nat, t, id);
        let m = cp.participants[n - 1];
        assert(part =~= rest.push(m));
        assert(part.contains((t, worker)) <==> rest.contains((t, worker)) || m == (t, worker)) by {
            if rest.contains((t, worker)) {
                let i = choose|i: int| 0 <= i < rest.len() && rest[i] == (t, worker);
                assert(part[i] == (t, worker));
            }
            if m == (t, worker) {
                assert(part[n - 1] == (t, worker));
            }
        }
        lemma_push_contains(h.0, m.0, t);
        lemma_push_contains(h.1, (m.0, cp.checkpoint_id), (t, id));
    }
}

/// What a longer list holds.
pub(crate) proof fn lemma_push_contains<T>(s: Seq<T>, e: T, x: T)
    ensures
        s.push(e).contains(x) <==> s.contains(x) || e == x,
{
    let r = s.push(e);
    if s.contains(x) {
        let i = choose|i: int| 0 <= i < s.len() && s[i] == x;
        assert(r[i] == x);
    }
    if e == x {
        assert(r[s.len() as int] == x);
    }
    if r.contains(x) {
        let i = choose|i: int| 0 <= i < r.len() && r[i] == x;
        if i < s.len() {
            assert(s[i] == x);
        }
    }
}

/// What two lists hold together.
pub(crate) proof fn lemma_add_contains<T>(a: Seq<T>, b: Seq<T>, x: T)
    ensures
        (a + b).contains(x) <==> a.contains(x) || b.contains(x),
{
    let r = a + b;
    if a.contains(x) {
        let i = choose|i: int| 0 <= i < a.len() && a[i] == x;
        assert(r[i] == x);
    }
    if b.contains(x) {
        let i = choose|i: int| 0 <= i < b.len() && b[i] == x;
        assert(r[a.len() + i] == x);
    }
    if r.contains(x) {
        let i = choose|i: int| 0 <= i < r.len() && r[i] == x;
        if i < a.len() {
            assert(a[i] == x);
        } else {
            assert(b[i - a.len()] == x);
        }
    }
}

/// A heartbeat is handed the triggers of exactly those tasks that take part in a
/// checkpoint in flight on the worker that asks and were not handed theirs before.
pub proof fn law_who_is_asked(p: Seq<PendingV>, worker: Seq<char>, task: Seq<char>, id: u64)
    ensures
        owed_triggers(p, worker).contains((task, id)) <==> exists|i: int|
            0 <= i < p.len() && (#[trigger] p[i]).checkpoint_id == id && p[i].participants.contains((task, worker))
                && !p[i].delivered.contains(task),
    decreases p.len(),
{
    if p.len() == 0 {
        assert(!owed_triggers(p, worker).contains((task, id)));
    } else {
        let d = p.drop_last();
        let cp = p.last();
        law_who_is_asked(d, worker, task, id);
        let n = cp.participants.len();
        lemma_told_upto(cp, worker, n, task, id);
        assert(cp.participants.take(n as int) =~= cp.participants);
        let own = delivered_upto(cp, worker, n).1;
        lemma_add_contains(owed_triggers(d, worker), own, (task, id));
        if own.contains((task, id)) {
            assert(p[p.len() - 1] == cp);
        }
        if owed_triggers(d, worker).contains((task, id)) {
            let i = choose|i: int|
                0 <= i < d.len() && (#[trigger] d[i]).checkpoint_id == id && d[i].participants.contains((task, worker))
                    && !d[i].delivered.contains(task);
            assert(p[i] == d[i]);
        }
        if exists|i: int|
            0 <= i < p.len() && (#[trigger] p[i]).checkpoint_id == id && p[i].participants.contains((task, worker))
                && !p[i].delivered.contains(task) {
            let i = choose|i: int|
                0 <= i < p.len() && (#[trigger] p[i]).checkpoint_id == id && p[i].participants.contains((task, worker))
                    && !p[i].delivered.contains(task);
            if i < d.len() {
                assert(d[i] == p[i]);
            }
        }
    }
}

/// A checkpoint whose triggers were handed to a worker notes the tasks on it, and is
/// else as it was.
pub proof fn law_handed_triggers_are_noted(cp: PendingV, worker: Seq<char>, task: Seq<char>)
    ensures
        told(cp, worker).delivered.contains(task) <==> cp.delivered.contains(task) || cp.participants.contains(
            (task, worker),
        ),
        told(cp, worker).participants == cp.participants,
        told(cp, worker).awaiting == cp.awaiting,
        told(cp, worker).checkpoint_id == cp.checkpoint_id,
        told(cp, worker).triggered_at_ms == cp.triggered_at_ms,
        told(cp, worker).job_id == cp.job_id,
        told(cp, worker).stage_id == cp.stage_id,
{
    lemma_told_upto(cp, worker, cp.participants.len(), task, 0);
    assert(cp.participants.take(cp.participants.len() as int) =~= cp.participants);
}

// ---------------------------------------------------------------------------
// How a checkpoint ends
// ---------------------------------------------------------------------------

/// Whether `after` is `before` with what every participant of a checkpoint hears behind
/// it: its worker is told the task, the checkpoint and whether it completed.
pub open spec fn everyone_hears(
    before: Seq<(Seq<char>, ResolutionV)>,
    after: Seq<(Seq<char>, ResolutionV)>,
    cp: PendingV,
    completed: bool,
) -> bool {
    &&& after.len() == before.len() + cp.participants.len()
    &&& before.is_prefix_of(after)
    &&& forall|n: int|
        0 <= n < cp.participants.len() ==> #[trigger] after[before.len() + n] == (
            cp.participants[n].1,
            (cp.participants[n].0, cp.checkpoint_id, completed),
        )
}

/// Whether `after` is a job once a checkpoint of some of its tasks has completed: it is
/// counted, each of these tasks has it as its last one unless it has a later one, and
/// nothing else has changed.
pub open spec fn checkpoint_counted(before: JobV, after: JobV, participants: Pairs, id: u64) -> bool {
    &&& before.checkpoints_completed < u64::MAX ==> after.checkpoints_completed == before.checkpoints_completed + 1
    &&& after.tasks.len() == before.tasks.len()
    &&& forall|x: int|
        0 <= x < before.tasks.len() ==> {
            let t = #[trigger] before.tasks[x];
            let u = after.tasks[x];
            if (exists|n: int| 0 <= n < participants.len() && (#[trigger] participants[n]).0 == t.task_id) && id
                > t.last_checkpoint_id {
                u == TaskV { last_checkpoint_id: id, last_checkpoint_size: 0, ..t }
            } else {
                u == t
            }
        }
    &&& after == (JobV { checkpoints_completed: after.checkpoints_completed, tasks: after.tasks, ..before })
}

proof fn lemma_lookup_some(p: Pairs, key: Seq<char>)
    ensures
        props::lookup(p, key) is Some <==> exists|n: int| 0 <= n < p.len() && (#[trigger] p[n]).0 == key,
    decreases p.len(),
{
    if p.len() > 0 {
        let r = p.skip(1);
        lemma_lookup_some(r, key);
        if p[0].0 != key {
            if exists|n: int| 0 <= n < r.len() && (#[trigger] r[n]).0 == key {
                let n = choose|n: int| 0 <= n < r.len() && (#[trigger] r[n]).0 == key;
                assert(p[n + 1].0 == key);
            }
            if exists|n: int| 0 <= n < p.len() && (#[trigger] p[n]).0 == key {
                let n = choose|n: int| 0 <= n < p.len() && (#[trigger] p[n]).0 == key;
                assert(r[n - 1].0 == key);
            }
        }
    }
}

proof fn lemma_without(s: Seq<Seq<char>>, x: Seq<char>, y: Seq<char>)
    ensures
        without(s, x).contains(y) <==> s.contains(y) && y != x,
        without(s, x).len() == 0 <==> forall|i: int| 0 <= i < s.len() ==> #[trigger] s[i] == x,
    decreases s.len(),
{
    if s.len() == 0 {
        assert(!without(s, x).contains(y));
    } else {
        let d = s.drop_last();
        lemma_without(d, x, y);
        lemma_push_contains(d, s.last(), y);
        assert(d.push(s.last()) =~= s);
        lemma_push_contains(without(d, x), s.last(), y);
        if without(s, x).len() == 0 {
            assert forall|i: int| 0 <= i < s.len() implies #[trigger] s[i] == x by {
                if i < d.len() {
                    assert(d[i] == x);
                }
            }
        }
        if forall|i: int| 0 <= i < s.len() ==> #[trigger] s[i] == x {
            assert forall|i: int| 0 <= i < d.len() implies #[trigger] d[i] == x by {
                assert(s[i] == x);
            }
            assert(s[s.len() - 1] == x);
        }
    }
}

proof fn lemma_at<S: Named>(s: Seq<S>, k: int)
    requires
        distinct(s),
        0 <= k < s.len(),
    ensures
        index_of(s, s[k].name()) == Some(k),
        named(s, s[k].name()) == Some(s[k]),
{
    keyed::lemma_index_of(s, s[k].name());
    let i = index_of(s, s[k].name())->0;
    assert(index_of(s, s[k].name()) is Some);
    if i != k {
        assert(s[i].name() == s[k].name());
    }
}

/// What the prepare of a task for the checkpoint of its pipeline does. A failure ends
/// the checkpoint, and every participant hears that it was aborted. A prepare takes the
/// task off those that are waited for; when nobody else is, the checkpoint ends, every
/// participant hears that it completed, and the job counts it. Else nobody hears
/// anything.
pub proof fn law_prepare_counts(c: CoordinatorV, k: int, x: int, i: int, success: bool)
    requires
        distinct(c.jobs),
        0 <= k < c.jobs.len(),
        distinct(c.jobs[k].tasks),
        0 <= x < c.jobs[k].tasks.len(),
        one_in_flight(c.pending),
        0 <= i < c.pending.len(),
        c.pending[i].job_id == c.jobs[k].job_id,
        c.pending[i].stage_id == c.jobs[k].tasks[x].stage_id,
    ensures
        ({
            let cp = c.pending[i];
            let task = c.jobs[k].tasks[x].task_id;
            let r = prepared(c, c.jobs[k].job_id, task, cp.checkpoint_id, success);
            let others_awaited = exists|n: int| 0 <= n < cp.awaiting.len() && #[trigger] cp.awaiting[n] != task;
            if success && others_awaited {
                &&& r.1 is None
                &&& r.0.outbox == c.outbox && r.0.jobs == c.jobs
                &&& r.0.pending.len() == c.pending.len()
                &&& forall|m: int| 0 <= m < c.pending.len() && m != i ==> #[trigger] r.0.pending[m] == c.pending[m]
                &&& r.0.pending[i] == (PendingV { awaiting: r.0.pending[i].awaiting, ..cp })
                &&& forall|t: Seq<char>|
                    #[trigger] r.0.pending[i].awaiting.contains(t) <==> cp.awaiting.contains(t) && t != task
            } else {
                &&& r.1 == Some(cp.checkpoint_id)
                &&& r.0.pending == c.pending.remove(i)
                &&& everyone_hears(c.outbox, r.0.outbox, cp, success)
                &&& r.0.jobs.len() == c.jobs.len()
                &&& forall|m: int| 0 <= m < c.jobs.len() && m != k ==> #[trigger] r.0.jobs[m] == c.jobs[m]
                &&& success ==> checkpoint_counted(c.jobs[k], r.0.jobs[k], cp.participants, cp.checkpoint_id)
                &&& !success ==> r.0.jobs[k] == c.jobs[k]
            }
        }),
{
    let j = c.jobs[k];
    let t = j.tasks[x];
    let cp = c.pending[i];
    let task = t.task_id;
    lemma_at(c.jobs, k);
    lemma_at(j.tasks, x);
    lemma_pending_index(c.pending, j.job_id, t.stage_id);
    assert(pending_index(c.pending, j.job_id, t.stage_id) == Some(i));
    let r = prepared(c, j.job_id, task, cp.checkpoint_id, success);
    lemma_without(cp.awaiting, task, task);
    assert forall|u: Seq<char>|
        #[trigger] without(cp.awaiting, task).contains(u) <==> cp.awaiting.contains(u) && u != task by {
        lemma_without(cp.awaiting, task, u);
    }
    assert forall|y: int| 0 <= y < j.tasks.len() implies (props::lookup(
        cp.participants,
        (#[trigger] j.tasks[y]).task_id,
    ) is Some <==> exists|n: int| 0 <= n < cp.participants.len() && (#[trigger] cp.participants[n]).0
        == j.tasks[y].task_id) by {
        lemma_lookup_some(cp.participants, j.tasks[y].task_id);
    }
    assert(c.outbox.is_prefix_of(r.0.outbox));
}

/// A prepare for a checkpoint that is not in flight changes nothing.
pub proof fn law_stray_prepare(c: CoordinatorV, job: Seq<char>, task: Seq<char>, id: u64, success: bool)
    requires
        forall|i: int| 0 <= i < c.pending.len() ==> !((#[trigger] c.pending[i]).job_id == job && c.pending[i].checkpoint_id == id),
    ensures
        prepared(c, job, task, id, success) == (c, None::<u64>),
{
    match named(c.jobs, job) {
        Some(j) => match named(j.tasks, task) {
            Some(t) => {
                lemma_pending_index(c.pending, job, t.stage_id);
            },
            None => {},
        },
        None => {},
    }
}

/// Whether somebody hears that a checkpoint was aborted.
pub open spec fn hears_of_abort(e: (Seq<char>, ResolutionV), cp: PendingV) -> bool {
    e.1.1 == cp.checkpoint_id && !e.1.2 && cp.participants.contains((e.1.0, e.0))
}

proof fn lemma_resolutions(cp: PendingV, e: (Seq<char>, ResolutionV))
    ensures
        crate::checkpoint_coordination::resolutions(cp, false).contains(e) <==> hears_of_abort(e, cp),
{
    let r = crate::checkpoint_coordination::resolutions(cp, false);
    if r.contains(e) {
        let n = choose|n: int| 0 <= n < r.len() && r[n] == e;
        assert(cp.participants[n] == (e.1.0, e.0));
    }
    if hears_of_abort(e, cp) {
        let n = choose|n: int| 0 <= n < cp.participants.len() && cp.participants[n] == (e.1.0, e.0);
        assert(r[n] == e);
    }
}

/// The checkpoints that have waited for longer than the timeout are given up, and their
/// participants, and nobody else, hear of it. The others stay in flight.
pub proof fn law_timeouts(p: Seq<PendingV>, now: i64, timeout: u64, e: (Seq<char>, ResolutionV))
    requires
        timeout <= i64::MAX,
    ensures
        in_time(p, now, timeout) == p.filter(|cp: PendingV| now - cp.triggered_at_ms <= timeout),
        timeout_notices(p, now, timeout).contains(e) <==> exists|i: int|
            0 <= i < p.len() && now - (#[trigger] p[i]).triggered_at_ms > timeout && hears_of_abort(e, p[i]),
    decreases p.len(),
{
    reveal(Seq::filter);
    if p.len() == 0 {
        assert(!timeout_notices(p, now, timeout).contains(e));
    } else {
        let d = p.drop_last();
        let cp = p.last();
        law_timeouts(d, now, timeout, e);
        lemma_resolutions(cp, e);
        lemma_add_contains(
            timeout_notices(d, now, timeout),
            crate::checkpoint_coordination::resolutions(cp, false),
            e,
        );
        if exists|i: int| 0 <= i < p.len() && now - (#[trigger] p[i]).triggered_at_ms > timeout && hears_of_abort(e, p[i]) {
            let i = choose|i: int|
                0 <= i < p.len() && now - (#[trigger] p[i]).triggered_at_ms > timeout && hears_of_abort(e, p[i]);
            if i < d.len() {
                assert(d[i] == p[i]);
            }
        }
        if timeout_notices(d, now, timeout).contains(e) {
            let i = choose|i: int|
                0 <= i < d.len() && now - (#[trigger] d[i]).triggered_at_ms > timeout && hears_of_abort(e, d[i]);
            assert(p[i] == d[i]);
        }
        assert(p[p.len() - 1] == cp);
    }
}

/// Dropping a job's checkpoints leaves those of the other jobs, and the participants of
/// the dropped ones, and nobody else, hear of it.
pub proof fn law_dropped_checkpoints(p: Seq<PendingV>, job: Seq<char>, e: (Seq<char>, ResolutionV))
    ensures
        of_others(p, job) == p.filter(|cp: PendingV| cp.job_id != job),
        drop_notices(p, job).contains(e) <==> exists|i: int|
            0 <= i < p.len() && (#[trigger] p[i]).job_id == job && hears_of_abort(e, p[i]),
    decreases p.len(),
{
    reveal(Seq::filter);
    if p.len() == 0 {
        assert(!drop_notices(p, job).contains(e));
    } else {
        let d = p.drop_last();
        let cp = p.last();
        law_dropped_checkpoints(d, job, e);
        lemma_resolutions(cp, e);
        lemma_add_contains(drop_notices(d, job), crate::checkpoint_coordination::resolutions(cp, false), e);
        if exists|i: int| 0 <= i < p.len() && (#[trigger] p[i]).job_id == job && hears_of_abort(e, p[i]) {
            let i = choose|i: int| 0 <= i < p.len() && (#[trigger] p[i]).job_id == job && hears_of_abort(e, p[i]);
            if i < d.len() {
                assert(d[i] == p[i]);
            }
        }
        if drop_notices(d, job).contains(e) {
            let i = choose|i: int| 0 <= i < d.len() && (#[trigger] d[i]).job_id == job && hears_of_abort(e, d[i]);
            assert(p[i] == d[i]);
        }
        assert(p[p.len() - 1] == cp);
    }
}

/// A worker takes what waits for it, in order, and leaves what waits for the others.
pub proof fn law_queue(q: Seq<(Seq<char>, ResolutionV)>, worker: Seq<char>)
    ensures
        queued_for(q, worker) == q.filter(|e: (Seq<char>, ResolutionV)| e.0 == worker).map_values(
            |e: (Seq<char>, ResolutionV)| e.1,
        ),
        queued_for_others(q, worker) == q.filter(|e: (Seq<char>, ResolutionV)| e.0 != worker),
    decreases q.len(),
{
    reveal(Seq::filter);
    if q.len() > 0 {
        let d = q.drop_last();
        law_queue(d, worker);
        let own = |e: (Seq<char>, ResolutionV)| e.0 == worker;
        let value = |e: (Seq<char>, ResolutionV)| e.1;
        if q.last().0 == worker {
            assert(q.filter(own).map_values(value) =~= d.filter(own).map_values(value).push(q.last().1));
        }
    } else {
        assert(queued_for(q, worker) =~= q.filter(|e: (Seq<char>, ResolutionV)| e.0 == worker).map_values(
            |e: (Seq<char>, ResolutionV)| e.1,
        ));
    }
}

} // verus!
