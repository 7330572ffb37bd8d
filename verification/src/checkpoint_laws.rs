//! What holds of checkpoints that a cluster agrees on: their commands do what a
//! single master does in one step.

use vstd::prelude::*;

use crate::checkpoint_coordination::{
    due_stages, due_stages_of, group_index, idle_stages, lemma_group_index, lemma_pending_index, new_pending,
    pending_index, prepare_noted, prepare_target, prepared, running_groups, stage_triggered, trigger_due,
    trigger_groups, trigger_job, trigger_jobs, Groups, TriggerStep,
};
use crate::command::{applied, applied_all, law_replay, CommandV};
use crate::coordinator_laws::one_in_flight;
use crate::heartbeat::begin_commands;
use crate::job::{JobV, TaskV};
use crate::job_coordinator::{CoordinatorV, PendingV};
use crate::keyed;
use crate::keyed::{distinct, index_of, named, Named};
use crate::props::Pairs;

verus! {

/// Whether a pipeline has a checkpoint in flight.
pub open spec fn in_flight(p: Seq<PendingV>, job: Seq<char>, stage: Seq<char>) -> bool {
    pending_index(p, job, stage) is Some
}

pub(crate) proof fn lemma_in_flight_push(p: Seq<PendingV>, x: PendingV, job: Seq<char>, stage: Seq<char>)
    ensures
        in_flight(p.push(x), job, stage) == (in_flight(p, job, stage) || (x.job_id == job && x.stage_id == stage)),
{
    assert(p.push(x).drop_last() =~= p);
}

/// Whether no two groups belong to one stage.
pub open spec fn own_stages(g: Groups) -> bool {
    forall|i: int, k: int| 0 <= i < k < g.len() ==> (#[trigger] g[i]).0 != (#[trigger] g[k]).0
}

/// The running tasks are grouped by their stages.
pub proof fn lemma_own_stages(tasks: Seq<TaskV>)
    ensures
        own_stages(running_groups(tasks)),
    decreases tasks.len(),
{
    if tasks.len() > 0 {
        let g = running_groups(tasks.drop_last());
        let t = tasks.last();
        lemma_own_stages(tasks.drop_last());
        lemma_group_index(g, t.stage_id);
    }
}

pub(crate) proof fn lemma_groups_elsewhere(s: TriggerStep, job: Seq<char>, groups: Groups, now: i64, other: Seq<char>, stage: Seq<char>)
    requires
        other != job || forall|k: int| 0 <= k < groups.len() ==> (#[trigger] groups[k]).0 != stage,
    ensures
        in_flight(trigger_groups(s, job, groups, now).pending, other, stage) == in_flight(s.pending, other, stage),
    decreases groups.len(),
{
    if groups.len() > 0 {
        let d = groups.drop_last();
        assert forall|k: int| 0 <= k < d.len() && other == job implies (#[trigger] d[k]).0 != stage by {
            assert(d[k] == groups[k]);
        }
        lemma_groups_elsewhere(s, job, d, now, other, stage);
        let h = trigger_groups(s, job, d, now);
        let g = groups.last();
        assert(g == groups[groups.len() - 1]);
        lemma_in_flight_push(h.pending, new_pending(job, g, h.next, now), other, stage);
    }
}

pub(crate) proof fn lemma_jobs_elsewhere(jobs: Seq<JobV>, pending: Seq<PendingV>, now: i64, other: Seq<char>, stage: Seq<char>)
    requires
        forall|k: int| 0 <= k < jobs.len() ==> (#[trigger] jobs[k]).job_id != other,
    ensures
        in_flight(trigger_jobs(jobs, pending, now).1, other, stage) == in_flight(pending, other, stage),
    decreases jobs.len(),
{
    if jobs.len() > 0 {
        let d = jobs.drop_last();
        assert forall|k: int| 0 <= k < d.len() implies (#[trigger] d[k]).job_id != other by {
            assert(d[k] == jobs[k]);
        }
        lemma_jobs_elsewhere(d, pending, now, other, stage);
        let j = jobs.last();
        assert(j == jobs[jobs.len() - 1]);
        lemma_groups_elsewhere(
            TriggerStep { pending: trigger_jobs(d, pending, now).1, next: j.next_checkpoint_id, fired: false },
            j.job_id,
            running_groups(j.tasks),
            now,
            other,
            stage,
        );
    }
}

pub(crate) proof fn lemma_triggered_names(jobs: Seq<JobV>, pending: Seq<PendingV>, now: i64)
    ensures
        trigger_jobs(jobs, pending, now).0.len() == jobs.len(),
        forall|i: int|
            0 <= i < jobs.len() ==> (#[trigger] trigger_jobs(jobs, pending, now).0[i]).job_id == jobs[i].job_id,
    decreases jobs.len(),
{
    if jobs.len() > 0 {
        lemma_triggered_names(jobs.drop_last(), pending, now);
    }
}

/// A job once some of its checkpoints were triggered.
pub open spec fn after_triggers(j: JobV, s: TriggerStep, now: i64) -> JobV {
    if s.fired { JobV { next_checkpoint_id: s.next, last_checkpoint_trigger_ms: now, ..j } } else { j }
}

proof fn lemma_step_next(s: TriggerStep, job: Seq<char>, groups: Groups, now: i64)
    ensures
        !trigger_groups(s, job, groups, now).fired ==> trigger_groups(s, job, groups, now) == s,
    decreases groups.len(),
{
    if groups.len() > 0 {
        lemma_step_next(s, job, groups.drop_last(), now);
    }
}

proof fn lemma_begin_push(stages: Pairs, x: (Seq<char>, Seq<char>), now: i64)
    ensures
        begin_commands(stages.push(x), now) == begin_commands(stages, now).push(
            CommandV::CheckpointTriggered(x.0, x.1, now),
        ),
{
    assert(begin_commands(stages.push(x), now) =~= begin_commands(stages, now).push(
        CommandV::CheckpointTriggered(x.0, x.1, now),
    ));
}

proof fn lemma_groups_by_command(x: CoordinatorV, n: int, groups: Groups, before: Seq<PendingV>, now: i64)
    requires
        0 <= n < x.jobs.len(),
        distinct(x.jobs),
        x.jobs[n].state is Running,
        own_stages(running_groups(x.jobs[n].tasks)),
        groups.is_prefix_of(running_groups(x.jobs[n].tasks)),
        forall|stage: Seq<char>|
            #[trigger] in_flight(x.pending, x.jobs[n].job_id, stage) == in_flight(before, x.jobs[n].job_id, stage),
    ensures
        ({
            let j = x.jobs[n];
            let s = trigger_groups(
                TriggerStep { pending: x.pending, next: j.next_checkpoint_id, fired: false },
                j.job_id,
                groups,
                now,
            );
            applied_all(x, begin_commands(idle_stages(j.job_id, groups, before), now), now) == (CoordinatorV {
                jobs: x.jobs.update(n, after_triggers(j, s, now)),
                pending: s.pending,
                ..x
            })
        }),
    decreases groups.len(),
{
    let j = x.jobs[n];
    let all = running_groups(j.tasks);
    let s0 = TriggerStep { pending: x.pending, next: j.next_checkpoint_id, fired: false };
    let s = trigger_groups(s0, j.job_id, groups, now);
    if groups.len() == 0 {
        assert(begin_commands(idle_stages(j.job_id, groups, before), now) =~= Seq::empty());
        assert(x.jobs.update(n, j) =~= x.jobs);
    } else {
        let d = groups.drop_last();
        let g = groups.last();
        let m = groups.len() - 1;
        lemma_groups_by_command(x, n, d, before, now);
        lemma_step_next(s0, j.job_id, d, now);
        let h = trigger_groups(s0, j.job_id, d, now);
        let y = CoordinatorV { jobs: x.jobs.update(n, after_triggers(j, h, now)), pending: h.pending, ..x };
        let idle = idle_stages(j.job_id, d, before);
        assert(g == all[m]);
        assert forall|k: int| 0 <= k < d.len() implies (#[trigger] d[k]).0 != g.0 by {
            assert(d[k] == all[k]);
            assert(all[k].0 != all[m].0);
        }
        lemma_groups_elsewhere(s0, j.job_id, d, now, j.job_id, g.0);
        assert(in_flight(h.pending, j.job_id, g.0) == in_flight(x.pending, j.job_id, g.0));
        assert(in_flight(h.pending, j.job_id, g.0) == in_flight(before, j.job_id, g.0));
        if in_flight(before, j.job_id, g.0) {
            assert(idle_stages(j.job_id, groups, before) == idle);
        } else {
            lemma_begin_push(idle, (j.job_id, g.0), now);
            let cmds = begin_commands(idle, now);
            let last = CommandV::CheckpointTriggered(j.job_id, g.0, now);
            assert(cmds.push(last).drop_last() =~= cmds);
            // The command finds the job, its pipeline and no checkpoint in flight.
            keyed::lemma_index_of(y.jobs, j.job_id);
            assert(y.jobs[n].job_id == j.job_id);
            assert(index_of(y.jobs, j.job_id) == Some(n)) by {
                let i = index_of(y.jobs, j.job_id)->0;
                assert(y.jobs[n].name() == j.job_id);
                assert(index_of(y.jobs, j.job_id) is Some);
                if i != n {
                    assert(y.jobs[i].job_id == x.jobs[i].job_id);
                    assert(x.jobs[i].name() == x.jobs[n].name());
                }
            }
            assert(running_groups(y.jobs[n].tasks) == all);
            lemma_group_index(all, g.0);
            assert(group_index(all, g.0) == Some(m)) by {
                let i = group_index(all, g.0)->0;
                assert(all[m].0 == g.0);
                if i != m {
                    if i < m {
                        assert(all[i].0 != all[m].0);
                    } else {
                        assert(all[m].0 != all[i].0);
                    }
                }
            }
            let z = stage_triggered(y, j.job_id, g.0, now);
            assert(y.jobs[n].next_checkpoint_id == h.next);
            assert(z.jobs =~= x.jobs.update(n, after_triggers(j, s, now)));
            assert(z == applied(y, last, now));
        }
    }
}

/// Beginning each checkpoint that is due by its command gives the state that
/// triggering all of them at once gives.
pub proof fn law_triggers_by_command(c: CoordinatorV, now: i64)
    requires
        distinct(c.jobs),
    ensures
        applied_all(c, begin_commands(due_stages(c.jobs, c.pending, now), now), now) == (CoordinatorV {
            jobs: trigger_jobs(c.jobs, c.pending, now).0,
            pending: trigger_jobs(c.jobs, c.pending, now).1,
            ..c
        }),
{
    lemma_jobs_by_command(c, c.jobs.len() as int, now);
    assert(c.jobs.take(c.jobs.len() as int) =~= c.jobs);
    let t = trigger_jobs(c.jobs, c.pending, now);
    lemma_triggered_names(c.jobs, c.pending, now);
    assert(t.0 + c.jobs.skip(c.jobs.len() as int) =~= t.0);
}

proof fn lemma_jobs_by_command(c: CoordinatorV, n: int, now: i64)
    requires
        distinct(c.jobs),
        0 <= n <= c.jobs.len(),
    ensures
        ({
            let t = trigger_jobs(c.jobs.take(n), c.pending, now);
            applied_all(c, begin_commands(due_stages(c.jobs.take(n), c.pending, now), now), now) == (CoordinatorV {
                jobs: t.0 + c.jobs.skip(n),
                pending: t.1,
                ..c
            })
        }),
    decreases n,
{
    let jobs = c.jobs.take(n);
    if n == 0 {
        assert(begin_commands(due_stages(jobs, c.pending, now), now) =~= Seq::empty());
        assert(trigger_jobs(jobs, c.pending, now).0 + c.jobs.skip(0) =~= c.jobs);
    } else {
        let d = c.jobs.take(n - 1);
        assert(jobs.drop_last() =~= d);
        lemma_jobs_by_command(c, n - 1, now);
        lemma_triggered_names(d, c.pending, now);
        let h = trigger_jobs(d, c.pending, now);
        let j = jobs.last();
        assert(j == c.jobs[n - 1]);
        let x = CoordinatorV { jobs: h.0 + c.jobs.skip(n - 1), pending: h.1, ..c };
        let first = due_stages(d, c.pending, now);
        let second = due_stages_of(j, c.pending, now);
        assert(begin_commands(first + second, now) =~= begin_commands(first, now) + begin_commands(second, now));
        law_replay(c, begin_commands(first, now), begin_commands(second, now), now);
        assert(x.jobs[n - 1] == j);
        assert forall|i: int| 0 <= i < x.jobs.len() implies (#[trigger] x.jobs[i]).job_id == c.jobs[i].job_id by {
            if i < n - 1 {
                assert(h.0[i].job_id == d[i].job_id);
            }
        }
        assert(distinct(x.jobs)) by {
            assert forall|a: int, b: int| 0 <= a < b < x.jobs.len() implies (#[trigger] x.jobs[a]).name() != (
            #[trigger] x.jobs[b]).name() by {
                assert(c.jobs[a].name() != c.jobs[b].name());
            }
        }
        let t = trigger_jobs(jobs, c.pending, now);
        let r = trigger_job(j, h.1, now);
        assert(t == (h.0.push(r.0), r.1));
        if trigger_due(j, now) {
            lemma_own_stages(j.tasks);
            assert forall|stage: Seq<char>|
                #[trigger] in_flight(x.pending, j.job_id, stage) == in_flight(c.pending, j.job_id, stage) by {
                assert forall|k: int| 0 <= k < d.len() implies (#[trigger] d[k]).job_id != j.job_id by {
                    assert(c.jobs[k].name() != c.jobs[n - 1].name());
                }
                lemma_jobs_elsewhere(d, c.pending, now, j.job_id, stage);
            }
            let groups = running_groups(j.tasks);
            lemma_groups_by_command(x, n - 1, groups, c.pending, now);
            let s = trigger_groups(
                TriggerStep { pending: x.pending, next: j.next_checkpoint_id, fired: false },
                j.job_id,
                groups,
                now,
            );
            assert(r == (after_triggers(j, s, now), s.pending));
            assert(x.jobs.update(n - 1, r.0) =~= t.0 + c.jobs.skip(n));
        } else {
            assert(begin_commands(second, now) =~= Seq::empty());
            assert(x.jobs =~= t.0 + c.jobs.skip(n));
        }
    }
}

/// Noting a prepare, and ending the checkpoint by its command when that decides it,
/// gives the state that a single master comes to at once.
pub proof fn law_prepare_by_command(
    c: CoordinatorV,
    job: Seq<char>,
    task: Seq<char>,
    id: u64,
    success: bool,
    now: i64,
)
    ensures
        ({
            let n = prepare_noted(c, job, task, id, success);
            prepared(c, job, task, id, success) == match n.1 {
                Some(end) => (applied(n.0, CommandV::CheckpointResolved(job, id, end), now), Some(id)),
                None => (n.0, None),
            }
        }),
{
    let n = prepare_noted(c, job, task, id, success);
    match prepare_target(c, job, task, id) {
        None => {},
        Some(i) => {
            let t = named(named(c.jobs, job)->0.tasks, task)->0;
            lemma_pending_index(c.pending, job, t.stage_id);
            lemma_pending_index(n.0.pending, job, t.stage_id);
            assert(pending_index(n.0.pending, job, t.stage_id) == Some(i)) by {
                let p = n.0.pending;
                assert(p[i].job_id == job && p[i].stage_id == t.stage_id);
                let k = pending_index(p, job, t.stage_id)->0;
                if k != i {
                    assert(p[k].job_id == c.pending[k].job_id && p[k].stage_id == c.pending[k].stage_id);
                    assert(k < i);
                }
            }
            assert(n.0.pending.remove(i) =~= c.pending.remove(i));
        },
    }
}

/// A checkpoint that the cluster agrees on gets the job's next id, and the job's
/// counter never falls; as long as there are ids left it ends above the new one. At
/// most one checkpoint per pipeline is in flight.
pub proof fn law_agreed_ids_rise(c: CoordinatorV, job: Seq<char>, stage: Seq<char>, at: i64)
    requires
        one_in_flight(c.pending),
    ensures
        ({
            let r = stage_triggered(c, job, stage, at);
            &&& one_in_flight(r.pending)
            &&& c.pending.is_prefix_of(r.pending)
            &&& r.jobs.len() == c.jobs.len()
            &&& forall|i: int|
                0 <= i < c.jobs.len() ==> (#[trigger] r.jobs[i]).next_checkpoint_id >= c.jobs[i].next_checkpoint_id
            &&& forall|i: int|
                c.pending.len() <= i < r.pending.len() ==> (#[trigger] r.pending[i]).job_id == job && (match named(
                    c.jobs,
                    job,
                ) {
                    Some(j) => r.pending[i].checkpoint_id == j.next_checkpoint_id && (j.next_checkpoint_id < u64::MAX
                        ==> r.pending[i].checkpoint_id < (named(r.jobs, job)->0).next_checkpoint_id),
                    None => false,
                })
        }),
{
    let r = stage_triggered(c, job, stage, at);
    keyed::lemma_index_of(c.jobs, job);
    keyed::lemma_index_of(r.jobs, job);
    lemma_pending_index(c.pending, job, stage);
    if r != c {
        let k = index_of(c.jobs, job)->0;
        let i = index_of(r.jobs, job)->0;
        assert(r.jobs[k].name() == job);
        if i != k {
            assert(r.jobs[i] == c.jobs[i]);
            assert(c.jobs[i].name() == job);
        }
        lemma_group_index(running_groups(c.jobs[k].tasks), stage);
        let p = r.pending;
        assert forall|x: int, y: int| 0 <= x < y < p.len() implies !((#[trigger] p[x]).job_id == (
        #[trigger] p[y]).job_id && p[x].stage_id == p[y].stage_id) by {
            assert(p[x] == c.pending[x]);
            if y < c.pending.len() {
                assert(p[y] == c.pending[y]);
            }
        }
    }
}

} // verus!
