//! What stays told apart, whatever happens: jobs, the tasks of a job, descriptors and
//! checkpoints in flight.

use vstd::prelude::*;

use crate::cancellation_laws::own_tasks;
use crate::checkpoint_coordination::{
    in_time, lemma_pending_index, of_others, pending_index, told, trigger_job, trigger_jobs,
};
use crate::checkpoint_laws::law_agreed_ids_rise;
use crate::command::{applied, applied_all, CommandV};
use crate::coordinator_laws::{law_checkpoint_ids_rise, law_job_ids_stay_distinct, one_in_flight};
use crate::dispatch::{dispatch_all, job_with_task, lemma_job_with_task, register_all};
use crate::heartbeat::{metered, metered_all, ReportV};
use crate::job::{DescriptorV, JobV, TaskV};
use crate::job_coordinator::{CoordinatorV, PendingV};
use crate::keyed;
use crate::keyed::{distinct, index_of, named, put, put_all, Named};
use crate::replication::{
    imported_descriptor, law_merged_jobs, merge_descriptors, merge_jobs, merged, DescriptorRecordV, JobRecordV,
    SnapshotV,
};
use crate::task_reports::reported_job;

verus! {

/// Whether everything that a coordinator holds is told apart by its ids: its jobs, the
/// tasks of each job, the descriptors, and the checkpoints in flight by job and
/// pipeline.
pub open spec fn told_apart(c: CoordinatorV) -> bool {
    distinct(c.jobs) && own_tasks(c.jobs) && distinct(c.tasks) && one_in_flight(c.pending)
}

// ---------------------------------------------------------------------------
// Jobs that go on
// ---------------------------------------------------------------------------

/// Whether `k` is the job `j` later on: it has the same tasks at the same places, each
/// in its pipeline, and its next checkpoint id has not fallen.
pub open spec fn carried(k: JobV, j: JobV) -> bool {
    &&& k.job_id == j.job_id
    &&& k.next_checkpoint_id >= j.next_checkpoint_id
    &&& k.tasks.len() == j.tasks.len()
    &&& forall|x: int|
        0 <= x < j.tasks.len() ==> (#[trigger] k.tasks[x]).task_id == j.tasks[x].task_id && k.tasks[x].stage_id
            == j.tasks[x].stage_id
}

/// Whether the same jobs stand at the same places later on.
pub open spec fn carried_on(a: Seq<JobV>, b: Seq<JobV>) -> bool {
    a.len() == b.len() && forall|i: int| 0 <= i < b.len() ==> carried(#[trigger] a[i], b[i])
}

/// Jobs that go on stay told apart, and so do their tasks.
pub proof fn lemma_carried_apart(a: Seq<JobV>, b: Seq<JobV>)
    requires
        carried_on(a, b),
    ensures
        distinct(b) ==> distinct(a),
        own_tasks(b) ==> own_tasks(a),
{
    if distinct(b) {
        assert forall|i: int, j: int| 0 <= i < j < a.len() implies (#[trigger] a[i]).name() != (#[trigger] a[j]).name() by {
            assert(carried(a[i], b[i]) && carried(a[j], b[j]));
            assert(b[i].name() != b[j].name());
        }
    }
    if own_tasks(b) {
        assert forall|k: int| 0 <= k < a.len() implies distinct((#[trigger] a[k]).tasks) by {
            assert(carried(a[k], b[k]));
            assert(distinct(b[k].tasks));
            assert forall|i: int, j: int| 0 <= i < j < a[k].tasks.len() implies (#[trigger] a[k].tasks[i]).name() != (
            #[trigger] a[k].tasks[j]).name() by {
                assert(b[k].tasks[i].name() != b[k].tasks[j].name());
            }
        }
    }
}

/// Jobs that go on, and go on again.
pub proof fn lemma_carried_further(a: Seq<JobV>, b: Seq<JobV>, c: Seq<JobV>)
    requires
        carried_on(a, b),
        carried_on(b, c),
    ensures
        carried_on(a, c),
{
    assert forall|i: int| 0 <= i < c.len() implies carried(#[trigger] a[i], c[i]) by {
        assert(carried(a[i], b[i]) && carried(b[i], c[i]));
    }
}

proof fn lemma_put_task(k: JobV, j: JobV, t: TaskV)
    requires
        index_of(j.tasks, t.task_id) is Some,
        (named(j.tasks, t.task_id)->0).stage_id == t.stage_id,
        k.tasks == put(j.tasks, t),
        k.job_id == j.job_id,
        k.next_checkpoint_id >= j.next_checkpoint_id,
    ensures
        carried(k, j),
{
    keyed::lemma_index_of(j.tasks, t.task_id);
}

proof fn lemma_one_carried(jobs: Seq<JobV>, i: int, k: JobV)
    requires
        0 <= i < jobs.len(),
        carried(k, jobs[i]),
    ensures
        carried_on(jobs.update(i, k), jobs),
{
}

proof fn lemma_registered(jobs: Seq<JobV>, all: Seq<DescriptorV>, worker: Seq<char>, ids: Seq<Seq<char>>)
    ensures
        carried_on(register_all((jobs, Seq::empty()), all, worker, ids).0, jobs),
    decreases ids.len(),
{
    if ids.len() > 0 {
        lemma_registered(jobs, all, worker, ids.drop_last());
        let h = register_all((jobs, Seq::empty()), all, worker, ids.drop_last()).0;
        let r = register_all((jobs, Seq::empty()), all, worker, ids).0;
        lemma_job_with_task(h, ids.last());
        if let Some(i) = job_with_task(h, ids.last()) {
            keyed::lemma_index_of(h[i].tasks, ids.last());
            if r != h {
                let t = named(h[i].tasks, ids.last())->0;
                lemma_put_task(r[i], h[i], crate::dispatch::adopted_task(t, worker));
                lemma_one_carried(h, i, r[i]);
                lemma_carried_further(r, h, jobs);
            }
        }
    }
}

proof fn lemma_dispatched(jobs: Seq<JobV>, worker: Seq<char>, ids: Seq<Seq<char>>)
    ensures
        carried_on(dispatch_all(jobs, worker, ids), jobs),
    decreases ids.len(),
{
    if ids.len() > 0 {
        lemma_dispatched(jobs, worker, ids.drop_last());
        let h = dispatch_all(jobs, worker, ids.drop_last());
        let r = dispatch_all(jobs, worker, ids);
        lemma_job_with_task(h, ids.last());
        if let Some(i) = job_with_task(h, ids.last()) {
            keyed::lemma_index_of(h[i].tasks, ids.last());
            if r != h {
                let t = named(h[i].tasks, ids.last())->0;
                lemma_put_task(r[i], h[i], TaskV { state: crate::job::StateV::Deploying, worker_id: worker, ..t });
                lemma_one_carried(h, i, r[i]);
                lemma_carried_further(r, h, jobs);
            }
        }
    }
}

/// A heartbeat's metrics leave every job with its tasks.
pub proof fn lemma_metered(jobs: Seq<JobV>, worker: Seq<char>, tasks: Seq<ReportV>)
    ensures
        carried_on(metered_all(jobs, worker, tasks), jobs),
    decreases tasks.len(),
{
    if tasks.len() > 0 {
        let t = tasks.last();
        lemma_metered(jobs, worker, tasks.drop_last());
        let h = metered_all(jobs, worker, tasks.drop_last());
        let r = metered(h, worker, t);
        lemma_job_with_task(h, t.task_id);
        if let Some(i) = job_with_task(h, t.task_id) {
            keyed::lemma_index_of(h[i].tasks, t.task_id);
            let k = index_of(h[i].tasks, t.task_id)->0;
            lemma_carried_further(r, h, jobs);
        }
    }
}

/// Triggering leaves every job with its tasks.
pub proof fn lemma_triggered(jobs: Seq<JobV>, pending: Seq<PendingV>, now: i64)
    requires
        one_in_flight(pending),
    ensures
        carried_on(trigger_jobs(jobs, pending, now).0, jobs),
        one_in_flight(trigger_jobs(jobs, pending, now).1),
        pending.is_prefix_of(trigger_jobs(jobs, pending, now).1),
    decreases jobs.len(),
{
    if jobs.len() > 0 {
        let d = jobs.drop_last();
        lemma_triggered(d, pending, now);
        let h = trigger_jobs(d, pending, now);
        law_checkpoint_ids_rise(jobs.last(), h.1, now);
        let r = trigger_jobs(jobs, pending, now);
        let one = trigger_job(jobs.last(), h.1, now);
        assert forall|i: int| 0 <= i < jobs.len() implies carried(#[trigger] r.0[i], jobs[i]) by {
            if i < d.len() {
                assert(carried(h.0[i], d[i]));
            }
        }
    } else {
        assert(pending.is_prefix_of(trigger_jobs(jobs, pending, now).1));
    }
}

/// No command but a submission takes a job or one of its tasks away, moves a task to
/// another pipeline, or lowers a job's next checkpoint id.
pub proof fn law_jobs_go_on(c: CoordinatorV, cmd: CommandV, now: i64)
    requires
        !(cmd is SubmitJob),
    ensures
        carried_on(applied(c, cmd, now).jobs, c.jobs),
{
    let r = applied(c, cmd, now).jobs;
    match cmd {
        CommandV::AdoptTasks(worker, ids) => {
            lemma_registered(c.jobs, c.tasks, worker, ids);
        },
        CommandV::MarkDispatched(ids, worker) => {
            lemma_dispatched(c.jobs, worker, ids);
        },
        CommandV::CancelJob(id, at) => {
            keyed::lemma_index_of(c.jobs, id);
        },
        CommandV::TaskStatus { job_id, task_id, worker_id, state, records, error } => {
            keyed::lemma_index_of(c.jobs, job_id);
            if let Some(i) = index_of(c.jobs, job_id) {
                let j = c.jobs[i];
                let s = crate::job::state_of_wire(state);
                let k = reported_job(j, task_id, s, records, error, now);
                keyed::lemma_index_of(j.tasks, task_id);
                if let Some(x) = index_of(j.tasks, task_id) {
                    lemma_put_task(k, j, crate::task_reports::reported_task(j.tasks[x], s, records, error));
                }
                lemma_one_carried(c.jobs, i, k);
            }
        },
        CommandV::CheckpointTriggered(job, stage, at) => {
            keyed::lemma_index_of(c.jobs, job);
        },
        CommandV::CheckpointResolved(job, id, end) => {
            keyed::lemma_index_of(c.jobs, job);
        },
        _ => {},
    }
}

// ---------------------------------------------------------------------------
// Checkpoints in flight
// ---------------------------------------------------------------------------

/// Whether every checkpoint of `a` is one of `b`.
pub open spec fn among(a: Seq<PendingV>, b: Seq<PendingV>) -> bool {
    forall|i: int| 0 <= i < a.len() ==> b.contains(#[trigger] a[i])
}

proof fn lemma_kept_flight(h: Seq<PendingV>, p: Seq<PendingV>, keep: bool)
    requires
        p.len() > 0,
        one_in_flight(p),
        one_in_flight(h),
        among(h, p.drop_last()),
    ensures
        one_in_flight(if keep { h.push(p.last()) } else { h }),
        among(if keep { h.push(p.last()) } else { h }, p),
{
    let d = p.drop_last();
    let r = if keep { h.push(p.last()) } else { h };
    assert forall|i: int| 0 <= i < r.len() implies p.contains(#[trigger] r[i]) by {
        if i < h.len() {
            assert(d.contains(h[i]));
            let k = choose|k: int| 0 <= k < d.len() && d[k] == h[i];
            assert(p[k] == h[i]);
        } else {
            assert(p[p.len() - 1] == r[i]);
        }
    }
    assert forall|i: int, k: int| 0 <= i < k < r.len() implies !((#[trigger] r[i]).job_id == (#[trigger] r[k]).job_id
        && r[i].stage_id == r[k].stage_id) by {
        assert(r[i] == h[i]);
        assert(d.contains(h[i]));
        let x = choose|x: int| 0 <= x < d.len() && d[x] == h[i];
        assert(p[x] == h[i]);
        if k < h.len() {
            assert(r[k] == h[k]);
        } else {
            assert(r[k] == p[p.len() - 1]);
        }
    }
}

proof fn lemma_shorter_flight(p: Seq<PendingV>)
    requires
        one_in_flight(p),
        p.len() > 0,
    ensures
        one_in_flight(p.drop_last()),
{
    let d = p.drop_last();
    assert forall|i: int, k: int| 0 <= i < k < d.len() implies !((#[trigger] d[i]).job_id == (#[trigger] d[k]).job_id
        && d[i].stage_id == d[k].stage_id) by {
        assert(d[i] == p[i] && d[k] == p[k]);
    }
}

/// What stays in flight when a job's checkpoints are dropped.
pub proof fn lemma_of_others(p: Seq<PendingV>, job: Seq<char>)
    requires
        one_in_flight(p),
    ensures
        one_in_flight(of_others(p, job)),
        among(of_others(p, job), p),
    decreases p.len(),
{
    if p.len() > 0 {
        lemma_shorter_flight(p);
        lemma_of_others(p.drop_last(), job);
        lemma_kept_flight(of_others(p.drop_last(), job), p, p.last().job_id != job);
    }
}

/// What stays in flight when the checkpoints that waited too long are aborted.
pub proof fn lemma_in_time(p: Seq<PendingV>, now: i64, timeout: u64)
    requires
        one_in_flight(p),
    ensures
        one_in_flight(in_time(p, now, timeout)),
        among(in_time(p, now, timeout), p),
    decreases p.len(),
{
    if p.len() > 0 {
        lemma_shorter_flight(p);
        lemma_in_time(p.drop_last(), now, timeout);
        lemma_kept_flight(
            in_time(p.drop_last(), now, timeout),
            p,
            !crate::checkpoint_coordination::timed_out(p.last(), now, timeout),
        );
    }
}

/// What stays in flight when one checkpoint ends.
pub proof fn lemma_one_less(p: Seq<PendingV>, i: int)
    requires
        one_in_flight(p),
        0 <= i < p.len(),
    ensures
        one_in_flight(p.remove(i)),
        among(p.remove(i), p),
{
    let r = p.remove(i);
    assert forall|x: int| 0 <= x < r.len() implies p.contains(#[trigger] r[x]) by {
        assert(r[x] == p[if x < i { x } else { x + 1 }]);
    }
    assert forall|x: int, y: int| 0 <= x < y < r.len() implies !((#[trigger] r[x]).job_id == (#[trigger] r[y]).job_id
        && r[x].stage_id == r[y].stage_id) by {
        assert(r[x] == p[if x < i { x } else { x + 1 }]);
        assert(r[y] == p[if y < i { y } else { y + 1 }]);
    }
}

// ---------------------------------------------------------------------------
// Commands
// ---------------------------------------------------------------------------

proof fn lemma_put_all_distinct<S: Named>(s: Seq<S>, es: Seq<S>)
    requires
        distinct(s),
    ensures
        distinct(put_all(s, es)),
    decreases es.len(),
{
    if es.len() > 0 {
        lemma_put_all_distinct(s, es.drop_last());
        keyed::lemma_put_distinct(put_all(s, es.drop_last()), es.last());
    }
}

/// Under every command the jobs, the tasks of each job, the descriptors and the
/// checkpoints in flight stay told apart. A job is submitted with tasks of different
/// ids, as a plan makes them.
pub proof fn law_commands_keep_apart(c: CoordinatorV, cmd: CommandV, now: i64)
    requires
        told_apart(c),
        cmd matches CommandV::SubmitJob(job, _) ==> distinct(job.tasks),
    ensures
        told_apart(applied(c, cmd, now)),
{
    let r = applied(c, cmd, now);
    law_job_ids_stay_distinct(c, cmd, now);
    match cmd {
        CommandV::SubmitJob(job, tasks) => {
            keyed::lemma_index_of(c.jobs, job.job_id);
            assert forall|k: int| 0 <= k < r.jobs.len() implies distinct((#[trigger] r.jobs[k]).tasks) by {
                if k < c.jobs.len() {
                    assert(distinct(c.jobs[k].tasks));
                }
            }
            lemma_put_all_distinct(c.tasks, tasks);
        },
        _ => {
            law_jobs_go_on(c, cmd, now);
            lemma_carried_apart(r.jobs, c.jobs);
            match cmd {
                CommandV::CancelJob(id, at) => {
                    lemma_of_others(c.pending, id);
                },
                CommandV::CheckpointTriggered(job, stage, at) => {
                    law_agreed_ids_rise(c, job, stage, at);
                },
                CommandV::CheckpointResolved(job, id, end) => {
                    lemma_pending_index(c.pending, job, end.0);
                    if let Some(i) = pending_index(c.pending, job, end.0) {
                        lemma_one_less(c.pending, i);
                    }
                },
                _ => {},
            }
        },
    }
}

/// A coordinator that starts empty and applies commands stays told apart, whatever they
/// are, if jobs are submitted with tasks of different ids.
pub proof fn law_history_keeps_apart(c: CoordinatorV, cmds: Seq<CommandV>, now: i64)
    requires
        c.jobs.len() == 0 && c.tasks.len() == 0 && c.pending.len() == 0 || told_apart(c),
        forall|n: int| 0 <= n < cmds.len() ==> ((#[trigger] cmds[n]) matches CommandV::SubmitJob(job, _) ==> distinct(job.tasks)),
    ensures
        told_apart(applied_all(c, cmds, now)),
    decreases cmds.len(),
{
    if cmds.len() > 0 {
        let d = cmds.drop_last();
        assert forall|n: int| 0 <= n < d.len() implies ((#[trigger] d[n]) matches CommandV::SubmitJob(job, _) ==> distinct(
            job.tasks,
        )) by {
            assert(d[n] == cmds[n]);
        }
        law_history_keeps_apart(c, d, now);
        let last = cmds[cmds.len() - 1];
        law_commands_keep_apart(applied_all(c, d, now), last, now);
    }
}

proof fn lemma_merged_tasks(jobs: Seq<JobV>, rs: Seq<JobRecordV>)
    requires
        own_tasks(jobs),
    ensures
        own_tasks(merge_jobs(jobs, rs)),
    decreases rs.len(),
{
    if rs.len() > 0 {
        let h = merge_jobs(jobs, rs.drop_last());
        let r = rs.last();
        lemma_merged_tasks(jobs, rs.drop_last());
        keyed::lemma_index_of(h, r.job_id);
        lemma_put_all_distinct(
            Seq::empty(),
            r.tasks.map_values(|t: crate::replication::TaskStatusV| crate::replication::imported_task(t)),
        );
        let m = merge_jobs(jobs, rs);
        assert forall|k: int| 0 <= k < m.len() implies distinct((#[trigger] m[k]).tasks) by {
            if k < h.len() {
                assert(distinct(h[k].tasks));
            }
        }
    }
}

proof fn lemma_merged_descriptors(tasks: Seq<DescriptorV>, rs: Seq<DescriptorRecordV>)
    requires
        distinct(tasks),
    ensures
        distinct(merge_descriptors(tasks, rs)),
    decreases rs.len(),
{
    if rs.len() > 0 {
        let h = merge_descriptors(tasks, rs.drop_last());
        let r = rs.last();
        lemma_merged_descriptors(tasks, rs.drop_last());
        if let (Some(id), Some(config)) = (r.task_id, r.config) {
            keyed::lemma_put_distinct(h, imported_descriptor(r, id, config));
        }
    }
}

/// Merging a snapshot, whatever it holds, leaves a coordinator told apart.
pub proof fn law_import_keeps_apart(c: CoordinatorV, s: SnapshotV)
    requires
        told_apart(c),
    ensures
        told_apart(merged(c, s)),
{
    if let Some(rs) = s.jobs {
        law_merged_jobs(c.jobs, rs);
        lemma_merged_tasks(c.jobs, rs);
        if let Some(ts) = s.tasks {
            lemma_merged_descriptors(c.tasks, ts);
        }
    }
}

} // verus!
