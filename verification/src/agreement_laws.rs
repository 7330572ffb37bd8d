//! What the commands on checkpoints do, how the steps of a heartbeat follow each other,
//! and what is found of tasks that nobody plans, owns or reports.

use vstd::prelude::*;

use crate::checkpoint_coordination::{
    group_index, lemma_group_index, lemma_pending_index, pending_index, prepare_noted, running_groups, stage_resolved,
    stage_triggered, without,
};
use crate::command::{applied, applied_all, CommandV};
use crate::coordination_laws::{begun_for, is_run_by, lemma_group_of, none_in_flight};
use crate::coordinator_laws::{one_in_flight, unique_tasks};
use crate::dispatch::{
    claim_task, job_with_task, lemma_job_with_task, owner_of, register_one, ClaimV, WorkerState,
};
use crate::handover_laws::{is_for, is_over, is_waiting};
use crate::heartbeat::{
    claim, dispatch_commands, due_commands, finished, gated, heartbeat, offered, reattached, settled, woken, RequestV,
};
use crate::heartbeat::limited;
use crate::job::{DescriptorV, JobV, StateV, TaskV};
use crate::job_coordinator::{CoordinatorV, PendingV};
use crate::keyed;
use crate::keyed::{distinct, index_of, named, Named};
use crate::master::{elapsed, missing_since, place_of, MasterV, Since};
use crate::props;
use crate::props::{lookup, Pairs};
use crate::recovery::{classified, owned_by, StuckV};
use crate::task_reports::{reported_job, rolled_up};

verus! {

// ---------------------------------------------------------------------------
// Commands on checkpoints
// ---------------------------------------------------------------------------

/// A checkpoint begins by command for a pipeline of a running job that has a running task
/// and none in flight: it has the job's next id, and the job goes on to the one behind it.
pub proof fn law_begun_by_command(c: CoordinatorV, k: int, x: int, at: i64, now: i64)
    requires
        distinct(c.jobs),
        0 <= k < c.jobs.len(),
        c.jobs[k].state is Running,
        0 <= x < c.jobs[k].tasks.len(),
        c.jobs[k].tasks[x].state is Running,
        none_in_flight(c.pending, c.jobs[k].job_id, c.jobs[k].tasks[x].stage_id),
    ensures
        ({
            let j = c.jobs[k];
            let stage = j.tasks[x].stage_id;
            let r = applied(c, CommandV::CheckpointTriggered(j.job_id, stage, at), now);
            &&& r.pending.len() == c.pending.len() + 1 && c.pending.is_prefix_of(r.pending)
            &&& begun_for(r.pending.last(), j, stage, at)
            &&& r.pending.last().checkpoint_id == j.next_checkpoint_id
            &&& r.jobs == c.jobs.update(k, r.jobs[k])
            &&& r.jobs[k].last_checkpoint_trigger_ms == at
            &&& j.next_checkpoint_id < u64::MAX ==> r.jobs[k].next_checkpoint_id == j.next_checkpoint_id + 1
            &&& r.jobs[k] == (JobV {
                next_checkpoint_id: r.jobs[k].next_checkpoint_id,
                last_checkpoint_trigger_ms: at,
                ..j
            })
            &&& r.tasks == c.tasks && r.store == c.store && r.outbox == c.outbox && r.term == c.term
        }),
{
    let j = c.jobs[k];
    let stage = j.tasks[x].stage_id;
    let r = stage_triggered(c, j.job_id, stage, at);
    lemma_job_index(c.jobs, k);
    lemma_pending_index(c.pending, j.job_id, stage);
    match pending_index(c.pending, j.job_id, stage) {
        Some(i) => {
            assert(c.pending[i].job_id == j.job_id && c.pending[i].stage_id == stage);
        },
        None => {},
    }
    lemma_group_of(j.tasks, x);
    assert(c.pending.is_prefix_of(r.pending));
    let cp = r.pending.last();
    let groups = running_groups(j.tasks);
    let m = group_index(groups, stage)->0;
    assert(cp.participants == groups[m].1);
    assert forall|y: int|
        0 <= y < j.tasks.len() && (#[trigger] j.tasks[y]).state is Running && j.tasks[y].stage_id == stage implies cp.participants.contains(
        (j.tasks[y].task_id, j.tasks[y].worker_id),
    ) by {
        crate::trigger_laws::law_who_takes_part(j.tasks, stage, j.tasks[y].task_id, j.tasks[y].worker_id);
        assert(crate::trigger_laws::runs_on(j.tasks, stage, j.tasks[y].task_id, j.tasks[y].worker_id));
    }
    assert forall|n: int| 0 <= n < cp.participants.len() implies is_run_by(j, stage, #[trigger] cp.participants[n]) by {
        let p = cp.participants[n];
        crate::trigger_laws::law_who_takes_part(j.tasks, stage, p.0, p.1);
        assert(cp.participants.contains((p.0, p.1)));
        let y = choose|y: int|
            0 <= y < j.tasks.len() && (#[trigger] j.tasks[y]).task_id == p.0 && j.tasks[y].worker_id == p.1
                && j.tasks[y].stage_id == stage && j.tasks[y].state is Running;
        assert(j.tasks[y].state is Running);
    }
}

proof fn lemma_job_index(jobs: Seq<JobV>, k: int)
    requires
        distinct(jobs),
        0 <= k < jobs.len(),
    ensures
        index_of(jobs, jobs[k].job_id) == Some(k),
        named(jobs, jobs[k].job_id) == Some(jobs[k]),
{
    keyed::lemma_index_of(jobs, jobs[k].job_id);
    assert(jobs[k].name() == jobs[k].job_id);
    let i = index_of(jobs, jobs[k].job_id)->0;
    if i < k {
        assert(jobs[i].name() != jobs[k].name());
    } else if k < i {
        assert(jobs[k].name() != jobs[i].name());
    }
}

/// No checkpoint begins by command for a job that is not known or does not run, for a
/// pipeline with one in flight, or for one without a running task.
pub proof fn law_not_begun_by_command(c: CoordinatorV, job: Seq<char>, stage: Seq<char>, at: i64, now: i64)
    requires
        (forall|k: int| 0 <= k < c.jobs.len() && (#[trigger] c.jobs[k]).job_id == job ==> !(c.jobs[k].state is Running)) || (
        exists|i: int| 0 <= i < c.pending.len() && (#[trigger] c.pending[i]).job_id == job && c.pending[i].stage_id == stage)
            || (forall|k: int, x: int|
            0 <= k < c.jobs.len() && 0 <= x < c.jobs[k].tasks.len() && c.jobs[k].job_id == job ==> !((
            #[trigger] c.jobs[k].tasks[x]).stage_id == stage && c.jobs[k].tasks[x].state is Running)),
    ensures
        applied(c, CommandV::CheckpointTriggered(job, stage, at), now) == c,
{
    keyed::lemma_index_of(c.jobs, job);
    lemma_pending_index(c.pending, job, stage);
    match index_of(c.jobs, job) {
        Some(k) => {
            assert(c.jobs[k].job_id == job);
            let groups = running_groups(c.jobs[k].tasks);
            lemma_group_index(groups, stage);
            match group_index(groups, stage) {
                Some(m) => {
                    lemma_member_of(c.jobs[k].tasks, m);
                    let x = choose|x: int|
                        0 <= x < c.jobs[k].tasks.len() && (#[trigger] c.jobs[k].tasks[x]).stage_id == groups[m].0
                            && c.jobs[k].tasks[x].state is Running;
                    assert(c.jobs[k].tasks[x].stage_id == stage);
                },
                None => {},
            }
        },
        None => {},
    }
}

proof fn lemma_member_of(tasks: Seq<TaskV>, m: int)
    requires
        0 <= m < running_groups(tasks).len(),
    ensures
        exists|x: int|
            0 <= x < tasks.len() && (#[trigger] tasks[x]).stage_id == running_groups(tasks)[m].0 && tasks[x].state is Running,
    decreases tasks.len(),
{
    if tasks.len() > 0 {
        let d = tasks.drop_last();
        let g = running_groups(d);
        let r = running_groups(tasks);
        lemma_group_index(g, tasks.last().stage_id);
        if m < g.len() {
            lemma_member_of(d, m);
            let x = choose|x: int|
                0 <= x < d.len() && (#[trigger] d[x]).stage_id == g[m].0 && d[x].state is Running;
            assert(tasks[x] == d[x]);
            assert(r[m].0 == g[m].0);
        } else {
            assert(tasks[tasks.len() - 1].stage_id == r[m].0);
        }
    }
}

/// A checkpoint ends by command: it is no longer in flight, each participant hears how it
/// ended, and a completed one counts for its job and for the tasks that took part.
pub proof fn law_ended_by_command(
    c: CoordinatorV,
    k: int,
    i: int,
    completed: bool,
    participants: Pairs,
    n: int,
    x: int,
    now: i64,
)
    requires
        distinct(c.jobs),
        one_in_flight(c.pending),
        0 <= k < c.jobs.len(),
        0 <= i < c.pending.len(),
        c.pending[i].job_id == c.jobs[k].job_id,
        0 <= n < participants.len(),
        0 <= x < c.jobs[k].tasks.len(),
        c.jobs[k].checkpoints_completed < u64::MAX,
    ensures
        ({
            let cp = c.pending[i];
            let t = c.jobs[k].tasks[x];
            let r = applied(
                c,
                CommandV::CheckpointResolved(cp.job_id, cp.checkpoint_id, (cp.stage_id, completed, participants)),
                now,
            );
            &&& r.pending == c.pending.remove(i)
            &&& r.outbox.len() == c.outbox.len() + participants.len() && c.outbox.is_prefix_of(r.outbox)
            &&& r.outbox[c.outbox.len() + n] == (participants[n].1, (participants[n].0, cp.checkpoint_id, completed))
            &&& !completed ==> r.jobs == c.jobs
            &&& completed ==> {
                let j = r.jobs[k];
                &&& r.jobs == c.jobs.update(k, j)
                &&& j == (JobV { checkpoints_completed: j.checkpoints_completed, tasks: j.tasks, ..c.jobs[k] })
                &&& j.checkpoints_completed == c.jobs[k].checkpoints_completed + 1
                &&& j.tasks.len() == c.jobs[k].tasks.len()
                &&& (exists|m: int| 0 <= m < participants.len() && (#[trigger] participants[m]).0 == t.task_id)
                    && cp.checkpoint_id > t.last_checkpoint_id ==> j.tasks[x] == (TaskV {
                    last_checkpoint_id: cp.checkpoint_id,
                    last_checkpoint_size: 0,
                    ..t
                })
                &&& cp.checkpoint_id <= t.last_checkpoint_id || (forall|m: int|
                    0 <= m < participants.len() ==> (#[trigger] participants[m]).0 != t.task_id) ==> j.tasks[x] == t
            }
            &&& r.tasks == c.tasks && r.store == c.store && r.term == c.term
        }),
{
    let cp = c.pending[i];
    let t = c.jobs[k].tasks[x];
    lemma_job_index(c.jobs, k);
    lemma_pending_index(c.pending, cp.job_id, cp.stage_id);
    let y = pending_index(c.pending, cp.job_id, cp.stage_id)->0;
    if y < i {
        assert(c.pending[y].job_id == cp.job_id && c.pending[y].stage_id == cp.stage_id);
    }
    assert(y == i);
    let r = stage_resolved(c, cp.job_id, cp.checkpoint_id, (cp.stage_id, completed, participants));
    assert(c.outbox.is_prefix_of(r.outbox));
    props::lemma_lookup(participants, t.task_id);
}

/// A checkpoint that is not in flight, or that is another one of its pipeline, leaves those
/// in flight alone.
pub proof fn law_stale_end(c: CoordinatorV, job: Seq<char>, id: u64, end: (Seq<char>, bool, Pairs), now: i64)
    requires
        forall|i: int|
            0 <= i < c.pending.len() ==> !((#[trigger] c.pending[i]).job_id == job && c.pending[i].stage_id == end.0
                && c.pending[i].checkpoint_id == id),
    ensures
        applied(c, CommandV::CheckpointResolved(job, id, end), now).pending == c.pending,
{
    lemma_pending_index(c.pending, job, end.0);
}

/// Commands are carried out one after the other.
pub proof fn law_commands_in_order(c: CoordinatorV, cmds: Seq<CommandV>, cmd: CommandV, now: i64)
    ensures
        applied_all(c, Seq::empty(), now) == c,
        applied_all(c, cmds.push(cmd), now) == applied(applied_all(c, cmds, now), cmd, now),
{
    assert(cmds.push(cmd).drop_last() =~= cmds);
}

/// What a prepare is noted for: the checkpoint in flight of its task's pipeline. A failure
/// decides it at once, against it; a success decides it when nobody else is awaited.
pub proof fn law_noted_prepares(c: CoordinatorV, k: int, x: int, i: int, success: bool)
    requires
        distinct(c.jobs),
        0 <= k < c.jobs.len(),
        distinct(c.jobs[k].tasks),
        0 <= x < c.jobs[k].tasks.len(),
        one_in_flight(c.pending),
        0 <= i < c.pending.len(),
        c.pending[i].job_id == c.jobs[k].job_id,
        c.pending[i].stage_id == c.jobs[k].tasks[x].stage_id,
    ensures
        ({
            let cp = c.pending[i];
            let task = c.jobs[k].tasks[x].task_id;
            let r = prepare_noted(c, cp.job_id, task, cp.checkpoint_id, success);
            let awaited = cp.awaiting.filter(|t: Seq<char>| t != task);
            &&& !success ==> r.0 == c && r.1 == Some((cp.stage_id, false, cp.participants))
            &&& success ==> r.0 == (CoordinatorV {
                pending: c.pending.update(i, PendingV { awaiting: awaited, ..cp }),
                ..c
            })
            &&& success && awaited.len() > 0 ==> r.1 is None
            &&& success && awaited.len() == 0 ==> r.1 == Some((cp.stage_id, true, cp.participants))
        }),
{
    let cp = c.pending[i];
    let j = c.jobs[k];
    let task = j.tasks[x].task_id;
    lemma_job_index(c.jobs, k);
    keyed::lemma_index_of(j.tasks, task);
    assert(j.tasks[x].name() == task);
    let z = index_of(j.tasks, task)->0;
    if z < x {
        assert(j.tasks[z].name() != j.tasks[x].name());
    } else if x < z {
        assert(j.tasks[x].name() != j.tasks[z].name());
    }
    lemma_pending_index(c.pending, cp.job_id, cp.stage_id);
    let y = pending_index(c.pending, cp.job_id, cp.stage_id)->0;
    if y < i {
        assert(c.pending[y].job_id == cp.job_id && c.pending[y].stage_id == cp.stage_id);
    }
    lemma_without(cp.awaiting, task);
}

proof fn lemma_without(s: Seq<Seq<char>>, x: Seq<char>)
    ensures
        without(s, x) == s.filter(|t: Seq<char>| t != x),
    decreases s.len(),
{
    reveal(Seq::filter);
    if s.len() > 0 {
        lemma_without(s.drop_last(), x);
    }
}

// ---------------------------------------------------------------------------
// The steps of a heartbeat
// ---------------------------------------------------------------------------

/// How the leader answers a heartbeat of the current term. A worker that it does not know
/// and that reports tasks takes up its own first, and is told to stop the others. Then its
/// reports count and what follows from them is carried out; it is renewed and offered
/// tasks; what it is offered is marked; checkpoints that are due begin; and it is answered.
pub proof fn law_steps_of_a_heartbeat(m: MasterV, hb: RequestV, hint: Seq<char>, now: i64, a: MasterV)
    requires
        hb.term <= m.coordinator.term,
        index_of(m.workers, hb.worker_id) is Some || hb.tasks.len() == 0 ==> a == m,
        index_of(m.workers, hb.worker_id) is None && hb.tasks.len() > 0 ==> ({
            let c = m.coordinator;
            let ids = hb.tasks.map_values(|t: crate::heartbeat::ReportV| t.task_id);
            a == (MasterV {
                coordinator: applied_all(c, reattached(c, hb.worker_id, ids), now),
                preemptions: m.preemptions + classified(c.jobs, c.tasks, hb.worker_id, ids).1.map_values(
                    |id: Seq<char>| (hb.worker_id, id),
                ),
                ..m
            })
        }),
    ensures
        ({
            let s = settled(a, hb, now);
            let b = MasterV { coordinator: applied_all(s.0.coordinator, s.1, now), ..s.0 };
            let o = offered(b, hb, now);
            let marked = applied_all(o.0.coordinator, dispatch_commands(o.2, hb.worker_id), now);
            let begun = applied_all(marked, due_commands(marked, o.1, now), now);
            heartbeat(m, hb, true, hint, now) == finished(
                MasterV { coordinator: begun, ..o.0 },
                hb.worker_id,
                o.1,
                o.2,
                true,
            )
        }),
{
    assert(gated(m, hb, true, hint).1 is None);
}

/// A worker that waits for tasks and is woken is offered what it may claim, within the
/// limit; it is marked and answered as in a heartbeat.
pub proof fn law_woken_workers(m: MasterV, worker: Seq<char>, now: i64)
    ensures
        ({
            let c = claim(m, worker, ""@);
            let out = limited(c.out, m.batch_limit);
            let planned = CoordinatorV { tasks: c.all, ..m.coordinator };
            woken(m, worker, now) == finished(
                MasterV { coordinator: applied_all(planned, dispatch_commands(out, worker), now), ..m },
                worker,
                false,
                out,
                true,
            )
        }),
{
}

/// What a worker may claim: nothing was handed out before, the plan is the coordinator's,
/// and other workers stand as the registry says.
pub proof fn law_claims(m: MasterV, worker: Seq<char>, address: Seq<char>)
    ensures
        claim(m, worker, address) == crate::dispatch::claim_jobs(
            ClaimV { all: m.coordinator.tasks, out: Seq::empty() },
            m.coordinator.jobs,
            worker,
            address,
            |w: Seq<char>| crate::master::standing(m.workers, w),
        ),
{
}

// ---------------------------------------------------------------------------
// Tasks that nobody plans or owns
// ---------------------------------------------------------------------------

/// A task that is planned for nobody goes to the worker that asks, where the worker without
/// a name counts as gone; one that the plan does not hold goes to nobody.
pub proof fn law_unplanned_tasks(
    c: ClaimV,
    t: TaskV,
    worker: Seq<char>,
    address: Seq<char>,
    live: spec_fn(Seq<char>) -> WorkerState,
    i: int,
)
    requires
        distinct(c.all),
    ensures
        (forall|k: int| 0 <= k < c.all.len() ==> (#[trigger] c.all[k]).task_id != t.task_id) ==> claim_task(
            c,
            t,
            worker,
            address,
            live,
        ) == c,
        0 <= i < c.all.len() && c.all[i].task_id == t.task_id && lookup(c.all[i].config, "worker_id"@) is None
            && is_waiting(t.state) && live(""@) is Dead ==> ({
            let r = claim_task(c, t, worker, address, live);
            &&& r.all == c.all.update(i, r.all[i]) && r.out == c.out.push(r.all[i])
            &&& is_for(r.all[i], c.all[i], worker, address)
        }),
{
    keyed::lemma_index_of(c.all, t.task_id);
    match index_of(c.all, t.task_id) {
        Some(k) => {
            assert(c.all[k].task_id == t.task_id);
            if 0 <= i < c.all.len() && c.all[i].task_id == t.task_id {
                assert(c.all[i].name() == t.task_id);
                if k < i {
                    assert(c.all[k].name() != c.all[i].name());
                } else if i < k {
                    assert(c.all[i].name() != c.all[k].name());
                }
                let d = c.all[i];
                props::lemma_assign(d.config, "worker_id"@, worker);
                props::lemma_assign(props::assign(d.config, "worker_id"@, worker), "worker_address"@, address);
                reveal_strlit("worker_id");
                reveal_strlit("worker_address");
                assert("worker_id"@.len() == 9 && "worker_address"@.len() == 14);
            }
        },
        None => {
            if 0 <= i < c.all.len() && c.all[i].task_id == t.task_id {
                assert(c.all[i].name() == t.task_id);
            }
        },
    }
}

/// A task that a worker reports and that is planned for nobody is its own.
pub proof fn law_unowned_reports(
    jobs: Seq<JobV>,
    stopped: Seq<Seq<char>>,
    all: Seq<DescriptorV>,
    worker: Seq<char>,
    k: int,
    x: int,
)
    requires
        unique_tasks(jobs),
        0 <= k < jobs.len(),
        0 <= x < jobs[k].tasks.len(),
        owner_of(all, jobs[k].tasks[x].task_id).len() == 0,
    ensures
        ({
            let t = jobs[k].tasks[x];
            let r = register_one((jobs, stopped), all, worker, t.task_id);
            &&& r.1 == stopped
            &&& is_waiting(t.state) || t.state is Deploying ==> r.0 == jobs.update(
                k,
                JobV {
                    tasks: jobs[k].tasks.update(x, TaskV { state: StateV::Running, worker_id: worker, ..t }),
                    ..jobs[k]
                },
            )
        }),
{
    lemma_place(jobs, k, x);
}

proof fn lemma_place(jobs: Seq<JobV>, k: int, x: int)
    requires
        unique_tasks(jobs),
        0 <= k < jobs.len(),
        0 <= x < jobs[k].tasks.len(),
    ensures
        job_with_task(jobs, jobs[k].tasks[x].task_id) == Some(k),
        index_of(jobs[k].tasks, jobs[k].tasks[x].task_id) == Some(x),
{
    let id = jobs[k].tasks[x].task_id;
    lemma_job_with_task(jobs, id);
    keyed::lemma_index_of(jobs[k].tasks, id);
    assert(jobs[k].tasks[x].name() == id);
    let y = index_of(jobs[k].tasks, id)->0;
    assert(jobs[k].tasks[y].task_id == jobs[k].tasks[x].task_id);
    let m = job_with_task(jobs, id)->0;
    keyed::lemma_index_of(jobs[m].tasks, id);
    let z = index_of(jobs[m].tasks, id)->0;
    assert(jobs[m].tasks[z].task_id == jobs[k].tasks[x].task_id);
}

/// A task is a worker's own when its job says so.
pub proof fn law_owned_tasks(jobs: Seq<JobV>, k: int, x: int, worker: Seq<char>, other: Seq<char>)
    requires
        unique_tasks(jobs),
        0 <= k < jobs.len(),
        0 <= x < jobs[k].tasks.len(),
        forall|m: int, y: int|
            0 <= m < jobs.len() && 0 <= y < jobs[m].tasks.len() ==> (#[trigger] jobs[m].tasks[y]).task_id != other,
    ensures
        owned_by(jobs, jobs[k].tasks[x].task_id, worker) <==> jobs[k].tasks[x].worker_id == worker,
        !owned_by(jobs, other, worker),
        job_with_task(jobs, jobs[k].tasks[x].task_id) == Some(k),
        job_with_task(jobs, other) is None,
{
    lemma_place(jobs, k, x);
    lemma_job_with_task(jobs, other);
    match job_with_task(jobs, other) {
        Some(m) => {
            keyed::lemma_index_of(jobs[m].tasks, other);
            let z = index_of(jobs[m].tasks, other)->0;
            assert(jobs[m].tasks[z].task_id == other);
        },
        None => {},
    }
}

/// A report of a task that a job does not have, or to a job that is over, changes no state
/// of the job but what its tasks say.
pub proof fn law_reports_of_other_tasks(
    j: JobV,
    task: Seq<char>,
    state: StateV,
    records: u64,
    error: Option<Seq<char>>,
    now: i64,
)
    ensures
        (forall|x: int| 0 <= x < j.tasks.len() ==> (#[trigger] j.tasks[x]).task_id != task) ==> reported_job(
            j,
            task,
            state,
            records,
            error,
            now,
        ) == rolled_up(j, now),
        is_over(j.state) ==> rolled_up(j, now) == j,
        ({
            let r = reported_job(j, task, state, records, error, now);
            r == rolled_up(JobV { tasks: r.tasks, ..j }, now)
        }),
{
    keyed::lemma_index_of(j.tasks, task);
    match index_of(j.tasks, task) {
        Some(x) => {
            assert(j.tasks[x].task_id == task);
        },
        None => {},
    }
}

// ---------------------------------------------------------------------------
// Missing tasks
// ---------------------------------------------------------------------------

/// Since when a task is missing is what its first note says; a task without a note is not
/// missing.
pub proof fn law_missing_since(l: Since, place: (Seq<char>, Seq<char>), i: int)
    ensures
        0 <= i < l.len() && l[i].0 == place && (forall|k: int| 0 <= k < i ==> (#[trigger] l[k]).0 != place)
            ==> missing_since(l, place) == Some(l[i].1),
        (forall|k: int| 0 <= k < l.len() ==> (#[trigger] l[k]).0 != place) ==> missing_since(l, place) is None,
    decreases l.len(),
{
    if l.len() > 0 {
        let d = l.drop_last();
        law_missing_since(d, place, i);
        if 0 <= i < l.len() && l[i].0 == place && (forall|k: int| 0 <= k < i ==> (#[trigger] l[k]).0 != place) {
            assert forall|k: int| 0 <= k < i && k < d.len() implies (#[trigger] d[k]).0 != place by {
                assert(l[k].0 != place);
            }
            if i < d.len() {
                assert(d[i] == l[i]);
            } else {
                assert forall|k: int| 0 <= k < d.len() implies (#[trigger] d[k]).0 != place by {
                    assert(l[k].0 != place);
                }
            }
        }
        if forall|k: int| 0 <= k < l.len() ==> (#[trigger] l[k]).0 != place {
            assert forall|k: int| 0 <= k < d.len() implies (#[trigger] d[k]).0 != place by {
                assert(l[k].0 != place);
            }
            assert(l[l.len() - 1].0 != place);
        }
    }
}

/// The time that has passed, and the place of a task.
pub proof fn law_elapsed(now: i64, since: i64, s: StuckV)
    ensures
        i64::MIN <= now - since <= i64::MAX ==> elapsed(now, since) == now - since,
        now - since > i64::MAX ==> elapsed(now, since) == i64::MAX,
        now - since < i64::MIN ==> elapsed(now, since) == i64::MIN,
        place_of(s) == (s.task_id, s.worker_id),
{
}

} // verus!
