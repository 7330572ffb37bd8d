//! What holds of checkpoint triggers over any run of a coordinator: whom they reach, how
//! often, and under which ids.

use vstd::prelude::*;

use crate::checkpoint_coordination::{
    delivered_upto, drop_notices, group_index, in_time, lemma_group_index, lemma_pending_index, of_others,
    owed_triggers, pending_index, prepare_noted, prepare_target, prepared, running_groups, stage_triggered,
    timeout_notices, told, trigger_groups, trigger_job, trigger_jobs, without, Groups, TriggerStep,
};
use crate::checkpoint_laws::law_agreed_ids_rise;
use crate::command::{applied, CommandV};
use crate::consistency_laws::{
    among, carried, carried_on, law_commands_keep_apart, law_jobs_go_on, lemma_carried_apart, lemma_in_time,
    lemma_metered, lemma_of_others, lemma_one_less, lemma_triggered, told_apart,
};
use crate::coordinator_laws::{
    law_checkpoint_ids_rise, law_prepare_resolves, law_task_ids_name_their_job, lemma_delivered_members, lemma_plan,
    one_in_flight, planned_as, planned_within,
};
use crate::heartbeat::{metered_all, ReportV};
use crate::job::{JobV, TaskV};
use crate::job_coordinator::{
    compiled, job_parallelism, plan_tasks, planned_job, settings_of, task_id_of, CoordinatorV, PendingV, TriggerV,
};
use crate::json::JsonV;
use crate::keyed;
use crate::keyed::{distinct, index_of, Named};
use crate::props::Pairs;

verus! {

// ---------------------------------------------------------------------------
// Runs
// ---------------------------------------------------------------------------

/// Something that happens to a coordinator.
pub enum StepV {
    /// A worker asks for its triggers; those that are due are begun first.
    Triggers(Seq<char>, i64),
    /// A worker asks for the triggers of what is in flight.
    Deliver(Seq<char>),
    /// A task has prepared or failed, and the checkpoint ends if that decides it.
    Prepare(Seq<char>, Seq<char>, u64, bool),
    /// A task has prepared or failed, and the checkpoint stays in flight.
    Note(Seq<char>, Seq<char>, u64, bool),
    /// Checkpoints that waited for longer than a timeout are aborted.
    Abort(u64, i64),
    /// The checkpoints of a job are dropped.
    Drop(Seq<char>),
    /// A worker reports the metrics of its tasks.
    Metrics(Seq<char>, Seq<ReportV>),
    /// A command is applied.
    Command(CommandV, i64),
    /// Anything that touches neither jobs nor checkpoints in flight: the descriptors, the
    /// stored checkpoints, the term and the outbox become those of another coordinator.
    Rest(CoordinatorV),
}

/// The coordinator after a step.
pub open spec fn stepped(c: CoordinatorV, s: StepV) -> CoordinatorV {
    match s {
        StepV::Triggers(w, now) => {
            let t = trigger_jobs(c.jobs, c.pending, now);
            CoordinatorV { jobs: t.0, pending: t.1.map_values(|cp: PendingV| told(cp, w)), ..c }
        },
        StepV::Deliver(w) => CoordinatorV { pending: c.pending.map_values(|cp: PendingV| told(cp, w)), ..c },
        StepV::Prepare(job, task, id, success) => prepared(c, job, task, id, success).0,
        StepV::Note(job, task, id, success) => prepare_noted(c, job, task, id, success).0,
        StepV::Abort(timeout, now) => CoordinatorV {
            pending: in_time(c.pending, now, timeout),
            outbox: c.outbox + timeout_notices(c.pending, now, timeout),
            ..c
        },
        StepV::Drop(job) => CoordinatorV {
            pending: of_others(c.pending, job),
            outbox: c.outbox + drop_notices(c.pending, job),
            ..c
        },
        StepV::Metrics(w, tasks) => CoordinatorV { jobs: metered_all(c.jobs, w, tasks), ..c },
        StepV::Command(cmd, now) => applied(c, cmd, now),
        StepV::Rest(o) => CoordinatorV { jobs: c.jobs, pending: c.pending, ..o },
    }
}

/// A trigger behind the worker that it was handed to.
pub type Given = (Seq<char>, TriggerV);

/// Triggers, each behind a worker.
pub open spec fn to_worker(w: Seq<char>, ts: Seq<TriggerV>) -> Seq<Given> {
    ts.map_values(|t: TriggerV| (w, t))
}

/// The triggers that a step hands out.
pub open spec fn given(c: CoordinatorV, s: StepV) -> Seq<Given> {
    match s {
        StepV::Triggers(w, now) => to_worker(w, owed_triggers(trigger_jobs(c.jobs, c.pending, now).1, w)),
        StepV::Deliver(w) => to_worker(w, owed_triggers(c.pending, w)),
        _ => Seq::empty(),
    }
}

/// The checkpoints that a step begins.
pub open spec fn begun(c: CoordinatorV, s: StepV) -> Seq<PendingV> {
    match s {
        StepV::Triggers(w, now) => trigger_jobs(c.jobs, c.pending, now).1.skip(c.pending.len() as int),
        StepV::Command(CommandV::CheckpointTriggered(job, stage, at), now) => stage_triggered(
            c,
            job,
            stage,
            at,
        ).pending.skip(c.pending.len() as int),
        _ => Seq::empty(),
    }
}

/// A checkpoint as it was begun, with the coordinator as it was before.
pub struct BegunV {
    pub before: CoordinatorV,
    pub cp: PendingV,
}

/// Checkpoints with the coordinator that began them.
pub open spec fn out_of(c: CoordinatorV, cps: Seq<PendingV>) -> Seq<BegunV> {
    cps.map_values(|cp: PendingV| BegunV { before: c, cp })
}

/// The coordinator after some steps, one after the other.
pub open spec fn run(c: CoordinatorV, steps: Seq<StepV>) -> CoordinatorV
    decreases steps.len(),
{
    if steps.len() == 0 {
        c
    } else {
        stepped(run(c, steps.drop_last()), steps.last())
    }
}

/// All triggers that a run hands out, in order.
pub open spec fn all_given(c: CoordinatorV, steps: Seq<StepV>) -> Seq<Given>
    decreases steps.len(),
{
    if steps.len() == 0 {
        Seq::empty()
    } else {
        all_given(c, steps.drop_last()) + given(run(c, steps.drop_last()), steps.last())
    }
}

/// All checkpoints that a run begins, in order.
pub open spec fn all_begun(c: CoordinatorV, steps: Seq<StepV>) -> Seq<BegunV>
    decreases steps.len(),
{
    if steps.len() == 0 {
        Seq::empty()
    } else {
        let h = run(c, steps.drop_last());
        all_begun(c, steps.drop_last()) + out_of(h, begun(h, steps.last()))
    }
}

/// Whether a text is the id of a task of a job.
pub open spec fn is_task_of(job: Seq<char>, task: Seq<char>) -> bool {
    exists|p: nat, i: nat| task == #[trigger] task_id_of(job, p, i)
}

/// Whether every task of every job has an id of its job, as planning gives it.
pub open spec fn named_by_job(jobs: Seq<JobV>) -> bool {
    forall|k: int, x: int|
        0 <= k < jobs.len() && 0 <= x < jobs[k].tasks.len() ==> is_task_of(
            jobs[k].job_id,
            (#[trigger] jobs[k].tasks[x]).task_id,
        )
}

/// Whether a step submits no job again: a job that is submitted is new, and has the
/// tasks that planning gives it. Descriptors that change stay told apart.
pub open spec fn submits_anew(c: CoordinatorV, s: StepV) -> bool {
    match s {
        StepV::Command(CommandV::SubmitJob(job, _), _) => index_of(c.jobs, job.job_id) is None && distinct(job.tasks)
            && named_by_job(seq![job]),
        StepV::Rest(o) => distinct(o.tasks),
        _ => true,
    }
}

/// Whether no step of a run submits a job again.
pub open spec fn all_anew(c: CoordinatorV, steps: Seq<StepV>) -> bool
    decreases steps.len(),
{
    steps.len() > 0 ==> all_anew(c, steps.drop_last()) && submits_anew(run(c, steps.drop_last()), steps.last())
}

/// Whether every job has ids for checkpoints left.
pub open spec fn has_ids_left(jobs: Seq<JobV>) -> bool {
    forall|k: int| 0 <= k < jobs.len() ==> (#[trigger] jobs[k]).next_checkpoint_id < u64::MAX
}

/// A planned job has tasks of different ids, all of them ids of its job.
pub proof fn law_planned_tasks(
    job_id: Seq<char>,
    job_name: Seq<char>,
    config: JsonV,
    asked: Option<usize>,
    workers: Pairs,
    now: i64,
)
    requires
        compiled(job_id, job_name, config, asked, workers) is Ok,
    ensures
        ({
            let tasks = compiled(job_id, job_name, config, asked, workers)->Ok_0;
            let job = planned_job(job_id, job_name, config, asked, tasks, now);
            distinct(job.tasks) && named_by_job(seq![job])
        }),
{
    let s = settings_of(job_id, job_name, config);
    let plan = crate::job_config::plan_of(config, job_parallelism(config, asked))->Ok_0;
    let tasks = plan_tasks(s, plan, plan.len(), workers);
    let job = planned_job(job_id, job_name, config, asked, tasks, now);
    lemma_plan(s, plan, plan.len(), workers);
    assert forall|i: int, k: int| 0 <= i < k < job.tasks.len() implies (#[trigger] job.tasks[i]).name() != (
    #[trigger] job.tasks[k]).name() by {
        assert(tasks[i].name() != tasks[k].name());
    }
    assert forall|k: int, x: int| 0 <= k < seq![job].len() && 0 <= x < seq![job][k].tasks.len() implies is_task_of(
        seq![job][k].job_id,
        (#[trigger] seq![job][k].tasks[x]).task_id,
    ) by {
        assert(planned_within(tasks[x], s, plan, plan.len()));
        let (p, i) = choose|p: int, i: int| p < plan.len() && #[trigger] planned_as(tasks[x], s, plan, p, i);
        assert(tasks[x].task_id == task_id_of(job_id, p as nat, i as nat));
        assert(is_task_of(job_id, job.tasks[x].task_id));
    }
}

// ---------------------------------------------------------------------------
// Who takes part
// ---------------------------------------------------------------------------

/// The running tasks of a pipeline, each with its worker.
pub open spec fn running_in(tasks: Seq<TaskV>, stage: Seq<char>) -> Pairs
    decreases tasks.len(),
{
    if tasks.len() == 0 {
        Seq::empty()
    } else {
        let h = running_in(tasks.drop_last(), stage);
        let t = tasks.last();
        if t.state is Running && t.stage_id == stage { h.push((t.task_id, t.worker_id)) } else { h }
    }
}

/// Whether a task runs on a worker in a pipeline.
pub open spec fn runs_on(tasks: Seq<TaskV>, stage: Seq<char>, task: Seq<char>, worker: Seq<char>) -> bool {
    exists|x: int|
        0 <= x < tasks.len() && (#[trigger] tasks[x]).task_id == task && tasks[x].worker_id == worker
            && tasks[x].stage_id == stage && tasks[x].state is Running
}

/// The running tasks of a pipeline are those that run in it, each on its worker.
pub proof fn law_who_takes_part(tasks: Seq<TaskV>, stage: Seq<char>, task: Seq<char>, worker: Seq<char>)
    ensures
        running_in(tasks, stage).contains((task, worker)) <==> runs_on(tasks, stage, task, worker),
    decreases tasks.len(),
{
    if tasks.len() > 0 {
        let d = tasks.drop_last();
        let h = running_in(d, stage);
        let r = running_in(tasks, stage);
        law_who_takes_part(d, stage, task, worker);
        if r.contains((task, worker)) {
            let i = choose|i: int| 0 <= i < r.len() && r[i] == (task, worker);
            if i < h.len() {
                assert(h[i] == (task, worker));
                let x = choose|x: int|
                    0 <= x < d.len() && (#[trigger] d[x]).task_id == task && d[x].worker_id == worker && d[x].stage_id
                        == stage && d[x].state is Running;
                assert(tasks[x] == d[x]);
            } else {
                assert(tasks[tasks.len() - 1].task_id == task);
            }
        }
        if runs_on(tasks, stage, task, worker) {
            let x = choose|x: int|
                0 <= x < tasks.len() && (#[trigger] tasks[x]).task_id == task && tasks[x].worker_id == worker
                    && tasks[x].stage_id == stage && tasks[x].state is Running;
            if x < d.len() {
                assert(d[x] == tasks[x]);
                let i = choose|i: int| 0 <= i < h.len() && h[i] == (task, worker);
                assert(r[i] == (task, worker));
            } else {
                assert(r[h.len() as int] == (task, worker));
            }
        }
    }
}

pub(crate) proof fn lemma_groups_are_full(tasks: Seq<TaskV>)
    ensures
        forall|x: int|
            0 <= x < running_groups(tasks).len() ==> (#[trigger] running_groups(tasks)[x]).1 == running_in(
                tasks,
                running_groups(tasks)[x].0,
            ),
        forall|stage: Seq<char>|
            (#[trigger] group_index(running_groups(tasks), stage)) is None ==> running_in(tasks, stage).len() == 0,
    decreases tasks.len(),
{
    if tasks.len() > 0 {
        let d = tasks.drop_last();
        let t = tasks.last();
        lemma_groups_are_full(d);
        let g = running_groups(d);
        let r = running_groups(tasks);
        lemma_group_index(g, t.stage_id);
        assert forall|x: int| 0 <= x < r.len() implies (#[trigger] r[x]).1 == running_in(tasks, r[x].0) by {
            if x < g.len() {
                assert(r[x].0 == g[x].0);
                assert(g[x].1 == running_in(d, g[x].0));
                if t.state is Running && group_index(g, t.stage_id) != Some(x) && g[x].0 == t.stage_id {
                    crate::checkpoint_laws::lemma_own_stages(d);
                    let i = group_index(g, t.stage_id)->0;
                    assert(g[i].0 == g[x].0);
                }
            } else {
                assert(group_index(g, t.stage_id) is None);
                assert(running_in(d, t.stage_id) =~= Seq::empty());
                assert(running_in(tasks, t.stage_id) =~= seq![(t.task_id, t.worker_id)]);
            }
        }
        assert forall|stage: Seq<char>| (#[trigger] group_index(r, stage)) is None implies running_in(tasks, stage).len()
            == 0 by {
            lemma_group_index(r, stage);
            lemma_group_index(g, stage);
            if group_index(g, stage) is Some {
                let i = group_index(g, stage)->0;
                assert(r[i].0 == g[i].0);
            }
            if t.state is Running && t.stage_id == stage {
                match group_index(g, t.stage_id) {
                    Some(i) => {
                        assert(r[i].0 == stage);
                    },
                    None => {
                        assert(r[g.len() as int].0 == stage);
                    },
                }
            }
        }
    }
}

// ---------------------------------------------------------------------------
// What a new checkpoint is like
// ---------------------------------------------------------------------------

/// Whether a checkpoint is begun as it should be: for a job that runs, under an id not
/// below the job's next, for a pipeline that has none in flight, and with all running
/// tasks of the pipeline, each with the worker that then owns it.
pub open spec fn well_begun(c: CoordinatorV, cp: PendingV) -> bool {
    match index_of(c.jobs, cp.job_id) {
        Some(k) => {
            &&& c.jobs[k].state is Running
            &&& cp.checkpoint_id >= c.jobs[k].next_checkpoint_id
            &&& pending_index(c.pending, cp.job_id, cp.stage_id) is None
            &&& cp.participants == running_in(c.jobs[k].tasks, cp.stage_id)
        },
        None => false,
    }
}

/// Whether `cp` is new for a job that has come from `j` to `k`.
spec fn is_new(j: JobV, k: JobV, pending: Seq<PendingV>, cp: PendingV) -> bool {
    &&& cp.job_id == j.job_id
    &&& j.state is Running
    &&& cp.checkpoint_id >= j.next_checkpoint_id
    &&& k.next_checkpoint_id < u64::MAX ==> cp.checkpoint_id < k.next_checkpoint_id
    &&& pending_index(pending, cp.job_id, cp.stage_id) is None
    &&& cp.participants == running_in(j.tasks, cp.stage_id)
    &&& cp.delivered.len() == 0
}

proof fn lemma_longer_index(p: Seq<PendingV>, q: Seq<PendingV>, job: Seq<char>, stage: Seq<char>)
    requires
        p.is_prefix_of(q),
        pending_index(q, job, stage) is None,
    ensures
        pending_index(p, job, stage) is None,
{
    lemma_pending_index(p, job, stage);
    lemma_pending_index(q, job, stage);
    if pending_index(p, job, stage) is Some {
        let i = pending_index(p, job, stage)->0;
        assert(q[i] == p[i]);
    }
}

proof fn lemma_groups_begun(s: TriggerStep, job: Seq<char>, groups: Groups, now: i64)
    ensures
        ({
            let r = trigger_groups(s, job, groups, now);
            &&& s.pending.is_prefix_of(r.pending)
            &&& forall|i: int|
                s.pending.len() <= i < r.pending.len() ==> {
                    let cp = #[trigger] r.pending[i];
                    &&& cp.job_id == job
                    &&& cp.delivered.len() == 0
                    &&& pending_index(s.pending, job, cp.stage_id) is None
                    &&& exists|x: int|
                        0 <= x < groups.len() && (#[trigger] groups[x]).0 == cp.stage_id && groups[x].1 == cp.participants
                }
        }),
    decreases groups.len(),
{
    let r = trigger_groups(s, job, groups, now);
    if groups.len() > 0 {
        let d = groups.drop_last();
        lemma_groups_begun(s, job, d, now);
        let h = trigger_groups(s, job, d, now);
        let g = groups.last();
        assert forall|i: int| s.pending.len() <= i < r.pending.len() implies {
            let cp = #[trigger] r.pending[i];
            &&& cp.job_id == job
            &&& cp.delivered.len() == 0
            &&& pending_index(s.pending, job, cp.stage_id) is None
            &&& exists|x: int|
                0 <= x < groups.len() && (#[trigger] groups[x]).0 == cp.stage_id && groups[x].1 == cp.participants
        } by {
            let cp = r.pending[i];
            if i < h.pending.len() {
                assert(cp == h.pending[i]);
                let x = choose|x: int|
                    0 <= x < d.len() && (#[trigger] d[x]).0 == cp.stage_id && d[x].1 == cp.participants;
                assert(groups[x] == d[x]);
            } else {
                lemma_longer_index(s.pending, h.pending, job, g.0);
                assert(groups[groups.len() - 1] == g);
            }
        }
        assert(s.pending.is_prefix_of(r.pending));
    } else {
        assert(s.pending.is_prefix_of(r.pending));
    }
}

/// Whether the checkpoints from `n` on are new, and those of one job have rising ids.
spec fn are_new(jobs: Seq<JobV>, after: Seq<JobV>, pending: Seq<PendingV>, p: Seq<PendingV>) -> bool {
    &&& forall|i: int|
        pending.len() <= i < p.len() ==> exists|k: int|
            0 <= k < jobs.len() && is_new(#[trigger] jobs[k], after[k], pending, #[trigger] p[i])
    &&& has_ids_left(after) ==> forall|i: int, k: int|
        pending.len() <= i < k < p.len() && (#[trigger] p[i]).job_id == (#[trigger] p[k]).job_id ==> p[i].checkpoint_id
            < p[k].checkpoint_id
}

proof fn lemma_jobs_begun(jobs: Seq<JobV>, pending: Seq<PendingV>, now: i64)
    requires
        one_in_flight(pending),
        distinct(jobs),
    ensures
        ({
            let r = trigger_jobs(jobs, pending, now);
            are_new(jobs, r.0, pending, r.1)
        }),
    decreases jobs.len(),
{
    if jobs.len() > 0 {
        let d = jobs.drop_last();
        assert(distinct(d)) by {
            assert forall|i: int, j: int| 0 <= i < j < d.len() implies (#[trigger] d[i]).name() != (#[trigger] d[j]).name() by {
                assert(jobs[i].name() != jobs[j].name());
            }
        }
        lemma_jobs_begun(d, pending, now);
        lemma_triggered(d, pending, now);
        let h = trigger_jobs(d, pending, now);
        let j = jobs.last();
        let last = jobs.len() - 1;
        let r = trigger_jobs(jobs, pending, now);
        let one = trigger_job(j, h.1, now);
        law_checkpoint_ids_rise(j, h.1, now);
        let s0 = TriggerStep { pending: h.1, next: j.next_checkpoint_id, fired: false };
        lemma_groups_begun(s0, j.job_id, running_groups(j.tasks), now);
        lemma_groups_are_full(j.tasks);
        assert(jobs[last] == j);
        assert forall|i: int| pending.len() <= i < r.1.len() implies exists|k: int|
            0 <= k < jobs.len() && is_new(#[trigger] jobs[k], r.0[k], pending, #[trigger] r.1[i]) by {
            if i < h.1.len() {
                assert(r.1[i] == h.1[i]);
                let k = choose|k: int| 0 <= k < d.len() && is_new(#[trigger] d[k], h.0[k], pending, h.1[i]);
                assert(jobs[k] == d[k] && r.0[k] == h.0[k]);
            } else {
                lemma_longer_index(pending, h.1, j.job_id, r.1[i].stage_id);
                assert(is_new(jobs[last], r.0[last], pending, r.1[i]));
            }
        }
        if has_ids_left(r.0) {
            assert(has_ids_left(h.0)) by {
                assert forall|k: int| 0 <= k < h.0.len() implies (#[trigger] h.0[k]).next_checkpoint_id < u64::MAX by {
                    assert(r.0[k] == h.0[k]);
                }
            }
            assert(r.0[last] == one.0);
            assert forall|i: int, k: int|
                pending.len() <= i < k < r.1.len() && (#[trigger] r.1[i]).job_id == (#[trigger] r.1[k]).job_id implies r.1[i].checkpoint_id
                < r.1[k].checkpoint_id by {
                if k < h.1.len() {
                    assert(r.1[i] == h.1[i] && r.1[k] == h.1[k]);
                } else if i < h.1.len() {
                    assert(r.1[i] == h.1[i]);
                    let x = choose|x: int| 0 <= x < d.len() && is_new(#[trigger] d[x], h.0[x], pending, h.1[i]);
                    assert(jobs[x].name() != jobs[last].name());
                }
            }
        }
    }
}

// ---------------------------------------------------------------------------
// What a worker is handed
// ---------------------------------------------------------------------------

/// Whether a task takes part in a checkpoint.
pub open spec fn takes_part(cp: PendingV, task: Seq<char>) -> bool {
    exists|x: int| 0 <= x < cp.participants.len() && (#[trigger] cp.participants[x]).0 == task
}

/// Whether a checkpoint owes a worker a trigger.
spec fn owes(cp: PendingV, w: Seq<char>, t: TriggerV) -> bool {
    t.1 == cp.checkpoint_id && cp.participants.contains((t.0, w)) && !cp.delivered.contains(t.0)
}

/// Whether no two checkpoints of one id have a task in common.
spec fn separate(p: Seq<PendingV>) -> bool {
    forall|i: int, k: int, task: Seq<char>|
        0 <= i < k < p.len() && (#[trigger] takes_part(p[i], task)) && (#[trigger] takes_part(p[k], task))
            ==> p[i].checkpoint_id != p[k].checkpoint_id
}

proof fn lemma_given_by_one(cp: PendingV, w: Seq<char>, n: nat)
    requires
        n <= cp.participants.len(),
    ensures
        cp.delivered.is_prefix_of(delivered_upto(cp, w, n).0),
        forall|i: int|
            0 <= i < delivered_upto(cp, w, n).1.len() ==> owes(cp, w, #[trigger] delivered_upto(cp, w, n).1[i])
                && delivered_upto(cp, w, n).0.contains(delivered_upto(cp, w, n).1[i].0),
        forall|i: int, k: int|
            0 <= i < k < delivered_upto(cp, w, n).1.len() ==> (#[trigger] delivered_upto(cp, w, n).1[i]) != (
            #[trigger] delivered_upto(cp, w, n).1[k]),
    decreases n,
{
    let r = delivered_upto(cp, w, n);
    if n > 0 {
        let m = cp.participants[n - 1];
        lemma_given_by_one(cp, w, (n - 1) as nat);
        let h = delivered_upto(cp, w, (n - 1) as nat);
        if m.1 == w && !h.0.contains(m.0) {
            assert(cp.delivered.is_prefix_of(r.0));
            assert(!cp.delivered.contains(m.0)) by {
                if cp.delivered.contains(m.0) {
                    let k = choose|k: int| 0 <= k < cp.delivered.len() && cp.delivered[k] == m.0;
                    assert(h.0[k] == m.0);
                }
            }
            assert(cp.participants.contains((m.0, w)));
            assert forall|i: int| 0 <= i < r.1.len() implies owes(cp, w, #[trigger] r.1[i]) && r.0.contains(r.1[i].0) by {
                if i < h.1.len() {
                    assert(r.1[i] == h.1[i]);
                    let k = choose|k: int| 0 <= k < h.0.len() && h.0[k] == h.1[i].0;
                    assert(r.0[k] == h.0[k]);
                } else {
                    assert(r.0[h.0.len() as int] == m.0);
                }
            }
            assert forall|i: int, k: int| 0 <= i < k < r.1.len() implies (#[trigger] r.1[i]) != (#[trigger] r.1[k]) by {
                assert(r.1[i] == h.1[i]);
                if k < h.1.len() {
                    assert(r.1[k] == h.1[k]);
                }
            }
        }
    } else {
        assert(cp.delivered.is_prefix_of(r.0));
    }
}

proof fn lemma_owed(p: Seq<PendingV>, w: Seq<char>)
    requires
        separate(p),
    ensures
        forall|i: int|
            0 <= i < owed_triggers(p, w).len() ==> exists|k: int|
                0 <= k < p.len() && owes(#[trigger] p[k], w, #[trigger] owed_triggers(p, w)[i]),
        forall|i: int, k: int|
            0 <= i < k < owed_triggers(p, w).len() ==> (#[trigger] owed_triggers(p, w)[i]) != (
            #[trigger] owed_triggers(p, w)[k]),
    decreases p.len(),
{
    if p.len() > 0 {
        let d = p.drop_last();
        let last = p.len() - 1;
        let cp = p[last];
        assert(separate(d)) by {
            assert forall|i: int, k: int, task: Seq<char>|
                0 <= i < k < d.len() && (#[trigger] takes_part(d[i], task)) && (#[trigger] takes_part(d[k], task)) implies d[i].checkpoint_id
                != d[k].checkpoint_id by {
                assert(takes_part(p[i], task) && takes_part(p[k], task));
            }
        }
        lemma_owed(d, w);
        lemma_given_by_one(cp, w, cp.participants.len());
        let h = owed_triggers(d, w);
        let q = delivered_upto(cp, w, cp.participants.len()).1;
        let r = owed_triggers(p, w);
        assert(r == h + q);
        assert forall|i: int| 0 <= i < r.len() implies exists|k: int|
            0 <= k < p.len() && owes(#[trigger] p[k], w, #[trigger] r[i]) by {
            if i < h.len() {
                assert(r[i] == h[i]);
                let k = choose|k: int| 0 <= k < d.len() && owes(#[trigger] d[k], w, h[i]);
                assert(p[k] == d[k]);
            } else {
                assert(r[i] == q[i - h.len()]);
                assert(owes(p[last], w, r[i]));
            }
        }
        assert forall|i: int, k: int| 0 <= i < k < r.len() implies (#[trigger] r[i]) != (#[trigger] r[k]) by {
            if k < h.len() {
                assert(r[i] == h[i] && r[k] == h[k]);
            } else if i >= h.len() {
                assert(r[i] == q[i - h.len()] && r[k] == q[k - h.len()]);
            } else {
                assert(r[i] == h[i] && r[k] == q[k - h.len()]);
                let x = choose|x: int| 0 <= x < d.len() && owes(#[trigger] d[x], w, h[i]);
                assert(p[x] == d[x]);
                if r[i] == r[k] {
                    lemma_owes_a_member(p[x], w, r[i]);
                    lemma_owes_a_member(cp, w, r[k]);
                    assert(takes_part(p[x], r[i].0) && takes_part(p[last], r[i].0));
                }
            }
        }
    }
}

proof fn lemma_owes_a_member(cp: PendingV, w: Seq<char>, t: TriggerV)
    requires
        cp.participants.contains((t.0, w)),
    ensures
        takes_part(cp, t.0),
{
    let k = choose|k: int| 0 <= k < cp.participants.len() && cp.participants[k] == (t.0, w);
    assert(cp.participants[k].0 == t.0);
}

// ---------------------------------------------------------------------------
// What holds after every step
// ---------------------------------------------------------------------------

/// Whether two values are one checkpoint: of one pipeline, under one id, with the same
/// tasks.
pub open spec fn same_checkpoint(a: PendingV, b: PendingV) -> bool {
    a.job_id == b.job_id && a.stage_id == b.stage_id && a.checkpoint_id == b.checkpoint_id && a.participants
        == b.participants
}

/// Whether a checkpoint has the trigger's id and its task takes part on the worker that
/// was handed the trigger.
pub open spec fn meant_for(cp: PendingV, e: Given) -> bool {
    cp.checkpoint_id == e.1.1 && cp.participants.contains((e.1.0, e.0))
}

/// Whether the checkpoints of each job have rising ids.
pub open spec fn ids_rise(b: Seq<BegunV>) -> bool {
    forall|m: int, k: int|
        0 <= m < k < b.len() && (#[trigger] b[m]).cp.job_id == (#[trigger] b[k]).cp.job_id ==> b[m].cp.checkpoint_id
            < b[k].cp.checkpoint_id
}

/// Whether the next checkpoint id of a checkpoint's job is above its own.
pub open spec fn counted(jobs: Seq<JobV>, cp: PendingV) -> bool {
    match index_of(jobs, cp.job_id) {
        Some(k) => cp.checkpoint_id < jobs[k].next_checkpoint_id,
        None => false,
    }
}

/// Whether the tasks of a checkpoint have ids of its job.
spec fn is_own(cp: PendingV) -> bool {
    forall|x: int| 0 <= x < cp.participants.len() ==> is_task_of(cp.job_id, (#[trigger] cp.participants[x]).0)
}

/// Whether a checkpoint is one of those that were begun.
pub open spec fn is_known(b: Seq<BegunV>, cp: PendingV) -> bool {
    exists|m: int| 0 <= m < b.len() && same_checkpoint((#[trigger] b[m]).cp, cp)
}

/// Whether everything in flight was begun.
pub open spec fn all_known(b: Seq<BegunV>, p: Seq<PendingV>) -> bool {
    forall|i: int| 0 <= i < p.len() ==> is_known(b, #[trigger] p[i])
}

/// Whether every checkpoint was begun as it should be.
pub open spec fn all_well_begun(b: Seq<BegunV>) -> bool {
    forall|m: int| 0 <= m < b.len() ==> well_begun((#[trigger] b[m]).before, b[m].cp)
}

/// Whether every checkpoint has tasks of its job, whose next id is above its own.
spec fn all_counted(b: Seq<BegunV>, jobs: Seq<JobV>) -> bool {
    forall|m: int| 0 <= m < b.len() ==> is_own((#[trigger] b[m]).cp) && counted(jobs, b[m].cp)
}

/// Whether a trigger belongs to one of the checkpoints that were begun.
pub open spec fn is_meant(b: Seq<BegunV>, e: Given) -> bool {
    exists|m: int| 0 <= m < b.len() && meant_for((#[trigger] b[m]).cp, e)
}

/// Whether every trigger was handed to the worker that owned its task when a checkpoint
/// of its id was begun.
pub open spec fn all_meant(b: Seq<BegunV>, g: Seq<Given>) -> bool {
    forall|n: int| 0 <= n < g.len() ==> is_meant(b, #[trigger] g[n])
}

/// Whether what was handed out is noted in what is in flight.
spec fn all_noted(p: Seq<PendingV>, g: Seq<Given>) -> bool {
    forall|n: int, i: int|
        0 <= n < g.len() && 0 <= i < p.len() && (#[trigger] g[n]).1.1 == (#[trigger] p[i]).checkpoint_id && takes_part(
            p[i],
            g[n].1.0,
        ) ==> p[i].delivered.contains(g[n].1.0)
}

/// Whether no task was handed a trigger of one id twice.
pub open spec fn given_once(g: Seq<Given>) -> bool {
    forall|n: int, k: int| 0 <= n < k < g.len() ==> (#[trigger] g[n]).1 != (#[trigger] g[k]).1
}

/// What holds of a coordinator, the checkpoints begun so far and the triggers handed out
/// so far.
spec fn sound(c: CoordinatorV, b: Seq<BegunV>, g: Seq<Given>) -> bool {
    &&& told_apart(c)
    &&& named_by_job(c.jobs)
    &&& ids_rise(b)
    &&& all_known(b, c.pending)
    &&& all_well_begun(b)
    &&& all_counted(b, c.jobs)
    &&& all_meant(b, g)
    &&& all_noted(c.pending, g)
    &&& given_once(g)
}

/// Jobs that go on, with new ones behind them.
pub open spec fn grown(a: Seq<JobV>, b: Seq<JobV>) -> bool {
    a.len() >= b.len() && forall|i: int| 0 <= i < b.len() ==> carried(#[trigger] a[i], b[i])
}

proof fn lemma_grown_counted(a: Seq<JobV>, b: Seq<JobV>, cp: PendingV)
    requires
        grown(a, b),
        counted(b, cp),
    ensures
        counted(a, cp),
{
    keyed::lemma_index_of(b, cp.job_id);
    let k = index_of(b, cp.job_id)->0;
    assert(carried(a[k], b[k]));
    assert forall|i: int| 0 <= i < k implies (#[trigger] a[i]).name() != cp.job_id by {
        assert(carried(a[i], b[i]));
        assert(b[i].name() != cp.job_id);
    }
    keyed::lemma_index_is(a, cp.job_id, k);
}

proof fn lemma_one_job(a: PendingV, b: PendingV, task: Seq<char>)
    requires
        is_own(a),
        is_own(b),
        takes_part(a, task),
        takes_part(b, task),
    ensures
        a.job_id == b.job_id,
{
    let x = choose|x: int| 0 <= x < a.participants.len() && (#[trigger] a.participants[x]).0 == task;
    let y = choose|y: int| 0 <= y < b.participants.len() && (#[trigger] b.participants[y]).0 == task;
    assert(is_task_of(a.job_id, task));
    assert(is_task_of(b.job_id, task));
    let (p, i) = choose|p: nat, i: nat| task == #[trigger] task_id_of(a.job_id, p, i);
    let (q, k) = choose|q: nat, k: nat| task == #[trigger] task_id_of(b.job_id, q, k);
    law_task_ids_name_their_job(a.job_id, p, i, b.job_id, q, k);
}

/// Whether a checkpoint was in flight, with the same triggers handed out.
spec fn was_in_flight(p: Seq<PendingV>, cp: PendingV) -> bool {
    exists|k: int| 0 <= k < p.len() && same_checkpoint(#[trigger] p[k], cp) && p[k].delivered == cp.delivered
}

/// Nothing is begun and nothing handed out.
proof fn lemma_goes_on(c: CoordinatorV, d: CoordinatorV, b: Seq<BegunV>, g: Seq<Given>)
    requires
        sound(c, b, g),
        told_apart(d),
        named_by_job(d.jobs),
        grown(d.jobs, c.jobs),
        forall|i: int| 0 <= i < d.pending.len() ==> was_in_flight(c.pending, #[trigger] d.pending[i]),
    ensures
        sound(d, b, g),
{
    assert forall|i: int| 0 <= i < d.pending.len() implies is_known(b, #[trigger] d.pending[i]) by {
        assert(was_in_flight(c.pending, d.pending[i]));
        let k = choose|k: int|
            0 <= k < c.pending.len() && same_checkpoint(#[trigger] c.pending[k], d.pending[i]) && c.pending[k].delivered
                == d.pending[i].delivered;
        assert(is_known(b, c.pending[k]));
        let m = choose|m: int| 0 <= m < b.len() && same_checkpoint((#[trigger] b[m]).cp, c.pending[k]);
        assert(same_checkpoint(b[m].cp, d.pending[i]));
    }
    assert forall|m: int| 0 <= m < b.len() implies is_own((#[trigger] b[m]).cp) && counted(d.jobs, b[m].cp) by {
        lemma_grown_counted(d.jobs, c.jobs, b[m].cp);
    }
    assert forall|n: int, i: int|
        0 <= n < g.len() && 0 <= i < d.pending.len() && (#[trigger] g[n]).1.1 == (#[trigger] d.pending[i]).checkpoint_id
            && takes_part(d.pending[i], g[n].1.0) implies d.pending[i].delivered.contains(g[n].1.0) by {
        assert(was_in_flight(c.pending, d.pending[i]));
        let k = choose|k: int|
            0 <= k < c.pending.len() && same_checkpoint(#[trigger] c.pending[k], d.pending[i]) && c.pending[k].delivered
                == d.pending[i].delivered;
        assert(takes_part(c.pending[k], g[n].1.0));
    }
    assert(all_known(b, d.pending));
    assert(all_counted(b, d.jobs));
    assert(all_noted(d.pending, g));
}

/// Checkpoints are begun, and nothing is handed out.
proof fn lemma_begins(c: CoordinatorV, d: CoordinatorV, new: Seq<PendingV>, b: Seq<BegunV>, g: Seq<Given>)
    requires
        sound(c, b, g),
        told_apart(d),
        named_by_job(d.jobs),
        grown(d.jobs, c.jobs),
        d.pending == c.pending + new,
        forall|i: int|
            0 <= i < new.len() ==> well_begun(c, #[trigger] new[i]) && counted(d.jobs, new[i]) && new[i].delivered.len() == 0,
        forall|i: int, k: int|
            0 <= i < k < new.len() && (#[trigger] new[i]).job_id == (#[trigger] new[k]).job_id ==> new[i].checkpoint_id
                < new[k].checkpoint_id,
    ensures
        sound(d, b + out_of(c, new), g),
{
    let r = b + out_of(c, new);
    assert forall|m: int| 0 <= m < r.len() implies well_begun((#[trigger] r[m]).before, r[m].cp) && is_own(r[m].cp)
        && counted(d.jobs, r[m].cp) by {
        if m < b.len() {
            assert(r[m] == b[m]);
            lemma_grown_counted(d.jobs, c.jobs, b[m].cp);
        } else {
            let cp = new[m - b.len()];
            assert(r[m].cp == cp && r[m].before == c);
            keyed::lemma_index_of(c.jobs, cp.job_id);
            let j = c.jobs[index_of(c.jobs, cp.job_id)->0];
            assert forall|x: int| 0 <= x < cp.participants.len() implies is_task_of(
                cp.job_id,
                (#[trigger] cp.participants[x]).0,
            ) by {
                let e = cp.participants[x];
                law_who_takes_part(j.tasks, cp.stage_id, e.0, e.1);
                assert(running_in(j.tasks, cp.stage_id).contains((e.0, e.1)));
                let y = choose|y: int|
                    0 <= y < j.tasks.len() && (#[trigger] j.tasks[y]).task_id == e.0 && j.tasks[y].worker_id == e.1
                        && j.tasks[y].stage_id == cp.stage_id && j.tasks[y].state is Running;
                assert(c.jobs[index_of(c.jobs, cp.job_id)->0].tasks[y].task_id == e.0);
            }
        }
    }
    assert forall|m: int, k: int| 0 <= m < k < r.len() && (#[trigger] r[m]).cp.job_id == (#[trigger] r[k]).cp.job_id implies r[m].cp.checkpoint_id
        < r[k].cp.checkpoint_id by {
        if k < b.len() {
            assert(r[m] == b[m] && r[k] == b[k]);
        } else {
            assert(r[k].cp == new[k - b.len()]);
            if m < b.len() {
                assert(r[m] == b[m]);
                assert(counted(c.jobs, b[m].cp));
                assert(well_begun(c, new[k - b.len()]));
            } else {
                assert(r[m].cp == new[m - b.len()]);
            }
        }
    }
    assert forall|i: int| 0 <= i < d.pending.len() implies is_known(r, #[trigger] d.pending[i]) by {
        if i < c.pending.len() {
            assert(d.pending[i] == c.pending[i]);
            assert(is_known(b, c.pending[i]));
            let m = choose|m: int| 0 <= m < b.len() && same_checkpoint((#[trigger] b[m]).cp, c.pending[i]);
            assert(r[m] == b[m]);
        } else {
            let m = b.len() + (i - c.pending.len());
            assert(r[m].cp == d.pending[i]);
        }
    }
    assert forall|n: int| 0 <= n < g.len() implies is_meant(r, #[trigger] g[n]) by {
        assert(is_meant(b, g[n]));
        let m = choose|m: int| 0 <= m < b.len() && meant_for((#[trigger] b[m]).cp, g[n]);
        assert(r[m] == b[m]);
    }
    assert forall|n: int, i: int|
        0 <= n < g.len() && 0 <= i < d.pending.len() && (#[trigger] g[n]).1.1 == (#[trigger] d.pending[i]).checkpoint_id
            && takes_part(d.pending[i], g[n].1.0) implies d.pending[i].delivered.contains(g[n].1.0) by {
        if i < c.pending.len() {
            assert(d.pending[i] == c.pending[i]);
        } else {
            let cp = new[i - c.pending.len()];
            assert(d.pending[i] == cp);
            assert(is_meant(b, g[n]));
            let m = choose|m: int| 0 <= m < b.len() && meant_for((#[trigger] b[m]).cp, g[n]);
            lemma_owes_a_member(b[m].cp, g[n].0, g[n].1);
            assert(r[b.len() + (i - c.pending.len())].cp == cp);
            lemma_one_job(b[m].cp, cp, g[n].1.0);
            assert(counted(c.jobs, b[m].cp));
            assert(well_begun(c, cp));
        }
    }
    assert(ids_rise(r));
    assert(all_known(r, d.pending));
    assert(all_well_begun(r));
    assert(all_counted(r, d.jobs));
    assert(all_meant(r, g));
    assert(all_noted(d.pending, g));
}

/// A worker is handed its triggers.
proof fn lemma_hands_out(c: CoordinatorV, w: Seq<char>, b: Seq<BegunV>, g: Seq<Given>)
    requires
        sound(c, b, g),
    ensures
        sound(stepped(c, StepV::Deliver(w)), b, g + to_worker(w, owed_triggers(c.pending, w))),
{
    let p = c.pending;
    let d = stepped(c, StepV::Deliver(w));
    let q = d.pending;
    let ts = owed_triggers(p, w);
    let r = g + to_worker(w, ts);
    assert forall|i: int| 0 <= i < p.len() implies same_checkpoint(#[trigger] p[i], q[i]) by {}
    assert(one_in_flight(q)) by {
        assert forall|i: int, k: int| 0 <= i < k < q.len() implies !((#[trigger] q[i]).job_id == (#[trigger] q[k]).job_id
            && q[i].stage_id == q[k].stage_id) by {
            assert(same_checkpoint(p[i], q[i]) && same_checkpoint(p[k], q[k]));
        }
    }
    // Two checkpoints of one id that share a task would be one.
    assert(separate(p)) by {
        assert forall|i: int, k: int, task: Seq<char>|
            0 <= i < k < p.len() && (#[trigger] takes_part(p[i], task)) && (#[trigger] takes_part(p[k], task)) implies p[i].checkpoint_id
            != p[k].checkpoint_id by {
            assert(is_known(b, p[i]));
            let m = choose|m: int| 0 <= m < b.len() && same_checkpoint((#[trigger] b[m]).cp, p[i]);
            assert(is_known(b, p[k]));
            let n = choose|n: int| 0 <= n < b.len() && same_checkpoint((#[trigger] b[n]).cp, p[k]);
            assert(takes_part(b[m].cp, task) && takes_part(b[n].cp, task));
            lemma_one_job(b[m].cp, b[n].cp, task);
            if p[i].checkpoint_id == p[k].checkpoint_id {
                if m < n {
                    assert(b[m].cp.checkpoint_id < b[n].cp.checkpoint_id);
                } else if n < m {
                    assert(b[n].cp.checkpoint_id < b[m].cp.checkpoint_id);
                }
            }
        }
    }
    lemma_owed(p, w);
    assert forall|i: int| 0 <= i < q.len() implies is_known(b, #[trigger] q[i]) by {
        assert(is_known(b, p[i]));
        let m = choose|m: int| 0 <= m < b.len() && same_checkpoint((#[trigger] b[m]).cp, p[i]);
        assert(same_checkpoint(b[m].cp, q[i]));
    }
    assert forall|n: int| 0 <= n < r.len() implies is_meant(b, #[trigger] r[n]) by {
        if n < g.len() {
            assert(r[n] == g[n]);
            assert(is_meant(b, g[n]));
            let m = choose|m: int| 0 <= m < b.len() && meant_for((#[trigger] b[m]).cp, g[n]);
            assert(meant_for(b[m].cp, r[n]));
        } else {
            let t = ts[n - g.len()];
            assert(r[n] == (w, t));
            let k = choose|k: int| 0 <= k < p.len() && owes(#[trigger] p[k], w, t);
            assert(is_known(b, p[k]));
            let m = choose|m: int| 0 <= m < b.len() && same_checkpoint((#[trigger] b[m]).cp, p[k]);
            assert(meant_for(b[m].cp, r[n]));
        }
    }
    assert forall|n: int, i: int|
        0 <= n < r.len() && 0 <= i < q.len() && (#[trigger] r[n]).1.1 == (#[trigger] q[i]).checkpoint_id && takes_part(
            q[i],
            r[n].1.0,
        ) implies q[i].delivered.contains(r[n].1.0) by {
        let task = r[n].1.0;
        assert(q[i] == told(p[i], w));
        assert(takes_part(p[i], task));
        lemma_given_by_one(p[i], w, p[i].participants.len());
        if n < g.len() {
            assert(r[n] == g[n]);
            assert(p[i].delivered.contains(task));
            let x = choose|x: int| 0 <= x < p[i].delivered.len() && p[i].delivered[x] == task;
            assert(q[i].delivered[x] == task);
        } else {
            let t = ts[n - g.len()];
            assert(r[n] == (w, t));
            let k = choose|k: int| 0 <= k < p.len() && owes(#[trigger] p[k], w, t);
            lemma_owes_a_member(p[k], w, t);
            assert(takes_part(p[k], task));
            assert(k == i);
            lemma_delivered_members(p[i], w, p[i].participants.len());
            let x = choose|x: int| 0 <= x < p[i].participants.len() && p[i].participants[x] == (task, w);
            assert(p[i].participants[x].1 == w);
        }
    }
    assert forall|n: int, k: int| 0 <= n < k < r.len() implies (#[trigger] r[n]).1 != (#[trigger] r[k]).1 by {
        if k < g.len() {
            assert(r[n] == g[n] && r[k] == g[k]);
        } else {
            let t = ts[k - g.len()];
            assert(r[k] == (w, t));
            if n < g.len() {
                assert(r[n] == g[n]);
                let x = choose|x: int| 0 <= x < p.len() && owes(#[trigger] p[x], w, t);
                if g[n].1 == t {
                    lemma_owes_a_member(p[x], w, t);
                    assert(p[x].delivered.contains(t.0));
                }
            } else {
                assert(r[n] == (w, ts[n - g.len()]));
            }
        }
    }
}

// ---------------------------------------------------------------------------
// The law
// ---------------------------------------------------------------------------

proof fn lemma_named(a: Seq<JobV>, b: Seq<JobV>)
    requires
        carried_on(a, b),
        named_by_job(b),
    ensures
        named_by_job(a),
        grown(a, b),
{
    assert forall|k: int, x: int| 0 <= k < a.len() && 0 <= x < a[k].tasks.len() implies is_task_of(
        a[k].job_id,
        (#[trigger] a[k].tasks[x]).task_id,
    ) by {
        assert(carried(a[k], b[k]));
        assert(is_task_of(b[k].job_id, b[k].tasks[x].task_id));
    }
}

proof fn lemma_still_in_flight(a: Seq<PendingV>, p: Seq<PendingV>)
    requires
        among(a, p),
    ensures
        forall|i: int| 0 <= i < a.len() ==> was_in_flight(p, #[trigger] a[i]),
{
    assert forall|i: int| 0 <= i < a.len() implies was_in_flight(p, #[trigger] a[i]) by {
        assert(p.contains(a[i]));
        let k = choose|k: int| 0 <= k < p.len() && p[k] == a[i];
        assert(same_checkpoint(p[k], a[i]));
    }
}

proof fn lemma_awaiting_less(p: Seq<PendingV>, k: int, cp: PendingV)
    requires
        one_in_flight(p),
        0 <= k < p.len(),
        same_checkpoint(p[k], cp),
        p[k].delivered == cp.delivered,
    ensures
        one_in_flight(p.update(k, cp)),
        forall|i: int| 0 <= i < p.len() ==> was_in_flight(p, #[trigger] p.update(k, cp)[i]),
{
    let q = p.update(k, cp);
    assert forall|i: int| 0 <= i < p.len() implies was_in_flight(p, #[trigger] q[i]) by {
        assert(same_checkpoint(p[i], q[i]));
    }
    assert forall|x: int, y: int| 0 <= x < y < q.len() implies !((#[trigger] q[x]).job_id == (#[trigger] q[y]).job_id
        && q[x].stage_id == q[y].stage_id) by {
        assert(same_checkpoint(p[x], q[x]) && same_checkpoint(p[y], q[y]));
    }
}

proof fn lemma_prepare_step(c: CoordinatorV, s: StepV, b: Seq<BegunV>, g: Seq<Given>)
    requires
        sound(c, b, g),
        s is Prepare || s is Note,
    ensures
        sound(stepped(c, s), b, g),
        grown(stepped(c, s).jobs, c.jobs),
{
    let d = stepped(c, s);
    let (job, task, id, success) = match s {
        StepV::Prepare(job, task, id, success) => (job, task, id, success),
        StepV::Note(job, task, id, success) => (job, task, id, success),
        _ => arbitrary(),
    };
    keyed::lemma_index_of(c.jobs, job);
    lemma_still_in_flight(c.pending, c.pending);
    if let Some(i) = prepare_target(c, job, task, id) {
        let t = keyed::named(keyed::named(c.jobs, job)->0.tasks, task)->0;
        lemma_pending_index(c.pending, job, t.stage_id);
        let cp = c.pending[i];
        lemma_awaiting_less(c.pending, i, PendingV { awaiting: without(cp.awaiting, task), ..cp });
        lemma_one_less(c.pending, i);
        lemma_still_in_flight(c.pending.remove(i), c.pending);
    }
    assert(carried_on(d.jobs, c.jobs));
    lemma_carried_apart(d.jobs, c.jobs);
    lemma_named(d.jobs, c.jobs);
    lemma_goes_on(c, d, b, g);
}

proof fn lemma_triggers_step(c: CoordinatorV, w: Seq<char>, now: i64, b: Seq<BegunV>, g: Seq<Given>)
    requires
        sound(c, b, g),
        has_ids_left(stepped(c, StepV::Triggers(w, now)).jobs),
    ensures
        ({
            let s = StepV::Triggers(w, now);
            sound(stepped(c, s), b + out_of(c, begun(c, s)), g + given(c, s)) && grown(stepped(c, s).jobs, c.jobs)
        }),
{
    let t = trigger_jobs(c.jobs, c.pending, now);
    let mid = CoordinatorV { jobs: t.0, pending: t.1, ..c };
    let new = t.1.skip(c.pending.len() as int);
    lemma_triggered(c.jobs, c.pending, now);
    lemma_carried_apart(t.0, c.jobs);
    lemma_named(t.0, c.jobs);
    lemma_jobs_begun(c.jobs, c.pending, now);
    assert(mid.pending =~= c.pending + new);
    assert forall|i: int| 0 <= i < new.len() implies well_begun(c, #[trigger] new[i]) && counted(t.0, new[i])
        && new[i].delivered.len() == 0 by {
        let cp = t.1[c.pending.len() + i];
        assert(new[i] == cp);
        let k = choose|k: int| 0 <= k < c.jobs.len() && is_new(#[trigger] c.jobs[k], t.0[k], c.pending, cp);
        assert(carried(t.0[k], c.jobs[k]));
        assert forall|x: int| 0 <= x < k implies (#[trigger] c.jobs[x]).name() != cp.job_id by {
            assert(c.jobs[x].name() != c.jobs[k].name());
        }
        keyed::lemma_index_is(c.jobs, cp.job_id, k);
        assert forall|x: int| 0 <= x < k implies (#[trigger] t.0[x]).name() != cp.job_id by {
            assert(t.0[x].name() != t.0[k].name());
        }
        keyed::lemma_index_is(t.0, cp.job_id, k);
    }
    assert forall|i: int, k: int| 0 <= i < k < new.len() && (#[trigger] new[i]).job_id == (#[trigger] new[k]).job_id implies new[i].checkpoint_id
        < new[k].checkpoint_id by {
        assert(new[i] == t.1[c.pending.len() + i] && new[k] == t.1[c.pending.len() + k]);
    }
    lemma_begins(c, mid, new, b, g);
    lemma_hands_out(mid, w, b + out_of(c, new), g);
    assert(stepped(mid, StepV::Deliver(w)) == stepped(c, StepV::Triggers(w, now)));
}

proof fn lemma_stage_step(c: CoordinatorV, job: Seq<char>, stage: Seq<char>, at: i64, b: Seq<BegunV>, g: Seq<Given>)
    requires
        sound(c, b, g),
        has_ids_left(stage_triggered(c, job, stage, at).jobs),
    ensures
        ({
            let d = stage_triggered(c, job, stage, at);
            sound(d, b + out_of(c, d.pending.skip(c.pending.len() as int)), g) && grown(d.jobs, c.jobs)
        }),
{
    let d = stage_triggered(c, job, stage, at);
    let new = d.pending.skip(c.pending.len() as int);
    keyed::lemma_index_of(c.jobs, job);
    law_agreed_ids_rise(c, job, stage, at);
    if d == c {
        assert(carried_on(d.jobs, c.jobs));
    } else {
        let k = index_of(c.jobs, job)->0;
        let j = c.jobs[k];
        let groups = running_groups(j.tasks);
        lemma_group_index(groups, stage);
        lemma_groups_are_full(j.tasks);
        assert(carried_on(d.jobs, c.jobs));
        assert(d.jobs[k].next_checkpoint_id < u64::MAX);
        assert forall|i: int| 0 <= i < k implies (#[trigger] d.jobs[i]).name() != job by {
            assert(c.jobs[i].name() != job);
        }
        keyed::lemma_index_is(d.jobs, job, k);
        assert(new =~= seq![crate::checkpoint_coordination::new_pending(
            job,
            groups[group_index(groups, stage)->0],
            j.next_checkpoint_id,
            at,
        )]);
    }
    lemma_carried_apart(d.jobs, c.jobs);
    lemma_named(d.jobs, c.jobs);
    assert(d.pending =~= c.pending + new);
    lemma_begins(c, d, new, b, g);
}

proof fn lemma_command_step(c: CoordinatorV, cmd: CommandV, now: i64, b: Seq<BegunV>, g: Seq<Given>)
    requires
        sound(c, b, g),
        submits_anew(c, StepV::Command(cmd, now)),
        !(cmd is CheckpointTriggered),
    ensures
        sound(applied(c, cmd, now), b, g),
        grown(applied(c, cmd, now).jobs, c.jobs),
{
    let d = applied(c, cmd, now);
    law_commands_keep_apart(c, cmd, now);
    lemma_still_in_flight(c.pending, c.pending);
    match cmd {
        CommandV::SubmitJob(job, tasks) => {
            assert(d.jobs == c.jobs.push(job));
            assert(named_by_job(d.jobs)) by {
                assert forall|k: int, x: int| 0 <= k < d.jobs.len() && 0 <= x < d.jobs[k].tasks.len() implies is_task_of(
                    d.jobs[k].job_id,
                    (#[trigger] d.jobs[k].tasks[x]).task_id,
                ) by {
                    if k < c.jobs.len() {
                        assert(c.jobs[k].tasks[x] == d.jobs[k].tasks[x]);
                    } else {
                        assert(seq![job][0].tasks[x] == d.jobs[k].tasks[x]);
                    }
                }
            }
            assert(grown(d.jobs, c.jobs));
        },
        _ => {
            law_jobs_go_on(c, cmd, now);
            lemma_named(d.jobs, c.jobs);
            match cmd {
                CommandV::CancelJob(id, at) => {
                    lemma_of_others(c.pending, id);
                    lemma_still_in_flight(of_others(c.pending, id), c.pending);
                },
                CommandV::CheckpointResolved(job, id, end) => {
                    lemma_pending_index(c.pending, job, end.0);
                    if let Some(i) = pending_index(c.pending, job, end.0) {
                        lemma_one_less(c.pending, i);
                        lemma_still_in_flight(c.pending.remove(i), c.pending);
                    }
                },
                _ => {},
            }
        },
    }
    lemma_goes_on(c, d, b, g);
}

proof fn lemma_step(c: CoordinatorV, s: StepV, b: Seq<BegunV>, g: Seq<Given>)
    requires
        sound(c, b, g),
        submits_anew(c, s),
        has_ids_left(stepped(c, s).jobs),
    ensures
        sound(stepped(c, s), b + out_of(c, begun(c, s)), g + given(c, s)),
        grown(stepped(c, s).jobs, c.jobs),
{
    let d = stepped(c, s);
    lemma_still_in_flight(c.pending, c.pending);
    assert(b + out_of(c, Seq::empty()) =~= b);
    assert(g + Seq::<Given>::empty() =~= g);
    match s {
        StepV::Triggers(w, now) => {
            lemma_triggers_step(c, w, now, b, g);
        },
        StepV::Deliver(w) => {
            lemma_hands_out(c, w, b, g);
        },
        StepV::Prepare(..) => {
            lemma_prepare_step(c, s, b, g);
        },
        StepV::Note(..) => {
            lemma_prepare_step(c, s, b, g);
        },
        StepV::Abort(timeout, now) => {
            lemma_in_time(c.pending, now, timeout);
            lemma_still_in_flight(in_time(c.pending, now, timeout), c.pending);
            lemma_goes_on(c, d, b, g);
        },
        StepV::Drop(job) => {
            lemma_of_others(c.pending, job);
            lemma_still_in_flight(of_others(c.pending, job), c.pending);
            lemma_goes_on(c, d, b, g);
        },
        StepV::Metrics(w, tasks) => {
            lemma_metered(c.jobs, w, tasks);
            lemma_carried_apart(d.jobs, c.jobs);
            lemma_named(d.jobs, c.jobs);
            lemma_goes_on(c, d, b, g);
        },
        StepV::Command(cmd, now) => match cmd {
            CommandV::CheckpointTriggered(job, stage, at) => {
                lemma_stage_step(c, job, stage, at, b, g);
            },
            _ => {
                lemma_command_step(c, cmd, now, b, g);
            },
        },
        StepV::Rest(o) => {
            lemma_goes_on(c, d, b, g);
        },
    }
}

/// Every step leaves a coordinator told apart, and every job with its tasks and with a
/// next checkpoint id that has not fallen.
pub proof fn law_steps_keep_apart(c: CoordinatorV, s: StepV)
    requires
        told_apart(c),
        submits_anew(c, s),
    ensures
        told_apart(stepped(c, s)),
        grown(stepped(c, s).jobs, c.jobs),
{
    let d = stepped(c, s);
    match s {
        StepV::Triggers(w, now) => {
            let t = trigger_jobs(c.jobs, c.pending, now);
            lemma_triggered(c.jobs, c.pending, now);
            lemma_carried_apart(d.jobs, c.jobs);
            lemma_told_flight(t.1, w);
        },
        StepV::Deliver(w) => {
            lemma_told_flight(c.pending, w);
        },
        StepV::Prepare(job, task, id, success) => {
            law_prepare_resolves(c, job, task, id, success);
            keyed::lemma_index_of(c.jobs, job);
            assert(carried_on(d.jobs, c.jobs));
            lemma_carried_apart(d.jobs, c.jobs);
        },
        StepV::Note(job, task, id, success) => {
            if let Some(i) = prepare_target(c, job, task, id) {
                let t = keyed::named(keyed::named(c.jobs, job)->0.tasks, task)->0;
                lemma_pending_index(c.pending, job, t.stage_id);
                let cp = c.pending[i];
                lemma_awaiting_less(c.pending, i, PendingV { awaiting: without(cp.awaiting, task), ..cp });
            }
        },
        StepV::Abort(timeout, now) => {
            lemma_in_time(c.pending, now, timeout);
        },
        StepV::Drop(job) => {
            lemma_of_others(c.pending, job);
        },
        StepV::Metrics(w, tasks) => {
            lemma_metered(c.jobs, w, tasks);
            lemma_carried_apart(d.jobs, c.jobs);
        },
        StepV::Command(cmd, now) => {
            law_commands_keep_apart(c, cmd, now);
            if !(cmd is SubmitJob) {
                law_jobs_go_on(c, cmd, now);
            }
        },
        StepV::Rest(o) => {},
    }
}

proof fn lemma_told_flight(p: Seq<PendingV>, w: Seq<char>)
    requires
        one_in_flight(p),
    ensures
        one_in_flight(p.map_values(|cp: PendingV| told(cp, w))),
{
    let q = p.map_values(|cp: PendingV| told(cp, w));
    assert forall|i: int, k: int| 0 <= i < k < q.len() implies !((#[trigger] q[i]).job_id == (#[trigger] q[k]).job_id
        && q[i].stage_id == q[k].stage_id) by {
        assert(q[i] == told(p[i], w) && q[k] == told(p[k], w));
    }
}

/// A run leaves a coordinator told apart, and no job of it is lost or counts back.
pub proof fn law_runs_keep_apart(c: CoordinatorV, steps: Seq<StepV>)
    requires
        told_apart(c),
        all_anew(c, steps),
    ensures
        told_apart(run(c, steps)),
        grown(run(c, steps).jobs, c.jobs),
    decreases steps.len(),
{
    if steps.len() > 0 {
        law_runs_keep_apart(c, steps.drop_last());
        let h = run(c, steps.drop_last());
        let r = run(c, steps);
        law_steps_keep_apart(h, steps.last());
        assert forall|i: int| 0 <= i < c.jobs.len() implies carried(#[trigger] r.jobs[i], c.jobs[i]) by {
            assert(carried(h.jobs[i], c.jobs[i]));
            assert(carried(r.jobs[i], h.jobs[i]));
        }
    }
}

proof fn lemma_run(c: CoordinatorV, steps: Seq<StepV>)
    requires
        told_apart(c),
        named_by_job(c.jobs),
        c.pending.len() == 0,
        all_anew(c, steps),
        has_ids_left(run(c, steps).jobs),
    ensures
        sound(run(c, steps), all_begun(c, steps), all_given(c, steps)),
    decreases steps.len(),
{
    if steps.len() > 0 {
        let d = steps.drop_last();
        let h = run(c, d);
        law_runs_keep_apart(c, d);
        law_steps_keep_apart(h, steps.last());
        assert(has_ids_left(h.jobs)) by {
            let r = run(c, steps);
            assert forall|k: int| 0 <= k < h.jobs.len() implies (#[trigger] h.jobs[k]).next_checkpoint_id < u64::MAX by {
                assert(carried(r.jobs[k], h.jobs[k]));
            }
        }
        lemma_run(c, d);
        lemma_step(h, steps.last(), all_begun(c, d), all_given(c, d));
    }
}

/// Over any run that starts with nothing in flight and submits no job again, as long as
/// there are checkpoint ids left:
///
/// - a task is handed a trigger of one id at most once, by whatever worker it is asked
///   for;
/// - it is handed only to the worker that owned the task when the checkpoint was begun;
/// - a checkpoint is begun only for a job that runs and a pipeline that has none in
///   flight, and all running tasks of the pipeline take part in it, under its one id;
/// - the ids of a job's checkpoints rise strictly, each is at least the job's next id
///   before it was begun, and below the job's next id at the end.
pub proof fn law_triggers_over_a_run(c: CoordinatorV, steps: Seq<StepV>)
    requires
        told_apart(c),
        named_by_job(c.jobs),
        c.pending.len() == 0,
        all_anew(c, steps),
        has_ids_left(run(c, steps).jobs),
    ensures
        given_once(all_given(c, steps)),
        all_meant(all_begun(c, steps), all_given(c, steps)),
        all_well_begun(all_begun(c, steps)),
        ids_rise(all_begun(c, steps)),
        forall|m: int|
            0 <= m < all_begun(c, steps).len() ==> counted(run(c, steps).jobs, (#[trigger] all_begun(c, steps)[m]).cp),
        all_known(all_begun(c, steps), run(c, steps).pending),
        told_apart(run(c, steps)),
{
    lemma_run(c, steps);
}

} // verus!
