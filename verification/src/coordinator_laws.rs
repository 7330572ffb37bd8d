//! What the coordinator promises over all its operations.

use vstd::prelude::*;

use crate::checkpoint_coordination::{
    checkpointed_job, delivered_upto, new_pending, pending_index, prepare_target, prepared, resolutions,
    running_groups, trigger_groups, trigger_job, without, Groups, TriggerStep, lemma_pending_index,
};
use crate::command::{applied, CommandV};
use crate::dispatch::{
    adopted_task, claim_jobs, claim_task, claim_tasks, claimable, dispatch_all, dispatch_one, dispatched_job,
    evicted_job, job_with_task, lemma_job_with_task, pending_of_job, pending_of_jobs, reassigned, register_all, runs_elsewhere, with_task, ClaimV,
    WorkerState,
};
use crate::job::{DescriptorV, JobV, StateV, TaskV};
use crate::job_config::PipelineV;
use crate::job_coordinator::{
    descriptor_of, pipeline_tasks, plan_tasks, stage_id_of, task_id_of, CoordinatorV, JobSettings, PendingV,
};
use crate::keyed;
use crate::keyed::{distinct, index_of, named, put, Named};
use crate::props;
use crate::props::{lookup, Pairs};
use crate::task_reports::reported_job;
use crate::text;

verus! {

// ---------------------------------------------------------------------------
// Terminal states
// ---------------------------------------------------------------------------

/// No operation on a job that is over gives it another state: not a report, an
/// eviction, an adoption, a dispatch, a trigger or a completed checkpoint.
pub proof fn law_terminal_jobs_stay(
    j: JobV,
    t: TaskV,
    worker: Seq<char>,
    task_id: Seq<char>,
    state: StateV,
    records: u64,
    error: Option<Seq<char>>,
    pending: Seq<PendingV>,
    participants: Pairs,
    id: u64,
    now: i64,
)
    requires
        j.state.terminal(),
    ensures
        reported_job(j, task_id, state, records, error, now).state == j.state,
        evicted_job(j, worker).state == j.state,
        with_task(j, adopted_task(t, worker)).state == j.state,
        dispatched_job(j, t, worker).state == j.state,
        trigger_job(j, pending, now) == (j, pending),
        checkpointed_job(j, participants, id).state == j.state,
{
}

// ---------------------------------------------------------------------------
// Planning
// ---------------------------------------------------------------------------

/// Within a job, a task id names one pipeline and one position in it.
pub proof fn law_task_ids_are_distinct(job_id: Seq<char>, p: nat, i: nat, q: nat, k: nat)
    requires
        task_id_of(job_id, p, i) == task_id_of(job_id, q, k),
    ensures
        p == q,
        i == k,
{
    law_task_ids_name_their_job(job_id, p, i, job_id, q, k);
}

proof fn lemma_digits_at_the_end(h: Seq<char>, g: Seq<char>, mark: char, x: Seq<char>, y: Seq<char>)
    requires
        h + seq![mark] + x == g + seq![mark] + y,
        !text::is_digit(mark),
        forall|i: int| 0 <= i < x.len() ==> text::is_digit(#[trigger] x[i]),
        forall|i: int| 0 <= i < y.len() ==> text::is_digit(#[trigger] y[i]),
    ensures
        h == g,
        x == y,
{
    let l = h + seq![mark] + x;
    let r = g + seq![mark] + y;
    if x.len() < y.len() {
        let at = l.len() - x.len() - 1;
        assert(l[at] == mark);
        assert(r[at] == y[at - g.len() - 1]);
        assert(false);
    }
    if y.len() < x.len() {
        let at = r.len() - y.len() - 1;
        assert(r[at] == mark);
        assert(l[at] == x[at - h.len() - 1]);
        assert(false);
    }
    assert(x =~= l.skip(h.len() as int + 1));
    assert(y =~= r.skip(g.len() as int + 1));
    assert(h =~= l.take(h.len() as int));
    assert(g =~= r.take(g.len() as int));
}

/// A task id names one job, one of its pipelines and one position in it.
pub proof fn law_task_ids_name_their_job(job: Seq<char>, p: nat, i: nat, other: Seq<char>, q: nat, k: nat)
    requires
        task_id_of(job, p, i) == task_id_of(other, q, k),
    ensures
        job == other,
        p == q,
        i == k,
{
    reveal_strlit("-");
    reveal_strlit("-p");
    let a = text::decimal_text(p);
    let b = text::decimal_text(q);
    let x = text::decimal_text(i);
    let y = text::decimal_text(k);
    text::lemma_decimal_text(p);
    text::lemma_decimal_text(q);
    text::lemma_decimal_text(i);
    text::lemma_decimal_text(k);
    assert("-"@ =~= seq!['-']);
    assert("-p"@ =~= seq!['-', 'p']);
    lemma_digits_at_the_end(stage_id_of(job, p), stage_id_of(other, q), '-', x, y);
    let h = job + seq!['-'];
    let g = other + seq!['-'];
    assert(stage_id_of(job, p) =~= h + seq!['p'] + a);
    assert(stage_id_of(other, q) =~= g + seq!['p'] + b);
    lemma_digits_at_the_end(h, g, 'p', a, b);
    assert(job =~= h.take(job.len() as int));
    assert(other =~= g.take(other.len() as int));
    text::lemma_decimal_text_injective(p, q);
    text::lemma_decimal_text_injective(i, k);
}

/// Whether task `d` is task `i` of pipeline `p` of the plan.
pub open spec fn planned_as(d: DescriptorV, s: JobSettings, plan: Seq<PipelineV>, p: int, i: int) -> bool {
    0 <= p < plan.len() && 0 <= i < plan[p].parallelism && d.task_id == task_id_of(s.job_id, p as nat, i as nat)
        && d.job_id == s.job_id && d.stage_id == stage_id_of(s.job_id, p as nat)
}

/// Whether task `d` belongs to one of the first `n` pipelines of the plan.
pub open spec fn planned_within(d: DescriptorV, s: JobSettings, plan: Seq<PipelineV>, n: nat) -> bool {
    exists|p: int, i: int| p < n && #[trigger] planned_as(d, s, plan, p, i)
}

/// Every task of a plan belongs to one of its pipelines, and no two have one id.
pub proof fn lemma_plan(s: JobSettings, plan: Seq<PipelineV>, n: nat, workers: Pairs)
    requires
        n <= plan.len(),
    ensures
        distinct(plan_tasks(s, plan, n, workers)),
        forall|x: int|
            0 <= x < plan_tasks(s, plan, n, workers).len() ==> planned_within(
                #[trigger] plan_tasks(s, plan, n, workers)[x],
                s,
                plan,
                n,
            ),
    decreases n,
{
    if n > 0 {
        let m = (n - 1) as nat;
        lemma_plan(s, plan, m, workers);
        let h = plan_tasks(s, plan, m, workers);
        let pipe = plan[n - 1];
        let t = pipeline_tasks(s, m, pipe, pipe.parallelism as nat, h.len(), workers);
        let all = plan_tasks(s, plan, n, workers);
        assert(all == h + t);
        assert forall|x: int| 0 <= x < all.len() implies planned_within(#[trigger] all[x], s, plan, n) by {
            if x < h.len() {
                assert(all[x] == h[x]);
                assert(planned_within(h[x], s, plan, m));
                let (p, i) = choose|p: int, i: int| p < m && #[trigger] planned_as(h[x], s, plan, p, i);
                assert(planned_as(all[x], s, plan, p, i));
            } else {
                assert(all[x] == t[x - h.len()]);
                assert(planned_as(all[x], s, plan, n - 1, x - h.len()));
            }
        }
        assert forall|x: int, y: int| 0 <= x < y < all.len() implies (#[trigger] all[x]).name() != (#[trigger] all[y]).name() by {
            if y < h.len() {
                assert(all[x] == h[x] && all[y] == h[y]);
            } else {
                assert(all[y] == t[y - h.len()]);
                if all[x].name() == all[y].name() {
                    if x < h.len() {
                        assert(all[x] == h[x]);
                        assert(planned_within(h[x], s, plan, m));
                        let (p, i) = choose|p: int, i: int| p < m && #[trigger] planned_as(h[x], s, plan, p, i);
                        law_task_ids_are_distinct(s.job_id, p as nat, i as nat, m, (y - h.len()) as nat);
                    } else {
                        assert(all[x] == t[x - h.len()]);
                        law_task_ids_are_distinct(s.job_id, m, (x - h.len()) as nat, m, (y - h.len()) as nat);
                    }
                }
            }
        }
    }
}

/// The number of tasks of the first `n` pipelines of a plan.
pub open spec fn task_count(plan: Seq<PipelineV>, n: nat) -> nat
    decreases n,
{
    if n == 0 {
        0
    } else {
        task_count(plan, (n - 1) as nat) + plan[n - 1].parallelism as nat
    }
}

/// A plan has as many tasks as its pipelines ask for, no two with one id, and
/// the workers take turns: task number `x` goes to worker `x` modulo their
/// number.
pub proof fn law_plan(s: JobSettings, plan: Seq<PipelineV>, workers: Pairs)
    requires
        workers.len() > 0,
    ensures
        distinct(plan_tasks(s, plan, plan.len(), workers)),
        plan_tasks(s, plan, plan.len(), workers).len() == task_count(plan, plan.len()),
        forall|x: int|
            0 <= x < plan_tasks(s, plan, plan.len(), workers).len() ==> lookup(
                (#[trigger] plan_tasks(s, plan, plan.len(), workers)[x]).config,
                "worker_id"@,
            ) == Some(workers[x % (workers.len() as int)].0),
{
    lemma_plan(s, plan, plan.len(), workers);
    lemma_turns(s, plan, plan.len(), workers);
}

proof fn lemma_turns(s: JobSettings, plan: Seq<PipelineV>, n: nat, workers: Pairs)
    requires
        n <= plan.len(),
        workers.len() > 0,
    ensures
        plan_tasks(s, plan, n, workers).len() == task_count(plan, n),
        forall|x: int|
            0 <= x < plan_tasks(s, plan, n, workers).len() ==> lookup(
                (#[trigger] plan_tasks(s, plan, n, workers)[x]).config,
                "worker_id"@,
            ) == Some(workers[x % (workers.len() as int)].0),
    decreases n,
{
    if n > 0 {
        let m = (n - 1) as nat;
        lemma_turns(s, plan, m, workers);
        let h = plan_tasks(s, plan, m, workers);
        let pipe = plan[n - 1];
        let t = pipeline_tasks(s, m, pipe, pipe.parallelism as nat, h.len(), workers);
        let all = plan_tasks(s, plan, n, workers);
        assert(all == h + t);
        assert forall|x: int| 0 <= x < all.len() implies lookup((#[trigger] all[x]).config, "worker_id"@) == Some(
            workers[x % (workers.len() as int)].0,
        ) by {
            if x < h.len() {
                assert(all[x] == h[x]);
            } else {
                let i = x - h.len();
                let w = workers[(h.len() + i) % (workers.len() as int)];
                assert(all[x] == t[i]);
                assert(all[x] == descriptor_of(s, m, pipe, i as nat, w));
                lemma_task_config(s, m, pipe, w);
            }
        }
    }
}

/// What a new task's configuration holds.
pub proof fn lemma_task_config(s: JobSettings, pipe: nat, p: PipelineV, worker: (Seq<char>, Seq<char>))
    ensures
        ({
            let c = crate::job_coordinator::task_config(s, pipe, p, worker);
            &&& lookup(c, "worker_id"@) == Some(worker.0)
            &&& lookup(c, "worker_address"@) == Some(worker.1)
            &&& lookup(c, "job.name"@) == Some(s.job_name)
            &&& lookup(c, "pipeline.index"@) == Some(text::decimal_text(pipe))
            &&& lookup(c, "pipeline.name"@) == Some(p.name)
            &&& lookup(c, "pipeline.source.plugin"@) == Some(p.source_plugin)
            &&& lookup(c, "pipeline.source.config"@) == Some(crate::json::json_text(p.source_config))
            &&& lookup(c, "pipeline.sinks"@) == Some(
                crate::json::json_text(crate::job_config::sink_list(p.sinks)),
            )
            &&& lookup(c, "pipeline.on-sink-failure"@) == Some(p.on_sink_failure)
            &&& lookup(c, "transform.config"@) == Some(
                crate::json::json_text(crate::json::JsonV::Array(s.transforms)),
            )
            &&& lookup(c, "checkpoint.interval"@) == Some(text::decimal_text(s.interval as nat))
        }),
{
    reveal_strlit("worker_id");
    reveal_strlit("worker_address");
    reveal_strlit("job.name");
    reveal_strlit("pipeline.index");
    reveal_strlit("pipeline.name");
    reveal_strlit("pipeline.source.plugin");
    reveal_strlit("pipeline.source.config");
    reveal_strlit("pipeline.sinks");
    reveal_strlit("pipeline.on-sink-failure");
    reveal_strlit("transform.config");
    reveal_strlit("checkpoint.interval");
    let id = "worker_id"@;
    let addr = "worker_address"@;
    assert(id.len() == 9 && addr.len() == 14 && id[0] == 'w' && addr[0] == 'w');
    assert("job.name"@.len() == 8 && "pipeline.index"@.len() == 14 && "pipeline.name"@.len() == 13);
    assert("pipeline.source.plugin"@.len() == 22 && "pipeline.source.config"@.len() == 22);
    assert("pipeline.sinks"@.len() == 14 && "pipeline.on-sink-failure"@.len() == 24);
    assert("transform.config"@.len() == 16 && "checkpoint.interval"@.len() == 19);
    assert("pipeline.source.plugin"@[16] == 'p' && "pipeline.source.config"@[16] == 'c');
    assert("pipeline.index"@[9] == 'i' && "pipeline.sinks"@[9] == 's');
    let c0 = Seq::<(Seq<char>, Seq<char>)>::empty();
    let c1 = props::assign(c0, id, worker.0);
    props::lemma_assign(c0, id, worker.0);
    let c2 = props::assign(c1, addr, worker.1);
    props::lemma_assign(c1, addr, worker.1);
    let k3 = "job.name"@;
    assert(k3[0] == 'j');
    let c3 = props::assign(c2, k3, s.job_name);
    props::lemma_assign(c2, k3, s.job_name);
    let k4 = "pipeline.index"@;
    assert(k4[0] == 'p');
    let v4 = text::decimal_text(pipe);
    let c4 = props::assign(c3, k4, v4);
    props::lemma_assign(c3, k4, v4);
    let k5 = "pipeline.name"@;
    assert(k5[0] == 'p');
    let c5 = props::assign(c4, k5, p.name);
    props::lemma_assign(c4, k5, p.name);
    let k6 = "pipeline.source.plugin"@;
    assert(k6[0] == 'p');
    let c6 = props::assign(c5, k6, p.source_plugin);
    props::lemma_assign(c5, k6, p.source_plugin);
    let k7 = "pipeline.source.config"@;
    assert(k7[0] == 'p');
    let v7 = crate::json::json_text(p.source_config);
    let c7 = props::assign(c6, k7, v7);
    props::lemma_assign(c6, k7, v7);
    let k8 = "pipeline.sinks"@;
    assert(k8[0] == 'p');
    let v8 = crate::json::json_text(crate::job_config::sink_list(p.sinks));
    let c8 = props::assign(c7, k8, v8);
    props::lemma_assign(c7, k8, v8);
    let k9 = "pipeline.on-sink-failure"@;
    assert(k9[0] == 'p');
    let c9 = props::assign(c8, k9, p.on_sink_failure);
    props::lemma_assign(c8, k9, p.on_sink_failure);
    let k10 = "transform.config"@;
    assert(k10[0] == 't');
    let v10 = crate::json::json_text(crate::json::JsonV::Array(s.transforms));
    let c10 = props::assign(c9, k10, v10);
    props::lemma_assign(c9, k10, v10);
    let k11 = "checkpoint.interval"@;
    assert(k11[0] == 'c');
    let v11 = text::decimal_text(s.interval as nat);
    props::lemma_assign(c10, k11, v11);
}

// ---------------------------------------------------------------------------
// Handing out
// ---------------------------------------------------------------------------

/// Whether no task id occurs twice, in one job or in two.
pub open spec fn unique_tasks(jobs: Seq<JobV>) -> bool {
    forall|i: int, k: int, x: int, y: int|
        0 <= i < jobs.len() && 0 <= k < jobs.len() && 0 <= x < jobs[i].tasks.len() && 0 <= y < jobs[k].tasks.len()
            && (#[trigger] jobs[i].tasks[x]).task_id == (#[trigger] jobs[k].tasks[y]).task_id ==> i == k && x == y
}

/// Whether some job has a task called `id` that was never handed out.
pub open spec fn waiting_somewhere(jobs: Seq<JobV>, id: Seq<char>) -> bool {
    exists|i: int, x: int|
        0 <= i < jobs.len() && 0 <= x < jobs[i].tasks.len() && (#[trigger] jobs[i].tasks[x]).state.undispatched()
            && jobs[i].tasks[x].task_id == id
}

proof fn lemma_pending_members(jobs: Seq<JobV>, all: Seq<DescriptorV>, worker: Seq<char>)
    ensures
        forall|n: int|
            0 <= n < pending_of_jobs(jobs, all, worker).len() ==> waiting_somewhere(
                jobs,
                (#[trigger] pending_of_jobs(jobs, all, worker)[n]).task_id,
            ),
    decreases jobs.len(),
{
    if jobs.len() > 0 {
        let d = jobs.drop_last();
        let j = jobs.last();
        lemma_pending_members(d, all, worker);
        let h = pending_of_jobs(d, all, worker);
        let p = pending_of_jobs(jobs, all, worker);
        assert forall|n: int| 0 <= n < p.len() implies waiting_somewhere(jobs, (#[trigger] p[n]).task_id) by {
            if n < h.len() {
                assert(p[n] == h[n]);
                assert(waiting_somewhere(d, h[n].task_id));
                let (i, x) = choose|i: int, x: int|
                    0 <= i < d.len() && 0 <= x < d[i].tasks.len() && (#[trigger] d[i].tasks[x]).state.undispatched()
                        && d[i].tasks[x].task_id == h[n].task_id;
                assert(jobs[i].tasks[x] == d[i].tasks[x]);
            } else {
                lemma_pending_of_job(j.tasks, all, worker);
                let q = pending_of_job(j.tasks, all, worker);
                assert(p[n] == q[n - h.len()]);
                let x = choose|x: int|
                    0 <= x < j.tasks.len() && (#[trigger] j.tasks[x]).state.undispatched() && j.tasks[x].task_id
                        == q[n - h.len()].task_id;
                assert(jobs[jobs.len() - 1].tasks[x].task_id == p[n].task_id);
            }
        }
    }
}

proof fn lemma_pending_of_job(tasks: Seq<TaskV>, all: Seq<DescriptorV>, worker: Seq<char>)
    ensures
        forall|n: int|
            0 <= n < pending_of_job(tasks, all, worker).len() ==> exists|x: int|
                0 <= x < tasks.len() && (#[trigger] tasks[x]).state.undispatched() && tasks[x].task_id == (
                #[trigger] pending_of_job(tasks, all, worker)[n]).task_id,
    decreases tasks.len(),
{
    if tasks.len() > 0 {
        let d = tasks.drop_last();
        lemma_pending_of_job(d, all, worker);
        let h = pending_of_job(d, all, worker);
        let p = pending_of_job(tasks, all, worker);
        keyed::lemma_index_of(all, tasks.last().task_id);
        assert forall|n: int| 0 <= n < p.len() implies exists|x: int|
            0 <= x < tasks.len() && (#[trigger] tasks[x]).state.undispatched() && tasks[x].task_id == (
            #[trigger] p[n]).task_id by {
            if n < h.len() {
                assert(p[n] == h[n]);
                let x = choose|x: int|
                    0 <= x < d.len() && (#[trigger] d[x]).state.undispatched() && d[x].task_id == h[n].task_id;
                assert(tasks[x] == d[x]);
            } else {
                assert(tasks[tasks.len() - 1].task_id == p[n].task_id);
            }
        }
    }
}

/// Whether `n` is `t` after it was handed to a worker: on its way there, or where
/// it was when it runs on another worker.
pub open spec fn handed(t: TaskV, n: TaskV, worker: Seq<char>) -> bool {
    if runs_elsewhere(t, worker) { n == t } else { n.state is Deploying && n.worker_id == worker }
}

proof fn lemma_dispatch_one(jobs: Seq<JobV>, worker: Seq<char>, id: Seq<char>)
    requires
        unique_tasks(jobs),
    ensures
        unique_tasks(dispatch_one(jobs, worker, id)),
        dispatch_one(jobs, worker, id).len() == jobs.len(),
        forall|i: int|
            0 <= i < jobs.len() ==> (#[trigger] dispatch_one(jobs, worker, id)[i]).tasks.len() == jobs[i].tasks.len(),
        forall|i: int, x: int|
            0 <= i < jobs.len() && 0 <= x < jobs[i].tasks.len() ==> {
                let t = #[trigger] dispatch_one(jobs, worker, id)[i].tasks[x];
                t.task_id == jobs[i].tasks[x].task_id && (if t.task_id == id {
                    handed(jobs[i].tasks[x], t, worker)
                } else {
                    t == jobs[i].tasks[x]
                })
            },
{
    lemma_job_with_task(jobs, id);
    let r = dispatch_one(jobs, worker, id);
    match job_with_task(jobs, id) {
        Some(n) => {
            let j = jobs[n];
            keyed::lemma_index_of(j.tasks, id);
            let k = index_of(j.tasks, id)->0;
            let t = named(j.tasks, id)->0;
            let t2 = TaskV { state: StateV::Deploying, worker_id: worker, ..t };
            assert(put(j.tasks, t2) == j.tasks.update(k, t2));
            assert forall|i: int, x: int| 0 <= i < jobs.len() && 0 <= x < jobs[i].tasks.len() implies {
                let u = #[trigger] r[i].tasks[x];
                u.task_id == jobs[i].tasks[x].task_id && (if u.task_id == id {
                    handed(jobs[i].tasks[x], u, worker)
                } else {
                    u == jobs[i].tasks[x]
                })
            } by {
                if jobs[i].tasks[x].task_id == id {
                    assert(jobs[n].tasks[k].task_id == id);
                }
            }
        },
        None => {
            assert forall|i: int, x: int| 0 <= i < jobs.len() && 0 <= x < jobs[i].tasks.len() implies {
                let u = #[trigger] r[i].tasks[x];
                u.task_id == jobs[i].tasks[x].task_id && (if u.task_id == id {
                    handed(jobs[i].tasks[x], u, worker)
                } else {
                    u == jobs[i].tasks[x]
                })
            } by {
                keyed::lemma_index_of(jobs[i].tasks, id);
                assert(jobs[i].tasks[x].name() == jobs[i].tasks[x].task_id);
            }
        },
    }
    assert forall|i: int, k: int, x: int, y: int|
        0 <= i < r.len() && 0 <= k < r.len() && 0 <= x < r[i].tasks.len() && 0 <= y < r[k].tasks.len() && (
        #[trigger] r[i].tasks[x]).task_id == (#[trigger] r[k].tasks[y]).task_id implies i == k && x == y by {
        assert(jobs[i].tasks[x].task_id == r[i].tasks[x].task_id);
        assert(jobs[k].tasks[y].task_id == r[k].tasks[y].task_id);
    }
}

proof fn lemma_dispatch_all(jobs: Seq<JobV>, worker: Seq<char>, ids: Seq<Seq<char>>)
    requires
        unique_tasks(jobs),
    ensures
        unique_tasks(dispatch_all(jobs, worker, ids)),
        dispatch_all(jobs, worker, ids).len() == jobs.len(),
        forall|i: int|
            0 <= i < jobs.len() ==> (#[trigger] dispatch_all(jobs, worker, ids)[i]).tasks.len() == jobs[i].tasks.len(),
        forall|i: int, x: int|
            0 <= i < jobs.len() && 0 <= x < jobs[i].tasks.len() ==> {
                let t = #[trigger] dispatch_all(jobs, worker, ids)[i].tasks[x];
                t.task_id == jobs[i].tasks[x].task_id && (if ids.contains(t.task_id) {
                    handed(jobs[i].tasks[x], t, worker)
                } else {
                    t == jobs[i].tasks[x]
                })
            },
    decreases ids.len(),
{
    if ids.len() > 0 {
        let d = ids.drop_last();
        lemma_dispatch_all(jobs, worker, d);
        let h = dispatch_all(jobs, worker, d);
        lemma_dispatch_one(h, worker, ids.last());
        let r = dispatch_all(jobs, worker, ids);
        assert forall|i: int| 0 <= i < jobs.len() implies (#[trigger] r[i]).tasks.len() == jobs[i].tasks.len() by {
            assert(h[i].tasks.len() == jobs[i].tasks.len());
        }
        assert forall|i: int, x: int| 0 <= i < jobs.len() && 0 <= x < jobs[i].tasks.len() implies {
            let t = #[trigger] r[i].tasks[x];
            t.task_id == jobs[i].tasks[x].task_id && (if ids.contains(t.task_id) {
                handed(jobs[i].tasks[x], t, worker)
            } else {
                t == jobs[i].tasks[x]
            })
        } by {
            assert(h[i].tasks.len() == jobs[i].tasks.len());
            let u = h[i].tasks[x];
            let t = r[i].tasks[x];
            assert(t.task_id == u.task_id);
            if ids.contains(t.task_id) {
                let k = choose|k: int| 0 <= k < ids.len() && ids[k] == t.task_id;
                if k < d.len() {
                    assert(d[k] == t.task_id);
                }
            } else {
                if d.contains(t.task_id) {
                    let k = choose|k: int| 0 <= k < d.len() && d[k] == t.task_id;
                    assert(ids[k] == t.task_id);
                }
                if t.task_id == ids.last() {
                    assert(ids[ids.len() - 1] == t.task_id);
                }
            }
        }
    }
}

/// A task that was handed out is never pending again, for any worker.
pub proof fn law_dispatched_is_not_pending(
    jobs: Seq<JobV>,
    all: Seq<DescriptorV>,
    worker: Seq<char>,
    ids: Seq<Seq<char>>,
    asking: Seq<char>,
)
    requires
        unique_tasks(jobs),
    ensures
        forall|n: int|
            0 <= n < pending_of_jobs(dispatch_all(jobs, worker, ids), all, asking).len() ==> !ids.contains(
                (#[trigger] pending_of_jobs(dispatch_all(jobs, worker, ids), all, asking)[n]).task_id,
            ),
{
    lemma_dispatch_all(jobs, worker, ids);
    let r = dispatch_all(jobs, worker, ids);
    lemma_pending_members(r, all, asking);
    let p = pending_of_jobs(r, all, asking);
    assert forall|n: int| 0 <= n < p.len() implies !ids.contains((#[trigger] p[n]).task_id) by {
        assert(waiting_somewhere(r, p[n].task_id));
        let (i, x) = choose|i: int, x: int|
            0 <= i < r.len() && 0 <= x < r[i].tasks.len() && (#[trigger] r[i].tasks[x]).state.undispatched()
                && r[i].tasks[x].task_id == p[n].task_id;
        assert(r[i].tasks.len() == jobs[i].tasks.len());
        assert(r[i].tasks[x].task_id == jobs[i].tasks[x].task_id);
    }
}

/// Handing tasks to a worker never takes a task away from another worker on which
/// it is known to run, and changes no task that is not named.
pub proof fn law_running_tasks_are_not_stolen(
    jobs: Seq<JobV>,
    worker: Seq<char>,
    ids: Seq<Seq<char>>,
    i: int,
    x: int,
)
    requires
        unique_tasks(jobs),
        0 <= i < jobs.len(),
        0 <= x < jobs[i].tasks.len(),
        runs_elsewhere(jobs[i].tasks[x], worker) || !ids.contains(jobs[i].tasks[x].task_id),
    ensures
        dispatch_all(jobs, worker, ids)[i].tasks[x] == jobs[i].tasks[x],
{
    lemma_dispatch_all(jobs, worker, ids);
    let t = dispatch_all(jobs, worker, ids)[i].tasks[x];
}

/// The worker that a descriptor names; empty when there is none.
pub open spec fn assignee(d: DescriptorV) -> Seq<char> {
    match lookup(d.config, "worker_id"@) {
        Some(w) => w,
        None => ""@,
    }
}

/// What a claim by `worker` leads to: everything handed out is assigned to it,
/// and the descriptors of healthy workers stay as they are.
pub open spec fn fair_claim(
    before: Seq<DescriptorV>,
    c: ClaimV,
    worker: Seq<char>,
    live: spec_fn(Seq<char>) -> WorkerState,
) -> bool {
    &&& c.all.len() == before.len()
    &&& forall|i: int| 0 <= i < before.len() ==> (#[trigger] c.all[i]).task_id == before[i].task_id
    &&& forall|i: int| 0 <= i < before.len() && live(assignee(before[i])) is Healthy ==> (#[trigger] c.all[i]) == before[i]
    &&& forall|i: int|
        0 <= i < before.len() ==> (#[trigger] c.all[i]) == before[i] || lookup(c.all[i].config, "worker_id"@) == Some(worker)
    &&& forall|n: int| 0 <= n < c.out.len() ==> lookup((#[trigger] c.out[n]).config, "worker_id"@) == Some(worker)
}

proof fn lemma_reassigned(d: DescriptorV, worker: Seq<char>, address: Seq<char>)
    ensures
        lookup(reassigned(d, worker, address).config, "worker_id"@) == Some(worker),
        lookup(reassigned(d, worker, address).config, "worker_address"@) == Some(address),
{
    reveal_strlit("worker_id");
    reveal_strlit("worker_address");
    assert("worker_id"@.len() != "worker_address"@.len());
    let a = props::assign(d.config, "worker_id"@, worker);
    props::lemma_assign(d.config, "worker_id"@, worker);
    props::lemma_assign(a, "worker_address"@, address);
}

proof fn lemma_claim_task(
    before: Seq<DescriptorV>,
    c: ClaimV,
    t: TaskV,
    worker: Seq<char>,
    address: Seq<char>,
    live: spec_fn(Seq<char>) -> WorkerState,
)
    requires
        fair_claim(before, c, worker, live),
        live(worker) is Healthy,
    ensures
        fair_claim(before, claim_task(c, t, worker, address, live), worker, live),
{
    let r = claim_task(c, t, worker, address, live);
    keyed::lemma_index_of(c.all, t.task_id);
    match index_of(c.all, t.task_id) {
        Some(i) => {
            let d = c.all[i];
            lemma_reassigned(d, worker, address);
            if claimable(t, live) && lookup(d.config, "worker_id"@) != Some(worker) && !(live(assignee(d)) is Healthy) {
                let n = reassigned(d, worker, address);
                assert(c.all[i] == before[i]);
                assert forall|k: int| 0 <= k < before.len() && live(assignee(before[k])) is Healthy implies (#[trigger] r.all[k])
                    == before[k] by {
                    if k != i {
                        assert(r.all[k] == c.all[k]);
                    }
                }
                assert forall|k: int| 0 <= k < before.len() implies (#[trigger] r.all[k]) == before[k] || lookup(
                    r.all[k].config,
                    "worker_id"@,
                ) == Some(worker) by {
                    if k != i {
                        assert(r.all[k] == c.all[k]);
                    }
                }
                assert forall|k: int| 0 <= k < before.len() implies (#[trigger] r.all[k]).task_id == before[k].task_id by {
                    if k != i {
                        assert(r.all[k] == c.all[k]);
                    }
                }
            }
        },
        None => {},
    }
}

proof fn lemma_claim_tasks(
    before: Seq<DescriptorV>,
    c: ClaimV,
    tasks: Seq<TaskV>,
    worker: Seq<char>,
    address: Seq<char>,
    live: spec_fn(Seq<char>) -> WorkerState,
)
    requires
        fair_claim(before, c, worker, live),
        live(worker) is Healthy,
    ensures
        fair_claim(before, claim_tasks(c, tasks, worker, address, live), worker, live),
    decreases tasks.len(),
{
    if tasks.len() > 0 {
        lemma_claim_tasks(before, c, tasks.drop_last(), worker, address, live);
        lemma_claim_task(
            before,
            claim_tasks(c, tasks.drop_last(), worker, address, live),
            tasks.last(),
            worker,
            address,
            live,
        );
    }
}

/// A claim hands a healthy worker only tasks that are then assigned to it, and takes
/// none away from another healthy worker.
pub proof fn law_claim_is_fair(
    all: Seq<DescriptorV>,
    jobs: Seq<JobV>,
    worker: Seq<char>,
    address: Seq<char>,
    live: spec_fn(Seq<char>) -> WorkerState,
)
    requires
        live(worker) is Healthy,
    ensures
        fair_claim(
            all,
            claim_jobs(ClaimV { all, out: Seq::empty() }, jobs, worker, address, live),
            worker,
            live,
        ),
    decreases jobs.len(),
{
    if jobs.len() > 0 {
        law_claim_is_fair(all, jobs.drop_last(), worker, address, live);
        let h = claim_jobs(ClaimV { all, out: Seq::empty() }, jobs.drop_last(), worker, address, live);
        lemma_claim_tasks(all, h, jobs.last().tasks, worker, address, live);
    }
}

// ---------------------------------------------------------------------------
// Coordinated checkpoints
// ---------------------------------------------------------------------------

/// Whether no pipeline has two checkpoints in flight.
pub open spec fn one_in_flight(p: Seq<PendingV>) -> bool {
    forall|i: int, k: int|
        0 <= i < k < p.len() ==> !((#[trigger] p[i]).job_id == (#[trigger] p[k]).job_id && p[i].stage_id == p[k].stage_id)
}

proof fn lemma_trigger_groups(s: TriggerStep, job: Seq<char>, groups: Groups, now: i64)
    requires
        one_in_flight(s.pending),
    ensures
        ({
            let r = trigger_groups(s, job, groups, now);
            &&& one_in_flight(r.pending)
            &&& r.next >= s.next
            &&& s.pending.is_prefix_of(r.pending)
            &&& (s.fired ==> r.fired)
            &&& (!r.fired ==> r == s)
            &&& forall|i: int|
                s.pending.len() <= i < r.pending.len() ==> (#[trigger] r.pending[i]).checkpoint_id >= s.next && (
                r.next < u64::MAX ==> r.pending[i].checkpoint_id < r.next) && r.pending[i].job_id == job
            &&& (r.next < u64::MAX ==> forall|i: int, k: int|
                s.pending.len() <= i < k < r.pending.len() ==> (#[trigger] r.pending[i]).checkpoint_id < (
                #[trigger] r.pending[k]).checkpoint_id)
        }),
    decreases groups.len(),
{
    if groups.len() > 0 {
        let d = groups.drop_last();
        lemma_trigger_groups(s, job, d, now);
        let h = trigger_groups(s, job, d, now);
        let r = trigger_groups(s, job, groups, now);
        let g = groups.last();
        lemma_pending_index(h.pending, job, g.0);
        if pending_index(h.pending, job, g.0) is None {
            let n = new_pending(job, g, h.next, now);
            assert forall|i: int, k: int| 0 <= i < k < r.pending.len() implies !((#[trigger] r.pending[i]).job_id == (
            #[trigger] r.pending[k]).job_id && r.pending[i].stage_id == r.pending[k].stage_id) by {
                assert(r.pending[i] == h.pending[i]);
                if k < h.pending.len() {
                    assert(r.pending[k] == h.pending[k]);
                }
            }
            assert forall|i: int| s.pending.len() <= i < r.pending.len() implies (#[trigger] r.pending[i]).checkpoint_id
                >= s.next && (r.next < u64::MAX ==> r.pending[i].checkpoint_id < r.next) && r.pending[i].job_id == job by {
                if i < h.pending.len() {
                    assert(r.pending[i] == h.pending[i]);
                }
            }
            if r.next < u64::MAX {
                assert forall|i: int, k: int| s.pending.len() <= i < k < r.pending.len() implies (
                #[trigger] r.pending[i]).checkpoint_id < (#[trigger] r.pending[k]).checkpoint_id by {
                    assert(r.pending[i] == h.pending[i]);
                    if k < h.pending.len() {
                        assert(r.pending[k] == h.pending[k]);
                    }
                }
            }
            assert(s.pending.is_prefix_of(r.pending));
        }
    }
}

/// Triggering keeps at most one checkpoint per pipeline in flight. The ids that
/// it hands out start at the job's counter and rise, and the counter ends above
/// all of them, as long as there are ids left; so no id is handed out twice.
pub proof fn law_checkpoint_ids_rise(j: JobV, pending: Seq<PendingV>, now: i64)
    requires
        one_in_flight(pending),
    ensures
        ({
            let r = trigger_job(j, pending, now);
            &&& one_in_flight(r.1)
            &&& pending.is_prefix_of(r.1)
            &&& r.0.next_checkpoint_id >= j.next_checkpoint_id
            &&& r.0.state == j.state && r.0.tasks == j.tasks && r.0.job_id == j.job_id
            &&& forall|i: int|
                pending.len() <= i < r.1.len() ==> (#[trigger] r.1[i]).checkpoint_id >= j.next_checkpoint_id && (
                r.0.next_checkpoint_id < u64::MAX ==> r.1[i].checkpoint_id < r.0.next_checkpoint_id)
            &&& (r.0.next_checkpoint_id < u64::MAX ==> forall|i: int, k: int|
                pending.len() <= i < k < r.1.len() ==> (#[trigger] r.1[i]).checkpoint_id < (#[trigger] r.1[k]).checkpoint_id)
        }),
{
    lemma_trigger_groups(
        TriggerStep { pending, next: j.next_checkpoint_id, fired: false },
        j.job_id,
        running_groups(j.tasks),
        now,
    );
}

/// What a prepare does. A failure aborts the checkpoint and a prepare that
/// nobody else is awaited for completes it; every participant is then told the
/// outcome, and the checkpoint is no longer in flight. Any other prepare tells
/// nobody anything.
pub proof fn law_prepare_resolves(c: CoordinatorV, job: Seq<char>, task: Seq<char>, id: u64, success: bool)
    ensures
        ({
            let r = prepared(c, job, task, id, success);
            match prepare_target(c, job, task, id) {
                Some(i) => {
                    let cp = c.pending[i];
                    let resolved = !success || without(cp.awaiting, task).len() == 0;
                    &&& r.1 == if resolved { Some(id) } else { None }
                    &&& resolved ==> r.0.outbox == c.outbox + resolutions(cp, success)
                    &&& resolved ==> r.0.pending == c.pending.remove(i)
                    &&& !resolved ==> r.0.outbox == c.outbox && r.0.pending.len() == c.pending.len()
                },
                None => r.0 == c && r.1 is None,
            }
        }),
        one_in_flight(c.pending) ==> one_in_flight(prepared(c, job, task, id, success).0.pending),
{
    let r = prepared(c, job, task, id, success);
    match prepare_target(c, job, task, id) {
        Some(i) => {
            let t = named(named(c.jobs, job)->0.tasks, task)->0;
            lemma_pending_index(c.pending, job, t.stage_id);
            if one_in_flight(c.pending) {
                let p = r.0.pending;
                assert forall|x: int, y: int| 0 <= x < y < p.len() implies !((#[trigger] p[x]).job_id == (
                #[trigger] p[y]).job_id && p[x].stage_id == p[y].stage_id) by {
                    if p.len() == c.pending.len() {
                        assert(p[x].job_id == c.pending[x].job_id && p[x].stage_id == c.pending[x].stage_id);
                        assert(p[y].job_id == c.pending[y].job_id && p[y].stage_id == c.pending[y].stage_id);
                    } else {
                        let a = if x < i { x } else { x + 1 };
                        let b = if y < i { y } else { y + 1 };
                        assert(p[x] == c.pending[a]);
                        assert(p[y] == c.pending[b]);
                    }
                }
            }
        },
        None => {},
    }
}

/// Each participant is told about a checkpoint once, through its own worker.
pub proof fn law_resolution_reaches_everyone(cp: PendingV, completed: bool)
    ensures
        resolutions(cp, completed).len() == cp.participants.len(),
        forall|i: int|
            0 <= i < cp.participants.len() ==> #[trigger] resolutions(cp, completed)[i] == (
                cp.participants[i].1,
                (cp.participants[i].0, cp.checkpoint_id, completed),
            ),
{
}

/// A trigger is handed out at most once: a second heartbeat of the same worker
/// gets none for this checkpoint.
pub proof fn law_trigger_is_told_once(cp: PendingV, worker: Seq<char>)
    ensures
        delivered_upto(
            crate::checkpoint_coordination::told(cp, worker),
            worker,
            cp.participants.len(),
        ).1.len() == 0,
{
    let full = delivered_upto(cp, worker, cp.participants.len()).0;
    lemma_delivered_members(cp, worker, cp.participants.len());
    lemma_nothing_owed(crate::checkpoint_coordination::told(cp, worker), worker, cp.participants.len());
}

/// Once a worker was told, every task that it takes part with counts as told.
pub proof fn lemma_delivered_members(cp: PendingV, worker: Seq<char>, n: nat)
    requires
        n <= cp.participants.len(),
    ensures
        forall|i: int|
            0 <= i < n && (#[trigger] cp.participants[i]).1 == worker ==> delivered_upto(cp, worker, n).0.contains(
                cp.participants[i].0,
            ),
    decreases n,
{
    if n > 0 {
        let m = (n - 1) as nat;
        lemma_delivered_members(cp, worker, m);
        let h = delivered_upto(cp, worker, m).0;
        let r = delivered_upto(cp, worker, n).0;
        assert forall|i: int| 0 <= i < n && (#[trigger] cp.participants[i]).1 == worker implies r.contains(
            cp.participants[i].0,
        ) by {
            if i < m {
                assert(h.contains(cp.participants[i].0));
                let k = choose|k: int| 0 <= k < h.len() && h[k] == cp.participants[i].0;
                assert(r[k] == h[k]);
            } else if !h.contains(cp.participants[i].0) {
                assert(r[h.len() as int] == cp.participants[i].0);
            }
        }
    }
}

proof fn lemma_nothing_owed(cp: PendingV, worker: Seq<char>, n: nat)
    requires
        n <= cp.participants.len(),
        forall|i: int|
            0 <= i < cp.participants.len() && (#[trigger] cp.participants[i]).1 == worker ==> cp.delivered.contains(
                cp.participants[i].0,
            ),
    ensures
        delivered_upto(cp, worker, n) == (cp.delivered, Seq::<(Seq<char>, u64)>::empty()),
    decreases n,
{
    if n > 0 {
        lemma_nothing_owed(cp, worker, (n - 1) as nat);
        assert(cp.participants[n - 1].1 == worker ==> cp.delivered.contains(cp.participants[n - 1].0));
    }
}

// ---------------------------------------------------------------------------
// Commands
// ---------------------------------------------------------------------------

/// Whether the same jobs stand at the same places.
pub open spec fn same_jobs(a: Seq<JobV>, b: Seq<JobV>) -> bool {
    a.len() == b.len() && forall|i: int| 0 <= i < a.len() ==> (#[trigger] a[i]).job_id == b[i].job_id
}

proof fn lemma_same_jobs_distinct(a: Seq<JobV>, b: Seq<JobV>)
    requires
        same_jobs(a, b),
        distinct(b),
    ensures
        distinct(a),
{
    assert forall|i: int, j: int| 0 <= i < j < a.len() implies (#[trigger] a[i]).name() != (#[trigger] a[j]).name() by {
        assert(b[i].name() != b[j].name());
    }
}

proof fn lemma_register_same_jobs(jobs: Seq<JobV>, all: Seq<DescriptorV>, worker: Seq<char>, ids: Seq<Seq<char>>)
    ensures
        same_jobs(register_all((jobs, Seq::empty()), all, worker, ids).0, jobs),
    decreases ids.len(),
{
    if ids.len() > 0 {
        lemma_register_same_jobs(jobs, all, worker, ids.drop_last());
        let h = register_all((jobs, Seq::empty()), all, worker, ids.drop_last());
        lemma_job_with_task(h.0, ids.last());
    }
}

proof fn lemma_dispatch_same_jobs(jobs: Seq<JobV>, worker: Seq<char>, ids: Seq<Seq<char>>)
    ensures
        same_jobs(dispatch_all(jobs, worker, ids), jobs),
    decreases ids.len(),
{
    if ids.len() > 0 {
        lemma_dispatch_same_jobs(jobs, worker, ids.drop_last());
        lemma_job_with_task(dispatch_all(jobs, worker, ids.drop_last()), ids.last());
    }
}

/// No command makes two jobs of one id, and none but a submission adds or removes a
/// job.
pub proof fn law_job_ids_stay_distinct(c: CoordinatorV, cmd: CommandV, now: i64)
    requires
        distinct(c.jobs),
    ensures
        distinct(applied(c, cmd, now).jobs),
        !(cmd is SubmitJob) ==> same_jobs(applied(c, cmd, now).jobs, c.jobs),
{
    let r = applied(c, cmd, now).jobs;
    match cmd {
        CommandV::SubmitJob(job, tasks) => {
            keyed::lemma_put_distinct(c.jobs, job);
        },
        CommandV::AdoptTasks(worker, ids) => {
            lemma_register_same_jobs(c.jobs, c.tasks, worker, ids);
            lemma_same_jobs_distinct(r, c.jobs);
        },
        CommandV::MarkDispatched(ids, worker) => {
            lemma_dispatch_same_jobs(c.jobs, worker, ids);
            lemma_same_jobs_distinct(r, c.jobs);
        },
        CommandV::CancelJob(id, at) => {
            keyed::lemma_index_of(c.jobs, id);
            lemma_same_jobs_distinct(r, c.jobs);
        },
        CommandV::TaskStatus { job_id, .. } => {
            keyed::lemma_index_of(c.jobs, job_id);
            lemma_same_jobs_distinct(r, c.jobs);
        },
        CommandV::CheckpointTriggered(job, stage, at) => {
            keyed::lemma_index_of(c.jobs, job);
            lemma_same_jobs_distinct(r, c.jobs);
        },
        CommandV::CheckpointResolved(job, id, end) => {
            keyed::lemma_index_of(c.jobs, job);
            lemma_same_jobs_distinct(r, c.jobs);
        },
        _ => {
            lemma_same_jobs_distinct(r, c.jobs);
        },
    }
}

/// Whether every job that was over in `b` is over in the same way in `a`.
pub open spec fn ends_kept(a: Seq<JobV>, b: Seq<JobV>) -> bool {
    a.len() == b.len() && forall|i: int|
        0 <= i < a.len() && b[i].state.terminal() ==> (#[trigger] a[i]).state == b[i].state && a[i].end_time
            == b[i].end_time
}

proof fn lemma_register_ends(jobs: Seq<JobV>, all: Seq<DescriptorV>, worker: Seq<char>, ids: Seq<Seq<char>>)
    ensures
        ends_kept(register_all((jobs, Seq::empty()), all, worker, ids).0, jobs),
    decreases ids.len(),
{
    if ids.len() > 0 {
        lemma_register_ends(jobs, all, worker, ids.drop_last());
        lemma_job_with_task(register_all((jobs, Seq::empty()), all, worker, ids.drop_last()).0, ids.last());
    }
}

proof fn lemma_dispatch_ends(jobs: Seq<JobV>, worker: Seq<char>, ids: Seq<Seq<char>>)
    ensures
        ends_kept(dispatch_all(jobs, worker, ids), jobs),
    decreases ids.len(),
{
    if ids.len() > 0 {
        lemma_dispatch_ends(jobs, worker, ids.drop_last());
        lemma_job_with_task(dispatch_all(jobs, worker, ids.drop_last()), ids.last());
    }
}

/// A job that is over stays as it ended, whatever command is applied, until a job is
/// submitted anew.
pub proof fn law_no_command_revives_a_job(c: CoordinatorV, cmd: CommandV, now: i64)
    requires
        !(cmd is SubmitJob),
    ensures
        ends_kept(applied(c, cmd, now).jobs, c.jobs),
{
    match cmd {
        CommandV::AdoptTasks(worker, ids) => {
            lemma_register_ends(c.jobs, c.tasks, worker, ids);
        },
        CommandV::MarkDispatched(ids, worker) => {
            lemma_dispatch_ends(c.jobs, worker, ids);
        },
        CommandV::CancelJob(id, at) => {
            keyed::lemma_index_of(c.jobs, id);
        },
        CommandV::TaskStatus { job_id, task_id, worker_id, state, records, error } => {
            keyed::lemma_index_of(c.jobs, job_id);
            if let Some(i) = index_of(c.jobs, job_id) {
                if c.jobs[i].state.terminal() {
                    crate::task_reports::law_terminal_state_stays(
                        c.jobs[i],
                        task_id,
                        crate::job::state_of_wire(state),
                        records,
                        error,
                        now,
                    );
                }
            }
        },
        CommandV::CheckpointTriggered(job, stage, at) => {
            keyed::lemma_index_of(c.jobs, job);
        },
        CommandV::CheckpointResolved(job, id, end) => {
            keyed::lemma_index_of(c.jobs, job);
        },
        _ => {},
    }
}

} // verus!
