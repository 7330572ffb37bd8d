//! What becomes of tasks: who may take one, what is told of one that a worker reports or
//! has lost, and how a job goes by its tasks.

use vstd::prelude::*;

use crate::coordination_laws::{lemma_add_contains, lemma_push_contains};
use crate::coordinator_laws::unique_tasks;
use crate::dispatch::{
    adopted_task, all_evicted_ids, claim_jobs, claim_task, claim_tasks, dispatch_one, evicted_ids, evicted_job,
    job_with_task, lemma_job_with_task, pending_of_job, pending_of_jobs, reassigned, register_one, ClaimV, WorkerState,
};
use crate::job::{DescriptorV, JobV, StateV, TaskV};
use crate::keyed;
use crate::keyed::{distinct, index_of, named, put, Named};
use crate::master::EntryV;
use crate::placement::{by_pressure, law_by_pressure, placement, Standing};
use crate::props;
use crate::props::{assign, lookup};
use crate::recovery::{
    lost_of_job, lost_of_jobs, overdue, released_job, unended, StuckV,
};
use crate::task_reports::{lemma_first_failed, metered_task, reported_job, rolled_up};

verus! {

/// Whether a state is an end.
pub open spec fn is_over(s: StateV) -> bool {
    s is Completed || s is Failed || s is Cancelled
}

/// Whether a task was not handed out yet.
pub open spec fn is_waiting(s: StateV) -> bool {
    s is Created || s is Scheduled
}

/// Whether a task is with a worker.
pub open spec fn is_out(s: StateV) -> bool {
    s is Deploying || s is Running
}

/// A state is one of three: waiting to be handed out, with a worker, or an end.
pub proof fn law_states(s: StateV)
    ensures
        s.terminal() == is_over(s),
        s.undispatched() == is_waiting(s),
        s.active() == is_out(s),
{
}

proof fn lemma_task_at(jobs: Seq<JobV>, k: int, x: int)
    requires
        unique_tasks(jobs),
        0 <= k < jobs.len(),
        0 <= x < jobs[k].tasks.len(),
    ensures
        job_with_task(jobs, jobs[k].tasks[x].task_id) == Some(k),
        index_of(jobs[k].tasks, jobs[k].tasks[x].task_id) == Some(x),
        named(jobs[k].tasks, jobs[k].tasks[x].task_id) == Some(jobs[k].tasks[x]),
        forall|t: TaskV|
            t.task_id == jobs[k].tasks[x].task_id ==> #[trigger] put(jobs[k].tasks, t) == jobs[k].tasks.update(x, t),
{
    let id = jobs[k].tasks[x].task_id;
    lemma_job_with_task(jobs, id);
    keyed::lemma_index_of(jobs[k].tasks, id);
    assert(jobs[k].tasks[x].name() == id);
    match index_of(jobs[k].tasks, id) {
        Some(y) => {
            assert(jobs[k].tasks[y].task_id == jobs[k].tasks[x].task_id);
        },
        None => {},
    }
    match job_with_task(jobs, id) {
        Some(m) => {
            keyed::lemma_index_of(jobs[m].tasks, id);
            let y = index_of(jobs[m].tasks, id)->0;
            assert(jobs[m].tasks[y].task_id == jobs[k].tasks[x].task_id);
        },
        None => {},
    }
    assert forall|t: TaskV| t.task_id == id implies #[trigger] put(jobs[k].tasks, t) == jobs[k].tasks.update(x, t) by {
        assert(t.name() == id);
    }
}

// ---------------------------------------------------------------------------
// Taking tasks
// ---------------------------------------------------------------------------

/// Whether a descriptor is another one, for a worker at an address: only these two
/// settings differ.
pub open spec fn is_for(n: DescriptorV, d: DescriptorV, worker: Seq<char>, address: Seq<char>) -> bool {
    &&& n == (DescriptorV { config: n.config, ..d })
    &&& lookup(n.config, "worker_id"@) == Some(worker)
    &&& lookup(n.config, "worker_address"@) == Some(address)
    &&& forall|key: Seq<char>|
        key != "worker_id"@ && key != "worker_address"@ ==> #[trigger] lookup(n.config, key) == lookup(d.config, key)
}

proof fn lemma_reassigned(d: DescriptorV, worker: Seq<char>, address: Seq<char>)
    ensures
        is_for(reassigned(d, worker, address), d, worker, address),
{
    reveal_strlit("worker_id");
    reveal_strlit("worker_address");
    assert("worker_id"@.len() != "worker_address"@.len());
    props::lemma_assign(d.config, "worker_id"@, worker);
    props::lemma_assign(assign(d.config, "worker_id"@, worker), "worker_address"@, address);
}

/// What a worker that asks for tasks gets of one. A task that waits, or whose worker is
/// gone, is handed to the worker that it is planned for. Another worker takes it over when
/// the one that it is planned for is gone, or, while it waits, is overloaded; the plan is
/// changed to say so. Nothing else is handed out: no task that has ended or is with a
/// living worker, and none that is planned for another healthy one.
pub proof fn law_who_takes_a_task(
    c: ClaimV,
    t: TaskV,
    worker: Seq<char>,
    address: Seq<char>,
    live: spec_fn(Seq<char>) -> WorkerState,
    i: int,
    owner: Seq<char>,
)
    requires
        distinct(c.all),
        0 <= i < c.all.len(),
        c.all[i].task_id == t.task_id,
        lookup(c.all[i].config, "worker_id"@) == Some(owner),
    ensures
        ({
            let r = claim_task(c, t, worker, address, live);
            let free = is_waiting(t.state) || is_out(t.state) && live(t.worker_id) is Dead;
            &&& free && owner == worker ==> r.all == c.all && r.out == c.out.push(c.all[i])
            &&& free && owner != worker && (live(owner) is Dead || is_waiting(t.state) && live(owner) is Overloaded)
                ==> r.all.len() == c.all.len() && is_for(r.all[i], c.all[i], worker, address) && r.out == c.out.push(
                r.all[i],
            ) && forall|m: int| 0 <= m < c.all.len() && m != i ==> #[trigger] r.all[m] == c.all[m]
            &&& !free || owner != worker && !(live(owner) is Dead) && !(is_waiting(t.state) && live(
                owner,
            ) is Overloaded) ==> r == c
        }),
{
    keyed::lemma_index_of(c.all, t.task_id);
    assert(c.all[i].name() == t.task_id);
    let k = index_of(c.all, t.task_id)->0;
    if k != i {
        assert(c.all[k].name() == c.all[i].name());
    }
    lemma_reassigned(c.all[i], worker, address);
}

/// Tasks are asked for job by job and in their order; those of jobs that are over are not.
pub proof fn law_claims_in_order(
    c: ClaimV,
    jobs: Seq<JobV>,
    j: JobV,
    worker: Seq<char>,
    address: Seq<char>,
    live: spec_fn(Seq<char>) -> WorkerState,
)
    ensures
        claim_jobs(c, Seq::empty(), worker, address, live) == c,
        is_over(j.state) ==> claim_jobs(c, jobs.push(j), worker, address, live) == claim_jobs(
            c,
            jobs,
            worker,
            address,
            live,
        ),
        !is_over(j.state) ==> claim_jobs(c, jobs.push(j), worker, address, live) == claim_tasks(
            claim_jobs(c, jobs, worker, address, live),
            j.tasks,
            worker,
            address,
            live,
        ),
        j.tasks.len() > 0 ==> claim_tasks(c, j.tasks, worker, address, live) == claim_task(
            claim_tasks(c, j.tasks.drop_last(), worker, address, live),
            j.tasks.last(),
            worker,
            address,
            live,
        ),
        j.tasks.len() == 0 ==> claim_tasks(c, j.tasks, worker, address, live) == c,
{
    assert(jobs.push(j).drop_last() =~= jobs);
}

/// The tasks that are to be handed to a worker: those that wait, of jobs that are not
/// over, and that are planned for it.
pub proof fn law_what_waits_for_a_worker(jobs: Seq<JobV>, all: Seq<DescriptorV>, worker: Seq<char>, d: DescriptorV)
    ensures
        pending_of_jobs(jobs, all, worker).contains(d) <==> exists|k: int, x: int|
            0 <= k < jobs.len() && 0 <= x < jobs[k].tasks.len() && is_handed_next(
                jobs[k],
                #[trigger] jobs[k].tasks[x],
                all,
                worker,
                d,
            ),
    decreases jobs.len(),
{
    if jobs.len() == 0 {
        assert(!pending_of_jobs(jobs, all, worker).contains(d));
    } else {
        let rest = jobs.drop_last();
        let j = jobs.last();
        law_what_waits_for_a_worker(rest, all, worker, d);
        lemma_waits_in(j, j.tasks, all, worker, d);
        let a = pending_of_jobs(rest, all, worker);
        lemma_add_contains(a, pending_of_job(j.tasks, all, worker), d);
        if a.contains(d) {
            let (k, x) = choose|k: int, x: int|
                0 <= k < rest.len() && 0 <= x < rest[k].tasks.len() && is_handed_next(
                    rest[k],
                    #[trigger] rest[k].tasks[x],
                    all,
                    worker,
                    d,
                );
            assert(jobs[k].tasks[x] == rest[k].tasks[x]);
            assert(is_handed_next(jobs[k], jobs[k].tasks[x], all, worker, d));
        }
        if !is_over(j.state) && pending_of_job(j.tasks, all, worker).contains(d) {
            let x = choose|x: int| 0 <= x < j.tasks.len() && is_handed_next(j, #[trigger] j.tasks[x], all, worker, d);
            assert(is_handed_next(jobs[jobs.len() - 1], jobs[jobs.len() - 1].tasks[x], all, worker, d));
        }
        if exists|k: int, x: int|
            0 <= k < jobs.len() && 0 <= x < jobs[k].tasks.len() && is_handed_next(
                jobs[k],
                #[trigger] jobs[k].tasks[x],
                all,
                worker,
                d,
            ) {
            let (k, x) = choose|k: int, x: int|
                0 <= k < jobs.len() && 0 <= x < jobs[k].tasks.len() && is_handed_next(
                    jobs[k],
                    #[trigger] jobs[k].tasks[x],
                    all,
                    worker,
                    d,
                );
            if k < rest.len() {
                assert(is_handed_next(rest[k], rest[k].tasks[x], all, worker, d));
            } else {
                assert(is_handed_next(j, j.tasks[x], all, worker, d));
            }
        }
    }
}

/// Whether a task waits, of a job that is not over, and its descriptor is planned for a
/// worker.
pub open spec fn is_handed_next(j: JobV, t: TaskV, all: Seq<DescriptorV>, worker: Seq<char>, d: DescriptorV) -> bool {
    !is_over(j.state) && is_waiting(t.state) && named(all, t.task_id) == Some(d) && lookup(d.config, "worker_id"@)
        == Some(worker)
}

proof fn lemma_waits_in(j: JobV, tasks: Seq<TaskV>, all: Seq<DescriptorV>, worker: Seq<char>, d: DescriptorV)
    ensures
        !is_over(j.state) ==> (pending_of_job(tasks, all, worker).contains(d) <==> exists|x: int|
            0 <= x < tasks.len() && is_handed_next(j, #[trigger] tasks[x], all, worker, d)),
    decreases tasks.len(),
{
    if tasks.len() == 0 {
        assert(!pending_of_job(tasks, all, worker).contains(d));
    } else {
        let rest = tasks.drop_last();
        lemma_waits_in(j, rest, all, worker, d);
        let h = pending_of_job(rest, all, worker);
        if named(all, tasks.last().task_id) is Some {
            lemma_push_contains(h, named(all, tasks.last().task_id)->0, d);
        }
        if !is_over(j.state) {
            if exists|x: int| 0 <= x < rest.len() && is_handed_next(j, #[trigger] rest[x], all, worker, d) {
                let x = choose|x: int| 0 <= x < rest.len() && is_handed_next(j, #[trigger] rest[x], all, worker, d);
                assert(is_handed_next(j, tasks[x], all, worker, d));
            }
            if exists|x: int| 0 <= x < tasks.len() && is_handed_next(j, #[trigger] tasks[x], all, worker, d) {
                let x = choose|x: int| 0 <= x < tasks.len() && is_handed_next(j, #[trigger] tasks[x], all, worker, d);
                if x < rest.len() {
                    assert(is_handed_next(j, rest[x], all, worker, d));
                }
            }
            assert(tasks[tasks.len() - 1] == tasks.last());
        }
    }
}

/// A task that was handed to a worker is on its way there, unless it runs on another one;
/// its job is deployed, if it waited until then. Nothing else changes.
pub proof fn law_handing_out(jobs: Seq<JobV>, worker: Seq<char>, k: int, x: int)
    requires
        unique_tasks(jobs),
        0 <= k < jobs.len(),
        0 <= x < jobs[k].tasks.len(),
    ensures
        ({
            let t = jobs[k].tasks[x];
            let r = dispatch_one(jobs, worker, t.task_id);
            &&& t.state is Running && t.worker_id != worker ==> r == jobs
            &&& !(t.state is Running && t.worker_id != worker) ==> {
                &&& r.len() == jobs.len()
                &&& forall|m: int| 0 <= m < jobs.len() && m != k ==> #[trigger] r[m] == jobs[m]
                &&& r[k].tasks == jobs[k].tasks.update(
                    x,
                    TaskV { state: StateV::Deploying, worker_id: worker, ..t },
                )
                &&& r[k].state == if is_waiting(jobs[k].state) { StateV::Deploying } else { jobs[k].state }
                &&& r[k] == (JobV { tasks: r[k].tasks, state: r[k].state, ..jobs[k] })
            }
        }),
        forall|id: Seq<char>|
            (forall|m: int, y: int|
                0 <= m < jobs.len() && 0 <= y < jobs[m].tasks.len() ==> (#[trigger] jobs[m].tasks[y]).task_id != id)
                ==> #[trigger] dispatch_one(jobs, worker, id) == jobs,
{
    lemma_task_at(jobs, k, x);
    let t = jobs[k].tasks[x];
    let u = TaskV { state: StateV::Deploying, worker_id: worker, ..t };
    assert(u.task_id == t.task_id);
    assert(put(jobs[k].tasks, u) == jobs[k].tasks.update(x, u));
    assert forall|id: Seq<char>|
        (forall|m: int, y: int|
            0 <= m < jobs.len() && 0 <= y < jobs[m].tasks.len() ==> (#[trigger] jobs[m].tasks[y]).task_id != id) implies #[trigger] dispatch_one(
        jobs,
        worker,
        id,
    ) == jobs by {
        lemma_unknown(jobs, id);
    }
}

proof fn lemma_unknown(jobs: Seq<JobV>, id: Seq<char>)
    requires
        forall|m: int, y: int|
            0 <= m < jobs.len() && 0 <= y < jobs[m].tasks.len() ==> (#[trigger] jobs[m].tasks[y]).task_id != id,
    ensures
        job_with_task(jobs, id) is None,
{
    lemma_job_with_task(jobs, id);
    match job_with_task(jobs, id) {
        Some(m) => {
            keyed::lemma_index_of(jobs[m].tasks, id);
            let y = index_of(jobs[m].tasks, id)->0;
            assert(jobs[m].tasks[y].task_id == id);
        },
        None => {},
    }
}

// ---------------------------------------------------------------------------
// Workers that come and go
// ---------------------------------------------------------------------------

/// A worker that is evicted loses its tasks: those that are with it, of jobs that are not
/// over, are on their way again, and are the ones that are named. All others stay.
pub proof fn law_eviction(jobs: Seq<JobV>, worker: Seq<char>, k: int, x: int, id: Seq<char>)
    requires
        0 <= k < jobs.len(),
        0 <= x < jobs[k].tasks.len(),
    ensures
        ({
            let j = jobs[k];
            let t = j.tasks[x];
            let r = evicted_job(j, worker);
            &&& is_over(j.state) ==> r == j
            &&& r == (JobV { tasks: r.tasks, ..j })
            &&& r.tasks.len() == j.tasks.len()
            &&& !is_over(j.state) && is_out(t.state) && t.worker_id == worker ==> r.tasks[x] == (TaskV {
                state: StateV::Deploying,
                ..t
            })
            &&& !(is_out(t.state) && t.worker_id == worker) ==> r.tasks[x] == t
        }),
        all_evicted_ids(jobs, worker).contains(id) <==> exists|m: int, y: int|
            0 <= m < jobs.len() && 0 <= y < jobs[m].tasks.len() && is_evicted(
                jobs[m],
                #[trigger] jobs[m].tasks[y],
                worker,
                id,
            ),
{
    lemma_evicted(jobs, worker, id);
}

/// Whether a task is taken from a worker that is evicted.
pub open spec fn is_evicted(j: JobV, t: TaskV, worker: Seq<char>, id: Seq<char>) -> bool {
    !is_over(j.state) && is_out(t.state) && t.worker_id == worker && t.task_id == id
}

proof fn lemma_evicted(jobs: Seq<JobV>, worker: Seq<char>, id: Seq<char>)
    ensures
        all_evicted_ids(jobs, worker).contains(id) <==> exists|m: int, y: int|
            0 <= m < jobs.len() && 0 <= y < jobs[m].tasks.len() && is_evicted(
                jobs[m],
                #[trigger] jobs[m].tasks[y],
                worker,
                id,
            ),
    decreases jobs.len(),
{
    if jobs.len() == 0 {
        assert(!all_evicted_ids(jobs, worker).contains(id));
    } else {
        let d = jobs.drop_last();
        let j = jobs.last();
        lemma_evicted(d, worker, id);
        lemma_evicted_in(j, j.tasks, worker, id);
        lemma_add_contains(all_evicted_ids(d, worker), evicted_ids(j.tasks, worker), id);
        if all_evicted_ids(d, worker).contains(id) {
            let (m, y) = choose|m: int, y: int|
                0 <= m < d.len() && 0 <= y < d[m].tasks.len() && is_evicted(d[m], #[trigger] d[m].tasks[y], worker, id);
            assert(is_evicted(jobs[m], jobs[m].tasks[y], worker, id));
        }
        if !is_over(j.state) && evicted_ids(j.tasks, worker).contains(id) {
            let y = choose|y: int| 0 <= y < j.tasks.len() && is_evicted(j, #[trigger] j.tasks[y], worker, id);
            assert(is_evicted(jobs[jobs.len() - 1], jobs[jobs.len() - 1].tasks[y], worker, id));
        }
        if exists|m: int, y: int|
            0 <= m < jobs.len() && 0 <= y < jobs[m].tasks.len() && is_evicted(
                jobs[m],
                #[trigger] jobs[m].tasks[y],
                worker,
                id,
            ) {
            let (m, y) = choose|m: int, y: int|
                0 <= m < jobs.len() && 0 <= y < jobs[m].tasks.len() && is_evicted(
                    jobs[m],
                    #[trigger] jobs[m].tasks[y],
                    worker,
                    id,
                );
            if m < d.len() {
                assert(is_evicted(d[m], d[m].tasks[y], worker, id));
            } else {
                assert(is_evicted(j, j.tasks[y], worker, id));
            }
        }
    }
}

proof fn lemma_evicted_in(j: JobV, tasks: Seq<TaskV>, worker: Seq<char>, id: Seq<char>)
    ensures
        !is_over(j.state) ==> (evicted_ids(tasks, worker).contains(id) <==> exists|y: int|
            0 <= y < tasks.len() && is_evicted(j, #[trigger] tasks[y], worker, id)),
    decreases tasks.len(),
{
    if tasks.len() == 0 {
        assert(!evicted_ids(tasks, worker).contains(id));
    } else {
        let d = tasks.drop_last();
        lemma_evicted_in(j, d, worker, id);
        lemma_push_contains(evicted_ids(d, worker), tasks.last().task_id, id);
        if !is_over(j.state) {
            if exists|y: int| 0 <= y < d.len() && is_evicted(j, #[trigger] d[y], worker, id) {
                let y = choose|y: int| 0 <= y < d.len() && is_evicted(j, #[trigger] d[y], worker, id);
                assert(is_evicted(j, tasks[y], worker, id));
            }
            if exists|y: int| 0 <= y < tasks.len() && is_evicted(j, #[trigger] tasks[y], worker, id) {
                let y = choose|y: int| 0 <= y < tasks.len() && is_evicted(j, #[trigger] tasks[y], worker, id);
                if y < d.len() {
                    assert(is_evicted(j, d[y], worker, id));
                }
            }
            assert(tasks[tasks.len() - 1] == tasks.last());
        }
    }
}

/// What becomes of a task that a worker reports as running. When it is planned for another
/// worker, the one that reports is to stop it, and it stays as it was. Else it is taken to
/// run there, unless it is known to run or has ended. A task that nobody knows is ignored.
pub proof fn law_reported_running(
    jobs: Seq<JobV>,
    fenced: Seq<Seq<char>>,
    all: Seq<DescriptorV>,
    worker: Seq<char>,
    k: int,
    x: int,
    i: int,
    owner: Seq<char>,
)
    requires
        unique_tasks(jobs),
        0 <= k < jobs.len(),
        0 <= x < jobs[k].tasks.len(),
        distinct(all),
        0 <= i < all.len(),
        all[i].task_id == jobs[k].tasks[x].task_id,
        lookup(all[i].config, "worker_id"@) == Some(owner),
    ensures
        ({
            let t = jobs[k].tasks[x];
            let r = register_one((jobs, fenced), all, worker, t.task_id);
            &&& owner != worker && owner.len() > 0 ==> r == (jobs, fenced.push(t.task_id))
            &&& owner == worker ==> r.1 == fenced && r.0.len() == jobs.len() && (forall|m: int|
                0 <= m < jobs.len() && m != k ==> #[trigger] r.0[m] == jobs[m]) && r.0[k] == (JobV {
                tasks: jobs[k].tasks.update(
                    x,
                    if is_waiting(t.state) || t.state is Deploying {
                        TaskV { state: StateV::Running, worker_id: worker, ..t }
                    } else {
                        t
                    },
                ),
                ..jobs[k]
            })
        }),
        forall|id: Seq<char>|
            (forall|m: int, y: int|
                0 <= m < jobs.len() && 0 <= y < jobs[m].tasks.len() ==> (#[trigger] jobs[m].tasks[y]).task_id != id)
                ==> #[trigger] register_one((jobs, fenced), all, worker, id) == (jobs, fenced),
{
    let t = jobs[k].tasks[x];
    lemma_task_at(jobs, k, x);
    keyed::lemma_index_of(all, t.task_id);
    assert(all[i].name() == t.task_id);
    let n = index_of(all, t.task_id)->0;
    if n != i {
        assert(all[n].name() == all[i].name());
    }
    let u = adopted_task(t, worker);
    assert(u.task_id == t.task_id);
    assert(put(jobs[k].tasks, u) == jobs[k].tasks.update(x, u));
    assert forall|id: Seq<char>|
        (forall|m: int, y: int|
            0 <= m < jobs.len() && 0 <= y < jobs[m].tasks.len() ==> (#[trigger] jobs[m].tasks[y]).task_id != id) implies #[trigger] register_one(
        (jobs, fenced),
        all,
        worker,
        id,
    ) == (jobs, fenced) by {
        lemma_unknown(jobs, id);
    }
}

/// Whether a record speaks of a task.
pub open spec fn speaks_of(s: StuckV, j: JobV, t: TaskV) -> bool {
    s.job_id == j.job_id && s.task_id == t.task_id && s.worker_id == t.worker_id && s.processed_records
        == t.processed_records
}

/// Whether a task should be with a worker that does not report it: one that is with the
/// worker, of a job that is not over; or, asked for cancelled jobs, one that runs there, of
/// a job that was cancelled.
pub open spec fn is_missing(j: JobV, t: TaskV, worker: Seq<char>, reported: Seq<Seq<char>>, cancelled: bool) -> bool {
    t.worker_id == worker && !reported.contains(t.task_id) && if cancelled {
        j.state is Cancelled && t.state is Running
    } else {
        !is_over(j.state) && is_out(t.state)
    }
}

proof fn lemma_missing_in(
    j: JobV,
    tasks: Seq<TaskV>,
    worker: Seq<char>,
    reported: Seq<Seq<char>>,
    cancelled: bool,
    s: StuckV,
)
    ensures
        lost_of_job(j, tasks, worker, reported, cancelled).contains(s) <==> exists|x: int|
            0 <= x < tasks.len() && is_missing(j, #[trigger] tasks[x], worker, reported, cancelled) && speaks_of(
                s,
                j,
                tasks[x],
            ),
    decreases tasks.len(),
{
    if tasks.len() == 0 {
        assert(!lost_of_job(j, tasks, worker, reported, cancelled).contains(s));
    } else {
        let d = tasks.drop_last();
        let t = tasks.last();
        lemma_missing_in(j, d, worker, reported, cancelled, s);
        lemma_push_contains(
            lost_of_job(j, d, worker, reported, cancelled),
            StuckV {
                job_id: j.job_id,
                task_id: t.task_id,
                worker_id: t.worker_id,
                processed_records: t.processed_records,
            },
            s,
        );
        if exists|x: int|
            0 <= x < d.len() && is_missing(j, #[trigger] d[x], worker, reported, cancelled) && speaks_of(s, j, d[x]) {
            let x = choose|x: int|
                0 <= x < d.len() && is_missing(j, #[trigger] d[x], worker, reported, cancelled) && speaks_of(s, j, d[x]);
            assert(is_missing(j, tasks[x], worker, reported, cancelled) && speaks_of(s, j, tasks[x]));
        }
        if exists|x: int|
            0 <= x < tasks.len() && is_missing(j, #[trigger] tasks[x], worker, reported, cancelled) && speaks_of(
                s,
                j,
                tasks[x],
            ) {
            let x = choose|x: int|
                0 <= x < tasks.len() && is_missing(j, #[trigger] tasks[x], worker, reported, cancelled) && speaks_of(
                    s,
                    j,
                    tasks[x],
                );
            if x < d.len() {
                assert(is_missing(j, d[x], worker, reported, cancelled) && speaks_of(s, j, d[x]));
            }
        }
        assert(tasks[tasks.len() - 1] == t);
    }
}

/// The tasks that a worker has lost are exactly those that should be with it and that it
/// does not report.
pub proof fn law_lost_tasks(jobs: Seq<JobV>, worker: Seq<char>, reported: Seq<Seq<char>>, cancelled: bool, s: StuckV)
    ensures
        lost_of_jobs(jobs, worker, reported, cancelled).contains(s) <==> exists|k: int, x: int|
            0 <= k < jobs.len() && 0 <= x < jobs[k].tasks.len() && is_missing(
                jobs[k],
                #[trigger] jobs[k].tasks[x],
                worker,
                reported,
                cancelled,
            ) && speaks_of(s, jobs[k], jobs[k].tasks[x]),
    decreases jobs.len(),
{
    if jobs.len() == 0 {
        assert(!lost_of_jobs(jobs, worker, reported, cancelled).contains(s));
    } else {
        let d = jobs.drop_last();
        let j = jobs.last();
        law_lost_tasks(d, worker, reported, cancelled, s);
        lemma_missing_in(j, j.tasks, worker, reported, cancelled, s);
        let a = lost_of_jobs(d, worker, reported, cancelled);
        let b = lost_of_job(j, j.tasks, worker, reported, cancelled);
        lemma_add_contains(a, b, s);
        if a.contains(s) {
            let (k, x) = choose|k: int, x: int|
                0 <= k < d.len() && 0 <= x < d[k].tasks.len() && is_missing(
                    d[k],
                    #[trigger] d[k].tasks[x],
                    worker,
                    reported,
                    cancelled,
                ) && speaks_of(s, d[k], d[k].tasks[x]);
            assert(is_missing(jobs[k], jobs[k].tasks[x], worker, reported, cancelled));
        }
        if b.contains(s) {
            let x = choose|x: int|
                0 <= x < j.tasks.len() && is_missing(j, #[trigger] j.tasks[x], worker, reported, cancelled) && speaks_of(
                    s,
                    j,
                    j.tasks[x],
                );
            assert(is_missing(jobs[jobs.len() - 1], jobs[jobs.len() - 1].tasks[x], worker, reported, cancelled));
        }
        if exists|k: int, x: int|
            0 <= k < jobs.len() && 0 <= x < jobs[k].tasks.len() && is_missing(
                jobs[k],
                #[trigger] jobs[k].tasks[x],
                worker,
                reported,
                cancelled,
            ) && speaks_of(s, jobs[k], jobs[k].tasks[x]) {
            let (k, x) = choose|k: int, x: int|
                0 <= k < jobs.len() && 0 <= x < jobs[k].tasks.len() && is_missing(
                    jobs[k],
                    #[trigger] jobs[k].tasks[x],
                    worker,
                    reported,
                    cancelled,
                ) && speaks_of(s, jobs[k], jobs[k].tasks[x]);
            if k < d.len() {
                assert(is_missing(d[k], d[k].tasks[x], worker, reported, cancelled) && speaks_of(s, d[k], d[k].tasks[x]));
            } else {
                assert(is_missing(j, j.tasks[x], worker, reported, cancelled) && speaks_of(s, j, j.tasks[x]));
            }
        }
    }
}

/// A task that is released waits again, when it is with the worker that lost it, is named,
/// and its job is not over. All others stay.
pub proof fn law_releasing(j: JobV, worker: Seq<char>, ids: Seq<Seq<char>>, x: int)
    requires
        0 <= x < j.tasks.len(),
    ensures
        ({
            let t = j.tasks[x];
            let r = released_job(j, worker, ids);
            &&& is_over(j.state) ==> r == j
            &&& r == (JobV { tasks: r.tasks, ..j })
            &&& r.tasks.len() == j.tasks.len()
            &&& r.tasks[x] == if !is_over(j.state) && is_out(t.state) && t.worker_id == worker && ids.contains(t.task_id) {
                TaskV { state: StateV::Scheduled, ..t }
            } else {
                t
            }
        }),
{
}

/// The tasks that are given up for a cancelled job: those that have not ended, once the
/// job was cancelled longer ago than the timeout.
pub proof fn law_overdue_cancellations(jobs: Seq<JobV>, timeout: u64, now: i64, s: StuckV)
    ensures
        overdue(jobs, timeout, now).contains(s) <==> exists|k: int, x: int|
            0 <= k < jobs.len() && 0 <= x < jobs[k].tasks.len() && is_given_up(
                jobs[k],
                #[trigger] jobs[k].tasks[x],
                timeout,
                now,
            ) && speaks_of(s, jobs[k], jobs[k].tasks[x]),
    decreases jobs.len(),
{
    if jobs.len() == 0 {
        assert(!overdue(jobs, timeout, now).contains(s));
    } else {
        let d = jobs.drop_last();
        let j = jobs.last();
        law_overdue_cancellations(d, timeout, now, s);
        lemma_unended_in(j, j.tasks, s);
        let a = overdue(d, timeout, now);
        let b = unended(j, j.tasks);
        lemma_add_contains(a, b, s);
        if a.contains(s) {
            let (k, x) = choose|k: int, x: int|
                0 <= k < d.len() && 0 <= x < d[k].tasks.len() && is_given_up(d[k], #[trigger] d[k].tasks[x], timeout, now)
                    && speaks_of(s, d[k], d[k].tasks[x]);
            assert(is_given_up(jobs[k], jobs[k].tasks[x], timeout, now));
        }
        if b.contains(s) {
            let x = choose|x: int|
                0 <= x < j.tasks.len() && !is_over((#[trigger] j.tasks[x]).state) && speaks_of(s, j, j.tasks[x]);
            assert(jobs[jobs.len() - 1].tasks[x] == j.tasks[x]);
        }
        if exists|k: int, x: int|
            0 <= k < jobs.len() && 0 <= x < jobs[k].tasks.len() && is_given_up(
                jobs[k],
                #[trigger] jobs[k].tasks[x],
                timeout,
                now,
            ) && speaks_of(s, jobs[k], jobs[k].tasks[x]) {
            let (k, x) = choose|k: int, x: int|
                0 <= k < jobs.len() && 0 <= x < jobs[k].tasks.len() && is_given_up(
                    jobs[k],
                    #[trigger] jobs[k].tasks[x],
                    timeout,
                    now,
                ) && speaks_of(s, jobs[k], jobs[k].tasks[x]);
            if k < d.len() {
                assert(is_given_up(d[k], d[k].tasks[x], timeout, now) && speaks_of(s, d[k], d[k].tasks[x]));
            } else {
                assert(!is_over(j.tasks[x].state) && speaks_of(s, j, j.tasks[x]));
            }
        }
    }
}

/// Whether a task has not ended though its job was cancelled longer ago than a timeout.
pub open spec fn is_given_up(j: JobV, t: TaskV, timeout: u64, now: i64) -> bool {
    j.state is Cancelled && (j.end_time matches Some(at) && now - at > timeout) && !is_over(t.state)
}

proof fn lemma_unended_in(j: JobV, tasks: Seq<TaskV>, s: StuckV)
    ensures
        unended(j, tasks).contains(s) <==> exists|x: int|
            0 <= x < tasks.len() && !is_over((#[trigger] tasks[x]).state) && speaks_of(s, j, tasks[x]),
    decreases tasks.len(),
{
    if tasks.len() == 0 {
        assert(!unended(j, tasks).contains(s));
    } else {
        let d = tasks.drop_last();
        let t = tasks.last();
        lemma_unended_in(j, d, s);
        lemma_push_contains(
            unended(j, d),
            StuckV {
                job_id: j.job_id,
                task_id: t.task_id,
                worker_id: t.worker_id,
                processed_records: t.processed_records,
            },
            s,
        );
        if exists|x: int| 0 <= x < d.len() && !is_over((#[trigger] d[x]).state) && speaks_of(s, j, d[x]) {
            let x = choose|x: int| 0 <= x < d.len() && !is_over((#[trigger] d[x]).state) && speaks_of(s, j, d[x]);
            assert(tasks[x] == d[x]);
        }
        if exists|x: int| 0 <= x < tasks.len() && !is_over((#[trigger] tasks[x]).state) && speaks_of(s, j, tasks[x]) {
            let x = choose|x: int| 0 <= x < tasks.len() && !is_over((#[trigger] tasks[x]).state) && speaks_of(s, j, tasks[x]);
            if x < d.len() {
                assert(d[x] == tasks[x]);
            }
        }
        assert(tasks[tasks.len() - 1] == t);
    }
}

// ---------------------------------------------------------------------------
// Reports
// ---------------------------------------------------------------------------

/// A report of a task sets its state and its error, and its records never go back; the
/// other tasks stay as they are.
pub proof fn law_report_of_a_task(
    j: JobV,
    x: int,
    state: StateV,
    records: u64,
    error: Option<Seq<char>>,
    now: i64,
)
    requires
        distinct(j.tasks),
        0 <= x < j.tasks.len(),
    ensures
        ({
            let t = j.tasks[x];
            let r = reported_job(j, t.task_id, state, records, error, now);
            r.tasks == j.tasks.update(
                x,
                TaskV {
                    state,
                    error,
                    processed_records: if records > t.processed_records { records } else { t.processed_records },
                    ..t
                },
            )
        }),
{
    let t = j.tasks[x];
    keyed::lemma_index_of(j.tasks, t.task_id);
    assert(t.name() == t.task_id);
    let y = index_of(j.tasks, t.task_id)->0;
    if y != x {
        assert(j.tasks[y].name() == j.tasks[x].name());
    }
}

/// How a job that is not over goes by its tasks. It fails with the first of them that
/// failed, for its reason; it completes when it has tasks and all have completed; it runs
/// when one is with a worker or has completed; and else it stays as it is.
pub proof fn law_job_goes_by_its_tasks(j: JobV, now: i64, x: int)
    requires
        !is_over(j.state),
    ensures
        ({
            let r = rolled_up(j, now);
            let none_failed = forall|y: int| 0 <= y < j.tasks.len() ==> !((#[trigger] j.tasks[y]).state is Failed);
            let all_done = forall|y: int| 0 <= y < j.tasks.len() ==> (#[trigger] j.tasks[y]).state is Completed;
            let some_out = exists|y: int|
                0 <= y < j.tasks.len() && (is_out((#[trigger] j.tasks[y]).state) || j.tasks[y].state is Completed);
            &&& r.tasks == j.tasks && r.job_id == j.job_id
            &&& 0 <= x < j.tasks.len() && j.tasks[x].state is Failed && (forall|y: int|
                0 <= y < x ==> !((#[trigger] j.tasks[y]).state is Failed)) ==> {
                let reason = match j.tasks[x].error {
                    Some(e) => e,
                    None => "task failed"@,
                };
                r.state == StateV::Failed(reason) && r.error_message == Some(reason) && r.end_time == Some(now)
            }
            &&& none_failed && j.tasks.len() > 0 && all_done ==> r.state is Completed && r.end_time == Some(now)
            &&& none_failed && !all_done && some_out ==> r == (JobV { state: StateV::Running, ..j })
            &&& none_failed && !some_out ==> r == j
        }),
{
    lemma_first_failed(j.tasks);
    if 0 <= x < j.tasks.len() && j.tasks[x].state is Failed && (forall|y: int|
        0 <= y < x ==> !((#[trigger] j.tasks[y]).state is Failed)) {
        lemma_the_first(j.tasks, x);
    }
    if forall|y: int| 0 <= y < j.tasks.len() ==> !((#[trigger] j.tasks[y]).state is Failed) {
        lemma_none_failed(j.tasks);
    }
    if j.tasks.len() > 0 && forall|y: int| 0 <= y < j.tasks.len() ==> (#[trigger] j.tasks[y]).state is Completed {
        assert(j.tasks[0].state is Completed);
    }
}

proof fn lemma_the_first(tasks: Seq<TaskV>, x: int)
    requires
        0 <= x < tasks.len(),
        tasks[x].state is Failed,
        forall|y: int| 0 <= y < x ==> !((#[trigger] tasks[y]).state is Failed),
    ensures
        crate::task_reports::first_failed(tasks) == Some(tasks[x]),
    decreases tasks.len(),
{
    let d = tasks.drop_last();
    if x < d.len() {
        assert forall|y: int| 0 <= y < x implies !((#[trigger] d[y]).state is Failed) by {
            assert(d[y] == tasks[y]);
        }
        lemma_the_first(d, x);
    } else {
        assert forall|y: int| 0 <= y < d.len() implies !((#[trigger] d[y]).state is Failed) by {
            assert(d[y] == tasks[y]);
        }
        lemma_none_failed(d);
    }
}

proof fn lemma_none_failed(tasks: Seq<TaskV>)
    requires
        forall|y: int| 0 <= y < tasks.len() ==> !((#[trigger] tasks[y]).state is Failed),
    ensures
        crate::task_reports::first_failed(tasks) is None,
    decreases tasks.len(),
{
    if tasks.len() > 0 {
        let d = tasks.drop_last();
        assert forall|y: int| 0 <= y < d.len() implies !((#[trigger] d[y]).state is Failed) by {
            assert(d[y] == tasks[y]);
        }
        lemma_none_failed(d);
        assert(!(tasks[tasks.len() - 1].state is Failed));
    }
}

/// What a heartbeat says of a task: its records and its checkpoint never go back, its
/// worker and the time of its last record are noted when they are given, its measurements
/// replace the ones before, and its lines are added while its job is not over. Its state
/// and its error stay.
pub proof fn law_metrics_of_a_task(
    t: TaskV,
    over: bool,
    records: u64,
    at: i64,
    lines: Seq<Seq<char>>,
    worker: Seq<char>,
    id: u64,
    size: u64,
    sink_metrics: Option<crate::json::JsonV>,
)
    ensures
        ({
            let r = metered_task(t, over, records, at, lines, worker, id, size, sink_metrics);
            &&& r.task_id == t.task_id && r.stage_id == t.stage_id && r.state == t.state && r.error == t.error
            &&& records > t.processed_records ==> r.processed_records == records
            &&& records <= t.processed_records ==> r.processed_records == t.processed_records
            &&& worker.len() > 0 ==> r.worker_id == worker
            &&& worker.len() == 0 ==> r.worker_id == t.worker_id
            &&& at > 0 ==> r.last_record_at == at
            &&& at <= 0 ==> r.last_record_at == t.last_record_at
            &&& id > t.last_checkpoint_id ==> r.last_checkpoint_id == id && r.last_checkpoint_size == size
            &&& id <= t.last_checkpoint_id ==> r.last_checkpoint_id == t.last_checkpoint_id && r.last_checkpoint_size
                == t.last_checkpoint_size
            &&& over || lines.len() == 0 ==> r.logs == t.logs
            &&& !over && lines.len() > 0 && t.logs.len() + lines.len() <= crate::job::TASK_LOG_RETAIN ==> r.logs == t.logs
                + lines
            &&& sink_metrics is Some ==> r.sink_metrics == sink_metrics
            &&& sink_metrics is None ==> r.sink_metrics == t.sink_metrics
        }),
{
    if t.logs.len() + lines.len() <= crate::job::TASK_LOG_RETAIN {
        assert(crate::job::logs_appended(t.logs, lines) =~= t.logs + lines);
    }
}

// ---------------------------------------------------------------------------
// Placement
// ---------------------------------------------------------------------------

/// How the workers stand, the one under the least pressure first.
pub open spec fn ranked(workers: Seq<EntryV>) -> Seq<Standing> {
    by_pressure(workers.map_values(|e: EntryV| (e.worker_id, e.address, e.load_score, e.can_accept)))
}

/// Workers are offered for placement with those first that accept tasks, and among equals
/// with the lower load first; none is left out.
pub proof fn law_placement(workers: Seq<EntryV>)
    ensures
        ranked(workers).len() == workers.len(),
        placement(workers).len() == workers.len(),
        forall|i: int|
            0 <= i < workers.len() ==> #[trigger] placement(workers)[i] == (ranked(workers)[i].0, ranked(workers)[i].1),
        forall|i: int, j: int|
            0 <= i < j < workers.len() ==> ((#[trigger] ranked(workers)[j]).3 ==> (#[trigger] ranked(workers)[i]).3),
        forall|i: int, j: int|
            0 <= i < j < workers.len() && (#[trigger] ranked(workers)[i]).3 == (#[trigger] ranked(workers)[j]).3
                ==> ranked(workers)[i].2 <= ranked(workers)[j].2,
        forall|i: int|
            0 <= i < workers.len() ==> ranked(workers).contains(
                ((#[trigger] workers[i]).worker_id, workers[i].address, workers[i].load_score, workers[i].can_accept),
            ),
{
    let m = workers.map_values(|e: EntryV| (e.worker_id, e.address, e.load_score, e.can_accept));
    law_by_pressure(m);
    let s = ranked(workers);
    m.to_multiset_ensures();
    s.to_multiset_ensures();
    assert(s.len() == m.len());
    assert forall|i: int, j: int| 0 <= i < j < workers.len() implies ((#[trigger] s[j]).3 ==> (#[trigger] s[i]).3) && (
    s[i].3 == s[j].3 ==> s[i].2 <= s[j].2) by {
        assert(!crate::placement::lighter(by_pressure(m)[j], by_pressure(m)[i]));
    }
    assert forall|i: int| 0 <= i < workers.len() implies s.contains(
        ((#[trigger] workers[i]).worker_id, workers[i].address, workers[i].load_score, workers[i].can_accept),
    ) by {
        let e = m[i];
        assert(m.contains(e));
        assert(s.to_multiset().count(e) > 0);
    }
}

} // verus!
