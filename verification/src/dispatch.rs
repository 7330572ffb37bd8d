//! Handing tasks to workers: pending tasks, takeover of orphaned tasks, eviction
//! of dead workers, and fencing of workers that come back.

use vstd::prelude::*;

use crate::job::{DescriptorV, JobState, JobV, RunningJob, StateV, TaskDescriptor, TaskV};
use crate::job_coordinator::{CoordinatorV, JobCoordinator};
use crate::keyed;
use crate::keyed::{index_of, named, put, values};
use crate::props::{assign, lookup};
use crate::text;

verus! {

// ---------------------------------------------------------------------------
// Finding tasks
// ---------------------------------------------------------------------------

/// The position of the first job that has a task.
pub open spec fn job_with_task(jobs: Seq<JobV>, task_id: Seq<char>) -> Option<int>
    decreases jobs.len(),
{
    if jobs.len() == 0 {
        None
    } else {
        match job_with_task(jobs.drop_last(), task_id) {
            Some(i) => Some(i),
            None => if index_of(jobs.last().tasks, task_id) is Some { Some(jobs.len() - 1) } else { None },
        }
    }
}

/// Where `job_with_task` points.
pub proof fn lemma_job_with_task(jobs: Seq<JobV>, task_id: Seq<char>)
    ensures
        match job_with_task(jobs, task_id) {
            Some(i) => 0 <= i < jobs.len() && index_of(jobs[i].tasks, task_id) is Some && (forall|k: int|
                0 <= k < i ==> index_of((#[trigger] jobs[k]).tasks, task_id) is None),
            None => forall|k: int| 0 <= k < jobs.len() ==> index_of((#[trigger] jobs[k]).tasks, task_id) is None,
        },
    decreases jobs.len(),
{
    if jobs.len() > 0 {
        lemma_job_with_task(jobs.drop_last(), task_id);
        match job_with_task(jobs.drop_last(), task_id) {
            Some(i) => {
                assert forall|k: int| 0 <= k < i implies index_of((#[trigger] jobs[k]).tasks, task_id) is None by {
                    assert(jobs.drop_last()[k] == jobs[k]);
                }
            },
            None => {
                assert forall|k: int| 0 <= k < jobs.len() - 1 implies index_of((#[trigger] jobs[k]).tasks, task_id) is None by {
                    assert(jobs.drop_last()[k] == jobs[k]);
                }
            },
        }
    }
}

/// A job with one of its tasks replaced.
pub open spec fn with_task(j: JobV, t: TaskV) -> JobV {
    JobV { tasks: put(j.tasks, t), ..j }
}

/// The worker that a task is assigned to; empty when there is none.
pub open spec fn owner_of(tasks: Seq<DescriptorV>, task_id: Seq<char>) -> Seq<char> {
    match named(tasks, task_id) {
        Some(d) => match lookup(d.config, "worker_id"@) {
            Some(w) => w,
            None => Seq::empty(),
        },
        None => Seq::empty(),
    }
}

// ---------------------------------------------------------------------------
// Pending tasks
// ---------------------------------------------------------------------------

/// Whether some task has not ended.
pub open spec fn unsettled(tasks: Seq<TaskV>) -> bool {
    exists|i: int| 0 <= i < tasks.len() && !(#[trigger] tasks[i]).state.terminal()
}

/// The ids of the cancelled jobs that still have tasks to be stopped.
pub open spec fn cancelled_ids(jobs: Seq<JobV>) -> Seq<Seq<char>>
    decreases jobs.len(),
{
    if jobs.len() == 0 {
        Seq::empty()
    } else {
        let head = cancelled_ids(jobs.drop_last());
        if jobs.last().state is Cancelled && unsettled(jobs.last().tasks) {
            head.push(jobs.last().job_id)
        } else {
            head
        }
    }
}

/// The descriptors of those tasks of a job that were never handed out and are
/// assigned to `worker`.
pub open spec fn pending_of_job(tasks: Seq<TaskV>, all: Seq<DescriptorV>, worker: Seq<char>) -> Seq<DescriptorV>
    decreases tasks.len(),
{
    if tasks.len() == 0 {
        Seq::empty()
    } else {
        let head = pending_of_job(tasks.drop_last(), all, worker);
        let t = tasks.last();
        match named(all, t.task_id) {
            Some(d) => if t.state.undispatched() && lookup(d.config, "worker_id"@) == Some(worker) {
                head.push(d)
            } else {
                head
            },
            None => head,
        }
    }
}

/// The same over all jobs that are not in a terminal state.
pub open spec fn pending_of_jobs(jobs: Seq<JobV>, all: Seq<DescriptorV>, worker: Seq<char>) -> Seq<DescriptorV>
    decreases jobs.len(),
{
    if jobs.len() == 0 {
        Seq::empty()
    } else {
        let head = pending_of_jobs(jobs.drop_last(), all, worker);
        let j = jobs.last();
        if j.state.terminal() {
            head
        } else {
            head + pending_of_job(j.tasks, all, worker)
        }
    }
}

// ---------------------------------------------------------------------------
// Claims
// ---------------------------------------------------------------------------

/// How a worker stands when tasks are claimed.
#[derive(Debug, Clone, Copy, PartialEq, Eq, Structural)]
pub enum WorkerState {
    /// Alive and accepting.
    Healthy,
    /// Alive and over a pressure watermark: what it was not handed yet may be
    /// taken over.
    Overloaded,
    /// Gone: whatever it had may be taken over.
    Dead,
}

/// Whether a liveness test accepts a worker.
pub open spec fn is_live<F: Fn(&str) -> bool>(live: F, worker: Seq<char>) -> bool {
    exists|s: &str| s@ == worker && #[trigger] live.ensures((s,), true)
}

/// Whether a liveness test can be asked about every worker, and its answer is a
/// function of the worker's id.
pub open spec fn is_test<F: Fn(&str) -> bool>(live: F) -> bool {
    &&& forall|s: &str| #[trigger] live.requires((s,))
    &&& forall|s: &str, t: &str, a: bool, b: bool|
        s@ == t@ && #[trigger] live.ensures((s,), a) && #[trigger] live.ensures((t,), b) ==> a == b
}

/// The liveness test as a function of worker ids.
pub open spec fn test_of<F: Fn(&str) -> bool>(live: F) -> spec_fn(Seq<char>) -> WorkerState {
    |w: Seq<char>| if is_live(live, w) { WorkerState::Healthy } else { WorkerState::Dead }
}

/// Whether a function can be asked about every worker and answers as `standing`
/// does.
pub open spec fn answers<G: Fn(&str) -> WorkerState>(g: G, standing: spec_fn(Seq<char>) -> WorkerState) -> bool {
    &&& forall|s: &str| #[trigger] g.requires((s,))
    &&& forall|s: &str, a: WorkerState| #[trigger] g.ensures((s,), a) ==> a == standing(s@)
}

/// All descriptors, and those handed out so far.
#[verifier::ext_equal]
pub struct ClaimV {
    pub all: Seq<DescriptorV>,
    pub out: Seq<DescriptorV>,
}

/// A descriptor that now belongs to another worker.
pub open spec fn reassigned(d: DescriptorV, worker: Seq<char>, address: Seq<char>) -> DescriptorV {
    DescriptorV {
        config: assign(assign(d.config, "worker_id"@, worker), "worker_address"@, address),
        ..d
    }
}

/// Whether a task may be handed out: it never was, or its worker is dead.
pub open spec fn claimable(t: TaskV, live: spec_fn(Seq<char>) -> WorkerState) -> bool {
    t.state.undispatched() || (t.state.active() && live(t.worker_id) is Dead)
}

/// One task in a claim by `worker`: its own tasks are handed out as they are;
/// those of a dead worker, and those that an overloaded one was not handed yet,
/// are reassigned to it first.
pub open spec fn claim_task(
    c: ClaimV,
    t: TaskV,
    worker: Seq<char>,
    address: Seq<char>,
    live: spec_fn(Seq<char>) -> WorkerState,
) -> ClaimV {
    match index_of(c.all, t.task_id) {
        Some(i) => {
            let d = c.all[i];
            let owner = lookup(d.config, "worker_id"@);
            let owner_id = match owner {
                Some(w) => w,
                None => ""@,
            };
            if !claimable(t, live) {
                c
            } else if owner == Some(worker) {
                ClaimV { all: c.all, out: c.out.push(d) }
            } else if live(owner_id) is Dead || (t.state.undispatched() && live(owner_id) is Overloaded) {
                let n = reassigned(d, worker, address);
                ClaimV { all: c.all.update(i, n), out: c.out.push(n) }
            } else {
                c
            }
        },
        None => c,
    }
}

/// The tasks of one job in a claim.
pub open spec fn claim_tasks(
    c: ClaimV,
    tasks: Seq<TaskV>,
    worker: Seq<char>,
    address: Seq<char>,
    live: spec_fn(Seq<char>) -> WorkerState,
) -> ClaimV
    decreases tasks.len(),
{
    if tasks.len() == 0 {
        c
    } else {
        claim_task(claim_tasks(c, tasks.drop_last(), worker, address, live), tasks.last(), worker, address, live)
    }
}

/// All jobs in a claim; those in a terminal state are passed over.
pub open spec fn claim_jobs(
    c: ClaimV,
    jobs: Seq<JobV>,
    worker: Seq<char>,
    address: Seq<char>,
    live: spec_fn(Seq<char>) -> WorkerState,
) -> ClaimV
    decreases jobs.len(),
{
    if jobs.len() == 0 {
        c
    } else {
        let head = claim_jobs(c, jobs.drop_last(), worker, address, live);
        if jobs.last().state.terminal() {
            head
        } else {
            claim_tasks(head, jobs.last().tasks, worker, address, live)
        }
    }
}

// ---------------------------------------------------------------------------
// Eviction, fencing, dispatch
// ---------------------------------------------------------------------------

/// A task after the eviction of `worker`.
pub open spec fn evicted_task(t: TaskV, worker: Seq<char>) -> TaskV {
    if t.worker_id == worker && t.state.active() {
        TaskV { state: StateV::Deploying, ..t }
    } else {
        t
    }
}

/// A job after the eviction of `worker`.
pub open spec fn evicted_job(j: JobV, worker: Seq<char>) -> JobV {
    if j.state.terminal() {
        j
    } else {
        JobV { tasks: j.tasks.map_values(|t: TaskV| evicted_task(t, worker)), ..j }
    }
}

/// The tasks of a job that the eviction of `worker` releases.
pub open spec fn evicted_ids(tasks: Seq<TaskV>, worker: Seq<char>) -> Seq<Seq<char>>
    decreases tasks.len(),
{
    if tasks.len() == 0 {
        Seq::empty()
    } else {
        let head = evicted_ids(tasks.drop_last(), worker);
        let t = tasks.last();
        if t.worker_id == worker && t.state.active() {
            head.push(t.task_id)
        } else {
            head
        }
    }
}

/// The tasks that the eviction of `worker` releases.
pub open spec fn all_evicted_ids(jobs: Seq<JobV>, worker: Seq<char>) -> Seq<Seq<char>>
    decreases jobs.len(),
{
    if jobs.len() == 0 {
        Seq::empty()
    } else {
        let head = all_evicted_ids(jobs.drop_last(), worker);
        if jobs.last().state.terminal() {
            head
        } else {
            head + evicted_ids(jobs.last().tasks, worker)
        }
    }
}

/// A task that a returning worker reports as running and that is still its own.
pub open spec fn adopted_task(t: TaskV, worker: Seq<char>) -> TaskV {
    if t.state is Created || t.state is Scheduled || t.state is Deploying {
        TaskV { state: StateV::Running, worker_id: worker, ..t }
    } else {
        t
    }
}

/// One reported task: fenced when it belongs to another worker, else adopted.
pub open spec fn register_one(
    acc: (Seq<JobV>, Seq<Seq<char>>),
    all: Seq<DescriptorV>,
    worker: Seq<char>,
    id: Seq<char>,
) -> (Seq<JobV>, Seq<Seq<char>>) {
    match job_with_task(acc.0, id) {
        Some(i) => {
            let owner = owner_of(all, id);
            if owner != worker && owner.len() > 0 {
                (acc.0, acc.1.push(id))
            } else {
                let t = named(acc.0[i].tasks, id)->0;
                (acc.0.update(i, with_task(acc.0[i], adopted_task(t, worker))), acc.1)
            }
        },
        None => acc,
    }
}

/// All reported tasks, one after the other.
pub open spec fn register_all(
    acc: (Seq<JobV>, Seq<Seq<char>>),
    all: Seq<DescriptorV>,
    worker: Seq<char>,
    ids: Seq<Seq<char>>,
) -> (Seq<JobV>, Seq<Seq<char>>)
    decreases ids.len(),
{
    if ids.len() == 0 {
        acc
    } else {
        register_one(register_all(acc, all, worker, ids.drop_last()), all, worker, ids.last())
    }
}

/// A job one of whose tasks was handed to `worker`.
pub open spec fn dispatched_job(j: JobV, t: TaskV, worker: Seq<char>) -> JobV {
    JobV {
        tasks: put(j.tasks, TaskV { state: StateV::Deploying, worker_id: worker, ..t }),
        state: if j.state.undispatched() { StateV::Deploying } else { j.state },
        ..j
    }
}

/// Whether a task is known to run on another worker.
pub open spec fn runs_elsewhere(t: TaskV, worker: Seq<char>) -> bool {
    t.state is Running && t.worker_id != worker
}

/// The jobs after one task was handed out. A task that runs on another worker stays
/// with it.
pub open spec fn dispatch_one(jobs: Seq<JobV>, worker: Seq<char>, id: Seq<char>) -> Seq<JobV> {
    match job_with_task(jobs, id) {
        Some(i) => {
            let t = named(jobs[i].tasks, id)->0;
            if runs_elsewhere(t, worker) { jobs } else { jobs.update(i, dispatched_job(jobs[i], t, worker)) }
        },
        None => jobs,
    }
}

/// The jobs after some tasks were handed out.
pub open spec fn dispatch_all(jobs: Seq<JobV>, worker: Seq<char>, ids: Seq<Seq<char>>) -> Seq<JobV>
    decreases ids.len(),
{
    if ids.len() == 0 {
        jobs
    } else {
        dispatch_one(dispatch_all(jobs, worker, ids.drop_last()), worker, ids.last())
    }
}

fn evict_from(job: &mut RunningJob, worker_id: &str, affected: &mut Vec<String>)
    ensures
        final(job)@ == evicted_job(old(job)@, worker_id@),
        text::views(final(affected)@) == text::views(old(affected)@) + (if old(job)@.state.terminal() {
            Seq::empty()
        } else {
            evicted_ids(old(job)@.tasks, worker_id@)
        }),
{
    let ghost j = job@;
    let ghost base = text::views(affected@);
    if job.state.is_terminal() {
        assert(base + Seq::<Seq<char>>::empty() =~= base);
        return;
    }
    let mut i: usize = 0;
    proof {
        assert(j.tasks.take(0) =~= Seq::empty());
        assert(base + evicted_ids(j.tasks.take(0), worker_id@) =~= base);
    }
    while i < job.tasks.len()
        invariant
            i <= job.tasks@.len(),
            job.tasks@.len() == j.tasks.len(),
            job@ == (JobV { tasks: job@.tasks, ..j }),
            forall|k: int| 0 <= k < i ==> #[trigger] job.tasks@[k]@ == evicted_task(j.tasks[k], worker_id@),
            forall|k: int| i <= k < j.tasks.len() ==> #[trigger] job.tasks@[k]@ == j.tasks[k],
            text::views(affected@) == base + evicted_ids(j.tasks.take(i as int), worker_id@),
        decreases job.tasks@.len() - i,
    {
        proof {
            assert(j.tasks.take(i + 1).drop_last() =~= j.tasks.take(i as int));
            assert(j.tasks.take(i + 1).last() == j.tasks[i as int]);
            assert(job.tasks@[i as int]@ == j.tasks[i as int]);
        }
        if text::same(job.tasks[i].worker_id.as_str(), worker_id) && job.tasks[i].state.is_active() {
            let ghost prev = affected@;
            let id = job.tasks[i].task_id.clone();
            affected.push(id);
            job.tasks[i].state = JobState::Deploying;
            proof {
                assert(text::views(affected@) =~= text::views(prev).push(id@));
                assert(base + evicted_ids(j.tasks.take(i + 1), worker_id@) =~= (base + evicted_ids(
                    j.tasks.take(i as int),
                    worker_id@,
                )).push(id@));
            }
        }
        i += 1;
    }
    proof {
        assert(j.tasks.take(j.tasks.len() as int) =~= j.tasks);
        assert(job@.tasks =~= j.tasks.map_values(|t: TaskV| evicted_task(t, worker_id@)));
    }
}

/// Whether some task of a job has not ended.
pub fn is_unsettled(job: &RunningJob) -> (r: bool)
    ensures
        r == unsettled(job@.tasks),
{
    let ghost tasks = job@.tasks;
    let mut i: usize = 0;
    while i < job.tasks.len()
        invariant
            i <= job.tasks@.len(),
            tasks == values(job.tasks@),
            forall|k: int| 0 <= k < i ==> (#[trigger] tasks[k]).state.terminal(),
        decreases job.tasks@.len() - i,
    {
        assert(tasks[i as int] == job.tasks@[i as int]@);
        if !job.tasks[i].state.is_terminal() {
            return true;
        }
        i += 1;
    }
    false
}

impl JobCoordinator {
    /// The ids of cancelled jobs whose workers still need to be told to stop: those
    /// with a task that has not ended.
    pub fn cancelled_job_ids(&self) -> (r: Vec<String>)
        ensures
            text::views(r@) == cancelled_ids(self@.jobs),
    {
        let ghost jobs = self@.jobs;
        let mut out: Vec<String> = Vec::new();
        let mut i: usize = 0;
        proof {
            assert(jobs.take(0) =~= Seq::empty());
            assert(text::views(out@) =~= Seq::empty());
        }
        while i < self.jobs.len()
            invariant
                i <= self.jobs@.len(),
                jobs == values(self.jobs@),
                text::views(out@) == cancelled_ids(jobs.take(i as int)),
            decreases self.jobs@.len() - i,
        {
            proof {
                assert(jobs.take(i + 1).drop_last() =~= jobs.take(i as int));
                assert(jobs.take(i + 1).last() == self.jobs@[i as int]@);
            }
            let cancelled: bool = match self.jobs[i].state {
                JobState::Cancelled => true,
                _ => false,
            };
            if cancelled && is_unsettled(&self.jobs[i]) {
                let ghost prev = out@;
                let id = self.jobs[i].job_id.clone();
                out.push(id);
                assert(text::views(out@) =~= text::views(prev).push(id@));
            }
            i += 1;
        }
        assert(jobs.take(jobs.len() as int) =~= jobs);
        out
    }

    /// Tasks assigned to `worker_id` that were never handed out.
    pub fn get_pending_tasks_for_worker(&self, worker_id: &str) -> (r: Vec<TaskDescriptor>)
        ensures
            values(r@) == pending_of_jobs(self@.jobs, self@.tasks, worker_id@),
    {
        let ghost jobs = self@.jobs;
        let ghost all = self@.tasks;
        let mut out: Vec<TaskDescriptor> = Vec::new();
        let mut i: usize = 0;
        proof {
            assert(jobs.take(0) =~= Seq::empty());
            assert(values(out@) =~= Seq::empty());
        }
        while i < self.jobs.len()
            invariant
                i <= self.jobs@.len(),
                jobs == values(self.jobs@),
                all == values(self.all_tasks@),
                values(out@) == pending_of_jobs(jobs.take(i as int), all, worker_id@),
            decreases self.jobs@.len() - i,
        {
            let job = &self.jobs[i];
            proof {
                assert(jobs.take(i + 1).drop_last() =~= jobs.take(i as int));
                assert(jobs.take(i + 1).last() == job@);
            }
            if !job.state.is_terminal() {
                let ghost base = values(out@);
                let ghost tasks = job@.tasks;
                let mut k: usize = 0;
                proof {
                    assert(tasks.take(0) =~= Seq::empty());
                    assert(base + pending_of_job(tasks.take(0), all, worker_id@) =~= base);
                }
                while k < job.tasks.len()
                    invariant
                        k <= job.tasks@.len(),
                        tasks == values(job.tasks@),
                        all == values(self.all_tasks@),
                        values(out@) == base + pending_of_job(tasks.take(k as int), all, worker_id@),
                    decreases job.tasks@.len() - k,
                {
                    proof {
                        assert(tasks.take(k + 1).drop_last() =~= tasks.take(k as int));
                        assert(tasks.take(k + 1).last() == job.tasks@[k as int]@);
                    }
                    match keyed::find(&self.all_tasks, job.tasks[k].task_id.as_str()) {
                        Some(d) => {
                            assert(all[d as int] == self.all_tasks@[d as int]@);
                            let mine: bool = match self.all_tasks[d].config.get("worker_id") {
                                Some(w) => text::same(w.as_str(), worker_id),
                                None => false,
                            };
                            if mine && job.tasks[k].state.is_undispatched() {
                                let ghost prev = out@;
                                let desc = self.all_tasks[d].copy();
                                out.push(desc);
                                proof {
                                    assert(values(out@) =~= values(prev).push(desc@));
                                    assert(base + pending_of_job(tasks.take(k + 1), all, worker_id@) =~= (base
                                        + pending_of_job(tasks.take(k as int), all, worker_id@)).push(desc@));
                                }
                            }
                        },
                        None => {},
                    }
                    k += 1;
                }
                assert(tasks.take(tasks.len() as int) =~= tasks);
            }
            i += 1;
        }
        assert(jobs.take(jobs.len() as int) =~= jobs);
        out
    }

    /// What a worker that sends a heartbeat is handed: its own tasks that were
    /// never handed out, and tasks whose worker is no longer alive. The latter
    /// are reassigned to it, so that any live worker takes over from a dead one.
    pub fn claim_tasks_for_worker<F: Fn(&str) -> bool>(
        &mut self,
        worker_id: &str,
        worker_addr: &str,
        live_workers: &F,
    ) -> (r: Vec<TaskDescriptor>)
        requires
            is_test(*live_workers),
        ensures
            ({
                let c = claim_jobs(
                    ClaimV { all: old(self)@.tasks, out: Seq::empty() },
                    old(self)@.jobs,
                    worker_id@,
                    worker_addr@,
                    test_of(*live_workers),
                );
                values(r@) == c.out && final(self)@ == (CoordinatorV { tasks: c.all, ..old(self)@ })
            }),
            final(self).checkpoint_store == old(self).checkpoint_store,
    {
        let ghost standing = test_of(*live_workers);
        let state_of = |w: &str| -> (r: WorkerState)
            requires
                live_workers.requires((w,)),
            ensures
                exists|b: bool|
                    #[trigger] live_workers.ensures((w,), b) && r == if b {
                        WorkerState::Healthy
                    } else {
                        WorkerState::Dead
                    },
            {
                if live_workers(w) {
                    WorkerState::Healthy
                } else {
                    WorkerState::Dead
                }
            };
        self.claim_with(worker_id, worker_addr, &state_of, Ghost(standing))
    }

    /// The same, with a test that tells overloaded workers from healthy ones.
    pub(crate) fn claim_with<G: Fn(&str) -> WorkerState>(
        &mut self,
        worker_id: &str,
        worker_addr: &str,
        live_workers: &G,
        Ghost(standing): Ghost<spec_fn(Seq<char>) -> WorkerState>,
    ) -> (r: Vec<TaskDescriptor>)
        requires
            answers(*live_workers, standing),
        ensures
            ({
                let c = claim_jobs(
                    ClaimV { all: old(self)@.tasks, out: Seq::empty() },
                    old(self)@.jobs,
                    worker_id@,
                    worker_addr@,
                    standing,
                );
                values(r@) == c.out && final(self)@ == (CoordinatorV { tasks: c.all, ..old(self)@ })
            }),
            final(self).checkpoint_store == old(self).checkpoint_store,
    {
        let ghost jobs = self@.jobs;
        let ghost live = standing;
        let ghost c0 = ClaimV { all: self@.tasks, out: Seq::empty() };
        let mut out: Vec<TaskDescriptor> = Vec::new();
        let mut i: usize = 0;
        proof {
            assert(jobs.take(0) =~= Seq::empty());
            assert(values(out@) =~= Seq::empty());
        }
        while i < self.jobs.len()
            invariant
                i <= self.jobs@.len(),
                answers(*live_workers, standing),
                live == standing,
                jobs == values(self.jobs@),
                self.jobs == old(self).jobs,
                self.checkpoint_store == old(self).checkpoint_store,
                self.term == old(self).term,
                self.pending_checkpoints == old(self).pending_checkpoints,
                self.checkpoint_outbox == old(self).checkpoint_outbox,
                (ClaimV { all: values(self.all_tasks@), out: values(out@) }) == claim_jobs(
                    c0,
                    jobs.take(i as int),
                    worker_id@,
                    worker_addr@,
                    live,
                ),
            decreases self.jobs@.len() - i,
        {
            proof {
                assert(jobs.take(i + 1).drop_last() =~= jobs.take(i as int));
                assert(jobs.take(i + 1).last() == self.jobs@[i as int]@);
            }
            if !self.jobs[i].state.is_terminal() {
                let ghost c1 = ClaimV { all: values(self.all_tasks@), out: values(out@) };
                let ghost tasks = self.jobs@[i as int]@.tasks;
                let mut k: usize = 0;
                assert(tasks.take(0) =~= Seq::empty());
                while k < self.jobs[i].tasks.len()
                    invariant
                        i < self.jobs@.len(),
                        k <= self.jobs@[i as int].tasks@.len(),
                        answers(*live_workers, standing),
                        live == standing,
                        tasks == values(self.jobs@[i as int].tasks@),
                        self.jobs == old(self).jobs,
                        self.checkpoint_store == old(self).checkpoint_store,
                        self.term == old(self).term,
                        self.pending_checkpoints == old(self).pending_checkpoints,
                        self.checkpoint_outbox == old(self).checkpoint_outbox,
                        (ClaimV { all: values(self.all_tasks@), out: values(out@) }) == claim_tasks(
                            c1,
                            tasks.take(k as int),
                            worker_id@,
                            worker_addr@,
                            live,
                        ),
                    decreases self.jobs@[i as int].tasks@.len() - k,
                {
                    let ghost t = tasks[k as int];
                    proof {
                        assert(tasks.take(k + 1).drop_last() =~= tasks.take(k as int));
                        assert(t == self.jobs@[i as int].tasks@[k as int]@);
                    }
                    self.claim_one(i, k, worker_id, worker_addr, live_workers, Ghost(standing), &mut out);
                    k += 1;
                }
                assert(tasks.take(tasks.len() as int) =~= tasks);
            }
            i += 1;
        }
        assert(jobs.take(jobs.len() as int) =~= jobs);
        out
    }

    fn claim_one<G: Fn(&str) -> WorkerState>(
        &mut self,
        i: usize,
        k: usize,
        worker_id: &str,
        worker_addr: &str,
        live_workers: &G,
        Ghost(standing): Ghost<spec_fn(Seq<char>) -> WorkerState>,
        out: &mut Vec<TaskDescriptor>,
    )
        requires
            i < old(self).jobs@.len(),
            k < old(self).jobs@[i as int].tasks@.len(),
            answers(*live_workers, standing),
        ensures
            (ClaimV { all: values(final(self).all_tasks@), out: values(final(out)@) }) == claim_task(
                ClaimV { all: values(old(self).all_tasks@), out: values(old(out)@) },
                old(self).jobs@[i as int].tasks@[k as int]@,
                worker_id@,
                worker_addr@,
                standing,
            ),
            final(self).jobs == old(self).jobs,
            final(self).checkpoint_store == old(self).checkpoint_store,
            final(self).term == old(self).term,
            final(self).pending_checkpoints == old(self).pending_checkpoints,
            final(self).checkpoint_outbox == old(self).checkpoint_outbox,
    {
        let ghost t = self.jobs@[i as int].tasks@[k as int]@;
        let ghost live = standing;
        let ghost all = values(self.all_tasks@);
        let ghost handed = values(out@);
        let undispatched: bool = self.jobs[i].tasks[k].state.is_undispatched();
        let eligible: bool = if undispatched {
            true
        } else if self.jobs[i].tasks[k].state.is_active() {
            live_workers(self.jobs[i].tasks[k].worker_id.as_str()) == WorkerState::Dead
        } else {
            false
        };
        proof {
            assert(eligible == claimable(t, live));
        }
        if !eligible {
            return;
        }
        match keyed::find(&self.all_tasks, self.jobs[i].tasks[k].task_id.as_str()) {
            Some(d) => {
                assert(all[d as int] == self.all_tasks@[d as int]@);
                let mine: bool = match self.all_tasks[d].config.get("worker_id") {
                    Some(w) => text::same(w.as_str(), worker_id),
                    None => false,
                };
                if mine {
                    let desc = self.all_tasks[d].copy();
                    out.push(desc);
                    assert(values(out@) =~= handed.push(desc@));
                } else {
                    let owner_state = match self.all_tasks[d].config.get("worker_id") {
                        Some(w) => live_workers(w.as_str()),
                        None => live_workers(""),
                    };
                    let taken: bool = owner_state == WorkerState::Dead || (undispatched && owner_state
                        == WorkerState::Overloaded);
                    if taken {
                        let mut desc = self.all_tasks[d].copy();
                        desc.config.insert(text::owned("worker_id"), text::owned(worker_id));
                        desc.config.insert(text::owned("worker_address"), text::owned(worker_addr));
                        let handed_out = desc.copy();
                        assert(desc@ == reassigned(all[d as int], worker_id@, worker_addr@));
                        out.push(handed_out);
                        self.all_tasks.set(d, desc);
                        proof {
                            assert(values(out@) =~= handed.push(desc@));
                            assert(values(self.all_tasks@) =~= all.update(d as int, desc@));
                        }
                    }
                }
            },
            None => {},
        }
    }

    /// Releases the tasks of a dead worker for takeover and returns their ids.
    pub fn evict_worker(&mut self, worker_id: &str) -> (r: Vec<String>)
        ensures
            final(self)@ == (CoordinatorV {
                jobs: old(self)@.jobs.map_values(|j: JobV| evicted_job(j, worker_id@)),
                ..old(self)@
            }),
            text::views(r@) == all_evicted_ids(old(self)@.jobs, worker_id@),
            final(self).checkpoint_store == old(self).checkpoint_store,
    {
        let ghost jobs = self@.jobs;
        let mut affected: Vec<String> = Vec::new();
        let mut i: usize = 0;
        proof {
            assert(jobs.take(0) =~= Seq::empty());
            assert(text::views(affected@) =~= Seq::empty());
        }
        while i < self.jobs.len()
            invariant
                i <= self.jobs@.len(),
                self.jobs@.len() == jobs.len(),
                self.all_tasks == old(self).all_tasks,
                self.checkpoint_store == old(self).checkpoint_store,
                self.term == old(self).term,
                self.pending_checkpoints == old(self).pending_checkpoints,
                self.checkpoint_outbox == old(self).checkpoint_outbox,
                forall|k: int| 0 <= k < i ==> #[trigger] self.jobs@[k]@ == evicted_job(jobs[k], worker_id@),
                forall|k: int| i <= k < jobs.len() ==> #[trigger] self.jobs@[k]@ == jobs[k],
                text::views(affected@) == all_evicted_ids(jobs.take(i as int), worker_id@),
            decreases self.jobs@.len() - i,
        {
            proof {
                assert(jobs.take(i + 1).drop_last() =~= jobs.take(i as int));
                assert(jobs.take(i + 1).last() == jobs[i as int]);
                assert(all_evicted_ids(jobs.take(i as int), worker_id@) + Seq::<Seq<char>>::empty() =~= all_evicted_ids(
                    jobs.take(i as int),
                    worker_id@,
                ));
            }
            evict_from(&mut self.jobs[i], worker_id, &mut affected);
            i += 1;
        }
        proof {
            assert(jobs.take(jobs.len() as int) =~= jobs);
            assert(self@.jobs =~= jobs.map_values(|j: JobV| evicted_job(j, worker_id@)));
        }
        affected
    }

    /// The job and the position in it of a task.
    pub fn locate(&self, task_id: &str) -> (r: Option<(usize, usize)>)
        ensures
            match r {
                Some(p) => p.0 < self.jobs@.len() && p.1 < self.jobs@[p.0 as int].tasks@.len() && job_with_task(
                    self@.jobs,
                    task_id@,
                ) == Some(p.0 as int) && index_of(self@.jobs[p.0 as int].tasks, task_id@) == Some(p.1 as int),
                None => job_with_task(self@.jobs, task_id@) is None,
            },
    {
        let ghost jobs = self@.jobs;
        let mut i: usize = 0;
        while i < self.jobs.len()
            invariant
                i <= self.jobs@.len(),
                jobs == values(self.jobs@),
                forall|k: int| 0 <= k < i ==> index_of((#[trigger] jobs[k]).tasks, task_id@) is None,
            decreases self.jobs@.len() - i,
        {
            assert(jobs[i as int] == self.jobs@[i as int]@);
            match keyed::find(&self.jobs[i].tasks, task_id) {
                Some(k) => {
                    proof {
                        lemma_job_with_task(jobs, task_id@);
                    }
                    return Some((i, k));
                },
                None => {},
            }
            i += 1;
        }
        proof {
            lemma_job_with_task(jobs, task_id@);
        }
        None
    }

    /// The tasks that a worker reports as running when it registers. What is
    /// still its own is marked as running for it, so that nobody claims it while
    /// the worker reconnects. What was given to another worker is returned, to be
    /// stopped.
    pub fn register_running_tasks(&mut self, worker_id: &str, running_task_ids: &Vec<String>) -> (r: Vec<String>)
        ensures
            ({
                let a = register_all(
                    (old(self)@.jobs, Seq::empty()),
                    old(self)@.tasks,
                    worker_id@,
                    text::views(running_task_ids@),
                );
                final(self)@ == (CoordinatorV { jobs: a.0, ..old(self)@ }) && text::views(r@) == a.1
            }),
            final(self).checkpoint_store == old(self).checkpoint_store,
    {
        let ghost ids = text::views(running_task_ids@);
        let ghost acc0 = (self@.jobs, Seq::<Seq<char>>::empty());
        let ghost all = self@.tasks;
        let mut preempted: Vec<String> = Vec::new();
        let mut i: usize = 0;
        proof {
            assert(ids.take(0) =~= Seq::empty());
            assert(text::views(preempted@) =~= Seq::empty());
        }
        while i < running_task_ids.len()
            invariant
                i <= running_task_ids@.len(),
                ids == text::views(running_task_ids@),
                all == values(self.all_tasks@),
                self.all_tasks == old(self).all_tasks,
                self.checkpoint_store == old(self).checkpoint_store,
                self.term == old(self).term,
                self.pending_checkpoints == old(self).pending_checkpoints,
                self.checkpoint_outbox == old(self).checkpoint_outbox,
                (self@.jobs, text::views(preempted@)) == register_all(acc0, all, worker_id@, ids.take(i as int)),
            decreases running_task_ids@.len() - i,
        {
            let id = running_task_ids[i].clone();
            let ghost jobs = self@.jobs;
            proof {
                assert(ids.take(i + 1).drop_last() =~= ids.take(i as int));
                assert(ids.take(i + 1).last() == id@);
            }
            match self.locate(id.as_str()) {
                Some(p) => {
                    let owner = match keyed::find(&self.all_tasks, id.as_str()) {
                        Some(d) => {
                            assert(all[d as int] == self.all_tasks@[d as int]@);
                            self.all_tasks[d].config.get_or_empty("worker_id")
                        },
                        None => String::new(),
                    };
                    assert(owner@ == owner_of(all, id@));
                    if !text::same(owner.as_str(), worker_id) && !owner.as_str().is_empty() {
                        let ghost prev = preempted@;
                        preempted.push(id);
                        assert(text::views(preempted@) =~= text::views(prev).push(id@));
                    } else {
                        self.adopt(p.0, p.1, worker_id);
                        proof {
                            let j = jobs[p.0 as int];
                            let t = named(j.tasks, id@)->0;
                            keyed::lemma_index_of(j.tasks, id@);
                            assert(self@.jobs =~= jobs.update(p.0 as int, with_task(j, adopted_task(t, worker_id@))));
                        }
                    }
                },
                None => {},
            }
            i += 1;
        }
        assert(ids.take(ids.len() as int) =~= ids);
        preempted
    }

    fn adopt(&mut self, i: usize, k: usize, worker_id: &str)
        requires
            i < old(self).jobs@.len(),
            k < old(self).jobs@[i as int].tasks@.len(),
        ensures
            ({
                let j = old(self)@.jobs[i as int];
                final(self)@ == (CoordinatorV {
                    jobs: old(self)@.jobs.update(
                        i as int,
                        JobV { tasks: j.tasks.update(k as int, adopted_task(j.tasks[k as int], worker_id@)), ..j },
                    ),
                    ..old(self)@
                })
            }),
            final(self).all_tasks == old(self).all_tasks,
            final(self).checkpoint_store == old(self).checkpoint_store,
            final(self).term == old(self).term,
            final(self).pending_checkpoints == old(self).pending_checkpoints,
            final(self).checkpoint_outbox == old(self).checkpoint_outbox,
    {
        let ghost before = self@.jobs;
        let ghost j = before[i as int];
        let state: bool = match self.jobs[i].tasks[k].state {
            JobState::Created => true,
            JobState::Scheduled => true,
            JobState::Deploying => true,
            _ => false,
        };
        if state {
            self.jobs[i].tasks[k].state = JobState::Running;
            self.jobs[i].tasks[k].worker_id = text::owned(worker_id);
        }
        proof {
            assert(self.jobs@[i as int]@.tasks =~= j.tasks.update(
                k as int,
                adopted_task(j.tasks[k as int], worker_id@),
            ));
            assert(self@.jobs =~= before.update(
                i as int,
                JobV { tasks: j.tasks.update(k as int, adopted_task(j.tasks[k as int], worker_id@)), ..j },
            ));
        }
    }

    /// Marks tasks as handed to a worker, so that they are not handed out again
    /// while it lives. A task that is known to run on another worker is passed over:
    /// it is never taken from a worker that was not found dead.
    pub fn mark_tasks_dispatched(&mut self, task_ids: &Vec<String>, worker_id: &str)
        ensures
            final(self)@ == (CoordinatorV {
                jobs: dispatch_all(old(self)@.jobs, worker_id@, text::views(task_ids@)),
                ..old(self)@
            }),
            final(self).checkpoint_store == old(self).checkpoint_store,
    {
        let ghost ids = text::views(task_ids@);
        let ghost jobs0 = self@.jobs;
        let mut i: usize = 0;
        assert(ids.take(0) =~= Seq::empty());
        while i < task_ids.len()
            invariant
                i <= task_ids@.len(),
                ids == text::views(task_ids@),
                self.all_tasks == old(self).all_tasks,
                self.checkpoint_store == old(self).checkpoint_store,
                self.term == old(self).term,
                self.pending_checkpoints == old(self).pending_checkpoints,
                self.checkpoint_outbox == old(self).checkpoint_outbox,
                self@.jobs == dispatch_all(jobs0, worker_id@, ids.take(i as int)),
            decreases task_ids@.len() - i,
        {
            let ghost jobs = self@.jobs;
            let ghost id = ids[i as int];
            proof {
                assert(ids.take(i + 1).drop_last() =~= ids.take(i as int));
                assert(id == task_ids@[i as int]@);
            }
            match self.locate(task_ids[i].as_str()) {
                Some(p) => {
                    let ghost j = jobs[p.0 as int];
                    let ghost t = named(j.tasks, id)->0;
                    assert(self.jobs@[p.0 as int].tasks@[p.1 as int]@ == t);
                    let running: bool = match self.jobs[p.0].tasks[p.1].state {
                        JobState::Running => true,
                        _ => false,
                    };
                    if !running || text::same(self.jobs[p.0].tasks[p.1].worker_id.as_str(), worker_id) {
                        self.jobs[p.0].tasks[p.1].state = JobState::Deploying;
                        self.jobs[p.0].tasks[p.1].worker_id = text::owned(worker_id);
                        if self.jobs[p.0].state.is_undispatched() {
                            self.jobs[p.0].state = JobState::Deploying;
                        }
                        proof {
                            keyed::lemma_index_of(j.tasks, id);
                            assert(self.jobs@[p.0 as int]@.tasks =~= put(
                                j.tasks,
                                TaskV { state: StateV::Deploying, worker_id: worker_id@, ..t },
                            ));
                            assert(self@.jobs =~= jobs.update(p.0 as int, dispatched_job(j, t, worker_id@)));
                        }
                    }
                },
                None => {},
            }
            i += 1;
        }
        assert(ids.take(ids.len() as int) =~= ids);
    }
}

} // verus!
