//! Recovery from lost work: tasks that the coordinator believes to be with a
//! worker and that the worker does not report.

use vstd::prelude::*;

use crate::dispatch::{adopted_task, job_with_task, lemma_job_with_task, owner_of, register_all, with_task};
use crate::job::{DescriptorV, JobState, JobV, RunningJob, StateV, TaskV};
use crate::job_coordinator::{CoordinatorV, JobCoordinator};
use crate::keyed;
use crate::keyed::{index_of, named, values, Named};
use crate::text;

verus! {

/// A task that a worker should be running and does not report.
#[derive(Debug)]
pub struct StuckTask {
    pub job_id: String,
    pub task_id: String,
    pub worker_id: String,
    pub processed_records: u64,
}

/// The mathematical value of a stuck task.
#[verifier::ext_equal]
pub struct StuckV {
    pub job_id: Seq<char>,
    pub task_id: Seq<char>,
    pub worker_id: Seq<char>,
    pub processed_records: u64,
}

impl View for StuckTask {
    type V = StuckV;

    open spec fn view(&self) -> StuckV {
        StuckV {
            job_id: self.job_id@,
            task_id: self.task_id@,
            worker_id: self.worker_id@,
            processed_records: self.processed_records,
        }
    }
}

/// The tasks of a list of stuck ones.
pub open spec fn stuck_ids(v: Seq<StuckV>) -> Seq<Seq<char>> {
    v.map_values(|s: StuckV| s.task_id)
}

/// Whether a task of a job is lost on a worker. Of a cancelled job that is a
/// running task; of a job that is not over, one that is with the worker.
pub open spec fn is_lost(j: JobV, t: TaskV, worker: Seq<char>, reported: Seq<Seq<char>>, cancelled: bool) -> bool {
    &&& t.worker_id == worker
    &&& !reported.contains(t.task_id)
    &&& if cancelled {
        j.state is Cancelled && t.state is Running
    } else {
        !j.state.terminal() && t.state.active()
    }
}

/// The lost tasks among the first tasks of a job.
pub open spec fn lost_of_job(
    j: JobV,
    tasks: Seq<TaskV>,
    worker: Seq<char>,
    reported: Seq<Seq<char>>,
    cancelled: bool,
) -> Seq<StuckV>
    decreases tasks.len(),
{
    if tasks.len() == 0 {
        Seq::empty()
    } else {
        let head = lost_of_job(j, tasks.drop_last(), worker, reported, cancelled);
        let t = tasks.last();
        if is_lost(j, t, worker, reported, cancelled) {
            head.push(
                StuckV {
                    job_id: j.job_id,
                    task_id: t.task_id,
                    worker_id: t.worker_id,
                    processed_records: t.processed_records,
                },
            )
        } else {
            head
        }
    }
}

/// The lost tasks of all jobs.
pub open spec fn lost_of_jobs(
    jobs: Seq<JobV>,
    worker: Seq<char>,
    reported: Seq<Seq<char>>,
    cancelled: bool,
) -> Seq<StuckV>
    decreases jobs.len(),
{
    if jobs.len() == 0 {
        Seq::empty()
    } else {
        lost_of_jobs(jobs.drop_last(), worker, reported, cancelled) + lost_of_job(
            jobs.last(),
            jobs.last().tasks,
            worker,
            reported,
            cancelled,
        )
    }
}

/// Whether a job was cancelled longer ago than `timeout`.
pub open spec fn cancel_overdue(j: JobV, timeout: u64, now: i64) -> bool {
    j.state is Cancelled && match j.end_time {
        Some(t) => now - t > timeout,
        None => false,
    }
}

/// The tasks among the first tasks of a job that have not ended.
pub open spec fn unended(j: JobV, tasks: Seq<TaskV>) -> Seq<StuckV>
    decreases tasks.len(),
{
    if tasks.len() == 0 {
        Seq::empty()
    } else {
        let head = unended(j, tasks.drop_last());
        let t = tasks.last();
        if t.state.terminal() {
            head
        } else {
            head.push(
                StuckV {
                    job_id: j.job_id,
                    task_id: t.task_id,
                    worker_id: t.worker_id,
                    processed_records: t.processed_records,
                },
            )
        }
    }
}

/// The tasks that have not ended although their job was cancelled longer ago than
/// `timeout`.
pub open spec fn overdue(jobs: Seq<JobV>, timeout: u64, now: i64) -> Seq<StuckV>
    decreases jobs.len(),
{
    if jobs.len() == 0 {
        Seq::empty()
    } else {
        let head = overdue(jobs.drop_last(), timeout, now);
        let j = jobs.last();
        if cancel_overdue(j, timeout, now) { head + unended(j, j.tasks) } else { head }
    }
}

/// A task after the release of some tasks of a worker: it waits to be handed out
/// again.
pub open spec fn released_task(t: TaskV, worker: Seq<char>, ids: Seq<Seq<char>>) -> TaskV {
    if t.worker_id == worker && t.state.active() && ids.contains(t.task_id) {
        TaskV { state: StateV::Scheduled, ..t }
    } else {
        t
    }
}

/// A job after the release of some tasks of a worker.
pub open spec fn released_job(j: JobV, worker: Seq<char>, ids: Seq<Seq<char>>) -> JobV {
    if j.state.terminal() {
        j
    } else {
        JobV { tasks: j.tasks.map_values(|t: TaskV| released_task(t, worker, ids)), ..j }
    }
}

/// Which of the tasks that a worker reports are still its own, and which were
/// given to another worker. Unknown tasks are neither.
pub open spec fn classified(
    jobs: Seq<JobV>,
    all: Seq<DescriptorV>,
    worker: Seq<char>,
    ids: Seq<Seq<char>>,
) -> (Seq<Seq<char>>, Seq<Seq<char>>)
    decreases ids.len(),
{
    if ids.len() == 0 {
        (Seq::empty(), Seq::empty())
    } else {
        let h = classified(jobs, all, worker, ids.drop_last());
        let id = ids.last();
        let owner = owner_of(all, id);
        if job_with_task(jobs, id) is None {
            h
        } else if owner != worker && owner.len() > 0 {
            (h.0, h.1.push(id))
        } else {
            (h.0.push(id), h.1)
        }
    }
}

fn collect_lost(
    job: &RunningJob,
    worker_id: &str,
    reported: &Vec<String>,
    cancelled: bool,
    out: &mut Vec<StuckTask>,
)
    ensures
        values(final(out)@) == values(old(out)@) + lost_of_job(
            job@,
            job@.tasks,
            worker_id@,
            text::views(reported@),
            cancelled,
        ),
{
    let ghost j = job@;
    let ghost base = values(out@);
    let ghost rep = text::views(reported@);
    let of_interest: bool = if cancelled {
        match &job.state {
            JobState::Cancelled => true,
            _ => false,
        }
    } else {
        !job.state.is_terminal()
    };
    let mut i: usize = 0;
    proof {
        assert(j.tasks.take(0) =~= Seq::empty());
        assert(base + Seq::<StuckV>::empty() =~= base);
    }
    while i < job.tasks.len()
        invariant
            i <= job.tasks@.len(),
            j == job@,
            rep == text::views(reported@),
            of_interest == if cancelled { j.state is Cancelled } else { !j.state.terminal() },
            values(out@) == base + lost_of_job(j, j.tasks.take(i as int), worker_id@, rep, cancelled),
        decreases job.tasks@.len() - i,
    {
        let t = &job.tasks[i];
        proof {
            assert(j.tasks.take(i + 1).drop_last() =~= j.tasks.take(i as int));
            assert(j.tasks.take(i + 1).last() == t@);
        }
        let fits: bool = if cancelled {
            match &t.state {
                JobState::Running => true,
                _ => false,
            }
        } else {
            t.state.is_active()
        };
        if of_interest && fits && text::same(t.worker_id.as_str(), worker_id) && !text::holds(
            reported,
            t.task_id.as_str(),
        ) {
            let ghost prev = out@;
            let s = StuckTask {
                job_id: job.job_id.clone(),
                task_id: t.task_id.clone(),
                worker_id: t.worker_id.clone(),
                processed_records: t.processed_records,
            };
            out.push(s);
            assert(values(out@) =~= values(prev).push(s@));
            assert(values(prev).push(s@) =~= base + lost_of_job(
                j,
                j.tasks.take(i as int),
                worker_id@,
                rep,
                cancelled,
            ).push(s@));
        }
        i += 1;
    }
    assert(j.tasks.take(j.tasks.len() as int) =~= j.tasks);
}

fn collect_unended(job: &RunningJob, out: &mut Vec<StuckTask>)
    ensures
        values(final(out)@) == values(old(out)@) + unended(job@, job@.tasks),
{
    let ghost j = job@;
    let ghost base = values(out@);
    let mut i: usize = 0;
    proof {
        assert(j.tasks.take(0) =~= Seq::empty());
        assert(base + Seq::<StuckV>::empty() =~= base);
    }
    while i < job.tasks.len()
        invariant
            i <= job.tasks@.len(),
            j == job@,
            values(out@) == base + unended(j, j.tasks.take(i as int)),
        decreases job.tasks@.len() - i,
    {
        let t = &job.tasks[i];
        proof {
            assert(j.tasks.take(i + 1).drop_last() =~= j.tasks.take(i as int));
            assert(j.tasks.take(i + 1).last() == t@);
        }
        if !t.state.is_terminal() {
            let ghost prev = out@;
            let s = StuckTask {
                job_id: job.job_id.clone(),
                task_id: t.task_id.clone(),
                worker_id: t.worker_id.clone(),
                processed_records: t.processed_records,
            };
            out.push(s);
            assert(values(out@) =~= values(prev).push(s@));
            assert(values(prev).push(s@) =~= base + unended(j, j.tasks.take(i as int)).push(s@));
        }
        i += 1;
    }
    assert(j.tasks.take(j.tasks.len() as int) =~= j.tasks);
}

fn release_in(job: &mut RunningJob, worker_id: &str, ids: &Vec<String>)
    ensures
        final(job)@ == released_job(old(job)@, worker_id@, text::views(ids@)),
{
    let ghost j = job@;
    let ghost iv = text::views(ids@);
    if job.state.is_terminal() {
        return;
    }
    let mut i: usize = 0;
    while i < job.tasks.len()
        invariant
            i <= job.tasks@.len(),
            iv == text::views(ids@),
            job.tasks@.len() == j.tasks.len(),
            job@ == (JobV { tasks: job@.tasks, ..j }),
            forall|k: int| 0 <= k < i ==> #[trigger] job.tasks@[k]@ == released_task(j.tasks[k], worker_id@, iv),
            forall|k: int| i <= k < j.tasks.len() ==> #[trigger] job.tasks@[k]@ == j.tasks[k],
        decreases job.tasks@.len() - i,
    {
        assert(job.tasks@[i as int]@ == j.tasks[i as int]);
        if job.tasks[i].state.is_active() && text::same(job.tasks[i].worker_id.as_str(), worker_id) && text::holds(
            ids,
            job.tasks[i].task_id.as_str(),
        ) {
            job.tasks[i].state = JobState::Scheduled;
        }
        i += 1;
    }
    assert(job@.tasks =~= j.tasks.map_values(|t: TaskV| released_task(t, worker_id@, iv)));
}

impl JobCoordinator {
    fn lost_tasks(&self, worker_id: &str, reported: &Vec<String>, cancelled: bool) -> (r: Vec<StuckTask>)
        ensures
            values(r@) == lost_of_jobs(self@.jobs, worker_id@, text::views(reported@), cancelled),
    {
        let ghost jobs = self@.jobs;
        let ghost rep = text::views(reported@);
        let mut out: Vec<StuckTask> = Vec::new();
        let mut i: usize = 0;
        proof {
            assert(jobs.take(0) =~= Seq::empty());
            assert(values(out@) =~= Seq::empty());
        }
        while i < self.jobs.len()
            invariant
                i <= self.jobs@.len(),
                jobs == values(self.jobs@),
                rep == text::views(reported@),
                values(out@) == lost_of_jobs(jobs.take(i as int), worker_id@, rep, cancelled),
            decreases self.jobs@.len() - i,
        {
            proof {
                assert(jobs.take(i + 1).drop_last() =~= jobs.take(i as int));
                assert(jobs.take(i + 1).last() == self.jobs@[i as int]@);
            }
            collect_lost(&self.jobs[i], worker_id, reported, cancelled, &mut out);
            i += 1;
        }
        assert(jobs.take(jobs.len() as int) =~= jobs);
        out
    }

    /// The running tasks of cancelled jobs that their worker does not report: the
    /// report of their end was lost.
    pub fn reconcile_lost_cancelled_tasks(&self, worker_id: &str, reported: &Vec<String>) -> (r: Vec<StuckTask>)
        ensures
            values(r@) == lost_of_jobs(self@.jobs, worker_id@, text::views(reported@), true),
    {
        self.lost_tasks(worker_id, reported, true)
    }

    /// The tasks that are with a worker, of jobs that are not over, and that it
    /// does not report.
    pub fn reconcile_lost_active_tasks(&self, worker_id: &str, reported: &Vec<String>) -> (r: Vec<StuckTask>)
        ensures
            values(r@) == lost_of_jobs(self@.jobs, worker_id@, text::views(reported@), false),
    {
        self.lost_tasks(worker_id, reported, false)
    }

    /// The tasks that have not ended although their job was cancelled longer ago
    /// than a timeout.
    pub fn overdue_cancelled_tasks(&self, timeout_ms: u64, now: i64) -> (r: Vec<StuckTask>)
        ensures
            values(r@) == overdue(self@.jobs, timeout_ms, now),
    {
        let ghost jobs = self@.jobs;
        let mut out: Vec<StuckTask> = Vec::new();
        let mut i: usize = 0;
        proof {
            assert(jobs.take(0) =~= Seq::empty());
            assert(values(out@) =~= Seq::empty());
        }
        while i < self.jobs.len()
            invariant
                i <= self.jobs@.len(),
                jobs == values(self.jobs@),
                values(out@) == overdue(jobs.take(i as int), timeout_ms, now),
            decreases self.jobs@.len() - i,
        {
            proof {
                assert(jobs.take(i + 1).drop_last() =~= jobs.take(i as int));
                assert(jobs.take(i + 1).last() == self.jobs@[i as int]@);
            }
            let cancelled: bool = match &self.jobs[i].state {
                JobState::Cancelled => true,
                _ => false,
            };
            let late: bool = match self.jobs[i].end_time {
                Some(t) => now as i128 - t as i128 > timeout_ms as i128,
                None => false,
            };
            if cancelled && late {
                collect_unended(&self.jobs[i], &mut out);
            }
            i += 1;
        }
        assert(jobs.take(jobs.len() as int) =~= jobs);
        out
    }

    /// Releases tasks that a worker lost, so that they are handed out again.
    pub fn release_lost_tasks(&mut self, worker_id: &str, task_ids: &Vec<String>)
        ensures
            final(self)@ == (CoordinatorV {
                jobs: old(self)@.jobs.map_values(
                    |j: JobV| released_job(j, worker_id@, text::views(task_ids@)),
                ),
                ..old(self)@
            }),
            final(self).checkpoint_store == old(self).checkpoint_store,
    {
        let ghost jobs = self@.jobs;
        let ghost iv = text::views(task_ids@);
        let mut i: usize = 0;
        while i < self.jobs.len()
            invariant
                i <= self.jobs@.len(),
                iv == text::views(task_ids@),
                self.jobs@.len() == jobs.len(),
                self.all_tasks == old(self).all_tasks,
                self.checkpoint_store == old(self).checkpoint_store,
                self.term == old(self).term,
                self.pending_checkpoints == old(self).pending_checkpoints,
                self.checkpoint_outbox == old(self).checkpoint_outbox,
                forall|k: int| 0 <= k < i ==> #[trigger] self.jobs@[k]@ == released_job(jobs[k], worker_id@, iv),
                forall|k: int| i <= k < jobs.len() ==> #[trigger] self.jobs@[k]@ == jobs[k],
            decreases self.jobs@.len() - i,
        {
            release_in(&mut self.jobs[i], worker_id, task_ids);
            i += 1;
        }
        assert(self@.jobs =~= jobs.map_values(|j: JobV| released_job(j, worker_id@, iv)));
    }

    /// Whether a task is tracked as being with a worker.
    pub fn task_owned_by(&self, task_id: &str, worker_id: &str) -> (r: bool)
        ensures
            r == owned_by(self@.jobs, task_id@, worker_id@),
    {
        match self.locate(task_id) {
            Some(p) => {
                assert(self@.jobs[p.0 as int].tasks[p.1 as int] == self.jobs@[p.0 as int].tasks@[p.1 as int]@);
                text::same(self.jobs[p.0].tasks[p.1].worker_id.as_str(), worker_id)
            },
            None => false,
        }
    }

    /// Splits the tasks that a worker reports into those that are still its own
    /// and those that were given to another worker.
    pub fn classify_running_tasks(&self, worker_id: &str, running: &Vec<String>) -> (r: (Vec<String>, Vec<String>))
        ensures
            (text::views(r.0@), text::views(r.1@)) == classified(
                self@.jobs,
                self@.tasks,
                worker_id@,
                text::views(running@),
            ),
    {
        let ghost ids = text::views(running@);
        let mut adopt: Vec<String> = Vec::new();
        let mut preempted: Vec<String> = Vec::new();
        let mut i: usize = 0;
        proof {
            assert(ids.take(0) =~= Seq::empty());
            assert(text::views(adopt@) =~= Seq::empty());
            assert(text::views(preempted@) =~= Seq::empty());
        }
        while i < running.len()
            invariant
                i <= running@.len(),
                ids == text::views(running@),
                (text::views(adopt@), text::views(preempted@)) == classified(
                    self@.jobs,
                    self@.tasks,
                    worker_id@,
                    ids.take(i as int),
                ),
            decreases running@.len() - i,
        {
            let id = running[i].clone();
            proof {
                assert(ids.take(i + 1).drop_last() =~= ids.take(i as int));
                assert(ids.take(i + 1).last() == id@);
            }
            if self.locate(id.as_str()).is_some() {
                let owner = match keyed::find(&self.all_tasks, id.as_str()) {
                    Some(d) => {
                        assert(self@.tasks[d as int] == self.all_tasks@[d as int]@);
                        self.all_tasks[d].config.get_or_empty("worker_id")
                    },
                    None => String::new(),
                };
                assert(owner@ == owner_of(self@.tasks, id@));
                if !text::same(owner.as_str(), worker_id) && !owner.as_str().is_empty() {
                    let ghost prev = preempted@;
                    preempted.push(id);
                    assert(text::views(preempted@) =~= text::views(prev).push(id@));
                } else {
                    let ghost prev = adopt@;
                    adopt.push(id);
                    assert(text::views(adopt@) =~= text::views(prev).push(id@));
                }
            }
            i += 1;
        }
        assert(ids.take(ids.len() as int) =~= ids);
        (adopt, preempted)
    }
}

/// Whether a task is tracked as being with a worker.
pub open spec fn owned_by(jobs: Seq<JobV>, task_id: Seq<char>, worker: Seq<char>) -> bool {
    match job_with_task(jobs, task_id) {
        Some(i) => (named(jobs[i].tasks, task_id)->0).worker_id == worker,
        None => false,
    }
}

// ---------------------------------------------------------------------------
// What holds of every recovery
// ---------------------------------------------------------------------------

/// A task that was released waits to be handed out again, whoever is alive.
pub proof fn law_released_task_is_claimable(
    t: TaskV,
    worker: Seq<char>,
    ids: Seq<Seq<char>>,
    live: spec_fn(Seq<char>) -> crate::dispatch::WorkerState,
)
    requires
        t.worker_id == worker,
        t.state.active(),
        ids.contains(t.task_id),
    ensures
        crate::dispatch::claimable(released_task(t, worker, ids), live),
        released_task(t, worker, ids).last_checkpoint_id == t.last_checkpoint_id,
{
}

proof fn lemma_lost_of_job(j: JobV, tasks: Seq<TaskV>, worker: Seq<char>, reported: Seq<Seq<char>>, cancelled: bool)
    ensures
        forall|i: int|
            0 <= i < lost_of_job(j, tasks, worker, reported, cancelled).len() ==> {
                let s = #[trigger] lost_of_job(j, tasks, worker, reported, cancelled)[i];
                s.worker_id == worker && s.job_id == j.job_id && !reported.contains(s.task_id)
            },
        cancelled && !(j.state is Cancelled) ==> lost_of_job(j, tasks, worker, reported, cancelled).len() == 0,
        !cancelled && j.state.terminal() ==> lost_of_job(j, tasks, worker, reported, cancelled).len() == 0,
    decreases tasks.len(),
{
    if tasks.len() > 0 {
        let h = lost_of_job(j, tasks.drop_last(), worker, reported, cancelled);
        let r = lost_of_job(j, tasks, worker, reported, cancelled);
        lemma_lost_of_job(j, tasks.drop_last(), worker, reported, cancelled);
        assert forall|i: int| 0 <= i < r.len() implies {
            let s = #[trigger] r[i];
            s.worker_id == worker && s.job_id == j.job_id && !reported.contains(s.task_id)
        } by {
            if i < h.len() {
                assert(r[i] == h[i]);
            }
        }
    }
}

/// Only tasks of the worker that it does not report are taken for lost.
pub proof fn law_only_unreported_tasks_are_lost(
    jobs: Seq<JobV>,
    worker: Seq<char>,
    reported: Seq<Seq<char>>,
    cancelled: bool,
)
    ensures
        forall|i: int|
            0 <= i < lost_of_jobs(jobs, worker, reported, cancelled).len() ==> {
                let s = #[trigger] lost_of_jobs(jobs, worker, reported, cancelled)[i];
                s.worker_id == worker && !reported.contains(s.task_id)
            },
    decreases jobs.len(),
{
    if jobs.len() > 0 {
        law_only_unreported_tasks_are_lost(jobs.drop_last(), worker, reported, cancelled);
        lemma_lost_of_job(jobs.last(), jobs.last().tasks, worker, reported, cancelled);
        let h = lost_of_jobs(jobs.drop_last(), worker, reported, cancelled);
        let n = lost_of_job(jobs.last(), jobs.last().tasks, worker, reported, cancelled);
        let r = lost_of_jobs(jobs, worker, reported, cancelled);
        assert forall|i: int| 0 <= i < r.len() implies {
            let s = #[trigger] r[i];
            s.worker_id == worker && !reported.contains(s.task_id)
        } by {
            if i < h.len() {
                assert(r[i] == h[i]);
            } else {
                assert(r[i] == n[i - h.len()]);
            }
        }
    }
}

/// Classifying the tasks that a worker reports and adopting its own leaves the jobs
/// as registering the whole report does, and fences the same tasks.
pub proof fn law_classified_and_adopted(jobs: Seq<JobV>, all: Seq<DescriptorV>, worker: Seq<char>, ids: Seq<Seq<char>>)
    ensures
        ({
            let c = classified(jobs, all, worker, ids);
            let whole = register_all((jobs, Seq::empty()), all, worker, ids);
            &&& register_all((jobs, Seq::empty()), all, worker, c.0).0 == whole.0
            &&& c.1 == whole.1
        }),
    decreases ids.len(),
{
    if ids.len() > 0 {
        let d = ids.drop_last();
        let id = ids.last();
        law_classified_and_adopted(jobs, all, worker, d);
        let h = classified(jobs, all, worker, d);
        let w = register_all((jobs, Seq::empty()), all, worker, d);
        lemma_registering_keeps_tasks(jobs, all, worker, d, id);
        let owner = owner_of(all, id);
        if job_with_task(jobs, id) is Some && !(owner != worker && owner.len() > 0) {
            let a = h.0.push(id);
            assert(a.drop_last() =~= h.0);
            let x = register_all((jobs, Seq::empty()), all, worker, h.0);
            assert(x.0 == w.0);
        }
    } else {
        assert(register_all((jobs, Seq::<Seq<char>>::empty()), all, worker, Seq::empty()).0 == jobs);
    }
}

proof fn lemma_registering_keeps_tasks(
    jobs: Seq<JobV>,
    all: Seq<DescriptorV>,
    worker: Seq<char>,
    ids: Seq<Seq<char>>,
    id: Seq<char>,
)
    ensures
        job_with_task(register_all((jobs, Seq::empty()), all, worker, ids).0, id) == job_with_task(jobs, id),
    decreases ids.len(),
{
    if ids.len() > 0 {
        let d = ids.drop_last();
        lemma_registering_keeps_tasks(jobs, all, worker, d, id);
        let h = register_all((jobs, Seq::empty()), all, worker, d);
        let x = ids.last();
        lemma_job_with_task(h.0, x);
        match job_with_task(h.0, x) {
            Some(i) => {
                let owner = owner_of(all, x);
                if !(owner != worker && owner.len() > 0) {
                    let t = named(h.0[i].tasks, x)->0;
                    let n = with_task(h.0[i], adopted_task(t, worker));
                    keyed::lemma_index_of(h.0[i].tasks, x);
                    lemma_task_replaced(h.0, i, n, id);
                }
            },
            None => {},
        }
    }
}

proof fn lemma_task_replaced(jobs: Seq<JobV>, i: int, n: JobV, id: Seq<char>)
    requires
        0 <= i < jobs.len(),
        n.tasks.len() == jobs[i].tasks.len(),
        forall|k: int| 0 <= k < n.tasks.len() ==> (#[trigger] n.tasks[k]).task_id == jobs[i].tasks[k].task_id,
    ensures
        job_with_task(jobs.update(i, n), id) == job_with_task(jobs, id),
{
    let r = jobs.update(i, n);
    keyed::lemma_index_of(n.tasks, id);
    keyed::lemma_index_of(jobs[i].tasks, id);
    assert(index_of(n.tasks, id) is Some <==> index_of(jobs[i].tasks, id) is Some) by {
        if index_of(n.tasks, id) is Some {
            let k = index_of(n.tasks, id)->0;
            assert(n.tasks[k].task_id == jobs[i].tasks[k].task_id);
            assert(jobs[i].tasks[k].name() == id);
        }
        if index_of(jobs[i].tasks, id) is Some {
            let k = index_of(jobs[i].tasks, id)->0;
            assert(n.tasks[k].task_id == jobs[i].tasks[k].task_id);
            assert(n.tasks[k].name() == id);
        }
    }
    lemma_job_with_task(jobs, id);
    lemma_job_with_task(r, id);
    assert forall|k: int| 0 <= k < jobs.len() implies (index_of((#[trigger] r[k]).tasks, id) is Some <==> index_of(
        jobs[k].tasks,
        id,
    ) is Some) by {}
    match (job_with_task(jobs, id), job_with_task(r, id)) {
        (Some(a), Some(b)) => {
            assert(index_of(r[a].tasks, id) is Some);
            assert(index_of(jobs[b].tasks, id) is Some);
            assert(index_of(r[b].tasks, id) is Some);
        },
        (Some(a), None) => {
            assert(index_of(r[a].tasks, id) is Some);
        },
        (None, Some(b)) => {
            assert(index_of(r[b].tasks, id) is Some);
            assert(index_of(jobs[b].tasks, id) is Some);
        },
        (None, None) => {},
    }
}

} // verus!
