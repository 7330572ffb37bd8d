//! What workers report of their tasks, and how a job's state follows from it.

use vstd::prelude::*;

use crate::checkpoint_coordination::{following, next_after};
use crate::checkpoint_store;
use crate::dispatch::job_with_task;
use crate::job::{logs_appended, opt_view, JobState, JobV, RunningJob, StateV, TaskInfo, TaskV};
use crate::job_coordinator::{CoordinatorV, JobCoordinator};
use crate::json::{opt_json, opt_json_copy, Json, JsonV};
use crate::keyed;
use crate::keyed::{index_of, named, put, values};
use crate::text;

verus! {

/// The first task that failed.
pub open spec fn first_failed(tasks: Seq<TaskV>) -> Option<TaskV>
    decreases tasks.len(),
{
    if tasks.len() == 0 {
        None
    } else {
        match first_failed(tasks.drop_last()) {
            Some(t) => Some(t),
            None => if tasks.last().state is Failed { Some(tasks.last()) } else { None },
        }
    }
}

/// Whether every task completed.
pub open spec fn all_completed(tasks: Seq<TaskV>) -> bool {
    forall|i: int| 0 <= i < tasks.len() ==> (#[trigger] tasks[i]).state is Completed
}

/// Whether some task was handed out and did not fail or stop.
pub open spec fn any_started(tasks: Seq<TaskV>) -> bool {
    exists|i: int|
        0 <= i < tasks.len() && ((#[trigger] tasks[i]).state is Running || tasks[i].state is Deploying
            || tasks[i].state is Completed)
}

/// Why a job failed, given the task that failed.
pub open spec fn failure_reason(t: TaskV) -> Seq<char> {
    match t.error {
        Some(e) => e,
        None => "task failed"@,
    }
}

/// A job's state as it follows from its tasks. A terminal state stays. A failed
/// task fails the job; when all tasks completed, so did the job; when one has
/// started, the job is running.
pub open spec fn rolled_up(j: JobV, now: i64) -> JobV {
    if j.state.terminal() {
        j
    } else {
        match first_failed(j.tasks) {
            Some(t) => JobV {
                state: StateV::Failed(failure_reason(t)),
                end_time: Some(now),
                error_message: Some(failure_reason(t)),
                ..j
            },
            None => if j.tasks.len() > 0 && all_completed(j.tasks) {
                JobV { state: StateV::Completed, end_time: Some(now), ..j }
            } else if any_started(j.tasks) {
                JobV { state: StateV::Running, ..j }
            } else {
                j
            },
        }
    }
}

/// A task after a status report; its record count never falls.
pub open spec fn reported_task(t: TaskV, state: StateV, records: u64, error: Option<Seq<char>>) -> TaskV {
    TaskV {
        state,
        processed_records: if records > t.processed_records { records } else { t.processed_records },
        error,
        ..t
    }
}

/// A job after a status report for one of its tasks.
pub open spec fn reported_job(
    j: JobV,
    task_id: Seq<char>,
    state: StateV,
    records: u64,
    error: Option<Seq<char>>,
    now: i64,
) -> JobV {
    let k = match named(j.tasks, task_id) {
        Some(t) => JobV { tasks: put(j.tasks, reported_task(t, state, records, error)), ..j },
        None => j,
    };
    rolled_up(k, now)
}

/// A task after a heartbeat's metrics. Nothing that was reached is taken back,
/// and a finished job's log is closed. What its sinks measured replaces what was known
/// of them.
pub open spec fn metered_task(
    t: TaskV,
    job_over: bool,
    records: u64,
    last_record_at: i64,
    logs: Seq<Seq<char>>,
    worker: Seq<char>,
    checkpoint_id: u64,
    checkpoint_size: u64,
    sink_metrics: Option<JsonV>,
) -> TaskV {
    let newer = checkpoint_id > t.last_checkpoint_id;
    TaskV {
        processed_records: if records > t.processed_records { records } else { t.processed_records },
        worker_id: if worker.len() > 0 { worker } else { t.worker_id },
        last_record_at: if last_record_at > 0 { last_record_at } else { t.last_record_at },
        last_checkpoint_id: if newer { checkpoint_id } else { t.last_checkpoint_id },
        last_checkpoint_size: if newer { checkpoint_size } else { t.last_checkpoint_size },
        logs: if !job_over && logs.len() > 0 { logs_appended(t.logs, logs) } else { t.logs },
        sink_metrics: if sink_metrics is Some { sink_metrics } else { t.sink_metrics },
        ..t
    }
}

fn roll_up(job: &mut RunningJob, now: i64)
    ensures
        final(job)@ == rolled_up(old(job)@, now),
{
    let ghost j = job@;
    if job.state.is_terminal() {
        return;
    }
    let mut failed: Option<usize> = None;
    let mut started: bool = false;
    let mut completed: bool = true;
    let mut i: usize = 0;
    assert(j.tasks.take(0) =~= Seq::empty());
    while i < job.tasks.len()
        invariant
            i <= job.tasks@.len(),
            job@ == j,
            j.tasks == values(job.tasks@),
            match failed {
                Some(f) => f < i && first_failed(j.tasks.take(i as int)) == Some(j.tasks[f as int]),
                None => first_failed(j.tasks.take(i as int)) is None,
            },
            completed == (forall|k: int| 0 <= k < i ==> (#[trigger] j.tasks[k]).state is Completed),
            started == (exists|k: int|
                0 <= k < i && ((#[trigger] j.tasks[k]).state is Running || j.tasks[k].state is Deploying
                    || j.tasks[k].state is Completed)),
        decreases job.tasks@.len() - i,
    {
        proof {
            assert(j.tasks.take(i + 1).drop_last() =~= j.tasks.take(i as int));
            assert(j.tasks.take(i + 1).last() == j.tasks[i as int]);
            assert(j.tasks[i as int] == job.tasks@[i as int]@);
        }
        match &job.tasks[i].state {
            JobState::Failed { .. } => {
                if failed.is_none() {
                    failed = Some(i);
                }
                completed = false;
            },
            JobState::Completed => {
                started = true;
            },
            JobState::Running => {
                started = true;
                completed = false;
            },
            JobState::Deploying => {
                started = true;
                completed = false;
            },
            _ => {
                completed = false;
            },
        }
        i += 1;
    }
    assert(j.tasks.take(j.tasks.len() as int) =~= j.tasks);
    match failed {
        Some(f) => {
            assert(j.tasks[f as int] == job.tasks@[f as int]@);
            let reason = match &job.tasks[f].error {
                Some(e) => e.clone(),
                None => text::owned("task failed"),
            };
            let message = reason.clone();
            job.state = JobState::Failed { reason };
            job.end_time = Some(now);
            job.error_message = Some(message);
        },
        None => {
            if job.tasks.len() > 0 && completed {
                assert(all_completed(j.tasks));
                job.state = JobState::Completed;
                job.end_time = Some(now);
            } else if started {
                assert(any_started(j.tasks));
                job.state = JobState::Running;
            }
        },
    }
}

impl JobCoordinator {
    /// Takes a worker's report of a task's status and lets the job's state
    /// follow. A report for an unknown job changes nothing.
    pub fn report_task_status(
        &mut self,
        job_id: &str,
        task_id: &str,
        state: &str,
        records: u64,
        error: Option<String>,
        now: i64,
    )
        ensures
            final(self)@ == (CoordinatorV {
                jobs: match index_of(old(self)@.jobs, job_id@) {
                    Some(i) => old(self)@.jobs.update(
                        i,
                        reported_job(
                            old(self)@.jobs[i],
                            task_id@,
                            crate::job::state_of_wire(state@),
                            records,
                            opt_view(error),
                            now,
                        ),
                    ),
                    None => old(self)@.jobs,
                },
                ..old(self)@
            }),
            final(self).checkpoint_store == old(self).checkpoint_store,
    {
        let ghost jobs = self@.jobs;
        match keyed::find(&self.jobs, job_id) {
            Some(i) => {
                let ghost j = jobs[i as int];
                assert(j == self.jobs@[i as int]@);
                match keyed::find(&self.jobs[i].tasks, task_id) {
                    Some(k) => {
                        let ghost t = j.tasks[k as int];
                        assert(t == self.jobs@[i as int].tasks@[k as int]@);
                        self.jobs[i].tasks[k].state = JobState::from_wire(state);
                        if records > self.jobs[i].tasks[k].processed_records {
                            self.jobs[i].tasks[k].processed_records = records;
                        }
                        self.jobs[i].tasks[k].error = error;
                        proof {
                            let n = reported_task(t, crate::job::state_of_wire(state@), records, opt_view(error));
                            keyed::lemma_index_of(j.tasks, task_id@);
                            assert(self.jobs@[i as int]@.tasks =~= put(j.tasks, n));
                        }
                    },
                    None => {},
                }
                roll_up(&mut self.jobs[i], now);
                assert(self@.jobs =~= jobs.update(
                    i as int,
                    reported_job(j, task_id@, crate::job::state_of_wire(state@), records, opt_view(error), now),
                ));
            },
            None => {},
        }
    }

    /// The newest checkpoint of a task in the master's store.
    pub fn fetch_checkpoint(&self, job_id: &str, task_id: &str) -> (r: Option<(u64, Vec<u8>)>)
        ensures
            match (r, checkpoint_store::history_of(self@.store, job_id@, task_id@)) {
                (Some(e), Some(h)) => h.len() > 0 && h.last() == (e.0, e.1@),
                (None, Some(h)) => h.len() == 0,
                (Some(_), None) => false,
                (None, None) => true,
            },
    {
        self.checkpoint_store.load_latest(job_id, task_id)
    }

    /// Takes the metrics of a task that a heartbeat carries. Task ids are unique
    /// over all jobs, so the task alone names the job.
    pub fn report_task_metrics(
        &mut self,
        task_id: &str,
        records: u64,
        last_record_at: i64,
        logs: &Vec<String>,
        worker_id: &str,
        last_checkpoint_id: u64,
        last_checkpoint_size: u64,
        sink_metrics: &Option<Json>,
    )
        ensures
            final(self)@ == (CoordinatorV {
                jobs: match job_with_task(old(self)@.jobs, task_id@) {
                    Some(i) => {
                        let j = old(self)@.jobs[i];
                        let t = named(j.tasks, task_id@)->0;
                        old(self)@.jobs.update(
                            i,
                            JobV {
                                tasks: put(
                                    j.tasks,
                                    metered_task(
                                        t,
                                        j.state.terminal(),
                                        records,
                                        last_record_at,
                                        text::views(logs@),
                                        worker_id@,
                                        last_checkpoint_id,
                                        last_checkpoint_size,
                                        opt_json(*sink_metrics),
                                    ),
                                ),
                                ..j
                            },
                        )
                    },
                    None => old(self)@.jobs,
                },
                ..old(self)@
            }),
            final(self).checkpoint_store == old(self).checkpoint_store,
    {
        let ghost jobs = self@.jobs;
        match self.locate(task_id) {
            Some(p) => {
                let i: usize = p.0;
                let k: usize = p.1;
                let ghost j = jobs[i as int];
                let ghost t = j.tasks[k as int];
                let over: bool = self.jobs[i].state.is_terminal();
                meter(
                    &mut self.jobs[i].tasks[k],
                    over,
                    records,
                    last_record_at,
                    logs,
                    worker_id,
                    last_checkpoint_id,
                    last_checkpoint_size,
                    sink_metrics,
                );
                proof {
                    let n = metered_task(
                        t,
                        j.state.terminal(),
                        records,
                        last_record_at,
                        text::views(logs@),
                        worker_id@,
                        last_checkpoint_id,
                        last_checkpoint_size,
                        opt_json(*sink_metrics),
                    );
                    keyed::lemma_index_of(j.tasks, task_id@);
                    assert(t == named(j.tasks, task_id@)->0);
                    assert(self.jobs@[i as int]@.tasks =~= put(j.tasks, n));
                    assert(self@.jobs =~= jobs.update(i as int, JobV { tasks: put(j.tasks, n), ..j }));
                }
            },
            None => {},
        }
    }

    /// Counts a checkpoint that a worker reports as successful.
    pub fn report_checkpoint(&mut self, job_id: &str, _task_id: &str, _checkpoint_id: u64, success: bool)
        ensures
            final(self)@ == (CoordinatorV {
                jobs: match index_of(old(self)@.jobs, job_id@) {
                    Some(i) => if success {
                        let j = old(self)@.jobs[i];
                        old(self)@.jobs.update(
                            i,
                            JobV { checkpoints_completed: following(j.checkpoints_completed), ..j },
                        )
                    } else {
                        old(self)@.jobs
                    },
                    None => old(self)@.jobs,
                },
                ..old(self)@
            }),
            final(self).checkpoint_store == old(self).checkpoint_store,
    {
        let ghost jobs = self@.jobs;
        match keyed::find(&self.jobs, job_id) {
            Some(i) => {
                let ghost j = jobs[i as int];
                assert(j == self.jobs@[i as int]@);
                if success {
                    let n: u64 = next_after(self.jobs[i].checkpoints_completed);
                    self.jobs[i].checkpoints_completed = n;
                    assert(self@.jobs =~= jobs.update(i as int, JobV { checkpoints_completed: n, ..j }));
                }
            },
            None => {},
        }
    }
}

fn meter(
    task: &mut TaskInfo,
    over: bool,
    records: u64,
    last_record_at: i64,
    logs: &Vec<String>,
    worker_id: &str,
    last_checkpoint_id: u64,
    last_checkpoint_size: u64,
    sink_metrics: &Option<Json>,
)
    ensures
        final(task)@ == metered_task(
            old(task)@,
            over,
            records,
            last_record_at,
            text::views(logs@),
            worker_id@,
            last_checkpoint_id,
            last_checkpoint_size,
            opt_json(*sink_metrics),
        ),
{
    if records > task.processed_records {
        task.processed_records = records;
    }
    if !worker_id.is_empty() {
        task.worker_id = text::owned(worker_id);
    }
    if last_record_at > 0 {
        task.last_record_at = last_record_at;
    }
    if last_checkpoint_id > task.last_checkpoint_id {
        task.last_checkpoint_id = last_checkpoint_id;
        task.last_checkpoint_size = last_checkpoint_size;
    }
    assert(text::views(logs@).len() == logs@.len());
    if !over && logs.len() > 0 {
        task.append_logs(logs);
    }
    if sink_metrics.is_some() {
        task.sink_metrics = opt_json_copy(sink_metrics);
    }
}

// ---------------------------------------------------------------------------
// What reports cannot do
// ---------------------------------------------------------------------------

/// A terminal job state is never overwritten by a late report.
pub proof fn law_terminal_state_stays(
    j: JobV,
    task_id: Seq<char>,
    state: StateV,
    records: u64,
    error: Option<Seq<char>>,
    now: i64,
)
    requires
        j.state.terminal(),
    ensures
        reported_job(j, task_id, state, records, error, now).state == j.state,
        reported_job(j, task_id, state, records, error, now).end_time == j.end_time,
        reported_job(j, task_id, state, records, error, now).error_message == j.error_message,
{
}

/// A job is failed by a failed task and by nothing else, and it completes only
/// when every task has completed.
pub proof fn law_roll_up(j: JobV, now: i64)
    requires
        !j.state.terminal(),
    ensures
        rolled_up(j, now).state is Failed <==> exists|i: int| 0 <= i < j.tasks.len() && (#[trigger] j.tasks[i]).state is Failed,
        rolled_up(j, now).state is Completed <==> j.tasks.len() > 0 && all_completed(j.tasks),
        rolled_up(j, now).state.terminal() ==> rolled_up(j, now).end_time == Some(now),
{
    lemma_first_failed(j.tasks);
}

/// What `first_failed` finds.
pub proof fn lemma_first_failed(tasks: Seq<TaskV>)
    ensures
        match first_failed(tasks) {
            Some(t) => tasks.contains(t) && t.state is Failed,
            None => forall|i: int| 0 <= i < tasks.len() ==> !((#[trigger] tasks[i]).state is Failed),
        },
        first_failed(tasks) is Some <==> exists|i: int| 0 <= i < tasks.len() && (#[trigger] tasks[i]).state is Failed,
    decreases tasks.len(),
{
    if tasks.len() > 0 {
        let d = tasks.drop_last();
        lemma_first_failed(d);
        match first_failed(d) {
            Some(t) => {
                let k = choose|k: int| 0 <= k < d.len() && d[k] == t;
                assert(tasks[k] == t);
            },
            None => {
                assert forall|i: int| 0 <= i < tasks.len() - 1 implies !((#[trigger] tasks[i]).state is Failed) by {
                    assert(d[i] == tasks[i]);
                }
                assert(tasks[tasks.len() - 1] == tasks.last());
            },
        }
    }
}

} // verus!
