//! What clients can see: the cluster, the jobs, their tasks, checkpoints and logs.

use vstd::prelude::*;

use crate::checkpoint_store;
use crate::checkpoint_store::TaskCheckpointMeta;
use crate::client_handler::{job_not_found, ClientError, ClientHandler};
use crate::job::{state_number, JobState, JobV, StateV, TaskInfo, TaskV};
use crate::job_coordinator::JobCoordinator;
use crate::json::{opt_json, opt_json_copy, Json, JsonV};
use crate::keyed;
use crate::keyed::{named, ordered, values, Labelled, Named};
use crate::master::EntryV;
use crate::text;

verus! {

// ---------------------------------------------------------------------------
// The cluster
// ---------------------------------------------------------------------------

/// What clients see of a worker.
#[derive(Debug)]
pub struct WorkerReport {
    pub worker_id: String,
    pub address: String,
    pub last_heartbeat: i64,
    pub running_tasks: i32,
    pub load_score: u32,
    pub lag_ms: u32,
    pub mem_permille: u32,
    pub can_accept: bool,
}

/// The mathematical value of what clients see of a worker.
#[verifier::ext_equal]
pub struct WorkerReportV {
    pub worker_id: Seq<char>,
    pub address: Seq<char>,
    pub last_heartbeat: i64,
    pub running_tasks: i32,
    pub load_score: u32,
    pub lag_ms: u32,
    pub mem_permille: u32,
    pub can_accept: bool,
}

impl View for WorkerReport {
    type V = WorkerReportV;

    open spec fn view(&self) -> WorkerReportV {
        WorkerReportV {
            worker_id: self.worker_id@,
            address: self.address@,
            last_heartbeat: self.last_heartbeat,
            running_tasks: self.running_tasks,
            load_score: self.load_score,
            lag_ms: self.lag_ms,
            mem_permille: self.mem_permille,
            can_accept: self.can_accept,
        }
    }
}

/// Which tasks are counted.
pub enum Counted {
    All,
    Running,
    RunningOn(Seq<char>),
}

/// Whether a task is counted. Of a worker without an id no task is.
pub open spec fn counts(t: TaskV, what: Counted) -> bool {
    match what {
        Counted::All => true,
        Counted::Running => t.state is Running,
        Counted::RunningOn(w) => t.state is Running && w.len() > 0 && t.worker_id == w,
    }
}

/// The number of counted tasks.
pub open spec fn count_tasks(tasks: Seq<TaskV>, what: Counted) -> nat
    decreases tasks.len(),
{
    if tasks.len() == 0 {
        0
    } else {
        count_tasks(tasks.drop_last(), what) + if counts(tasks.last(), what) { 1nat } else { 0nat }
    }
}

/// The number of counted tasks of all jobs.
pub open spec fn count_jobs(jobs: Seq<JobV>, what: Counted) -> nat
    decreases jobs.len(),
{
    if jobs.len() == 0 {
        0
    } else {
        count_jobs(jobs.drop_last(), what) + count_tasks(jobs.last().tasks, what)
    }
}

proof fn lemma_count_tasks(tasks: Seq<TaskV>, what: Counted)
    ensures
        count_tasks(tasks, what) <= count_tasks(tasks, Counted::All),
    decreases tasks.len(),
{
    if tasks.len() > 0 {
        lemma_count_tasks(tasks.drop_last(), what);
    }
}

proof fn lemma_count_prefix(tasks: Seq<TaskV>, n: int, what: Counted)
    requires
        0 <= n <= tasks.len(),
    ensures
        count_tasks(tasks.take(n), what) <= count_tasks(tasks, what),
    decreases tasks.len() - n,
{
    if n < tasks.len() {
        assert(tasks.take(n + 1).drop_last() =~= tasks.take(n));
        lemma_count_prefix(tasks, n + 1, what);
    } else {
        assert(tasks.take(n) =~= tasks);
    }
}

proof fn lemma_count_jobs(jobs: Seq<JobV>, what: Counted)
    ensures
        count_jobs(jobs, what) <= count_jobs(jobs, Counted::All),
    decreases jobs.len(),
{
    if jobs.len() > 0 {
        lemma_count_jobs(jobs.drop_last(), what);
        lemma_count_tasks(jobs.last().tasks, what);
    }
}

proof fn lemma_count_jobs_prefix(jobs: Seq<JobV>, n: int, what: Counted)
    requires
        0 <= n <= jobs.len(),
    ensures
        count_jobs(jobs.take(n), what) <= count_jobs(jobs, what),
    decreases jobs.len() - n,
{
    if n < jobs.len() {
        assert(jobs.take(n + 1).drop_last() =~= jobs.take(n));
        lemma_count_jobs_prefix(jobs, n + 1, what);
    } else {
        assert(jobs.take(n) =~= jobs);
    }
}

fn is_running(t: &TaskInfo) -> (r: bool)
    ensures
        r == (t@.state is Running),
{
    match &t.state {
        JobState::Running => true,
        _ => false,
    }
}

/// The number of running tasks, of one worker where one is given.
fn count_running(coordinator: &JobCoordinator, worker: Option<&str>) -> (r: i32)
    requires
        count_jobs(coordinator@.jobs, Counted::All) <= i32::MAX,
    ensures
        r == count_jobs(
            coordinator@.jobs,
            match worker {
                Some(w) => Counted::RunningOn(w@),
                None => Counted::Running,
            },
        ),
{
    let ghost jobs = coordinator@.jobs;
    let ghost what = match worker {
        Some(w) => Counted::RunningOn(w@),
        None => Counted::Running,
    };
    let mut n: i32 = 0;
    let mut i: usize = 0;
    assert(jobs.take(0) =~= Seq::empty());
    while i < coordinator.jobs.len()
        invariant
            i <= coordinator.jobs@.len(),
            jobs == values(coordinator.jobs@),
            count_jobs(jobs, Counted::All) <= i32::MAX,
            what == match worker {
                Some(w) => Counted::RunningOn(w@),
                None => Counted::Running,
            },
            n == count_jobs(jobs.take(i as int), what),
        decreases coordinator.jobs@.len() - i,
    {
        let job = &coordinator.jobs[i];
        let ghost tasks = job@.tasks;
        let ghost base = n as nat;
        let mut k: usize = 0;
        proof {
            assert(jobs.take(i + 1).drop_last() =~= jobs.take(i as int));
            assert(jobs.take(i + 1).last() == job@);
            lemma_count_jobs(jobs.take(i + 1), what);
            lemma_count_jobs_prefix(jobs, i + 1, Counted::All);
            assert(tasks.take(0) =~= Seq::empty());
        }
        while k < job.tasks.len()
            invariant
                k <= job.tasks@.len(),
                tasks == values(job.tasks@),
                what == match worker {
                    Some(w) => Counted::RunningOn(w@),
                    None => Counted::Running,
                },
                base + count_tasks(tasks, what) <= i32::MAX,
                n == base + count_tasks(tasks.take(k as int), what),
            decreases job.tasks@.len() - k,
        {
            proof {
                assert(tasks.take(k + 1).drop_last() =~= tasks.take(k as int));
                assert(tasks.take(k + 1).last() == job.tasks@[k as int]@);
                lemma_count_prefix(tasks, k + 1, what);
            }
            let t = &job.tasks[k];
            let counted: bool = match worker {
                Some(w) => is_running(t) && !w.is_empty() && text::same(t.worker_id.as_str(), w),
                None => is_running(t),
            };
            if counted {
                n += 1;
            }
            k += 1;
        }
        assert(tasks.take(tasks.len() as int) =~= tasks);
        i += 1;
    }
    assert(jobs.take(jobs.len() as int) =~= jobs);
    n
}

proof fn lemma_count_all(tasks: Seq<TaskV>)
    ensures
        count_tasks(tasks, Counted::All) == tasks.len(),
    decreases tasks.len(),
{
    if tasks.len() > 0 {
        lemma_count_all(tasks.drop_last());
    }
}

/// The number of all tasks.
fn count_all(coordinator: &JobCoordinator) -> (r: i32)
    requires
        count_jobs(coordinator@.jobs, Counted::All) <= i32::MAX,
    ensures
        r == count_jobs(coordinator@.jobs, Counted::All),
{
    let ghost jobs = coordinator@.jobs;
    let mut n: i32 = 0;
    let mut i: usize = 0;
    assert(jobs.take(0) =~= Seq::empty());
    while i < coordinator.jobs.len()
        invariant
            i <= coordinator.jobs@.len(),
            jobs == values(coordinator.jobs@),
            count_jobs(jobs, Counted::All) <= i32::MAX,
            n == count_jobs(jobs.take(i as int), Counted::All),
        decreases coordinator.jobs@.len() - i,
    {
        proof {
            assert(jobs.take(i + 1).drop_last() =~= jobs.take(i as int));
            assert(jobs.take(i + 1).last() == coordinator.jobs@[i as int]@);
            lemma_count_jobs_prefix(jobs, i + 1, Counted::All);
            lemma_count_all(coordinator.jobs@[i as int]@.tasks);
        }
        n += coordinator.jobs[i].tasks.len() as i32;
        i += 1;
    }
    assert(jobs.take(jobs.len() as int) =~= jobs);
    n
}

/// What clients see of a worker, given the jobs.
pub open spec fn worker_report(e: EntryV, jobs: Seq<JobV>) -> WorkerReportV {
    WorkerReportV {
        worker_id: e.worker_id,
        address: e.address,
        last_heartbeat: e.last_heartbeat_ms,
        running_tasks: count_jobs(jobs, Counted::RunningOn(e.worker_id)) as i32,
        load_score: e.load_score,
        lag_ms: e.lag_ms,
        mem_permille: e.mem_permille,
        can_accept: e.can_accept,
    }
}

impl<'a> ClientHandler<'a> {
    /// What clients see of the workers.
    pub fn worker_infos(&self) -> (r: Vec<WorkerReport>)
        requires
            count_jobs(self.coordinator@.jobs, Counted::All) <= i32::MAX,
        ensures
            values(r@) == self.workers@.map_values(|e: EntryV| worker_report(e, self.coordinator@.jobs)),
    {
        let coordinator = self.coordinator;
        let workers = self.workers;
        let ghost jobs = coordinator@.jobs;
        let mut out: Vec<WorkerReport> = Vec::new();
        let mut i: usize = 0;
        while i < workers.workers.len()
            invariant
                i <= workers.workers@.len(),
                jobs == coordinator@.jobs,
                count_jobs(jobs, Counted::All) <= i32::MAX,
                out@.len() == i,
                forall|k: int| 0 <= k < i ==> #[trigger] out@[k]@ == worker_report(workers.workers@[k]@, jobs),
            decreases workers.workers@.len() - i,
        {
            let w = &workers.workers[i];
            let running_tasks = count_running(coordinator, Some(w.worker_id.as_str()));
            out.push(
                WorkerReport {
                    worker_id: w.worker_id.clone(),
                    address: w.entry.address.clone(),
                    last_heartbeat: w.entry.last_heartbeat_ms,
                    running_tasks,
                    load_score: w.entry.load_score,
                    lag_ms: w.entry.lag_ms,
                    mem_permille: w.entry.mem_permille,
                    can_accept: w.entry.can_accept,
                },
            );
            i += 1;
        }
        assert(values(out@) =~= workers@.map_values(|e: EntryV| worker_report(e, jobs)));
        out
    }
}

/// What clients see of the cluster.
#[derive(Debug)]
pub struct ClusterInfo {
    pub workers: Vec<WorkerReport>,
    pub available_workers: i32,
    pub total_tasks: i32,
    pub running_tasks: i32,
    pub leader_id: String,
    pub term: u64,
    pub leader_address: String,
    pub role: String,
}

impl<'a> ClientHandler<'a> {
    /// What clients see of the cluster. The leader is this master or the one that the
    /// hint names, and `-` while nobody leads.
    pub fn get_cluster_info(&self) -> (r: ClusterInfo)
        requires
            count_jobs(self.coordinator@.jobs, Counted::All) <= i32::MAX,
        ensures
            values(r.workers@) == self.workers@.map_values(|e: EntryV| worker_report(e, self.coordinator@.jobs)),
            r.available_workers == (self.workers@.len() as usize) as i32,
            r.total_tasks == count_jobs(self.coordinator@.jobs, Counted::All),
            r.running_tasks == count_jobs(self.coordinator@.jobs, Counted::Running),
            r.leader_id@ == if self.leads {
                self.info.advertise_addr@
            } else if self.hint@.len() == 0 {
                "-"@
            } else {
                self.hint@
            },
            r.leader_address@ == r.leader_id@,
            r.term == self.coordinator@.term,
            r.role@ == self.info.role@,
    {
        let coordinator = self.coordinator;
        let info = self.info;
        let reports = self.worker_infos();
        proof {
            assert(values(reports@).len() == reports@.len());
        }
        let leader = if self.leads {
            info.advertise_addr.clone()
        } else if self.hint.is_empty() {
            text::owned("-")
        } else {
            text::owned(self.hint)
        };
        ClusterInfo {
            available_workers: reports.len() as i32,
            total_tasks: count_all(coordinator),
            running_tasks: count_running(coordinator, None),
            leader_id: leader.clone(),
            term: coordinator.term(),
            leader_address: leader,
            role: info.role.clone(),
            workers: reports,
        }
    }
}

// ---------------------------------------------------------------------------
// Jobs and tasks
// ---------------------------------------------------------------------------

/// The number of a task's state in a status listing.
pub open spec fn task_number(s: StateV) -> i32 {
    match s {
        StateV::Created => 1,
        StateV::Scheduled => 1,
        StateV::Deploying => 2,
        StateV::Running => 2,
        StateV::Completed => 3,
        StateV::Failed(_) => 4,
        StateV::Cancelled => 5,
    }
}

/// The number of a task's state in a status listing.
pub fn task_state_number(s: &JobState) -> (r: i32)
    ensures
        r == task_number(s@),
{
    match s {
        JobState::Created => 1,
        JobState::Scheduled => 1,
        JobState::Deploying => 2,
        JobState::Running => 2,
        JobState::Completed => 3,
        JobState::Failed { .. } => 4,
        JobState::Cancelled => 5,
    }
}

/// What clients see of a task.
#[derive(Debug)]
pub struct TaskStatusInfo {
    pub task_id: String,
    pub stage_id: String,
    pub state: i32,
    pub processed_records: i64,
    pub start_time: i64,
    pub end_time: i64,
    pub last_record_at: i64,
    pub worker_id: String,
    /// What the task's sinks have measured, if they measure.
    pub sink_metrics: Option<Json>,
}

/// The mathematical value of what clients see of a task.
#[verifier::ext_equal]
pub struct TaskStatusInfoV {
    pub task_id: Seq<char>,
    pub stage_id: Seq<char>,
    pub state: i32,
    pub processed_records: i64,
    pub start_time: i64,
    pub end_time: i64,
    pub last_record_at: i64,
    pub worker_id: Seq<char>,
    pub sink_metrics: Option<JsonV>,
}

impl View for TaskStatusInfo {
    type V = TaskStatusInfoV;

    open spec fn view(&self) -> TaskStatusInfoV {
        TaskStatusInfoV {
            task_id: self.task_id@,
            stage_id: self.stage_id@,
            state: self.state,
            processed_records: self.processed_records,
            start_time: self.start_time,
            end_time: self.end_time,
            last_record_at: self.last_record_at,
            worker_id: self.worker_id@,
            sink_metrics: opt_json(self.sink_metrics),
        }
    }
}

impl Named for TaskStatusInfoV {
    open spec fn name(self) -> Seq<char> {
        self.task_id
    }
}

impl Labelled for TaskStatusInfo {
    fn label(&self) -> (r: &str) {
        self.task_id.as_str()
    }
}

/// A time, or 0 when there is none.
pub open spec fn or_zero(t: Option<i64>) -> i64 {
    match t {
        Some(v) => v,
        None => 0,
    }
}

fn time_or_zero(t: Option<i64>) -> (r: i64)
    ensures
        r == or_zero(t),
{
    match t {
        Some(v) => v,
        None => 0,
    }
}

/// What clients see of a task of a job.
pub open spec fn task_status(j: JobV, t: TaskV) -> TaskStatusInfoV {
    TaskStatusInfoV {
        task_id: t.task_id,
        stage_id: t.stage_id,
        state: task_number(t.state),
        processed_records: t.processed_records as i64,
        start_time: j.start_time,
        end_time: or_zero(j.end_time),
        last_record_at: t.last_record_at,
        worker_id: t.worker_id,
        sink_metrics: t.sink_metrics,
    }
}

/// What clients see of a job.
#[derive(Debug)]
pub struct JobStatus {
    pub job_id: String,
    pub state: i32,
    pub job_name: String,
    pub start_time: i64,
    pub end_time: i64,
    pub error_message: String,
    pub tasks: Vec<TaskStatusInfo>,
    pub checkpoint_interval_ms: i64,
    pub checkpoints_completed: i64,
    /// The configuration that was retained.
    pub job_config: String,
}

/// Whether `r` is what clients see of a job.
pub open spec fn is_job_status(r: JobStatus, j: JobV) -> bool {
    &&& r.state == state_number(j.state)
    &&& r.job_name@ == j.job_name
    &&& r.start_time == j.start_time
    &&& r.end_time == or_zero(j.end_time)
    &&& r.error_message@ == match j.error_message {
        Some(m) => m,
        None => Seq::empty(),
    }
    &&& values(r.tasks@) == ordered(j.tasks.map_values(|t: TaskV| task_status(j, t)))
    &&& r.checkpoint_interval_ms == j.checkpoint_interval_ms as i64
    &&& r.checkpoints_completed == j.checkpoints_completed as i64
    &&& r.job_config@ == j.raw_config
}

fn not_found(job_id: &str) -> (r: ClientError)
    ensures
        r@ == job_not_found(job_id@),
{
    ClientError::NotFound(text::join3("Job ", job_id, " not found"))
}

impl<'a> ClientHandler<'a> {
    /// What clients see of a job: its tasks in the order of their ids. An unknown job
    /// is refused.
    pub fn get_job_status(&self, job_id: &str) -> (r: Result<JobStatus, ClientError>)
        ensures
            match (r, named(self.coordinator@.jobs, job_id@)) {
                (Ok(s), Some(j)) => s.job_id@ == job_id@ && is_job_status(s, j),
                (Err(e), None) => e@ == job_not_found(job_id@),
                _ => false,
            },
    {
        let job = match self.coordinator.get_job(job_id) {
            Some(j) => j,
            None => {
                return Err(not_found(job_id));
            },
        };
        let ghost j = job@;
        let ghost sv = j.tasks.map_values(|t: TaskV| task_status(j, t));
        let mut tasks: Vec<TaskStatusInfo> = Vec::new();
        let mut i: usize = 0;
        proof {
            assert(sv.take(0) =~= Seq::empty());
            assert(values(tasks@) =~= Seq::empty());
        }
        while i < job.tasks.len()
            invariant
                i <= job.tasks@.len(),
                j == job@,
                sv == j.tasks.map_values(|t: TaskV| task_status(j, t)),
                values(tasks@) == ordered(sv.take(i as int)),
            decreases job.tasks@.len() - i,
        {
            let t = &job.tasks[i];
            let info = TaskStatusInfo {
                task_id: t.task_id.clone(),
                stage_id: t.stage_id.clone(),
                state: task_state_number(&t.state),
                processed_records: t.processed_records as i64,
                start_time: job.start_time,
                end_time: time_or_zero(job.end_time),
                last_record_at: t.last_record_at,
                worker_id: t.worker_id.clone(),
                sink_metrics: opt_json_copy(&t.sink_metrics),
            };
            proof {
                assert(sv.take(i + 1).drop_last() =~= sv.take(i as int));
                assert(info@ == sv[i as int]);
            }
            keyed::insert_item(&mut tasks, info);
            i += 1;
        }
        assert(sv.take(sv.len() as int) =~= sv);
        let error_message = match &job.error_message {
            Some(m) => m.clone(),
            None => String::new(),
        };
        Ok(
            JobStatus {
                job_id: text::owned(job_id),
                state: job.state.to_proto_state(),
                job_name: job.job_name.clone(),
                start_time: job.start_time,
                end_time: time_or_zero(job.end_time),
                error_message,
                tasks,
                checkpoint_interval_ms: job.checkpoint_interval_ms as i64,
                checkpoints_completed: job.checkpoints_completed as i64,
                job_config: job.raw_config.clone(),
            },
        )
    }
}

/// What clients see of a job in a listing.
#[derive(Debug)]
pub struct JobSummary {
    pub job_id: String,
    pub job_name: String,
    pub state: i32,
    pub start_time: i64,
    pub end_time: i64,
}

/// The mathematical value of a job in a listing.
#[verifier::ext_equal]
pub struct SummaryV {
    pub job_id: Seq<char>,
    pub job_name: Seq<char>,
    pub state: i32,
    pub start_time: i64,
    pub end_time: i64,
}

impl View for JobSummary {
    type V = SummaryV;

    open spec fn view(&self) -> SummaryV {
        SummaryV {
            job_id: self.job_id@,
            job_name: self.job_name@,
            state: self.state,
            start_time: self.start_time,
            end_time: self.end_time,
        }
    }
}

/// A job in a listing.
pub open spec fn summary_of(j: JobV) -> SummaryV {
    SummaryV {
        job_id: j.job_id,
        job_name: j.job_name,
        state: state_number(j.state),
        start_time: j.start_time,
        end_time: or_zero(j.end_time),
    }
}

/// `s` with `e` behind the last job that did not start before it.
pub open spec fn insert_latest(s: Seq<SummaryV>, e: SummaryV) -> Seq<SummaryV>
    decreases s.len(),
{
    if s.len() == 0 {
        seq![e]
    } else if e.start_time <= s.last().start_time {
        s.push(e)
    } else {
        insert_latest(s.drop_last(), e).push(s.last())
    }
}

/// The jobs as a listing, those that started last first.
pub open spec fn listing(jobs: Seq<JobV>) -> Seq<SummaryV>
    decreases jobs.len(),
{
    if jobs.len() == 0 {
        Seq::empty()
    } else {
        insert_latest(listing(jobs.drop_last()), summary_of(jobs.last()))
    }
}

proof fn lemma_insert_latest(s: Seq<SummaryV>, e: SummaryV)
    requires
        forall|i: int, j: int| 0 <= i < j < s.len() ==> (#[trigger] s[i]).start_time >= (#[trigger] s[j]).start_time,
    ensures
        ({
            let r = insert_latest(s, e);
            &&& forall|i: int, j: int|
                0 <= i < j < r.len() ==> (#[trigger] r[i]).start_time >= (#[trigger] r[j]).start_time
            &&& forall|i: int| 0 <= i < r.len() ==> #[trigger] r[i] == e || s.contains(r[i])
            &&& r.to_multiset() == s.to_multiset().insert(e)
        }),
    decreases s.len(),
{
    broadcast use vstd::seq_lib::group_to_multiset_ensures;

    let r = insert_latest(s, e);
    if s.len() == 0 {
        assert(r =~= s.push(e));
    } else if e.start_time <= s.last().start_time {
        assert forall|i: int| 0 <= i < r.len() implies #[trigger] r[i] == e || s.contains(r[i]) by {
            if i < s.len() {
                assert(r[i] == s[i]);
            }
        }
        assert forall|i: int, j: int| 0 <= i < j < r.len() implies (#[trigger] r[i]).start_time >= (#[trigger] r[
            j]).start_time by {
            if j == s.len() {
                assert(s[i].start_time >= s[s.len() - 1].start_time);
            }
        }
    } else {
        let d = s.drop_last();
        lemma_insert_latest(d, e);
        let q = insert_latest(d, e);
        assert(d.push(s.last()) =~= s);
        assert(r.to_multiset() =~= s.to_multiset().insert(e));
        assert forall|i: int| 0 <= i < r.len() implies #[trigger] r[i] == e || s.contains(r[i]) by {
            if i < q.len() {
                if q[i] != e {
                    assert(d.contains(q[i]));
                    let k = choose|k: int| 0 <= k < d.len() && d[k] == q[i];
                    assert(s[k] == q[i]);
                }
            } else {
                assert(r[i] == s[s.len() - 1]);
            }
        }
        assert forall|i: int, j: int| 0 <= i < j < r.len() implies (#[trigger] r[i]).start_time >= (#[trigger] r[
            j]).start_time by {
            if j == q.len() {
                if q[i] != e {
                    assert(d.contains(q[i]));
                    let k = choose|k: int| 0 <= k < d.len() && d[k] == q[i];
                    assert(s[k].start_time >= s[s.len() - 1].start_time);
                }
            }
        }
    }
}

/// A listing holds every job, and no job started after the one in front of it.
pub proof fn law_listing(jobs: Seq<JobV>)
    ensures
        ({
            let r = listing(jobs);
            &&& forall|i: int, j: int|
                0 <= i < j < r.len() ==> (#[trigger] r[i]).start_time >= (#[trigger] r[j]).start_time
            &&& r.to_multiset() == jobs.map_values(|j: JobV| summary_of(j)).to_multiset()
        }),
    decreases jobs.len(),
{
    broadcast use vstd::seq_lib::group_to_multiset_ensures;

    if jobs.len() > 0 {
        let d = jobs.drop_last();
        law_listing(d);
        lemma_insert_latest(listing(d), summary_of(jobs.last()));
        assert(jobs.map_values(|j: JobV| summary_of(j)) =~= d.map_values(|j: JobV| summary_of(j)).push(
            summary_of(jobs.last()),
        ));
    } else {
        assert(jobs.map_values(|j: JobV| summary_of(j)) =~= Seq::empty());
    }
}

fn insert_summary(items: &mut Vec<JobSummary>, item: JobSummary)
    ensures
        values(final(items)@) == insert_latest(values(old(items)@), item@),
{
    let ghost s = values(items@);
    let mut i: usize = items.len();
    proof {
        assert(s.take(s.len() as int) =~= s);
        assert(insert_latest(s, item@) + s.skip(s.len() as int) =~= insert_latest(s, item@));
    }
    while i > 0
        invariant
            i <= items@.len(),
            s == values(items@),
            items@ == old(items)@,
            insert_latest(s, item@) == insert_latest(s.take(i as int), item@) + s.skip(i as int),
        decreases i,
    {
        proof {
            assert(s.take(i as int).last() == items@[i - 1]@);
            assert(s.take(i as int).drop_last() =~= s.take(i - 1));
        }
        if item.start_time <= items[i - 1].start_time {
            proof {
                assert(insert_latest(s, item@) =~= s.insert(i as int, item@));
            }
            items.insert(i, item);
            assert(values(items@) =~= s.insert(i as int, item@));
            return;
        }
        proof {
            assert(insert_latest(s.take(i - 1), item@).push(s[i - 1]) + s.skip(i as int) =~= insert_latest(
                s.take(i - 1),
                item@,
            ) + s.skip(i - 1));
        }
        i -= 1;
    }
    proof {
        assert(s.take(0) =~= Seq::empty());
        assert(insert_latest(s, item@) =~= s.insert(0, item@));
    }
    items.insert(0, item);
    assert(values(items@) =~= s.insert(0, item@));
}

impl<'a> ClientHandler<'a> {
    /// All jobs, those that started last first.
    pub fn list_jobs(&self) -> (r: Vec<JobSummary>)
        ensures
            values(r@) == listing(self.coordinator@.jobs),
    {
        let coordinator = self.coordinator;
        let ghost jobs = coordinator@.jobs;
        let mut out: Vec<JobSummary> = Vec::new();
        let mut i: usize = 0;
        proof {
            assert(jobs.take(0) =~= Seq::empty());
            assert(values(out@) =~= Seq::empty());
        }
        while i < coordinator.jobs.len()
            invariant
                i <= coordinator.jobs@.len(),
                jobs == values(coordinator.jobs@),
                values(out@) == listing(jobs.take(i as int)),
            decreases coordinator.jobs@.len() - i,
        {
            let j = &coordinator.jobs[i];
            proof {
                assert(jobs.take(i + 1).drop_last() =~= jobs.take(i as int));
                assert(jobs.take(i + 1).last() == j@);
            }
            let s = JobSummary {
                job_id: j.job_id.clone(),
                job_name: j.job_name.clone(),
                state: j.state.to_proto_state(),
                start_time: j.start_time,
                end_time: time_or_zero(j.end_time),
            };
            insert_summary(&mut out, s);
            i += 1;
        }
        assert(jobs.take(jobs.len() as int) =~= jobs);
        out
    }
}

// ---------------------------------------------------------------------------
// Logs and checkpoints
// ---------------------------------------------------------------------------

/// The log of a task.
#[derive(Debug)]
pub struct TaskLogs {
    pub task_id: String,
    pub lines: Vec<String>,
}

/// The mathematical value of a task's log.
#[verifier::ext_equal]
pub struct TaskLogsV {
    pub task_id: Seq<char>,
    pub lines: Seq<Seq<char>>,
}

impl View for TaskLogs {
    type V = TaskLogsV;

    open spec fn view(&self) -> TaskLogsV {
        TaskLogsV { task_id: self.task_id@, lines: text::views(self.lines@) }
    }
}

impl Named for TaskLogsV {
    open spec fn name(self) -> Seq<char> {
        self.task_id
    }
}

impl Labelled for TaskLogs {
    fn label(&self) -> (r: &str) {
        self.task_id.as_str()
    }
}

/// The logs of a job's tasks.
#[derive(Debug)]
pub struct JobLogs {
    pub job_id: String,
    pub tasks: Vec<TaskLogs>,
}

impl<'a> ClientHandler<'a> {
    /// The logs of a job's tasks in the order of their ids. An unknown job is refused.
    pub fn get_job_logs(&self, job_id: &str) -> (r: Result<JobLogs, ClientError>)
        ensures
            match (r, named(self.coordinator@.jobs, job_id@)) {
                (Ok(s), Some(j)) => s.job_id@ == job_id@ && values(s.tasks@) == ordered(
                    j.tasks.map_values(|t: TaskV| TaskLogsV { task_id: t.task_id, lines: t.logs }),
                ),
                (Err(e), None) => e@ == job_not_found(job_id@),
                _ => false,
            },
    {
        let job = match self.coordinator.get_job(job_id) {
            Some(j) => j,
            None => {
                return Err(not_found(job_id));
            },
        };
        let ghost j = job@;
        let ghost sv = j.tasks.map_values(|t: TaskV| TaskLogsV { task_id: t.task_id, lines: t.logs });
        let mut tasks: Vec<TaskLogs> = Vec::new();
        let mut i: usize = 0;
        proof {
            assert(sv.take(0) =~= Seq::empty());
            assert(values(tasks@) =~= Seq::empty());
        }
        while i < job.tasks.len()
            invariant
                i <= job.tasks@.len(),
                j == job@,
                sv.len() == job.tasks@.len(),
                forall|k: int|
                    0 <= k < sv.len() ==> #[trigger] sv[k] == (TaskLogsV {
                        task_id: job.tasks@[k].task_id@,
                        lines: text::views(job.tasks@[k].logs@),
                    }),
                values(tasks@) == ordered(sv.take(i as int)),
            decreases job.tasks@.len() - i,
        {
            let t = &job.tasks[i];
            let logs = TaskLogs { task_id: t.task_id.clone(), lines: text::copy_list(&t.logs) };
            proof {
                assert(sv.take(i + 1).drop_last() =~= sv.take(i as int));
                assert(logs@ == sv[i as int]);
            }
            keyed::insert_item(&mut tasks, logs);
            i += 1;
        }
        assert(sv.take(sv.len() as int) =~= sv);
        Ok(JobLogs { job_id: text::owned(job_id), tasks })
    }
}

/// A retained checkpoint.
#[derive(Debug, Clone, Copy)]
pub struct CheckpointEntry {
    pub checkpoint_id: i64,
    pub size_bytes: i64,
}

/// The retained checkpoints of a task.
#[derive(Debug)]
pub struct TaskCheckpointHistory {
    pub task_id: String,
    pub entries: Vec<CheckpointEntry>,
}

/// The mathematical value of a task's retained checkpoints.
#[verifier::ext_equal]
pub struct HistoryV {
    pub task_id: Seq<char>,
    pub entries: Seq<(i64, i64)>,
}

/// The ids and sizes behind a list of checkpoints.
pub open spec fn entries_view(v: Seq<CheckpointEntry>) -> Seq<(i64, i64)> {
    v.map_values(|e: CheckpointEntry| (e.checkpoint_id, e.size_bytes))
}

impl View for TaskCheckpointHistory {
    type V = HistoryV;

    open spec fn view(&self) -> HistoryV {
        HistoryV { task_id: self.task_id@, entries: entries_view(self.entries@) }
    }
}

impl Named for HistoryV {
    open spec fn name(self) -> Seq<char> {
        self.task_id
    }
}

impl Labelled for TaskCheckpointHistory {
    fn label(&self) -> (r: &str) {
        self.task_id.as_str()
    }
}

/// The retained checkpoints of a job.
#[derive(Debug)]
pub struct JobCheckpointHistory {
    pub job_id: String,
    pub checkpoint_interval_ms: i64,
    pub checkpoints_completed: i64,
    pub tasks: Vec<TaskCheckpointHistory>,
}

/// A task's history as the master's store lists it.
pub open spec fn stored_history(m: (Seq<char>, Seq<(u64, u64)>)) -> HistoryV {
    HistoryV { task_id: m.0, entries: m.1.map_values(|e: (u64, u64)| (e.0 as i64, e.1 as i64)) }
}

/// Whether a history of a task is listed that is not empty.
pub open spec fn is_listed(h: Seq<HistoryV>, task: Seq<char>) -> bool {
    exists|i: int| 0 <= i < h.len() && (#[trigger] h[i]).task_id == task && h[i].entries.len() > 0
}

/// The histories of the store, and for a task that the store has none of, the last
/// checkpoint that its heartbeats reported.
pub open spec fn with_reported(h: Seq<HistoryV>, tasks: Seq<TaskV>) -> Seq<HistoryV>
    decreases tasks.len(),
{
    if tasks.len() == 0 {
        h
    } else {
        let g = with_reported(h, tasks.drop_last());
        let t = tasks.last();
        if t.last_checkpoint_id > 0 && !is_listed(g, t.task_id) {
            g.push(
                HistoryV {
                    task_id: t.task_id,
                    entries: seq![(t.last_checkpoint_id as i64, t.last_checkpoint_size as i64)],
                },
            )
        } else {
            g
        }
    }
}

/// The checkpoint histories of a job's tasks.
pub open spec fn histories(store: checkpoint_store::Store, j: JobV, job_id: Seq<char>) -> Seq<HistoryV> {
    ordered(
        with_reported(
            checkpoint_store::job_listing(store, job_id).map_values(
                |m: (Seq<char>, Seq<(u64, u64)>)| stored_history(m),
            ),
            j.tasks,
        ),
    )
}

fn listed_history(list: &Vec<TaskCheckpointHistory>, task_id: &str) -> (r: bool)
    ensures
        r == is_listed(values(list@), task_id@),
{
    let mut i: usize = 0;
    while i < list.len()
        invariant
            i <= list@.len(),
            forall|k: int|
                0 <= k < i ==> !((#[trigger] values(list@)[k]).task_id == task_id@ && values(list@)[k].entries.len()
                    > 0),
        decreases list@.len() - i,
    {
        assert(values(list@)[i as int] == list@[i as int]@);
        if text::same(list[i].task_id.as_str(), task_id) && list[i].entries.len() > 0 {
            return true;
        }
        i += 1;
    }
    false
}

fn history_of(m: &TaskCheckpointMeta) -> (r: TaskCheckpointHistory)
    ensures
        r@ == stored_history((m.task_id@, checkpoint_store::meta_view(m.entries@))),
{
    let mut entries: Vec<CheckpointEntry> = Vec::new();
    let mut i: usize = 0;
    while i < m.entries.len()
        invariant
            i <= m.entries@.len(),
            entries@.len() == i,
            forall|k: int|
                0 <= k < i ==> (#[trigger] entries@[k]).checkpoint_id == m.entries@[k].checkpoint_id as i64
                    && entries@[k].size_bytes == m.entries@[k].size_bytes as i64,
        decreases m.entries@.len() - i,
    {
        entries.push(
            CheckpointEntry {
                checkpoint_id: m.entries[i].checkpoint_id as i64,
                size_bytes: m.entries[i].size_bytes as i64,
            },
        );
        i += 1;
    }
    let r = TaskCheckpointHistory { task_id: m.task_id.clone(), entries };
    assert(r@.entries =~= stored_history((m.task_id@, checkpoint_store::meta_view(m.entries@))).entries);
    r
}

impl<'a> ClientHandler<'a> {
    /// The retained checkpoints of a job's tasks in the order of their ids. Where the
    /// master's store has none of a task, the last one that was reported stands. An
    /// unknown job is refused.
    pub fn get_job_checkpoints(&self, job_id: &str) -> (r: Result<JobCheckpointHistory, ClientError>)
        ensures
            match (r, named(self.coordinator@.jobs, job_id@)) {
                (Ok(s), Some(j)) => {
                    &&& s.job_id@ == job_id@
                    &&& s.checkpoint_interval_ms == j.checkpoint_interval_ms as i64
                    &&& s.checkpoints_completed == j.checkpoints_completed as i64
                    &&& values(s.tasks@) == histories(self.coordinator@.store, j, job_id@)
                },
                (Err(e), None) => e@ == job_not_found(job_id@),
                _ => false,
            },
    {
        let coordinator = self.coordinator;
        let job = match coordinator.get_job(job_id) {
            Some(j) => j,
            None => {
                return Err(not_found(job_id));
            },
        };
        let ghost j = job@;
        let metas = coordinator.checkpoint_store.list_job_meta(job_id);
        let ghost base = checkpoint_store::job_listing(coordinator@.store, job_id@).map_values(
            |m: (Seq<char>, Seq<(u64, u64)>)| stored_history(m),
        );
        let mut list: Vec<TaskCheckpointHistory> = Vec::new();
        let mut i: usize = 0;
        while i < metas.len()
            invariant
                i <= metas@.len(),
                list@.len() == i,
                forall|k: int|
                    0 <= k < i ==> #[trigger] list@[k]@ == stored_history(
                        (metas@[k].task_id@, checkpoint_store::meta_view(metas@[k].entries@)),
                    ),
            decreases metas@.len() - i,
        {
            let h = history_of(&metas[i]);
            list.push(h);
            i += 1;
        }
        proof {
            assert(values(list@) =~= checkpoint_store::listing_view(metas@).map_values(
                |m: (Seq<char>, Seq<(u64, u64)>)| stored_history(m),
            ));
        }
        let ghost tasks = j.tasks;
        let mut i: usize = 0;
        assert(tasks.take(0) =~= Seq::empty());
        while i < job.tasks.len()
            invariant
                i <= job.tasks@.len(),
                tasks == values(job.tasks@),
                values(list@) == with_reported(base, tasks.take(i as int)),
            decreases job.tasks@.len() - i,
        {
            let t = &job.tasks[i];
            proof {
                assert(tasks.take(i + 1).drop_last() =~= tasks.take(i as int));
                assert(tasks.take(i + 1).last() == t@);
            }
            if t.last_checkpoint_id > 0 && !listed_history(&list, t.task_id.as_str()) {
                let ghost prev = list@;
                let mut entries: Vec<CheckpointEntry> = Vec::new();
                entries.push(
                    CheckpointEntry {
                        checkpoint_id: t.last_checkpoint_id as i64,
                        size_bytes: t.last_checkpoint_size as i64,
                    },
                );
                let h = TaskCheckpointHistory { task_id: t.task_id.clone(), entries };
                assert(h@.entries =~= seq![(t.last_checkpoint_id as i64, t.last_checkpoint_size as i64)]);
                list.push(h);
                assert(values(list@) =~= values(prev).push(h@));
            }
            i += 1;
        }
        assert(tasks.take(tasks.len() as int) =~= tasks);
        let tasks = order_histories(list);
        Ok(
            JobCheckpointHistory {
                job_id: text::owned(job_id),
                checkpoint_interval_ms: job.checkpoint_interval_ms as i64,
                checkpoints_completed: job.checkpoints_completed as i64,
                tasks,
            },
        )
    }
}

fn order_histories(list: Vec<TaskCheckpointHistory>) -> (r: Vec<TaskCheckpointHistory>)
    ensures
        values(r@) == ordered(values(list@)),
{
    let ghost lv = values(list@);
    let mut queue = list;
    let mut out: Vec<TaskCheckpointHistory> = Vec::new();
    proof {
        assert(lv.take(0) =~= Seq::empty());
        assert(lv.skip(0) =~= lv);
        assert(values(out@) =~= Seq::empty());
    }
    while queue.len() > 0
        invariant
            queue@.len() <= lv.len(),
            values(queue@) == lv.skip(lv.len() - queue@.len()),
            values(out@) == ordered(lv.take(lv.len() - queue@.len())),
        decreases queue@.len(),
    {
        let ghost done = lv.len() - queue@.len();
        let ghost before = queue@;
        assert(values(queue@)[0] == lv[done]);
        let h = queue.remove(0);
        proof {
            assert(h@ == lv[done]);
            assert(values(queue@) =~= values(before).skip(1));
            assert(lv.skip(done).skip(1) =~= lv.skip(done + 1));
            assert(lv.take(done + 1).drop_last() =~= lv.take(done));
            assert(lv.take(done + 1).last() == h@);
        }
        keyed::insert_item(&mut out, h);
    }
    assert(lv.take(lv.len() as int) =~= lv);
    out
}

} // verus!
