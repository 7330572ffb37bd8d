//! Replicating the coordinator: snapshots of its state and their merge. What is
//! here always wins over a snapshot, but the fencing term and the checkpoint ids
//! never fall behind it.

use vstd::prelude::*;

use crate::checkpoint_store;
use crate::checkpoint_store::{Store, TaskCheckpoints};
use crate::job::{
    new_task, opt_copy, opt_view, state_of_wire, DescriptorV, JobState, JobV, RunningJob, TaskDescriptor,
    TaskInfo, TaskV,
};
use crate::job_coordinator::{CoordinatorV, JobCoordinator, MASTER_RETAINED};
use crate::keyed;
use crate::keyed::{distinct, index_of, named, put_all, values, Named};
use crate::props::{Pairs, Properties};
use crate::text;

verus! {

// ---------------------------------------------------------------------------
// Snapshots
// ---------------------------------------------------------------------------

/// What a snapshot holds of a task.
#[derive(Debug)]
pub struct TaskStatusRecord {
    pub task_id: String,
    pub stage_id: String,
    pub worker_id: String,
    pub state: String,
    pub processed_records: u64,
    pub error: Option<String>,
}

/// What a snapshot holds of a job.
#[derive(Debug)]
pub struct JobRecord {
    pub job_id: String,
    pub job_name: String,
    pub state: String,
    pub parallelism: usize,
    pub start_time: i64,
    pub end_time: Option<i64>,
    pub error_message: Option<String>,
    pub checkpoint_interval_ms: u64,
    pub checkpoints_completed: u64,
    pub next_checkpoint_id: u64,
    pub raw_config: String,
    pub tasks: Vec<TaskStatusRecord>,
}

/// What a snapshot holds of a task descriptor. What it does not hold, or holds
/// malformed, is absent.
#[derive(Debug)]
pub struct DescriptorRecord {
    pub task_id: Option<String>,
    pub job_id: Option<String>,
    pub stage_id: Option<String>,
    pub task_name: Option<String>,
    pub task_index: Option<i64>,
    pub parallelism: Option<i64>,
    pub config: Option<Properties>,
}

/// A snapshot of a coordinator. A section that is absent or malformed is `None`.
#[derive(Debug)]
pub struct StateSnapshot {
    pub term: Option<u64>,
    pub jobs: Option<Vec<JobRecord>>,
    pub tasks: Option<Vec<DescriptorRecord>>,
    pub checkpoints: Option<Vec<((String, String), TaskCheckpoints)>>,
}

/// The mathematical value of a task in a snapshot.
#[verifier::ext_equal]
pub struct TaskStatusV {
    pub task_id: Seq<char>,
    pub stage_id: Seq<char>,
    pub worker_id: Seq<char>,
    pub state: Seq<char>,
    pub processed_records: u64,
    pub error: Option<Seq<char>>,
}

/// The mathematical value of a job in a snapshot.
#[verifier::ext_equal]
pub struct JobRecordV {
    pub job_id: Seq<char>,
    pub job_name: Seq<char>,
    pub state: Seq<char>,
    pub parallelism: usize,
    pub start_time: i64,
    pub end_time: Option<i64>,
    pub error_message: Option<Seq<char>>,
    pub checkpoint_interval_ms: u64,
    pub checkpoints_completed: u64,
    pub next_checkpoint_id: u64,
    pub raw_config: Seq<char>,
    pub tasks: Seq<TaskStatusV>,
}

/// The mathematical value of a descriptor in a snapshot.
#[verifier::ext_equal]
pub struct DescriptorRecordV {
    pub task_id: Option<Seq<char>>,
    pub job_id: Option<Seq<char>>,
    pub stage_id: Option<Seq<char>>,
    pub task_name: Option<Seq<char>>,
    pub task_index: Option<i64>,
    pub parallelism: Option<i64>,
    pub config: Option<Pairs>,
}

/// The mathematical value of a snapshot.
#[verifier::ext_equal]
pub struct SnapshotV {
    pub term: Option<u64>,
    pub jobs: Option<Seq<JobRecordV>>,
    pub tasks: Option<Seq<DescriptorRecordV>>,
    pub checkpoints: Option<Store>,
}

impl View for TaskStatusRecord {
    type V = TaskStatusV;

    open spec fn view(&self) -> TaskStatusV {
        TaskStatusV {
            task_id: self.task_id@,
            stage_id: self.stage_id@,
            worker_id: self.worker_id@,
            state: self.state@,
            processed_records: self.processed_records,
            error: opt_view(self.error),
        }
    }
}

impl View for JobRecord {
    type V = JobRecordV;

    open spec fn view(&self) -> JobRecordV {
        JobRecordV {
            job_id: self.job_id@,
            job_name: self.job_name@,
            state: self.state@,
            parallelism: self.parallelism,
            start_time: self.start_time,
            end_time: self.end_time,
            error_message: opt_view(self.error_message),
            checkpoint_interval_ms: self.checkpoint_interval_ms,
            checkpoints_completed: self.checkpoints_completed,
            next_checkpoint_id: self.next_checkpoint_id,
            raw_config: self.raw_config@,
            tasks: values(self.tasks@),
        }
    }
}

impl View for DescriptorRecord {
    type V = DescriptorRecordV;

    open spec fn view(&self) -> DescriptorRecordV {
        DescriptorRecordV {
            task_id: opt_view(self.task_id),
            job_id: opt_view(self.job_id),
            stage_id: opt_view(self.stage_id),
            task_name: opt_view(self.task_name),
            task_index: self.task_index,
            parallelism: self.parallelism,
            config: match self.config {
                Some(c) => Some(c@),
                None => None,
            },
        }
    }
}

impl View for StateSnapshot {
    type V = SnapshotV;

    open spec fn view(&self) -> SnapshotV {
        SnapshotV {
            term: self.term,
            jobs: match self.jobs {
                Some(v) => Some(values(v@)),
                None => None,
            },
            tasks: match self.tasks {
                Some(v) => Some(values(v@)),
                None => None,
            },
            checkpoints: match self.checkpoints {
                Some(v) => Some(checkpoint_store::snapshot_view(v@)),
                None => None,
            },
        }
    }
}

// ---------------------------------------------------------------------------
// Export
// ---------------------------------------------------------------------------

/// A task as it goes into a snapshot.
pub open spec fn exported_task(t: TaskV) -> TaskStatusV {
    TaskStatusV {
        task_id: t.task_id,
        stage_id: t.stage_id,
        worker_id: t.worker_id,
        state: t.state.wire(),
        processed_records: t.processed_records,
        error: t.error,
    }
}

/// A job as it goes into a snapshot.
pub open spec fn exported_job(j: JobV) -> JobRecordV {
    JobRecordV {
        job_id: j.job_id,
        job_name: j.job_name,
        state: j.state.wire(),
        parallelism: j.parallelism,
        start_time: j.start_time,
        end_time: j.end_time,
        error_message: j.error_message,
        checkpoint_interval_ms: j.checkpoint_interval_ms,
        checkpoints_completed: j.checkpoints_completed,
        next_checkpoint_id: j.next_checkpoint_id,
        raw_config: j.raw_config,
        tasks: j.tasks.map_values(|t: TaskV| exported_task(t)),
    }
}

/// A descriptor as it goes into a snapshot.
pub open spec fn exported_descriptor(d: DescriptorV) -> DescriptorRecordV {
    DescriptorRecordV {
        task_id: Some(d.task_id),
        job_id: Some(d.job_id),
        stage_id: Some(d.stage_id),
        task_name: Some(d.task_name),
        task_index: Some(d.task_index as i64),
        parallelism: Some(d.parallelism as i64),
        config: Some(d.config),
    }
}

/// The snapshot of a coordinator.
pub open spec fn exported(c: CoordinatorV) -> SnapshotV {
    SnapshotV {
        term: Some(c.term),
        jobs: Some(c.jobs.map_values(|j: JobV| exported_job(j))),
        tasks: Some(c.tasks.map_values(|d: DescriptorV| exported_descriptor(d))),
        checkpoints: Some(c.store),
    }
}

// ---------------------------------------------------------------------------
// Import
// ---------------------------------------------------------------------------

/// A task as it comes out of a snapshot.
pub open spec fn imported_task(t: TaskStatusV) -> TaskV {
    TaskV {
        state: state_of_wire(t.state),
        processed_records: t.processed_records,
        error: t.error,
        ..new_task(t.task_id, t.stage_id, t.worker_id)
    }
}

/// A job as it comes out of a snapshot.
pub open spec fn imported_job(r: JobRecordV) -> JobV {
    JobV {
        job_id: r.job_id,
        job_name: r.job_name,
        state: state_of_wire(r.state),
        parallelism: r.parallelism,
        tasks: put_all(Seq::empty(), r.tasks.map_values(|t: TaskStatusV| imported_task(t))),
        start_time: r.start_time,
        end_time: r.end_time,
        error_message: r.error_message,
        checkpoint_interval_ms: r.checkpoint_interval_ms,
        checkpoints_completed: r.checkpoints_completed,
        next_checkpoint_id: r.next_checkpoint_id,
        last_checkpoint_trigger_ms: 0,
        raw_config: r.raw_config,
    }
}

/// One job of a snapshot: it fills a gap, or else raises the next checkpoint id.
pub open spec fn merge_job(jobs: Seq<JobV>, r: JobRecordV) -> Seq<JobV> {
    match index_of(jobs, r.job_id) {
        Some(i) => {
            let j = jobs[i];
            let next = if r.next_checkpoint_id > j.next_checkpoint_id {
                r.next_checkpoint_id
            } else {
                j.next_checkpoint_id
            };
            jobs.update(i, JobV { next_checkpoint_id: next, ..j })
        },
        None => jobs.push(imported_job(r)),
    }
}

/// The jobs of a snapshot, one after the other.
pub open spec fn merge_jobs(jobs: Seq<JobV>, rs: Seq<JobRecordV>) -> Seq<JobV>
    decreases rs.len(),
{
    if rs.len() == 0 {
        jobs
    } else {
        merge_job(merge_jobs(jobs, rs.drop_last()), rs.last())
    }
}

/// The text of an optional one, empty when there is none.
pub open spec fn or_empty(s: Option<Seq<char>>) -> Seq<char> {
    match s {
        Some(t) => t,
        None => Seq::empty(),
    }
}

/// A descriptor as it comes out of a snapshot.
pub open spec fn imported_descriptor(r: DescriptorRecordV, id: Seq<char>, config: Pairs) -> DescriptorV {
    DescriptorV {
        task_id: id,
        job_id: or_empty(r.job_id),
        stage_id: or_empty(r.stage_id),
        task_name: or_empty(r.task_name),
        task_index: match r.task_index {
            Some(i) => i as i32,
            None => 0,
        },
        source_config_json: Seq::empty(),
        sink_config_json: Seq::empty(),
        parallelism: match r.parallelism {
            Some(i) => i as i32,
            None => 1,
        },
        config,
    }
}

/// One descriptor of a snapshot: it fills a gap when it has an id and a
/// configuration.
pub open spec fn merge_descriptor(tasks: Seq<DescriptorV>, r: DescriptorRecordV) -> Seq<DescriptorV> {
    match (r.task_id, r.config) {
        (Some(id), Some(config)) => if index_of(tasks, id) is Some {
            tasks
        } else {
            tasks.push(imported_descriptor(r, id, config))
        },
        _ => tasks,
    }
}

/// The descriptors of a snapshot, one after the other.
pub open spec fn merge_descriptors(tasks: Seq<DescriptorV>, rs: Seq<DescriptorRecordV>) -> Seq<DescriptorV>
    decreases rs.len(),
{
    if rs.len() == 0 {
        tasks
    } else {
        merge_descriptor(merge_descriptors(tasks, rs.drop_last()), rs.last())
    }
}

/// A coordinator after a snapshot was merged. Without its jobs the rest of a
/// snapshot is not trusted either.
pub open spec fn merged(c: CoordinatorV, s: SnapshotV) -> CoordinatorV {
    let term = match s.term {
        Some(t) => if t > c.term { t } else { c.term },
        None => c.term,
    };
    match s.jobs {
        None => CoordinatorV { term, ..c },
        Some(rs) => CoordinatorV {
            term,
            jobs: merge_jobs(c.jobs, rs),
            tasks: match s.tasks {
                Some(ts) => merge_descriptors(c.tasks, ts),
                None => c.tasks,
            },
            store: match s.checkpoints {
                Some(cs) => checkpoint_store::store_merged(c.store, cs),
                None => c.store,
            },
            ..c
        },
    }
}

// ---------------------------------------------------------------------------
// Execution
// ---------------------------------------------------------------------------

fn export_task(t: &TaskInfo) -> (r: TaskStatusRecord)
    ensures
        r@ == exported_task(t@),
{
    TaskStatusRecord {
        task_id: t.task_id.clone(),
        stage_id: t.stage_id.clone(),
        worker_id: t.worker_id.clone(),
        state: text::owned(t.state.to_wire()),
        processed_records: t.processed_records,
        error: opt_copy(&t.error),
    }
}

fn export_job(job: &RunningJob) -> (r: JobRecord)
    ensures
        r@ == exported_job(job@),
{
    let mut tasks: Vec<TaskStatusRecord> = Vec::new();
    let mut i: usize = 0;
    while i < job.tasks.len()
        invariant
            i <= job.tasks@.len(),
            tasks@.len() == i,
            forall|k: int| 0 <= k < i ==> #[trigger] tasks@[k]@ == exported_task(job.tasks@[k]@),
        decreases job.tasks@.len() - i,
    {
        let t = export_task(&job.tasks[i]);
        tasks.push(t);
        i += 1;
    }
    assert(values(tasks@) =~= job@.tasks.map_values(|t: TaskV| exported_task(t)));
    JobRecord {
        job_id: job.job_id.clone(),
        job_name: job.job_name.clone(),
        state: text::owned(job.state.to_wire()),
        parallelism: job.parallelism,
        start_time: job.start_time,
        end_time: job.end_time,
        error_message: opt_copy(&job.error_message),
        checkpoint_interval_ms: job.checkpoint_interval_ms,
        checkpoints_completed: job.checkpoints_completed,
        next_checkpoint_id: job.next_checkpoint_id,
        raw_config: job.raw_config.clone(),
        tasks,
    }
}

fn export_descriptor(d: &TaskDescriptor) -> (r: DescriptorRecord)
    ensures
        r@ == exported_descriptor(d@),
{
    DescriptorRecord {
        task_id: Some(d.task_id.clone()),
        job_id: Some(d.job_id.clone()),
        stage_id: Some(d.stage_id.clone()),
        task_name: Some(d.task_name.clone()),
        task_index: Some(d.task_index as i64),
        parallelism: Some(d.parallelism as i64),
        config: Some(d.config.copy()),
    }
}

fn import_task(t: &TaskStatusRecord) -> (r: TaskInfo)
    ensures
        r@ == imported_task(t@),
{
    let mut r = TaskInfo::new(t.task_id.clone(), t.stage_id.clone(), t.worker_id.clone());
    r.state = JobState::from_wire(t.state.as_str());
    r.processed_records = t.processed_records;
    r.error = opt_copy(&t.error);
    r
}

fn import_job(rec: &JobRecord) -> (r: RunningJob)
    ensures
        r@ == imported_job(rec@),
{
    let ghost all = rec@.tasks.map_values(|t: TaskStatusV| imported_task(t));
    let mut tasks: Vec<TaskInfo> = Vec::new();
    let mut i: usize = 0;
    proof {
        assert(all.take(0) =~= Seq::empty());
        assert(values(tasks@) =~= Seq::empty());
    }
    while i < rec.tasks.len()
        invariant
            i <= rec.tasks@.len(),
            all == rec@.tasks.map_values(|t: TaskStatusV| imported_task(t)),
            values(tasks@) == put_all(Seq::empty(), all.take(i as int)),
        decreases rec.tasks@.len() - i,
    {
        let t = import_task(&rec.tasks[i]);
        let id = rec.tasks[i].task_id.clone();
        proof {
            assert(all.take(i + 1).drop_last() =~= all.take(i as int));
            assert(rec@.tasks[i as int] == rec.tasks@[i as int]@);
            assert(all.take(i + 1).last() == t@);
        }
        keyed::put_item(&mut tasks, id.as_str(), t);
        i += 1;
    }
    assert(all.take(all.len() as int) =~= all);
    RunningJob {
        job_id: rec.job_id.clone(),
        job_name: rec.job_name.clone(),
        state: JobState::from_wire(rec.state.as_str()),
        parallelism: rec.parallelism,
        tasks,
        start_time: rec.start_time,
        end_time: rec.end_time,
        error_message: opt_copy(&rec.error_message),
        checkpoint_interval_ms: rec.checkpoint_interval_ms,
        checkpoints_completed: rec.checkpoints_completed,
        next_checkpoint_id: rec.next_checkpoint_id,
        last_checkpoint_trigger_ms: 0,
        raw_config: rec.raw_config.clone(),
    }
}

fn text_or_empty(s: &Option<String>) -> (r: String)
    ensures
        r@ == or_empty(opt_view(*s)),
{
    match s {
        Some(t) => t.clone(),
        None => String::new(),
    }
}

fn merge_into(tasks: &mut Vec<TaskDescriptor>, rec: &DescriptorRecord)
    ensures
        values(final(tasks)@) == merge_descriptor(values(old(tasks)@), rec@),
{
    let ghost before = values(tasks@);
    let id = match &rec.task_id {
        Some(id) => id.clone(),
        None => {
            return;
        },
    };
    if keyed::find(tasks, id.as_str()).is_some() {
        return;
    }
    let config = match &rec.config {
        Some(c) => c.copy(),
        None => {
            return;
        },
    };
    let d = TaskDescriptor {
        task_id: id,
        job_id: text_or_empty(&rec.job_id),
        stage_id: text_or_empty(&rec.stage_id),
        task_name: text_or_empty(&rec.task_name),
        task_index: match rec.task_index {
            Some(i) => i as i32,
            None => 0,
        },
        source_config_json: String::new(),
        sink_config_json: String::new(),
        parallelism: match rec.parallelism {
            Some(i) => i as i32,
            None => 1,
        },
        config,
    };
    let ghost dv = d@;
    tasks.push(d);
    assert(values(tasks@) =~= before.push(dv));
}

impl JobCoordinator {
    /// A snapshot of the whole state, for replication.
    pub fn export_state(&self) -> (r: StateSnapshot)
        ensures
            r@ == exported(self@),
    {
        let mut jobs: Vec<JobRecord> = Vec::new();
        let mut i: usize = 0;
        while i < self.jobs.len()
            invariant
                i <= self.jobs@.len(),
                jobs@.len() == i,
                forall|k: int| 0 <= k < i ==> #[trigger] jobs@[k]@ == exported_job(self.jobs@[k]@),
            decreases self.jobs@.len() - i,
        {
            let j = export_job(&self.jobs[i]);
            jobs.push(j);
            i += 1;
        }
        assert(values(jobs@) =~= self@.jobs.map_values(|j: JobV| exported_job(j)));
        let mut tasks: Vec<DescriptorRecord> = Vec::new();
        let mut i: usize = 0;
        while i < self.all_tasks.len()
            invariant
                i <= self.all_tasks@.len(),
                tasks@.len() == i,
                forall|k: int| 0 <= k < i ==> #[trigger] tasks@[k]@ == exported_descriptor(self.all_tasks@[k]@),
            decreases self.all_tasks@.len() - i,
        {
            let d = export_descriptor(&self.all_tasks[i]);
            tasks.push(d);
            i += 1;
        }
        assert(values(tasks@) =~= self@.tasks.map_values(|d: DescriptorV| exported_descriptor(d)));
        let checkpoints = self.checkpoint_store.export();
        StateSnapshot { term: Some(self.term), jobs: Some(jobs), tasks: Some(tasks), checkpoints: Some(checkpoints) }
    }

    /// Merges a snapshot. What is here wins; the snapshot fills gaps. The term and
    /// the checkpoint ids never fall behind the snapshot's.
    pub fn import_state(&mut self, snapshot: &StateSnapshot)
        ensures
            final(self)@ == merged(old(self)@, snapshot@),
    {
        if let Some(seen) = snapshot.term {
            self.observe_term(seen);
        }
        let records = match &snapshot.jobs {
            Some(v) => v,
            None => {
                return;
            },
        };
        let ghost jobs0 = self@.jobs;
        let ghost tasks0 = self@.tasks;
        let ghost term = self.term;
        let ghost rs = values(records@);
        let mut i: usize = 0;
        assert(rs.take(0) =~= Seq::empty());
        while i < records.len()
            invariant
                i <= records@.len(),
                rs == values(records@),
                self@.tasks == tasks0,
                self.checkpoint_store == old(self).checkpoint_store,
                self.term == term,
                self@.pending == old(self)@.pending,
                self@.outbox == old(self)@.outbox,
                self@.jobs == merge_jobs(jobs0, rs.take(i as int)),
            decreases records@.len() - i,
        {
            let rec = &records[i];
            let ghost jobs = self@.jobs;
            proof {
                assert(rs.take(i + 1).drop_last() =~= rs.take(i as int));
                assert(rs.take(i + 1).last() == rec@);
            }
            match keyed::find(&self.jobs, rec.job_id.as_str()) {
                Some(k) => {
                    assert(jobs[k as int] == self.jobs@[k as int]@);
                    if rec.next_checkpoint_id > self.jobs[k].next_checkpoint_id {
                        self.jobs[k].next_checkpoint_id = rec.next_checkpoint_id;
                    }
                    assert(self@.jobs =~= merge_job(jobs, rec@));
                },
                None => {
                    let job = import_job(rec);
                    self.jobs.push(job);
                    assert(self@.jobs =~= jobs.push(imported_job(rec@)));
                },
            }
            i += 1;
        }
        assert(rs.take(rs.len() as int) =~= rs);
        if let Some(descriptors) = &snapshot.tasks {
            let ghost ds = values(descriptors@);
            let mut i: usize = 0;
            assert(ds.take(0) =~= Seq::empty());
            while i < descriptors.len()
                invariant
                    i <= descriptors@.len(),
                    ds == values(descriptors@),
                    self.checkpoint_store == old(self).checkpoint_store,
                    self.term == term,
                    self@.pending == old(self)@.pending,
                    self@.outbox == old(self)@.outbox,
                    self@.jobs == merge_jobs(jobs0, rs),
                    self@.tasks == merge_descriptors(tasks0, ds.take(i as int)),
                decreases descriptors@.len() - i,
            {
                proof {
                    assert(ds.take(i + 1).drop_last() =~= ds.take(i as int));
                    assert(ds.take(i + 1).last() == descriptors@[i as int]@);
                }
                merge_into(&mut self.all_tasks, &descriptors[i]);
                i += 1;
            }
            assert(ds.take(ds.len() as int) =~= ds);
        }
        if let Some(checkpoints) = &snapshot.checkpoints {
            self.checkpoint_store.import(checkpoints);
        }
    }

    /// Replaces the state by that of a snapshot, as a follower does with its
    /// leader's. The fencing term still never falls.
    pub fn replace_state(&mut self, snapshot: &StateSnapshot)
        ensures
            final(self)@ == merged(
                (CoordinatorV {
                    jobs: Seq::empty(),
                    tasks: Seq::empty(),
                    store: Seq::empty(),
                    term: old(self)@.term,
                    pending: Seq::empty(),
                    outbox: Seq::empty(),
                    keep: MASTER_RETAINED as nat,
                }),
                snapshot@,
            ),
    {
        let mut fresh = JobCoordinator::new();
        fresh.term = self.term;
        fresh.import_state(snapshot);
        *self = fresh;
    }
}


// ---------------------------------------------------------------------------
// What replication promises
// ---------------------------------------------------------------------------

/// Whether `j` is `k` up to the next checkpoint id, which has not fallen.
pub open spec fn kept(k: JobV, j: JobV) -> bool {
    j == (JobV { next_checkpoint_id: j.next_checkpoint_id, ..k }) && j.next_checkpoint_id >= k.next_checkpoint_id
}

/// Merging jobs keeps every local job up to its next checkpoint id, which never
/// falls; it fills the gaps behind them.
pub proof fn law_merged_jobs(jobs: Seq<JobV>, rs: Seq<JobRecordV>)
    ensures
        merge_jobs(jobs, rs).len() >= jobs.len(),
        forall|i: int| 0 <= i < jobs.len() ==> kept(#[trigger] jobs[i], merge_jobs(jobs, rs)[i]),
        distinct(jobs) ==> distinct(merge_jobs(jobs, rs)),
        forall|k: int|
            0 <= k < rs.len() ==> match named(merge_jobs(jobs, rs), (#[trigger] rs[k]).job_id) {
                Some(j) => j.next_checkpoint_id >= rs[k].next_checkpoint_id,
                None => false,
            },
    decreases rs.len(),
{
    let m = merge_jobs(jobs, rs);
    if rs.len() > 0 {
        let d = rs.drop_last();
        let r = rs.last();
        law_merged_jobs(jobs, d);
        let h = merge_jobs(jobs, d);
        keyed::lemma_index_of(h, r.job_id);
        keyed::lemma_index_of(m, r.job_id);
        assert forall|i: int| 0 <= i < jobs.len() implies kept(#[trigger] jobs[i], m[i]) by {
            assert(kept(jobs[i], h[i]));
        }
        match index_of(h, r.job_id) {
            Some(x) => {
                assert forall|i: int| 0 <= i < m.len() implies (#[trigger] m[i]).job_id == h[i].job_id && m[i].next_checkpoint_id
                    >= h[i].next_checkpoint_id by {}
                assert forall|n: Seq<char>| #[trigger] index_of(m, n) == index_of(h, n) by {
                    lemma_same_names(h, m, n);
                }
            },
            None => {
                assert(m.drop_last() =~= h);
            },
        }
        if distinct(jobs) {
            assert forall|i: int, j: int| 0 <= i < j < m.len() implies (#[trigger] m[i]).name() != (#[trigger] m[j]).name() by {
                if j < h.len() {
                    assert(m[i].name() == h[i].name() && m[j].name() == h[j].name());
                } else {
                    assert(m[i] == h[i]);
                }
            }
        }
        assert forall|k: int| 0 <= k < rs.len() implies match named(m, (#[trigger] rs[k]).job_id) {
            Some(j) => j.next_checkpoint_id >= rs[k].next_checkpoint_id,
            None => false,
        } by {
            keyed::lemma_index_of(h, rs[k].job_id);
            if k < d.len() {
                assert(d[k] == rs[k]);
                assert(named(h, d[k].job_id) is Some);
                match index_of(h, r.job_id) {
                    Some(x) => {
                        assert(index_of(m, rs[k].job_id) == index_of(h, rs[k].job_id));
                    },
                    None => {
                        assert(m.drop_last() =~= h);
                    },
                }
            } else {
                assert(rs[k] == r);
                match index_of(h, r.job_id) {
                    Some(x) => {
                        assert(index_of(m, r.job_id) == Some(x));
                    },
                    None => {
                        assert(m.drop_last() =~= h);
                        assert(m.last() == imported_job(r));
                    },
                }
            }
        }
    }
}

proof fn lemma_same_names(a: Seq<JobV>, b: Seq<JobV>, n: Seq<char>)
    requires
        a.len() == b.len(),
        forall|i: int| 0 <= i < a.len() ==> (#[trigger] b[i]).job_id == a[i].job_id,
    ensures
        index_of(b, n) == index_of(a, n),
{
    keyed::lemma_index_of(a, n);
    keyed::lemma_index_of(b, n);
    match index_of(a, n) {
        Some(i) => {
            assert forall|k: int| 0 <= k < i implies (#[trigger] b[k]).name() != n by {
                assert(a[k].name() != n);
            }
            keyed::lemma_index_is(b, n, i);
        },
        None => {
            assert forall|k: int| 0 <= k < b.len() implies (#[trigger] b[k]).name() != n by {
                assert(a[k].name() != n);
            }
        },
    }
}

/// Neither the fencing term nor a job's next checkpoint id falls by a merge, and
/// the merged ones are at least those of the snapshot.
pub proof fn law_nothing_rewinds(c: CoordinatorV, s: SnapshotV)
    ensures
        merged(c, s).term >= c.term,
        s.term matches Some(t) ==> merged(c, s).term >= t,
        forall|i: int|
            0 <= i < c.jobs.len() ==> merged(c, s).jobs[i].next_checkpoint_id >= (#[trigger] c.jobs[i]).next_checkpoint_id,
        s.jobs matches Some(rs) ==> forall|k: int|
            0 <= k < rs.len() ==> match named(merged(c, s).jobs, (#[trigger] rs[k]).job_id) {
                Some(j) => j.next_checkpoint_id >= rs[k].next_checkpoint_id,
                None => false,
            },
{
    match s.jobs {
        Some(rs) => {
            law_merged_jobs(c.jobs, rs);
            assert forall|i: int| 0 <= i < c.jobs.len() implies merged(c, s).jobs[i].next_checkpoint_id >= (
            #[trigger] c.jobs[i]).next_checkpoint_id by {
                assert(kept(c.jobs[i], merge_jobs(c.jobs, rs)[i]));
            }
        },
        None => {},
    }
}

proof fn lemma_known_jobs(jobs: Seq<JobV>, rs: Seq<JobRecordV>)
    requires
        forall|k: int|
            0 <= k < rs.len() ==> match named(jobs, (#[trigger] rs[k]).job_id) {
                Some(j) => j.next_checkpoint_id >= rs[k].next_checkpoint_id,
                None => false,
            },
    ensures
        merge_jobs(jobs, rs) == jobs,
    decreases rs.len(),
{
    if rs.len() > 0 {
        let d = rs.drop_last();
        assert forall|k: int| 0 <= k < d.len() implies match named(jobs, (#[trigger] d[k]).job_id) {
            Some(j) => j.next_checkpoint_id >= d[k].next_checkpoint_id,
            None => false,
        } by {
            assert(d[k] == rs[k]);
        }
        lemma_known_jobs(jobs, d);
        assert(rs[rs.len() - 1] == rs.last());
        keyed::lemma_index_of(jobs, rs.last().job_id);
        assert(merge_job(jobs, rs.last()) =~= jobs);
    }
}

proof fn lemma_merged_descriptors(tasks: Seq<DescriptorV>, rs: Seq<DescriptorRecordV>)
    ensures
        tasks.is_prefix_of(merge_descriptors(tasks, rs)),
        forall|k: int|
            0 <= k < rs.len() && (#[trigger] rs[k]).task_id is Some && rs[k].config is Some ==> index_of(
                merge_descriptors(tasks, rs),
                rs[k].task_id->0,
            ) is Some,
    decreases rs.len(),
{
    if rs.len() > 0 {
        let d = rs.drop_last();
        let r = rs.last();
        lemma_merged_descriptors(tasks, d);
        let h = merge_descriptors(tasks, d);
        let m = merge_descriptors(tasks, rs);
        assert forall|k: int| 0 <= k < rs.len() && (#[trigger] rs[k]).task_id is Some && rs[k].config is Some implies index_of(
            m,
            rs[k].task_id->0,
        ) is Some by {
            if k < d.len() {
                assert(d[k] == rs[k]);
                assert(index_of(h, d[k].task_id->0) is Some);
            } else {
                assert(rs[k] == r);
            }
            if m != h {
                assert(m.drop_last() =~= h);
            }
        }
        if m != h {
            assert(m.drop_last() =~= h);
            assert(tasks.is_prefix_of(m));
        }
    }
}

proof fn lemma_known_descriptors(tasks: Seq<DescriptorV>, rs: Seq<DescriptorRecordV>)
    requires
        forall|k: int|
            0 <= k < rs.len() && (#[trigger] rs[k]).task_id is Some && rs[k].config is Some ==> index_of(
                tasks,
                rs[k].task_id->0,
            ) is Some,
    ensures
        merge_descriptors(tasks, rs) == tasks,
    decreases rs.len(),
{
    if rs.len() > 0 {
        let d = rs.drop_last();
        assert forall|k: int| 0 <= k < d.len() && (#[trigger] d[k]).task_id is Some && d[k].config is Some implies index_of(
            tasks,
            d[k].task_id->0,
        ) is Some by {
            assert(d[k] == rs[k]);
        }
        lemma_known_descriptors(tasks, d);
        assert(rs[rs.len() - 1] == rs.last());
    }
}

/// Merging a snapshot a second time changes nothing.
pub proof fn law_merge_is_idempotent(c: CoordinatorV, s: SnapshotV)
    ensures
        merged(merged(c, s), s) == merged(c, s),
{
    match s.jobs {
        Some(rs) => {
            law_merged_jobs(c.jobs, rs);
            lemma_known_jobs(merge_jobs(c.jobs, rs), rs);
            match s.tasks {
                Some(ts) => {
                    lemma_merged_descriptors(c.tasks, ts);
                    lemma_known_descriptors(merge_descriptors(c.tasks, ts), ts);
                },
                None => {},
            }
            match s.checkpoints {
                Some(cs) => {
                    checkpoint_store::law_merge_is_idempotent(c.store, cs);
                },
                None => {},
            }
        },
        None => {},
    }
}

proof fn lemma_put_all_fresh(base: Seq<TaskV>, es: Seq<TaskV>)
    requires
        distinct(base + es),
    ensures
        put_all(base, es) == base + es,
    decreases es.len(),
{
    if es.len() == 0 {
        assert(base + es =~= base);
    } else {
        let d = es.drop_last();
        assert((base + es).drop_last() =~= base + d);
        assert forall|i: int, j: int| 0 <= i < j < (base + d).len() implies (#[trigger] (base + d)[i]).name() != (
        #[trigger] (base + d)[j]).name() by {
            assert((base + d)[i] == (base + es)[i]);
            assert((base + d)[j] == (base + es)[j]);
        }
        lemma_put_all_fresh(base, d);
        keyed::lemma_index_of(base + d, es.last().name());
        match index_of(base + d, es.last().name()) {
            Some(i) => {
                assert((base + es)[i] == (base + d)[i]);
                assert((base + es)[base.len() + es.len() - 1] == es.last());
                assert(false);
            },
            None => {},
        }
        assert((base + d).push(es.last()) =~= base + es);
    }
}

/// A job that travelled in a snapshot is exported again as it was.
pub proof fn lemma_job_travels(j: JobV)
    requires
        distinct(j.tasks),
    ensures
        exported_job(imported_job(exported_job(j))) == exported_job(j),
{
    let r = exported_job(j);
    let k = imported_job(r);
    let ts = r.tasks.map_values(|t: TaskStatusV| imported_task(t));
    assert forall|i: int, m: int| 0 <= i < m < ts.len() implies (#[trigger] ts[i]).name() != (#[trigger] ts[m]).name() by {
        assert(ts[i].name() == j.tasks[i].name());
        assert(ts[m].name() == j.tasks[m].name());
    }
    assert(Seq::<TaskV>::empty() + ts =~= ts);
    lemma_put_all_fresh(Seq::empty(), ts);
    crate::job::lemma_wire_names();
    assert forall|i: int| 0 <= i < j.tasks.len() implies exported_task(#[trigger] k.tasks[i]) == exported_task(j.tasks[i]) by {
        crate::job::law_state_travels(j.tasks[i].state);
        assert(k.tasks[i] == imported_task(exported_task(j.tasks[i])));
    }
    crate::job::law_state_travels(j.state);
    assert(exported_job(k).tasks =~= r.tasks);
}

/// What the exported snapshot of a coordinator carries is lost nowhere: a fresh
/// coordinator that merges it exports the same snapshot.
pub proof fn law_export_survives_import(c: CoordinatorV, fresh: CoordinatorV)
    requires
        distinct(c.jobs),
        distinct(c.tasks),
        forall|i: int| 0 <= i < c.jobs.len() ==> distinct((#[trigger] c.jobs[i]).tasks),
        forall|i: int, j: int| 0 <= i < j < c.store.len() ==> (#[trigger] c.store[i]).0 != (#[trigger] c.store[j]).0,
        fresh.jobs.len() == 0,
        fresh.tasks.len() == 0,
        fresh.store.len() == 0,
        fresh.term <= c.term,
    ensures
        exported(merged(fresh, exported(c))) == exported(c),
{
    let s = exported(c);
    let rs = s.jobs->0;
    let ts = s.tasks->0;
    assert(fresh.jobs =~= Seq::empty());
    assert(fresh.tasks =~= Seq::empty());
    assert(fresh.store =~= Seq::empty());
    lemma_fresh_jobs(c.jobs, c.jobs.len());
    assert(rs.take(rs.len() as int) =~= rs);
    let jm = merge_jobs(Seq::empty(), rs);
    assert forall|i: int| 0 <= i < c.jobs.len() implies exported_job(#[trigger] jm[i]) == exported_job(c.jobs[i]) by {
        lemma_job_travels(c.jobs[i]);
    }
    assert(jm.map_values(|j: JobV| exported_job(j)) =~= rs);
    lemma_fresh_descriptors(c.tasks, c.tasks.len());
    assert(ts.take(ts.len() as int) =~= ts);
    let tm = merge_descriptors(Seq::empty(), ts);
    assert(tm.map_values(|d: DescriptorV| exported_descriptor(d)) =~= ts);
    lemma_fresh_store(c.store, c.store.len());
    assert(c.store.take(c.store.len() as int) =~= c.store);
}

proof fn lemma_fresh_jobs(jobs: Seq<JobV>, n: nat)
    requires
        distinct(jobs),
        n <= jobs.len(),
    ensures
        ({
            let rs = jobs.map_values(|j: JobV| exported_job(j));
            let m = merge_jobs(Seq::empty(), rs.take(n as int));
            m.len() == n && (forall|i: int| 0 <= i < n ==> #[trigger] m[i] == imported_job(exported_job(jobs[i])))
        }),
    decreases n,
{
    let rs = jobs.map_values(|j: JobV| exported_job(j));
    if n > 0 {
        lemma_fresh_jobs(jobs, (n - 1) as nat);
        let t = rs.take(n as int);
        assert(t.drop_last() =~= rs.take(n - 1));
        let h = merge_jobs(Seq::empty(), rs.take(n - 1));
        keyed::lemma_index_of(h, t.last().job_id);
        match index_of(h, t.last().job_id) {
            Some(i) => {
                assert(h[i].name() == jobs[i].name());
                assert(t.last().job_id == jobs[n - 1].name());
                assert(false);
            },
            None => {},
        }
    } else {
        assert(rs.take(0) =~= Seq::empty());
    }
}

proof fn lemma_fresh_descriptors(tasks: Seq<DescriptorV>, n: nat)
    requires
        distinct(tasks),
        n <= tasks.len(),
    ensures
        ({
            let rs = tasks.map_values(|d: DescriptorV| exported_descriptor(d));
            let m = merge_descriptors(Seq::empty(), rs.take(n as int));
            m.len() == n && (forall|i: int|
                0 <= i < n ==> exported_descriptor(#[trigger] m[i]) == exported_descriptor(tasks[i]) && m[i].task_id
                    == tasks[i].task_id)
        }),
    decreases n,
{
    let rs = tasks.map_values(|d: DescriptorV| exported_descriptor(d));
    if n > 0 {
        lemma_fresh_descriptors(tasks, (n - 1) as nat);
        let t = rs.take(n as int);
        assert(t.drop_last() =~= rs.take(n - 1));
        let h = merge_descriptors(Seq::empty(), rs.take(n - 1));
        let d = tasks[n - 1];
        assert(t.last() == exported_descriptor(d));
        keyed::lemma_index_of(h, d.task_id);
        match index_of(h, d.task_id) {
            Some(i) => {
                assert(h[i].name() == tasks[i].name());
                assert(d.task_id == tasks[n - 1].name());
                assert(false);
            },
            None => {},
        }
    } else {
        assert(rs.take(0) =~= Seq::empty());
    }
}

proof fn lemma_fresh_store(s: Store, n: nat)
    requires
        forall|i: int, j: int| 0 <= i < j < s.len() ==> (#[trigger] s[i]).0 != (#[trigger] s[j]).0,
        n <= s.len(),
    ensures
        checkpoint_store::store_merged(Seq::empty(), s.take(n as int)) == s.take(n as int),
    decreases n,
{
    if n > 0 {
        lemma_fresh_store(s, (n - 1) as nat);
        let t = s.take(n as int);
        assert(t.drop_last() =~= s.take(n - 1));
        let e = s[n - 1];
        assert(t.last() == e);
        checkpoint_store::lemma_position(s.take(n - 1), e.0.0, e.0.1);
        match checkpoint_store::position(s.take(n - 1), e.0.0, e.0.1) {
            Some(i) => {
                assert(s.take(n - 1)[i] == s[i]);
                assert(s[i].0 != s[n - 1].0);
                assert(false);
            },
            None => {},
        }
        assert(s.take(n - 1).push(e) =~= s.take(n as int));
    } else {
        assert(s.take(0) =~= Seq::empty());
    }
}

} // verus!
