//! Job coordinator: compiles job configurations into task descriptors, places
//! them on workers, and follows the life of every job.
//!
//! A job compiles to chained pipeline tasks: every task runs source, transforms
//! and sinks on one worker. A task moves from `Created` or `Scheduled` over
//! `Deploying` (handed to a worker) and `Running` to a terminal state.

use vstd::prelude::*;

use crate::checkpoint_store::{MasterCheckpointStore, Store};
use crate::job::{
    new_task, DescriptorV, JobState, JobV, RunningJob, StateV, TaskDescriptor, TaskInfo, TaskV,
};
use crate::job_config;
use crate::job_config::{PipelineSpec, PipelineV, PlanError, PlanErrorV};
use crate::json;
use crate::json::{Json, JsonV};
use crate::keyed;
use crate::keyed::{named, put, put_all, values};
use crate::props;
use crate::props::{assign, lookup, Pairs, Properties};
use crate::text;

verus! {

// ---------------------------------------------------------------------------
// State
// ---------------------------------------------------------------------------

/// A coordinated checkpoint in flight for one pipeline of a job.
#[derive(Debug)]
pub struct PendingCheckpoint {
    pub job_id: String,
    pub stage_id: String,
    pub checkpoint_id: u64,
    pub triggered_at_ms: i64,
    /// The tasks that take part, each with the worker that owns it.
    pub participants: Vec<(String, String)>,
    /// Tasks whose trigger was handed to their worker.
    pub delivered: Vec<String>,
    /// Tasks that still owe a prepare or a failure.
    pub awaiting: Vec<String>,
}

/// The mathematical value of a pending checkpoint.
#[verifier::ext_equal]
pub struct PendingV {
    pub job_id: Seq<char>,
    pub stage_id: Seq<char>,
    pub checkpoint_id: u64,
    pub triggered_at_ms: i64,
    pub participants: Pairs,
    pub delivered: Seq<Seq<char>>,
    pub awaiting: Seq<Seq<char>>,
}

impl View for PendingCheckpoint {
    type V = PendingV;

    open spec fn view(&self) -> PendingV {
        PendingV {
            job_id: self.job_id@,
            stage_id: self.stage_id@,
            checkpoint_id: self.checkpoint_id,
            triggered_at_ms: self.triggered_at_ms,
            participants: props::pairs_view(self.participants@),
            delivered: text::views(self.delivered@),
            awaiting: text::views(self.awaiting@),
        }
    }
}

/// Tells a task that a checkpoint is to be taken.
#[derive(Debug)]
pub struct CheckpointTrigger {
    pub task_id: String,
    pub checkpoint_id: u64,
}

/// Tells a task how a checkpoint ended.
#[derive(Debug)]
pub struct CheckpointResolution {
    pub task_id: String,
    pub checkpoint_id: u64,
    pub completed: bool,
}

/// The mathematical value of a trigger.
pub type TriggerV = (Seq<char>, u64);

/// The mathematical value of a resolution.
pub type ResolutionV = (Seq<char>, u64, bool);

impl View for CheckpointTrigger {
    type V = TriggerV;

    open spec fn view(&self) -> TriggerV {
        (self.task_id@, self.checkpoint_id)
    }
}

impl View for CheckpointResolution {
    type V = ResolutionV;

    open spec fn view(&self) -> ResolutionV {
        (self.task_id@, self.checkpoint_id, self.completed)
    }
}

/// A resolution waiting for its worker's next heartbeat.
#[derive(Debug)]
pub struct QueuedResolution {
    pub worker_id: String,
    pub resolution: CheckpointResolution,
}

impl View for QueuedResolution {
    type V = (Seq<char>, ResolutionV);

    open spec fn view(&self) -> (Seq<char>, ResolutionV) {
        (self.worker_id@, self.resolution@)
    }
}

/// Coordinator of all submitted jobs.
#[derive(Debug)]
pub struct JobCoordinator {
    /// Jobs in the order of their first submission.
    pub jobs: Vec<RunningJob>,
    /// Descriptors of all tasks; the worker named in a descriptor is the one
    /// that the task is assigned to.
    pub all_tasks: Vec<TaskDescriptor>,
    /// The master's shared checkpoint store.
    pub checkpoint_store: MasterCheckpointStore,
    /// Fencing term. Workers reject instructions that carry a lower term.
    pub term: u64,
    /// Coordinated checkpoints in flight, at most one per job and pipeline.
    pub pending_checkpoints: Vec<PendingCheckpoint>,
    /// Resolutions waiting for their workers, oldest first.
    pub checkpoint_outbox: Vec<QueuedResolution>,
}

/// The mathematical value of a coordinator.
#[verifier::ext_equal]
pub struct CoordinatorV {
    pub jobs: Seq<JobV>,
    pub tasks: Seq<DescriptorV>,
    pub store: Store,
    pub term: u64,
    pub pending: Seq<PendingV>,
    pub outbox: Seq<(Seq<char>, ResolutionV)>,
    /// Checkpoints that are kept of one task.
    pub keep: nat,
}

impl View for JobCoordinator {
    type V = CoordinatorV;

    open spec fn view(&self) -> CoordinatorV {
        CoordinatorV {
            jobs: values(self.jobs@),
            tasks: values(self.all_tasks@),
            store: self.checkpoint_store@,
            term: self.term,
            pending: values(self.pending_checkpoints@),
            outbox: values(self.checkpoint_outbox@),
            keep: self.checkpoint_store.keep(),
        }
    }
}

/// Checkpoints that the master keeps of one task.
pub const MASTER_RETAINED: usize = 3;

// ---------------------------------------------------------------------------
// Planning
// ---------------------------------------------------------------------------

/// The id of a pipeline's stage.
pub open spec fn stage_id_of(job_id: Seq<char>, pipe: nat) -> Seq<char> {
    job_id + "-p"@ + text::decimal_text(pipe)
}

/// The id of the task at position `i` of a pipeline.
pub open spec fn task_id_of(job_id: Seq<char>, pipe: nat, i: nat) -> Seq<char> {
    stage_id_of(job_id, pipe) + "-"@ + text::decimal_text(i)
}

/// The name of the task at position `i` of a pipeline.
pub open spec fn task_name_of(job_name: Seq<char>, pipe_name: Seq<char>, i: nat) -> Seq<char> {
    job_name + "-"@ + pipe_name + "-"@ + text::decimal_text(i)
}

/// What every task of a job is told besides its pipeline.
pub struct JobSettings {
    pub job_id: Seq<char>,
    pub job_name: Seq<char>,
    pub transforms: Seq<JsonV>,
    pub interval: u64,
}

/// The configuration of a task on a worker.
pub open spec fn task_config(s: JobSettings, pipe: nat, p: PipelineV, worker: (Seq<char>, Seq<char>)) -> Pairs {
    let c = Seq::<(Seq<char>, Seq<char>)>::empty();
    let c = assign(c, "worker_id"@, worker.0);
    let c = assign(c, "worker_address"@, worker.1);
    let c = assign(c, "job.name"@, s.job_name);
    let c = assign(c, "pipeline.index"@, text::decimal_text(pipe));
    let c = assign(c, "pipeline.name"@, p.name);
    let c = assign(c, "pipeline.source.plugin"@, p.source_plugin);
    let c = assign(c, "pipeline.source.config"@, json::json_text(p.source_config));
    let c = assign(c, "pipeline.sinks"@, json::json_text(job_config::sink_list(p.sinks)));
    let c = assign(c, "pipeline.on-sink-failure"@, p.on_sink_failure);
    let c = assign(c, "transform.config"@, json::json_text(JsonV::Array(s.transforms)));
    assign(c, "checkpoint.interval"@, text::decimal_text(s.interval as nat))
}

/// The descriptor of the task at position `i` of a pipeline.
pub open spec fn descriptor_of(
    s: JobSettings,
    pipe: nat,
    p: PipelineV,
    i: nat,
    worker: (Seq<char>, Seq<char>),
) -> DescriptorV {
    DescriptorV {
        task_id: task_id_of(s.job_id, pipe, i),
        job_id: s.job_id,
        stage_id: stage_id_of(s.job_id, pipe),
        task_name: task_name_of(s.job_name, p.name, i),
        task_index: i as i32,
        source_config_json: Seq::empty(),
        sink_config_json: Seq::empty(),
        parallelism: p.parallelism as i32,
        config: task_config(s, pipe, p, worker),
    }
}

/// The first `n` tasks of a pipeline, `start` tasks having been placed before;
/// the workers take turns.
pub open spec fn pipeline_tasks(
    s: JobSettings,
    pipe: nat,
    p: PipelineV,
    n: nat,
    start: nat,
    workers: Pairs,
) -> Seq<DescriptorV> {
    Seq::new(
        n,
        |i: int| descriptor_of(s, pipe, p, i as nat, workers[(start + i) % (workers.len() as int)]),
    )
}

/// The tasks of the first `k` pipelines of a plan.
pub open spec fn plan_tasks(s: JobSettings, plan: Seq<PipelineV>, k: nat, workers: Pairs) -> Seq<DescriptorV>
    decreases k,
{
    if k == 0 {
        Seq::empty()
    } else {
        let head = plan_tasks(s, plan, (k - 1) as nat, workers);
        let p = plan[k - 1];
        head + pipeline_tasks(s, (k - 1) as nat, p, p.parallelism as nat, head.len(), workers)
    }
}

/// What is tracked of a task that was just planned.
pub open spec fn planned_task(d: DescriptorV) -> TaskV {
    TaskV {
        state: StateV::Scheduled,
        ..new_task(
            d.task_id,
            d.stage_id,
            match lookup(d.config, "worker_id"@) {
                Some(w) => w,
                None => Seq::empty(),
            },
        )
    }
}

/// The parallelism of a job: what was asked for, else what it sets, at least one.
pub open spec fn job_parallelism(config: JsonV, asked: Option<usize>) -> usize {
    let p = match asked {
        Some(v) => v,
        None => match job_config::parallelism_setting(config) {
            Some(v) => v as usize,
            None => 1,
        },
    };
    if p == 0 { 1 } else { p }
}

/// The checkpoint interval of a job.
pub open spec fn job_interval(config: JsonV) -> u64 {
    match job_config::interval_setting(config) {
        Some(v) => v,
        None => job_config::DEFAULT_CHECKPOINT_INTERVAL_MS,
    }
}

/// What every task of a job is told.
pub open spec fn settings_of(job_id: Seq<char>, job_name: Seq<char>, config: JsonV) -> JobSettings {
    JobSettings { job_id, job_name, transforms: job_config::transforms_of(config), interval: job_interval(config) }
}

/// The tasks that a job compiles to.
pub open spec fn compiled(
    job_id: Seq<char>,
    job_name: Seq<char>,
    config: JsonV,
    asked: Option<usize>,
    workers: Pairs,
) -> Result<Seq<DescriptorV>, PlanErrorV> {
    if workers.len() == 0 {
        Err(PlanErrorV::NoWorker)
    } else {
        match job_config::plan_of(config, job_parallelism(config, asked)) {
            Ok(plan) => Ok(plan_tasks(settings_of(job_id, job_name, config), plan, plan.len(), workers)),
            Err(e) => Err(e),
        }
    }
}

/// A job that was just planned.
pub open spec fn planned_job(
    job_id: Seq<char>,
    job_name: Seq<char>,
    config: JsonV,
    asked: Option<usize>,
    tasks: Seq<DescriptorV>,
    now: i64,
) -> JobV {
    JobV {
        job_id,
        job_name,
        state: StateV::Scheduled,
        parallelism: job_parallelism(config, asked),
        tasks: tasks.map_values(|d: DescriptorV| planned_task(d)),
        start_time: now,
        end_time: None,
        error_message: None,
        checkpoint_interval_ms: job_interval(config),
        checkpoints_completed: 0,
        next_checkpoint_id: 1,
        last_checkpoint_trigger_ms: 0,
        raw_config: json::json_text(config),
    }
}

struct Prepared {
    transforms: Json,
    interval: u64,
}

fn new_config(
    job_name: &str,
    pipe: usize,
    p: &PipelineSpec,
    worker: &(String, String),
    prepared: &Prepared,
    Ghost(s): Ghost<JobSettings>,
) -> (r: Properties)
    requires
        s.job_name == job_name@,
        prepared.transforms@ == JsonV::Array(s.transforms),
        prepared.interval == s.interval,
    ensures
        r@ == task_config(s, pipe as nat, p@, (worker.0@, worker.1@)),
{
    let mut c = Properties::new();
    c.insert(text::owned("worker_id"), worker.0.clone());
    c.insert(text::owned("worker_address"), worker.1.clone());
    c.insert(text::owned("job.name"), text::owned(job_name));
    c.insert(text::owned("pipeline.index"), text::decimal(pipe as u64));
    c.insert(text::owned("pipeline.name"), p.name.clone());
    c.insert(text::owned("pipeline.source.plugin"), p.source_plugin.clone());
    c.insert(text::owned("pipeline.source.config"), json::json_string(&p.source_config));
    let sinks = job_config::sinks_json(&p.sinks);
    c.insert(text::owned("pipeline.sinks"), json::json_string(&sinks));
    c.insert(text::owned("pipeline.on-sink-failure"), p.on_sink_failure.clone());
    c.insert(text::owned("transform.config"), json::json_string(&prepared.transforms));
    c.insert(text::owned("checkpoint.interval"), text::decimal(prepared.interval));
    c
}

fn new_descriptor(
    job_id: &str,
    job_name: &str,
    pipe: usize,
    p: &PipelineSpec,
    i: usize,
    worker: &(String, String),
    prepared: &Prepared,
    Ghost(s): Ghost<JobSettings>,
) -> (r: TaskDescriptor)
    requires
        s.job_id == job_id@,
        s.job_name == job_name@,
        prepared.transforms@ == JsonV::Array(s.transforms),
        prepared.interval == s.interval,
    ensures
        r@ == descriptor_of(s, pipe as nat, p@, i as nat, (worker.0@, worker.1@)),
{
    let pipe_text = text::decimal(pipe as u64);
    let i_text = text::decimal(i as u64);
    let stage_id = text::join3(job_id, "-p", pipe_text.as_str());
    let task_id = text::join3(stage_id.as_str(), "-", i_text.as_str());
    let head = text::join3(job_name, "-", p.name.as_str());
    let task_name = text::join3(head.as_str(), "-", i_text.as_str());
    TaskDescriptor {
        task_id,
        job_id: text::owned(job_id),
        stage_id,
        task_name,
        task_index: i as i32,
        source_config_json: String::new(),
        sink_config_json: String::new(),
        parallelism: p.parallelism as i32,
        config: new_config(job_name, pipe, p, worker, prepared, Ghost(s)),
    }
}

fn plan_descriptors(
    job_id: &str,
    job_name: &str,
    plan: &Vec<PipelineSpec>,
    workers: &[(String, String)],
    prepared: &Prepared,
    Ghost(s): Ghost<JobSettings>,
) -> (r: Vec<TaskDescriptor>)
    requires
        workers@.len() > 0,
        s.job_id == job_id@,
        s.job_name == job_name@,
        prepared.transforms@ == JsonV::Array(s.transforms),
        prepared.interval == s.interval,
    ensures
        values(r@) == plan_tasks(
            s,
            job_config::pipelines_view(plan@),
            plan@.len(),
            props::pairs_view(workers@),
        ),
{
    let ghost pv = job_config::pipelines_view(plan@);
    let ghost wv = props::pairs_view(workers@);
    let mut tasks: Vec<TaskDescriptor> = Vec::new();
    let mut pipe: usize = 0;
    assert(values(tasks@) =~= Seq::empty());
    while pipe < plan.len()
        invariant
            pipe <= plan@.len(),
            workers@.len() > 0,
            s.job_id == job_id@,
            s.job_name == job_name@,
            prepared.transforms@ == JsonV::Array(s.transforms),
            prepared.interval == s.interval,
            pv == job_config::pipelines_view(plan@),
            wv == props::pairs_view(workers@),
            values(tasks@) == plan_tasks(s, pv, pipe as nat, wv),
        decreases plan@.len() - pipe,
    {
        let p = &plan[pipe];
        let ghost head = values(tasks@);
        let ghost start = head.len();
        let n: usize = p.parallelism;
        let mut i: usize = 0;
        assert(head + pipeline_tasks(s, pipe as nat, p@, 0, start, wv) =~= head);
        while i < n
            invariant
                i <= n,
                n == p.parallelism,
                workers@.len() > 0,
                s.job_id == job_id@,
                s.job_name == job_name@,
                prepared.transforms@ == JsonV::Array(s.transforms),
                prepared.interval == s.interval,
                wv == props::pairs_view(workers@),
                start == head.len(),
                tasks@.len() == start + i,
                values(tasks@) == head + pipeline_tasks(s, pipe as nat, p@, i as nat, start, wv),
            decreases n - i,
        {
            let turn: usize = tasks.len() % workers.len();
            let worker = &workers[turn];
            let d = new_descriptor(job_id, job_name, pipe, p, i, worker, prepared, Ghost(s));
            let ghost prev = tasks@;
            tasks.push(d);
            proof {
                assert(wv[turn as int] == (worker.0@, worker.1@));
                assert(values(tasks@) =~= values(prev).push(d@));
                assert(pipeline_tasks(s, pipe as nat, p@, (i + 1) as nat, start, wv) =~= pipeline_tasks(
                    s,
                    pipe as nat,
                    p@,
                    i as nat,
                    start,
                    wv,
                ).push(d@));
                assert(head + pipeline_tasks(s, pipe as nat, p@, (i + 1) as nat, start, wv) =~= (head + pipeline_tasks(
                    s,
                    pipe as nat,
                    p@,
                    i as nat,
                    start,
                    wv,
                )).push(d@));
            }
            i += 1;
        }
        assert(pv[pipe as int] == p@);
        pipe += 1;
    }
    tasks
}

impl JobCoordinator {
    /// A coordinator without jobs. Term 0 stands for a worker that has seen no
    /// master yet, so a master starts at term 1.
    pub fn new() -> (r: Self)
        ensures
            r@ == (CoordinatorV {
                jobs: Seq::empty(),
                tasks: Seq::empty(),
                store: Seq::empty(),
                term: 1,
                pending: Seq::empty(),
                outbox: Seq::empty(),
                keep: MASTER_RETAINED as nat,
            }),
    {
        let r = JobCoordinator {
            jobs: Vec::new(),
            all_tasks: Vec::new(),
            checkpoint_store: MasterCheckpointStore::new(MASTER_RETAINED),
            term: 1,
            pending_checkpoints: Vec::new(),
            checkpoint_outbox: Vec::new(),
        };
        assert(r@.jobs =~= Seq::empty());
        assert(r@.tasks =~= Seq::empty());
        assert(r@.pending =~= Seq::empty());
        assert(r@.outbox =~= Seq::empty());
        r
    }

    /// Current fencing term.
    pub fn term(&self) -> (r: u64)
        ensures
            r == self@.term,
    {
        self.term
    }

    /// Raises the term to one that was seen elsewhere; it never falls. Returns
    /// the current term.
    pub fn observe_term(&mut self, seen: u64) -> (r: u64)
        ensures
            r == if seen > old(self)@.term { seen } else { old(self)@.term },
            final(self)@ == (CoordinatorV { term: r, ..old(self)@ }),
            final(self).checkpoint_store == old(self).checkpoint_store,
    {
        if seen > self.term {
            self.term = seen;
        }
        self.term
    }

    /// Compiles a job's configuration into the job and its task descriptors,
    /// without registering them. Without a worker there is nothing to place the
    /// tasks on, and the job is refused.
    pub fn plan_job(
        job_id: &str,
        job_name: &str,
        config: &Json,
        parallelism_override: Option<usize>,
        workers: &[(String, String)],
        now: i64,
    ) -> (r: Result<(RunningJob, Vec<TaskDescriptor>), PlanError>)
        ensures
            match (r, compiled(job_id@, job_name@, config@, parallelism_override, props::pairs_view(workers@))) {
                (Ok(ok), Ok(tasks)) => {
                    &&& ok.0@ == planned_job(job_id@, job_name@, config@, parallelism_override, tasks, now)
                    &&& values(ok.1@) == tasks
                    &&& ok.0@.raw_config.len() > 0
                    &&& json::readable(config@) ==> json::parsed_text(ok.0@.raw_config) == Some(config@)
                },
                (Err(e), Err(ev)) => e@ == ev,
                _ => false,
            },
    {
        let asked: usize = match parallelism_override {
            Some(v) => v,
            None => job_config::env_parallelism(config),
        };
        let parallelism: usize = if asked == 0 { 1 } else { asked };
        if workers.len() == 0 {
            return Err(PlanError::NoWorker);
        }
        let interval = job_config::env_checkpoint_interval(config);
        let plan = match job_config::extract_pipelines(config, parallelism) {
            Ok(p) => p,
            Err(e) => {
                return Err(e);
            },
        };
        let transforms = Json::Array(job_config::extract_transform_list(config));
        proof {
            json::lemma_json_parts(transforms);
        }
        let prepared = Prepared { transforms, interval };
        let ghost s = settings_of(job_id@, job_name@, config@);
        let tasks = plan_descriptors(job_id, job_name, &plan, workers, &prepared, Ghost(s));
        let ghost tv = values(tasks@);
        let mut infos: Vec<TaskInfo> = Vec::new();
        let mut i: usize = 0;
        while i < tasks.len()
            invariant
                i <= tasks@.len(),
                infos@.len() == i,
                forall|k: int| 0 <= k < i ==> #[trigger] infos@[k]@ == planned_task(tasks@[k]@),
            decreases tasks@.len() - i,
        {
            let worker_id = tasks[i].config.get_or_empty("worker_id");
            let mut info = TaskInfo::new(tasks[i].task_id.clone(), tasks[i].stage_id.clone(), worker_id);
            info.state = JobState::Scheduled;
            infos.push(info);
            i += 1;
        }
        let job = RunningJob {
            job_id: text::owned(job_id),
            job_name: text::owned(job_name),
            state: JobState::Scheduled,
            parallelism,
            tasks: infos,
            start_time: now,
            end_time: None,
            error_message: None,
            checkpoint_interval_ms: interval,
            checkpoints_completed: 0,
            next_checkpoint_id: 1,
            last_checkpoint_trigger_ms: 0,
            raw_config: json::json_string(config),
        };
        proof {
            assert(values(infos@) =~= tv.map_values(|d: DescriptorV| planned_task(d)));
        }
        Ok((job, tasks))
    }

    /// Registers a planned job and its descriptors, each in place of an earlier
    /// one with its id.
    pub fn install_job(&mut self, job: RunningJob, descriptors: &Vec<TaskDescriptor>)
        ensures
            final(self)@ == (CoordinatorV {
                jobs: put(old(self)@.jobs, job@),
                tasks: put_all(old(self)@.tasks, values(descriptors@)),
                ..old(self)@
            }),
            final(self).checkpoint_store == old(self).checkpoint_store,
    {
        let ghost jv = job@;
        let ghost tv = values(descriptors@);
        let name = job.job_id.clone();
        keyed::put_item(&mut self.jobs, name.as_str(), job);
        let ghost base = values(self.all_tasks@);
        let mut i: usize = 0;
        proof {
            assert(tv.take(0) =~= Seq::empty());
        }
        while i < descriptors.len()
            invariant
                i <= descriptors@.len(),
                tv == values(descriptors@),
                values(self.all_tasks@) == put_all(base, tv.take(i as int)),
                self@.jobs == put(old(self)@.jobs, jv),
                self.checkpoint_store == old(self).checkpoint_store,
                self.term == old(self).term,
                self.pending_checkpoints == old(self).pending_checkpoints,
                self.checkpoint_outbox == old(self).checkpoint_outbox,
            decreases descriptors@.len() - i,
        {
            let d = descriptors[i].copy();
            let id = descriptors[i].task_id.clone();
            proof {
                assert(tv.take(i + 1).drop_last() =~= tv.take(i as int));
                assert(tv.take(i + 1).last() == d@);
            }
            keyed::put_item(&mut self.all_tasks, id.as_str(), d);
            i += 1;
        }
        proof {
            assert(tv.take(tv.len() as int) =~= tv);
        }
    }

    /// Compiles a job's configuration into task descriptors and registers the
    /// job, in place of an earlier one with its id. Without a worker there is
    /// nothing to place the tasks on, and the job is refused.
    pub fn compile_and_schedule(
        &mut self,
        job_id: &str,
        job_name: &str,
        config: &Json,
        parallelism_override: Option<usize>,
        workers: &[(String, String)],
        now: i64,
    ) -> (r: Result<(String, Vec<TaskDescriptor>), PlanError>)
        ensures
            match (r, compiled(job_id@, job_name@, config@, parallelism_override, props::pairs_view(workers@))) {
                (Ok(ok), Ok(tasks)) => {
                    &&& ok.0@ == job_id@
                    &&& values(ok.1@) == tasks
                    &&& final(self)@ == (CoordinatorV {
                        jobs: put(
                            old(self)@.jobs,
                            planned_job(job_id@, job_name@, config@, parallelism_override, tasks, now),
                        ),
                        tasks: put_all(old(self)@.tasks, tasks),
                        ..old(self)@
                    })
                },
                (Err(e), Err(ev)) => e@ == ev && final(self)@ == old(self)@,
                _ => false,
            },
            final(self).checkpoint_store == old(self).checkpoint_store,
    {
        match JobCoordinator::plan_job(job_id, job_name, config, parallelism_override, workers, now) {
            Ok(planned) => {
                self.install_job(planned.0, &planned.1);
                Ok((text::owned(job_id), planned.1))
            },
            Err(e) => Err(e),
        }
    }

    /// A copy of a job.
    pub fn get_job(&self, job_id: &str) -> (r: Option<RunningJob>)
        ensures
            match r {
                Some(j) => named(self@.jobs, job_id@) == Some(j@),
                None => named(self@.jobs, job_id@) is None,
            },
    {
        match keyed::find(&self.jobs, job_id) {
            Some(i) => {
                assert(values(self.jobs@)[i as int] == self.jobs@[i as int]@);
                Some(self.jobs[i].copy())
            },
            None => None,
        }
    }

    /// Copies of all jobs.
    pub fn list_jobs(&self) -> (r: Vec<RunningJob>)
        ensures
            values(r@) == self@.jobs,
    {
        let mut out: Vec<RunningJob> = Vec::new();
        let mut i: usize = 0;
        while i < self.jobs.len()
            invariant
                i <= self.jobs@.len(),
                out@.len() == i,
                forall|k: int| 0 <= k < i ==> #[trigger] out@[k]@ == self.jobs@[k]@,
            decreases self.jobs@.len() - i,
        {
            let j = self.jobs[i].copy();
            out.push(j);
            i += 1;
        }
        assert(values(out@) =~= self@.jobs);
        out
    }
}

} // verus!
