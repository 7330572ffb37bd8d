//! What a worker does with the master's instructions. Executing tasks and talking
//! to the master are the caller's: it performs the actions that are returned here.

use vstd::prelude::*;

use crate::admission::{
    counted_to, evaluated, healthy, lag_ratio, memory_ratio, no_signals, seconds_since, AdmissionConfig,
    AdmissionController, AdmissionSignals, AdmissionState,
};
use crate::heartbeat::{HeartbeatResponse, ReportV, ResponseV, TaskReport};
use crate::job::{DescriptorV, TaskDescriptor};
use crate::job_coordinator::{ResolutionV, TriggerV};
use crate::json::{opt_json, opt_json_copy, Json, JsonV};
use crate::keyed;
use crate::keyed::{distinct, index_of, named, put, values, Keyed, Named};
use crate::state_store::LocalStateStore;
use crate::text;

verus! {

/// The admission signals that a heartbeat carries.
#[derive(Debug, Clone, Copy, PartialEq, Eq, Structural)]
pub struct AdmissionFields {
    /// Overall pressure from 0 to 1000.
    pub load_score: u32,
    /// Lag of the event loop in milliseconds.
    pub lag_ms: u32,
    /// Share of the usable memory per mille.
    pub mem_permille: u32,
    /// Use of the host's processors per mille.
    pub cpu_permille: u32,
    /// False while over a pressure watermark.
    pub can_accept: bool,
}

impl Default for AdmissionFields {
    fn default() -> (r: Self)
        ensures
            r == (AdmissionFields { load_score: 0, lag_ms: 0, mem_permille: 0, cpu_permille: 0, can_accept: false }),
    {
        AdmissionFields { load_score: 0, lag_ms: 0, mem_permille: 0, cpu_permille: 0, can_accept: false }
    }
}

/// When the state of jobs is cleaned up.
#[derive(Debug, Clone, Copy, PartialEq, Eq, Structural)]
pub struct CleanConfig {
    /// Seconds after which a cancelled job's state is deleted.
    pub grace_secs: u64,
    /// Seconds between two sweeps.
    pub interval_secs: u64,
    /// Seconds for which the state of a job may be idle.
    pub ttl_secs: u64,
}

impl CleanConfig {
    /// The period of the sweeps and the idle time that they allow, each at least a
    /// second.
    pub fn sweep(&self) -> (r: (u64, u64))
        ensures
            r.0 == if self.interval_secs == 0 { 1 } else { self.interval_secs },
            r.1 == if self.ttl_secs == 0 { 1 } else { self.ttl_secs },
    {
        (
            if self.interval_secs == 0 { 1 } else { self.interval_secs },
            if self.ttl_secs == 0 { 1 } else { self.ttl_secs },
        )
    }
}

/// What can be told of a task that runs on this worker.
#[derive(Debug)]
pub struct RunningTask {
    pub task_id: String,
    pub job_id: String,
    pub stage_id: String,
    pub state: String,
    pub processed_records: u64,
    pub start_time: i64,
}

/// A task that runs on this worker.
#[derive(Debug)]
pub struct TaskHandle {
    pub task_id: String,
    pub job_id: String,
    /// Whether it was told to stop.
    pub cancelled: bool,
}

/// The mathematical value of a running task.
#[verifier::ext_equal]
pub struct RunningV {
    pub task_id: Seq<char>,
    pub job_id: Seq<char>,
    pub cancelled: bool,
}

impl View for TaskHandle {
    type V = RunningV;

    open spec fn view(&self) -> RunningV {
        RunningV { task_id: self.task_id@, job_id: self.job_id@, cancelled: self.cancelled }
    }
}

impl Named for RunningV {
    open spec fn name(self) -> Seq<char> {
        self.task_id
    }
}

impl Keyed for TaskHandle {
    fn is_named(&self, name: &str) -> (r: bool) {
        text::same(self.task_id.as_str(), name)
    }
}

/// A task that can be told of checkpoints, with its job.
#[derive(Debug)]
pub struct CheckpointGate {
    pub task_id: String,
    pub job_id: String,
}

/// The mathematical value of a gate.
#[verifier::ext_equal]
pub struct GateV {
    pub task_id: Seq<char>,
    pub job_id: Seq<char>,
}

impl View for CheckpointGate {
    type V = GateV;

    open spec fn view(&self) -> GateV {
        GateV { task_id: self.task_id@, job_id: self.job_id@ }
    }
}

impl Named for GateV {
    open spec fn name(self) -> Seq<char> {
        self.task_id
    }
}

impl Keyed for CheckpointGate {
    fn is_named(&self, name: &str) -> (r: bool) {
        text::same(self.task_id.as_str(), name)
    }
}

/// What a worker has to do.
#[derive(Debug)]
pub enum WorkerAction {
    /// Delete a job's local state after some seconds.
    CleanUp { job_id: String, after_secs: u64 },
    /// Tell a task to stop.
    Cancel { task_id: String },
    /// Tell a task to take a checkpoint.
    Trigger { task_id: String, checkpoint_id: u64 },
    /// Tell a task how a checkpoint ended.
    Resolve { task_id: String, checkpoint_id: u64, completed: bool },
    /// Start a task.
    Start { task: TaskDescriptor },
}

/// The mathematical value of an action.
#[verifier::ext_equal]
pub enum ActionV {
    CleanUp(Seq<char>, u64),
    Cancel(Seq<char>),
    Trigger(Seq<char>, u64),
    Resolve(Seq<char>, u64, bool),
    Start(DescriptorV),
}

impl View for WorkerAction {
    type V = ActionV;

    open spec fn view(&self) -> ActionV {
        match self {
            WorkerAction::CleanUp { job_id, after_secs } => ActionV::CleanUp(job_id@, *after_secs),
            WorkerAction::Cancel { task_id } => ActionV::Cancel(task_id@),
            WorkerAction::Trigger { task_id, checkpoint_id } => ActionV::Trigger(task_id@, *checkpoint_id),
            WorkerAction::Resolve { task_id, checkpoint_id, completed } => ActionV::Resolve(
                task_id@,
                *checkpoint_id,
                *completed,
            ),
            WorkerAction::Start { task } => ActionV::Start(task@),
        }
    }
}

/// A worker.
#[derive(Debug)]
pub struct WorkerNode {
    pub worker_id: String,
    pub address: String,
    pub state_store: LocalStateStore,
    pub clean_config: Option<CleanConfig>,
    /// `localfile`, `master` or `s3`.
    pub storage_type: String,
    /// Tasks that run here.
    pub running_tasks: Vec<TaskHandle>,
    /// Jobs whose clean-up is scheduled.
    pub cancel_cleanups: Vec<String>,
    /// Tasks that can be told of checkpoints.
    pub checkpoint_gates: Vec<CheckpointGate>,
    /// The highest term seen of any master; 0 before the first.
    pub term: u64,
    pub admission: AdmissionController,
}

/// The mathematical value of a worker.
#[verifier::ext_equal]
pub struct WorkerV {
    pub running: Seq<RunningV>,
    pub cleanups: Seq<Seq<char>>,
    pub gates: Seq<GateV>,
    pub term: u64,
    pub clean: Option<CleanConfig>,
    pub id: Seq<char>,
    pub address: Seq<char>,
    pub storage: Seq<char>,
    pub store: LocalStateStore,
    pub admission: AdmissionController,
}

impl View for WorkerNode {
    type V = WorkerV;

    open spec fn view(&self) -> WorkerV {
        WorkerV {
            running: values(self.running_tasks@),
            cleanups: text::views(self.cancel_cleanups@),
            gates: values(self.checkpoint_gates@),
            term: self.term,
            clean: self.clean_config,
            id: self.worker_id@,
            address: self.address@,
            storage: self.storage_type@,
            store: self.state_store,
            admission: self.admission,
        }
    }
}

/// Whether a controller has the default limits and has seen nothing yet.
pub open spec fn idle(a: AdmissionController) -> bool {
    &&& a.signals@ == no_signals()
    &&& a.state == (AdmissionState { consecutive_healthy_secs: 0, overloaded: false })
    &&& a.config == (AdmissionConfig { lag_threshold_ms: 500, memory_watermark_percent: 75, cooldown_secs: 10 })
    &&& a.counted_ms is None
}

/// A worker, and what it has to do.
pub type StepV = (WorkerV, Seq<ActionV>);

/// `n`, at least one.
pub open spec fn positive(n: u64) -> u64 {
    if n == 0 { 1 } else { n }
}

/// The clean-up of one cancelled job, scheduled unless it is already.
pub open spec fn scheduled(s: StepV, job: Seq<char>, grace: u64) -> StepV {
    if s.0.cleanups.contains(job) {
        s
    } else {
        (
            WorkerV { cleanups: s.0.cleanups.push(job), ..s.0 },
            s.1.push(ActionV::CleanUp(job, positive(grace))),
        )
    }
}

/// The clean-up of some cancelled jobs.
pub open spec fn scheduled_all(s: StepV, jobs: Seq<Seq<char>>, grace: u64) -> StepV
    decreases jobs.len(),
{
    if jobs.len() == 0 {
        s
    } else {
        scheduled(scheduled_all(s, jobs.drop_last(), grace), jobs.last(), grace)
    }
}

/// A running task after some jobs were cancelled.
pub open spec fn stopped_by_job(t: RunningV, jobs: Seq<Seq<char>>) -> RunningV {
    if jobs.contains(t.job_id) { RunningV { cancelled: true, ..t } } else { t }
}

/// What tells the tasks of cancelled jobs to stop that were not told yet.
pub open spec fn stops(tasks: Seq<RunningV>, jobs: Seq<Seq<char>>) -> Seq<ActionV>
    decreases tasks.len(),
{
    if tasks.len() == 0 {
        Seq::empty()
    } else {
        let h = stops(tasks.drop_last(), jobs);
        let t = tasks.last();
        if jobs.contains(t.job_id) && !t.cancelled { h.push(ActionV::Cancel(t.task_id)) } else { h }
    }
}

/// A worker that is told of cancelled jobs.
pub open spec fn jobs_cancelled(s: StepV, jobs: Seq<Seq<char>>) -> StepV {
    let c = match s.0.clean {
        Some(clean) => scheduled_all(s, jobs, clean.grace_secs),
        None => s,
    };
    (
        WorkerV { running: s.0.running.map_values(|t: RunningV| stopped_by_job(t, jobs)), ..c.0 },
        c.1 + stops(s.0.running, jobs),
    )
}

/// A worker that is told that a task was given to another one.
pub open spec fn preempted(s: StepV, id: Seq<char>) -> StepV {
    match index_of(s.0.running, id) {
        Some(i) => (
            WorkerV {
                running: s.0.running.update(i, RunningV { cancelled: true, ..s.0.running[i] }),
                ..s.0
            },
            s.1.push(ActionV::Cancel(id)),
        ),
        None => s,
    }
}

/// The same for some tasks.
pub open spec fn preempted_all(s: StepV, ids: Seq<Seq<char>>) -> StepV
    decreases ids.len(),
{
    if ids.len() == 0 {
        s
    } else {
        preempted(preempted_all(s, ids.drop_last()), ids.last())
    }
}

/// What tells the tasks that can be told of due checkpoints.
pub open spec fn triggered(gates: Seq<GateV>, triggers: Seq<TriggerV>) -> Seq<ActionV>
    decreases triggers.len(),
{
    if triggers.len() == 0 {
        Seq::empty()
    } else {
        let h = triggered(gates, triggers.drop_last());
        let t = triggers.last();
        if index_of(gates, t.0) is Some { h.push(ActionV::Trigger(t.0, t.1)) } else { h }
    }
}

/// What tells the tasks that can be told how checkpoints ended.
pub open spec fn resolved(gates: Seq<GateV>, resolutions: Seq<ResolutionV>) -> Seq<ActionV>
    decreases resolutions.len(),
{
    if resolutions.len() == 0 {
        Seq::empty()
    } else {
        let h = resolved(gates, resolutions.drop_last());
        let t = resolutions.last();
        if index_of(gates, t.0) is Some { h.push(ActionV::Resolve(t.0, t.1, t.2)) } else { h }
    }
}

/// A worker that is handed a task; one that it already runs is passed over.
pub open spec fn assigned(s: StepV, d: DescriptorV) -> StepV {
    if index_of(s.0.running, d.task_id) is Some {
        s
    } else {
        (
            WorkerV {
                running: s.0.running.push(RunningV { task_id: d.task_id, job_id: d.job_id, cancelled: false }),
                ..s.0
            },
            s.1.push(ActionV::Start(d)),
        )
    }
}

/// A worker that is handed some tasks.
pub open spec fn assigned_all(s: StepV, ds: Seq<DescriptorV>) -> StepV
    decreases ds.len(),
{
    if ds.len() == 0 {
        s
    } else {
        assigned(assigned_all(s, ds.drop_last()), ds.last())
    }
}

/// A worker that takes the instructions of a master whose term is not lower than
/// the highest that it has seen.
pub open spec fn instructed(w: WorkerV, r: ResponseV) -> StepV {
    let a = (WorkerV { term: r.term, ..w }, Seq::<ActionV>::empty());
    let b = jobs_cancelled(a, r.cancel_jobs);
    let c = preempted_all(b, r.preempted_task_ids);
    let d = (c.0, c.1 + triggered(c.0.gates, r.checkpoint_triggers) + resolved(c.0.gates, r.checkpoint_resolutions));
    assigned_all(d, r.pending_tasks)
}

impl WorkerNode {
    /// A worker that keeps the state of jobs.
    pub fn new(worker_id: String, address: String, state_store: LocalStateStore) -> (r: Self)
        ensures
            r@ == (WorkerV {
                running: Seq::empty(),
                cleanups: Seq::empty(),
                gates: Seq::empty(),
                term: 0,
                clean: None,
                id: worker_id@,
                address: address@,
                storage: "localfile"@,
                store: state_store,
                admission: r.admission,
            }),
            idle(r.admission),
    {
        WorkerNode::new_with_clean(worker_id, address, state_store, None)
    }

    /// A worker that cleans up as configured.
    pub fn new_with_clean(
        worker_id: String,
        address: String,
        state_store: LocalStateStore,
        clean_config: Option<CleanConfig>,
    ) -> (r: Self)
        ensures
            r@ == (WorkerV {
                running: Seq::empty(),
                cleanups: Seq::empty(),
                gates: Seq::empty(),
                term: 0,
                clean: clean_config,
                id: worker_id@,
                address: address@,
                storage: "localfile"@,
                store: state_store,
                admission: r.admission,
            }),
            idle(r.admission),
    {
        let r = WorkerNode {
            worker_id,
            address,
            state_store,
            clean_config,
            storage_type: text::owned("localfile"),
            running_tasks: Vec::new(),
            cancel_cleanups: Vec::new(),
            checkpoint_gates: Vec::new(),
            term: 0,
            admission: AdmissionController::new_manual(Default::default()),
        };
        assert(r@.running =~= Seq::empty());
        assert(r@.cleanups =~= Seq::empty());
        assert(r@.gates =~= Seq::empty());
        r
    }

    /// Attaches an admission controller.
    pub fn with_admission(self, controller: AdmissionController) -> (r: Self)
        ensures
            r@ == (WorkerV { admission: controller, ..self@ }),
    {
        let mut r = self;
        r.admission = controller;
        r
    }

    /// Sets where checkpoints are shared.
    pub fn with_checkpoint_storage(&mut self, storage_type: &str)
        ensures
            final(self)@ == (WorkerV { storage: storage_type@, ..old(self)@ }),
    {
        self.storage_type = text::owned(storage_type);
    }

    /// The admission signals for a heartbeat. The hysteresis advances by the time
    /// since the previous one.
    pub fn admission_fields(&mut self, now_ms: i64) -> (r: AdmissionFields)
        ensures
            ({
                let a = old(self).admission;
                let s = a.signals@;
                &&& final(self).admission.state == evaluated(
                    s,
                    a.config,
                    a.state,
                    seconds_since(a.counted_ms, now_ms),
                )
                &&& final(self).admission.counted_ms == Some(
                    counted_to(a.counted_ms, now_ms, healthy(s, a.config)),
                )
                &&& final(self).admission.signals == a.signals
                &&& final(self).admission.config == a.config
                &&& r.can_accept == !final(self).admission.state.overloaded
                &&& r.load_score == if lag_ratio(s, a.config) >= memory_ratio(s, a.config) {
                    lag_ratio(s, a.config)
                } else {
                    memory_ratio(s, a.config)
                }
                &&& r.lag_ms == match s.lag_ms {
                    Some(l) => if l > u32::MAX { u32::MAX } else { l as u32 },
                    None => 0,
                }
                &&& r.mem_permille == match s.mem_permille {
                    Some(m) => m,
                    None => 0,
                }
                &&& r.cpu_permille == match s.cpu_permille {
                    Some(c) => c,
                    None => 0,
                }
            }),
            final(self)@ == (WorkerV { admission: final(self).admission, ..old(self)@ }),
    {
        let decision = self.admission.decision(now_ms);
        let signals = self.admission.signals();
        AdmissionFields {
            load_score: decision.load_score_permille,
            lag_ms: match signals.lag_ms {
                Some(l) => if l > 0xffff_ffff { 0xffff_ffff } else { l as u32 },
                None => 0,
            },
            mem_permille: match signals.mem_permille {
                Some(m) => m,
                None => 0,
            },
            cpu_permille: match signals.cpu_permille {
                Some(c) => c,
                None => 0,
            },
            can_accept: decision.can_accept,
        }
    }

    /// Publishes admission signals.
    pub fn set_admission_signals(&mut self, signals: AdmissionSignals)
        ensures
            final(self).admission.signals@ == crate::admission::clamped(signals),
            final(self).admission.state == old(self).admission.state,
            final(self).admission.config == old(self).admission.config,
            final(self).admission.counted_ms == old(self).admission.counted_ms,
            final(self)@ == (WorkerV { admission: final(self).admission, ..old(self)@ }),
    {
        self.admission.set_signals(signals);
    }

    /// Where the worker keeps its checkpoints.
    pub fn state_store(&self) -> (r: &LocalStateStore)
        ensures
            *r == self.state_store,
    {
        &self.state_store
    }

    /// The highest term seen of any master.
    pub fn term(&self) -> (r: u64)
        ensures
            r == self@.term,
    {
        self.term
    }

    /// Raises the term; it never falls. Returns the current one.
    pub fn observe_term(&mut self, seen: u64) -> (r: u64)
        ensures
            r == if seen > old(self)@.term { seen } else { old(self)@.term },
            final(self)@ == (WorkerV { term: r, ..old(self)@ }),
    {
        if seen > self.term {
            self.term = seen;
        }
        self.term
    }

    /// The ids of the tasks that run here.
    pub fn running_task_ids(&self) -> (r: Vec<String>)
        ensures
            text::views(r@) == self@.running.map_values(|t: RunningV| t.task_id),
    {
        let mut out: Vec<String> = Vec::new();
        let mut i: usize = 0;
        while i < self.running_tasks.len()
            invariant
                i <= self.running_tasks@.len(),
                out@.len() == i,
                forall|k: int| 0 <= k < i ==> (#[trigger] out@[k])@ == self.running_tasks@[k].task_id@,
            decreases self.running_tasks@.len() - i,
        {
            out.push(self.running_tasks[i].task_id.clone());
            i += 1;
        }
        assert(text::views(out@) =~= self@.running.map_values(|t: RunningV| t.task_id));
        out
    }

    /// The number of tasks that run here.
    pub fn running_task_count(&self) -> (r: usize)
        ensures
            r == self@.running.len(),
    {
        self.running_tasks.len()
    }

    fn schedule_cleanups(&mut self, job_ids: &Vec<String>, grace_secs: u64, out: &mut Vec<WorkerAction>)
        ensures
            (final(self)@, values(final(out)@)) == scheduled_all(
                (old(self)@, values(old(out)@)),
                text::views(job_ids@),
                grace_secs,
            ),
            final(self).running_tasks == old(self).running_tasks,
    {
        let ghost s0 = (self@, values(out@));
        let ghost ids = text::views(job_ids@);
        let mut i: usize = 0;
        assert(ids.take(0) =~= Seq::empty());
        while i < job_ids.len()
            invariant
                i <= job_ids@.len(),
                ids == text::views(job_ids@),
                self.running_tasks == old(self).running_tasks,
                (self@, values(out@)) == scheduled_all(s0, ids.take(i as int), grace_secs),
            decreases job_ids@.len() - i,
        {
            proof {
                assert(ids.take(i + 1).drop_last() =~= ids.take(i as int));
                assert(ids.take(i + 1).last() == job_ids@[i as int]@);
            }
            if !text::holds(&self.cancel_cleanups, job_ids[i].as_str()) {
                let ghost prev = self.cancel_cleanups@;
                let ghost acts = out@;
                let id = job_ids[i].clone();
                let name = job_ids[i].clone();
                self.cancel_cleanups.push(id);
                assert(text::views(self.cancel_cleanups@) =~= text::views(prev).push(id@));
                let a = WorkerAction::CleanUp {
                    job_id: name,
                    after_secs: if grace_secs == 0 { 1 } else { grace_secs },
                };
                out.push(a);
                assert(values(out@) =~= values(acts).push(a@));
            }
            i += 1;
        }
        assert(ids.take(ids.len() as int) =~= ids);
    }

    /// Stops the local tasks of cancelled jobs, and schedules the clean-up of their
    /// state once per job. The master tells of a cancelled job with every heartbeat
    /// until all of its tasks have ended.
    pub fn cancel_jobs(&mut self, job_ids: &Vec<String>, out: &mut Vec<WorkerAction>)
        ensures
            (final(self)@, values(final(out)@)) == jobs_cancelled(
                (old(self)@, values(old(out)@)),
                text::views(job_ids@),
            ),
    {
        let ghost s0 = (self@, values(out@));
        let ghost ids = text::views(job_ids@);
        if let Some(clean) = self.clean_config {
            self.schedule_cleanups(job_ids, clean.grace_secs, out);
        }
        let ghost c = (self@, values(out@));
        let ghost run = values(self.running_tasks@);
        assert(run == s0.0.running);
        let mut i: usize = 0;
        proof {
            assert(run.take(0) =~= Seq::empty());
            assert(c.1 + Seq::<ActionV>::empty() =~= c.1);
        }
        while i < self.running_tasks.len()
            invariant
                i <= self.running_tasks@.len(),
                self.running_tasks@.len() == run.len(),
                ids == text::views(job_ids@),
                self@ == (WorkerV { running: values(self.running_tasks@), ..c.0 }),
                forall|k: int| 0 <= k < i ==> #[trigger] self.running_tasks@[k]@ == stopped_by_job(run[k], ids),
                forall|k: int| i <= k < run.len() ==> #[trigger] self.running_tasks@[k]@ == run[k],
                values(out@) == c.1 + stops(run.take(i as int), ids),
            decreases self.running_tasks@.len() - i,
        {
            proof {
                assert(run.take(i + 1).drop_last() =~= run.take(i as int));
                assert(run.take(i + 1).last() == run[i as int]);
                assert(self.running_tasks@[i as int]@ == run[i as int]);
            }
            if text::holds(job_ids, self.running_tasks[i].job_id.as_str()) && !self.running_tasks[i].cancelled {
                let ghost acts = out@;
                let a = WorkerAction::Cancel { task_id: self.running_tasks[i].task_id.clone() };
                self.running_tasks[i].cancelled = true;
                out.push(a);
                proof {
                    assert(values(out@) =~= values(acts).push(a@));
                    assert((c.1 + stops(run.take(i as int), ids)).push(a@) =~= c.1 + stops(run.take(i as int), ids).push(
                        a@,
                    ));
                }
            }
            i += 1;
        }
        proof {
            assert(run.take(run.len() as int) =~= run);
            assert(values(self.running_tasks@) =~= run.map_values(|t: RunningV| stopped_by_job(t, ids)));
        }
    }

    /// Stops tasks that the master gave to other workers, so that they do not run
    /// twice.
    pub fn preempt_tasks(&mut self, task_ids: &Vec<String>, out: &mut Vec<WorkerAction>)
        ensures
            (final(self)@, values(final(out)@)) == preempted_all(
                (old(self)@, values(old(out)@)),
                text::views(task_ids@),
            ),
    {
        let ghost s0 = (self@, values(out@));
        let ghost ids = text::views(task_ids@);
        let mut i: usize = 0;
        assert(ids.take(0) =~= Seq::empty());
        while i < task_ids.len()
            invariant
                i <= task_ids@.len(),
                ids == text::views(task_ids@),
                (self@, values(out@)) == preempted_all(s0, ids.take(i as int)),
            decreases task_ids@.len() - i,
        {
            let ghost run = values(self.running_tasks@);
            proof {
                assert(ids.take(i + 1).drop_last() =~= ids.take(i as int));
                assert(ids.take(i + 1).last() == task_ids@[i as int]@);
            }
            if let Some(k) = keyed::find(&self.running_tasks, task_ids[i].as_str()) {
                let ghost acts = out@;
                assert(run[k as int] == self.running_tasks@[k as int]@);
                self.running_tasks[k].cancelled = true;
                let a = WorkerAction::Cancel { task_id: task_ids[i].clone() };
                out.push(a);
                proof {
                    assert(values(out@) =~= values(acts).push(a@));
                    assert(values(self.running_tasks@) =~= run.update(
                        k as int,
                        RunningV { cancelled: true, ..run[k as int] },
                    ));
                }
            }
            i += 1;
        }
        assert(ids.take(ids.len() as int) =~= ids);
    }

    /// Takes up a task, unless it already runs here. Returns whether it is to be
    /// started.
    pub fn assign_task(&mut self, task: &TaskDescriptor) -> (r: bool)
        ensures
            r == (index_of(old(self)@.running, task@.task_id) is None),
            final(self)@ == assigned((old(self)@, Seq::empty()), task@).0,
    {
        if keyed::find(&self.running_tasks, task.task_id.as_str()).is_some() {
            return false;
        }
        let ghost prev = self.running_tasks@;
        let t = TaskHandle { task_id: task.task_id.clone(), job_id: task.job_id.clone(), cancelled: false };
        self.running_tasks.push(t);
        assert(values(self.running_tasks@) =~= values(prev).push(t@));
        true
    }

    /// A task has ended.
    pub fn finish_task(&mut self, task_id: &str)
        ensures
            final(self)@ == (WorkerV {
                running: match index_of(old(self)@.running, task_id@) {
                    Some(i) => old(self)@.running.remove(i),
                    None => old(self)@.running,
                },
                ..old(self)@
            }),
    {
        let ghost run = values(self.running_tasks@);
        if let Some(i) = keyed::find(&self.running_tasks, task_id) {
            self.running_tasks.remove(i);
            assert(values(self.running_tasks@) =~= run.remove(i as int));
        }
    }

    /// A task can be told of checkpoints from now on.
    pub fn open_checkpoint_gate(&mut self, task_id: &str, job_id: &str)
        ensures
            final(self)@ == (WorkerV {
                gates: put(old(self)@.gates, (GateV { task_id: task_id@, job_id: job_id@ })),
                ..old(self)@
            }),
    {
        keyed::put_item(
            &mut self.checkpoint_gates,
            task_id,
            CheckpointGate { task_id: text::owned(task_id), job_id: text::owned(job_id) },
        );
    }

    /// A task cannot be told of checkpoints any more.
    pub fn remove_checkpoint_gate(&mut self, task_id: &str)
        ensures
            final(self)@ == (WorkerV {
                gates: match index_of(old(self)@.gates, task_id@) {
                    Some(i) => old(self)@.gates.remove(i),
                    None => old(self)@.gates,
                },
                ..old(self)@
            }),
    {
        let ghost g = values(self.checkpoint_gates@);
        if let Some(i) = keyed::find(&self.checkpoint_gates, task_id) {
            self.checkpoint_gates.remove(i);
            assert(values(self.checkpoint_gates@) =~= g.remove(i as int));
        }
    }

    fn fire_triggers(&self, response: &HeartbeatResponse, out: &mut Vec<WorkerAction>)
        ensures
            values(final(out)@) == values(old(out)@) + triggered(self@.gates, response@.checkpoint_triggers),
    {
        let ghost tv = response@.checkpoint_triggers;
        let ghost base = values(out@);
        let ghost gates = self@.gates;
        let mut i: usize = 0;
        proof {
            assert(tv.take(0) =~= Seq::empty());
            assert(base + Seq::<ActionV>::empty() =~= base);
        }
        while i < response.checkpoint_triggers.len()
            invariant
                i <= response.checkpoint_triggers@.len(),
                tv == values(response.checkpoint_triggers@),
                gates == values(self.checkpoint_gates@),
                values(out@) == base + triggered(gates, tv.take(i as int)),
            decreases response.checkpoint_triggers@.len() - i,
        {
            let t = &response.checkpoint_triggers[i];
            proof {
                assert(tv.take(i + 1).drop_last() =~= tv.take(i as int));
                assert(tv.take(i + 1).last() == t@);
            }
            if keyed::find(&self.checkpoint_gates, t.task_id.as_str()).is_some() {
                let ghost acts = out@;
                let a = WorkerAction::Trigger { task_id: t.task_id.clone(), checkpoint_id: t.checkpoint_id };
                out.push(a);
                proof {
                    assert(values(out@) =~= values(acts).push(a@));
                    assert((base + triggered(gates, tv.take(i as int))).push(a@) =~= base + triggered(
                        gates,
                        tv.take(i as int),
                    ).push(a@));
                }
            }
            i += 1;
        }
        assert(tv.take(tv.len() as int) =~= tv);
    }

    fn deliver_resolutions(&self, response: &HeartbeatResponse, out: &mut Vec<WorkerAction>)
        ensures
            values(final(out)@) == values(old(out)@) + resolved(self@.gates, response@.checkpoint_resolutions),
    {
        let ghost tv = response@.checkpoint_resolutions;
        let ghost base = values(out@);
        let ghost gates = self@.gates;
        let mut i: usize = 0;
        proof {
            assert(tv.take(0) =~= Seq::empty());
            assert(base + Seq::<ActionV>::empty() =~= base);
        }
        while i < response.checkpoint_resolutions.len()
            invariant
                i <= response.checkpoint_resolutions@.len(),
                tv == values(response.checkpoint_resolutions@),
                gates == values(self.checkpoint_gates@),
                values(out@) == base + resolved(gates, tv.take(i as int)),
            decreases response.checkpoint_resolutions@.len() - i,
        {
            let t = &response.checkpoint_resolutions[i];
            proof {
                assert(tv.take(i + 1).drop_last() =~= tv.take(i as int));
                assert(tv.take(i + 1).last() == t@);
            }
            if keyed::find(&self.checkpoint_gates, t.task_id.as_str()).is_some() {
                let ghost acts = out@;
                let a = WorkerAction::Resolve {
                    task_id: t.task_id.clone(),
                    checkpoint_id: t.checkpoint_id,
                    completed: t.completed,
                };
                out.push(a);
                proof {
                    assert(values(out@) =~= values(acts).push(a@));
                    assert((base + resolved(gates, tv.take(i as int))).push(a@) =~= base + resolved(
                        gates,
                        tv.take(i as int),
                    ).push(a@));
                }
            }
            i += 1;
        }
        assert(tv.take(tv.len() as int) =~= tv);
    }

    fn assign_all(&mut self, tasks: &Vec<TaskDescriptor>, out: &mut Vec<WorkerAction>)
        ensures
            (final(self)@, values(final(out)@)) == assigned_all((old(self)@, values(old(out)@)), values(tasks@)),
    {
        let ghost s0 = (self@, values(out@));
        let ghost tv = values(tasks@);
        let mut i: usize = 0;
        assert(tv.take(0) =~= Seq::empty());
        while i < tasks.len()
            invariant
                i <= tasks@.len(),
                tv == values(tasks@),
                (self@, values(out@)) == assigned_all(s0, tv.take(i as int)),
            decreases tasks@.len() - i,
        {
            proof {
                assert(tv.take(i + 1).drop_last() =~= tv.take(i as int));
                assert(tv.take(i + 1).last() == tasks@[i as int]@);
            }
            if self.assign_task(&tasks[i]) {
                let ghost acts = out@;
                let a = WorkerAction::Start { task: tasks[i].copy() };
                out.push(a);
                assert(values(out@) =~= values(acts).push(a@));
            }
            i += 1;
        }
        assert(tv.take(tv.len() as int) =~= tv);
    }

    /// Takes the instructions of a heartbeat's answer, and returns what they ask to
    /// do. A master whose term is lower than the highest seen was deposed: nothing
    /// is taken of it, and none is returned. So no task is handed out twice across
    /// a change of masters.
    pub fn apply_master_response(&mut self, response: &HeartbeatResponse) -> (r: Option<Vec<WorkerAction>>)
        ensures
            match r {
                Some(a) => response@.term >= old(self)@.term && (final(self)@, values(a@)) == instructed(
                    old(self)@,
                    response@,
                ),
                None => response@.term < old(self)@.term && final(self)@ == old(self)@,
            },
    {
        if response.term < self.term {
            return None;
        }
        self.term = response.term;
        let mut out: Vec<WorkerAction> = Vec::new();
        assert(values(out@) =~= Seq::<ActionV>::empty());
        self.cancel_jobs(&response.cancel_jobs, &mut out);
        self.preempt_tasks(&response.preempted_task_ids, &mut out);
        self.fire_triggers(response, &mut out);
        self.deliver_resolutions(response, &mut out);
        self.assign_all(&response.pending_tasks, &mut out);
        Some(out)
    }
}

// ---------------------------------------------------------------------------
// Reports
// ---------------------------------------------------------------------------

/// What a running task has measured so far.
#[derive(Debug)]
pub struct TaskSnapshot {
    pub task_id: String,
    pub processed_records: u64,
    pub last_record_at: i64,
    /// Log lines since the last heartbeat.
    pub new_lines: Vec<String>,
    pub last_checkpoint_id: u64,
    pub last_checkpoint_size: u64,
    /// What the task's sinks have measured, if they measure.
    pub sink_metrics: Option<Json>,
}

/// The mathematical value of a task's measurements.
#[verifier::ext_equal]
pub struct MeasuredV {
    pub task_id: Seq<char>,
    pub processed_records: u64,
    pub last_record_at: i64,
    pub new_lines: Seq<Seq<char>>,
    pub last_checkpoint_id: u64,
    pub last_checkpoint_size: u64,
    pub sink_metrics: Option<JsonV>,
}

impl View for TaskSnapshot {
    type V = MeasuredV;

    open spec fn view(&self) -> MeasuredV {
        MeasuredV {
            task_id: self.task_id@,
            processed_records: self.processed_records,
            last_record_at: self.last_record_at,
            new_lines: text::views(self.new_lines@),
            last_checkpoint_id: self.last_checkpoint_id,
            last_checkpoint_size: self.last_checkpoint_size,
            sink_metrics: opt_json(self.sink_metrics),
        }
    }
}

impl Named for MeasuredV {
    open spec fn name(self) -> Seq<char> {
        self.task_id
    }
}

impl Keyed for TaskSnapshot {
    fn is_named(&self, name: &str) -> (r: bool) {
        text::same(self.task_id.as_str(), name)
    }
}

/// What a heartbeat says of a running task. A task whose pipeline is not built yet
/// has measured nothing.
pub open spec fn task_report(t: RunningV, measured: Seq<MeasuredV>) -> ReportV {
    match named(measured, t.task_id) {
        Some(m) => ReportV {
            task_id: t.task_id,
            processed_records: m.processed_records as i64,
            last_record_at: m.last_record_at,
            logs: m.new_lines,
            last_checkpoint_id: m.last_checkpoint_id as i64,
            last_checkpoint_size_bytes: m.last_checkpoint_size as i64,
            sink_metrics: m.sink_metrics,
        },
        None => ReportV {
            task_id: t.task_id,
            processed_records: 0,
            last_record_at: 0,
            logs: Seq::empty(),
            last_checkpoint_id: 0,
            last_checkpoint_size_bytes: 0,
            sink_metrics: None,
        },
    }
}

impl WorkerNode {
    /// What the next heartbeat says of the running tasks.
    pub fn heartbeat_tasks(&self, measured: &Vec<TaskSnapshot>) -> (r: Vec<TaskReport>)
        ensures
            values(r@) == self@.running.map_values(|t: RunningV| task_report(t, values(measured@))),
    {
        let ghost mv = values(measured@);
        let mut out: Vec<TaskReport> = Vec::new();
        let mut i: usize = 0;
        while i < self.running_tasks.len()
            invariant
                i <= self.running_tasks@.len(),
                mv == values(measured@),
                out@.len() == i,
                forall|k: int| 0 <= k < i ==> #[trigger] out@[k]@ == task_report(self.running_tasks@[k]@, mv),
            decreases self.running_tasks@.len() - i,
        {
            let t = &self.running_tasks[i];
            let report = match keyed::find(measured, t.task_id.as_str()) {
                Some(k) => {
                    assert(mv[k as int] == measured@[k as int]@);
                    let m = &measured[k];
                    TaskReport {
                        task_id: t.task_id.clone(),
                        processed_records: m.processed_records as i64,
                        last_record_at: m.last_record_at,
                        logs: text::copy_list(&m.new_lines),
                        last_checkpoint_id: m.last_checkpoint_id as i64,
                        last_checkpoint_size_bytes: m.last_checkpoint_size as i64,
                        sink_metrics: opt_json_copy(&m.sink_metrics),
                    }
                },
                None => {
                    let none: Vec<String> = Vec::new();
                    assert(text::views(none@) =~= Seq::empty());
                    TaskReport {
                        task_id: t.task_id.clone(),
                        processed_records: 0,
                        last_record_at: 0,
                        logs: none,
                        last_checkpoint_id: 0,
                        last_checkpoint_size_bytes: 0,
                        sink_metrics: None,
                    }
                },
            };
            assert(report@ == task_report(t@, mv));
            out.push(report);
            i += 1;
        }
        assert(values(out@) =~= self@.running.map_values(|t: RunningV| task_report(t, mv)));
        out
    }
}

/// How a task ended.
#[derive(Debug)]
pub enum TaskEnd {
    Completed { records: u64 },
    Cancelled { records: u64 },
    Failed { records: u64, error: String },
    /// It stopped in a state that is no end.
    Unexpected { records: u64, state: String },
    /// It could not be built, or was torn down by an error.
    Crashed { error: String },
    /// It panicked.
    Panicked { message: Option<String> },
}

/// What is reported of a task: the number of its state, its records, its error.
#[derive(Debug)]
pub struct EndReport {
    pub state: i32,
    pub records: u64,
    pub error: Option<String>,
}

/// The message of a panic; one that carries no text is unknown.
pub fn panic_message(payload: Option<&str>) -> (r: String)
    ensures
        r@ == match payload {
            Some(s) => s@,
            None => "unknown panic"@,
        },
{
    match payload {
        Some(s) => text::owned(s),
        None => text::owned("unknown panic"),
    }
}

/// What is reported of a task that ended.
pub open spec fn end_report(e: TaskEnd) -> (i32, u64, Option<Seq<char>>) {
    match e {
        TaskEnd::Completed { records } => (3, records, None),
        TaskEnd::Cancelled { records } => (5, records, None),
        TaskEnd::Failed { records, error } => (4, records, Some(error@)),
        TaskEnd::Unexpected { records, state } => (2, records, Some("unexpected state "@ + state@)),
        TaskEnd::Crashed { error } => (4, 0, Some(error@)),
        TaskEnd::Panicked { message } => (
            4,
            0,
            Some(
                "task panicked: "@ + match message {
                    Some(m) => m@,
                    None => "unknown panic"@,
                },
            ),
        ),
    }
}

/// What is reported of a task that ended.
pub fn report_end(e: &TaskEnd) -> (r: EndReport)
    ensures
        (r.state, r.records, crate::job::opt_view(r.error)) == end_report(*e),
{
    match e {
        TaskEnd::Completed { records } => EndReport { state: 3, records: *records, error: None },
        TaskEnd::Cancelled { records } => EndReport { state: 5, records: *records, error: None },
        TaskEnd::Failed { records, error } => EndReport { state: 4, records: *records, error: Some(error.clone()) },
        TaskEnd::Unexpected { records, state } => EndReport {
            state: 2,
            records: *records,
            error: Some(text::join2("unexpected state ", state.as_str())),
        },
        TaskEnd::Crashed { error } => EndReport { state: 4, records: 0, error: Some(error.clone()) },
        TaskEnd::Panicked { message } => {
            let m = match message {
                Some(s) => panic_message(Some(s.as_str())),
                None => panic_message(None),
            };
            EndReport { state: 4, records: 0, error: Some(text::join2("task panicked: ", m.as_str())) }
        },
    }
}

// ---------------------------------------------------------------------------
// What holds of every worker
// ---------------------------------------------------------------------------

/// Whether a worker runs no task twice and has scheduled no clean-up twice.
pub open spec fn orderly(w: WorkerV) -> bool {
    distinct(w.running) && w.cleanups.no_duplicates()
}

proof fn lemma_scheduled_all(s: StepV, jobs: Seq<Seq<char>>, grace: u64)
    requires
        s.0.cleanups.no_duplicates(),
    ensures
        ({
            let r = scheduled_all(s, jobs, grace);
            &&& r.0.cleanups.no_duplicates()
            &&& r.0 == (WorkerV { cleanups: r.0.cleanups, ..s.0 })
            &&& forall|i: int| 0 <= i < jobs.len() ==> r.0.cleanups.contains(#[trigger] jobs[i])
            &&& forall|x: Seq<char>| s.0.cleanups.contains(x) ==> #[trigger] r.0.cleanups.contains(x)
        }),
    decreases jobs.len(),
{
    if jobs.len() > 0 {
        let d = jobs.drop_last();
        lemma_scheduled_all(s, d, grace);
        let h = scheduled_all(s, d, grace);
        let r = scheduled_all(s, jobs, grace);
        if !h.0.cleanups.contains(jobs.last()) {
            let c = h.0.cleanups;
            let n = c.push(jobs.last());
            assert(r.0.cleanups == n);
            assert(n[n.len() - 1] == jobs.last());
            assert forall|x: Seq<char>| c.contains(x) implies #[trigger] n.contains(x) by {
                let k = choose|k: int| 0 <= k < c.len() && c[k] == x;
                assert(n[k] == x);
            }
        }
        assert forall|i: int| 0 <= i < jobs.len() implies r.0.cleanups.contains(#[trigger] jobs[i]) by {
            if i < d.len() {
                assert(jobs[i] == d[i]);
                assert(h.0.cleanups.contains(d[i]));
            }
        }
    }
}

proof fn lemma_preempted_all(s: StepV, ids: Seq<Seq<char>>)
    requires
        distinct(s.0.running),
    ensures
        ({
            let r = preempted_all(s, ids);
            &&& distinct(r.0.running)
            &&& r.0 == (WorkerV { running: r.0.running, ..s.0 })
        }),
    decreases ids.len(),
{
    if ids.len() > 0 {
        lemma_preempted_all(s, ids.drop_last());
        let h = preempted_all(s, ids.drop_last());
        keyed::lemma_index_of(h.0.running, ids.last());
        let r = preempted_all(s, ids);
        assert forall|i: int, j: int| 0 <= i < j < r.0.running.len() implies (#[trigger] r.0.running[i]).name() != (
        #[trigger] r.0.running[j]).name() by {
            assert(h.0.running[i].name() != h.0.running[j].name());
        }
    }
}

proof fn lemma_assigned_all(s: StepV, ds: Seq<DescriptorV>)
    requires
        distinct(s.0.running),
    ensures
        ({
            let r = assigned_all(s, ds);
            &&& distinct(r.0.running)
            &&& r.0 == (WorkerV { running: r.0.running, ..s.0 })
            &&& forall|i: int| 0 <= i < ds.len() ==> index_of(r.0.running, (#[trigger] ds[i]).task_id) is Some
            &&& forall|x: Seq<char>| index_of(s.0.running, x) is Some ==> #[trigger] index_of(r.0.running, x) is Some
        }),
    decreases ds.len(),
{
    if ds.len() > 0 {
        let d = ds.drop_last();
        lemma_assigned_all(s, d);
        let h = assigned_all(s, d).0.running;
        let r = assigned_all(s, ds).0.running;
        let e = RunningV { task_id: ds.last().task_id, job_id: ds.last().job_id, cancelled: false };
        keyed::lemma_index_of(h, ds.last().task_id);
        if index_of(h, ds.last().task_id) is None {
            assert(r =~= put(h, e));
            keyed::lemma_put_distinct(h, e);
            keyed::lemma_put(h, e);
            assert(named(r, e.task_id) is Some);
            assert forall|x: Seq<char>| index_of(h, x) is Some implies #[trigger] index_of(r, x) is Some by {
                if x != e.task_id {
                    assert(named(put(h, e), x) == named(h, x));
                }
            }
        }
        assert forall|i: int| 0 <= i < ds.len() implies index_of(r, (#[trigger] ds[i]).task_id) is Some by {
            if i < d.len() {
                assert(ds[i] == d[i]);
                assert(index_of(h, d[i].task_id) is Some);
            }
        }
    }
}

/// Whatever a master instructs, a worker runs no task twice and schedules the
/// clean-up of a job once; it then runs every task that it was handed; and its
/// term never falls.
pub proof fn law_orderly_worker(w: WorkerV, r: ResponseV)
    requires
        orderly(w),
        r.term >= w.term,
    ensures
        orderly(instructed(w, r).0),
        instructed(w, r).0.term >= w.term,
        forall|i: int|
            0 <= i < r.pending_tasks.len() ==> index_of(
                instructed(w, r).0.running,
                (#[trigger] r.pending_tasks[i]).task_id,
            ) is Some,
        w.clean is Some ==> forall|i: int|
            0 <= i < r.cancel_jobs.len() ==> instructed(w, r).0.cleanups.contains(#[trigger] r.cancel_jobs[i]),
{
    let a = (WorkerV { term: r.term, ..w }, Seq::<ActionV>::empty());
    if let Some(clean) = w.clean {
        lemma_scheduled_all(a, r.cancel_jobs, clean.grace_secs);
    }
    let b = jobs_cancelled(a, r.cancel_jobs);
    assert forall|i: int, j: int| 0 <= i < j < b.0.running.len() implies (#[trigger] b.0.running[i]).name() != (
    #[trigger] b.0.running[j]).name() by {
        assert(w.running[i].name() != w.running[j].name());
    }
    lemma_preempted_all(b, r.preempted_task_ids);
    let c = preempted_all(b, r.preempted_task_ids);
    let d = (c.0, c.1 + triggered(c.0.gates, r.checkpoint_triggers) + resolved(c.0.gates, r.checkpoint_resolutions));
    lemma_assigned_all(d, r.pending_tasks);
}

/// A repeated instruction to cancel jobs asks for nothing more: their clean-ups are
/// scheduled, and their tasks were told to stop.
pub proof fn law_cancelling_again(w: WorkerV, jobs: Seq<Seq<char>>)
    requires
        orderly(w),
    ensures
        ({
            let once = jobs_cancelled((w, Seq::<ActionV>::empty()), jobs).0;
            jobs_cancelled((once, Seq::<ActionV>::empty()), jobs) == (once, Seq::<ActionV>::empty())
        }),
{
    let none = Seq::<ActionV>::empty();
    let once = jobs_cancelled((w, none), jobs).0;
    if let Some(clean) = w.clean {
        lemma_scheduled_all((w, none), jobs, clean.grace_secs);
        lemma_nothing_to_schedule((once, none), jobs, clean.grace_secs);
    }
    assert(once.running.map_values(|t: RunningV| stopped_by_job(t, jobs)) =~= once.running);
    lemma_nothing_to_stop(once.running, jobs);
    assert(none + none =~= none);
}

proof fn lemma_nothing_to_schedule(s: StepV, jobs: Seq<Seq<char>>, grace: u64)
    requires
        forall|i: int| 0 <= i < jobs.len() ==> s.0.cleanups.contains(#[trigger] jobs[i]),
    ensures
        scheduled_all(s, jobs, grace) == s,
    decreases jobs.len(),
{
    if jobs.len() > 0 {
        let d = jobs.drop_last();
        assert forall|i: int| 0 <= i < d.len() implies s.0.cleanups.contains(#[trigger] d[i]) by {
            assert(d[i] == jobs[i]);
        }
        lemma_nothing_to_schedule(s, d, grace);
        assert(s.0.cleanups.contains(jobs[jobs.len() - 1]));
    }
}

proof fn lemma_nothing_to_stop(tasks: Seq<RunningV>, jobs: Seq<Seq<char>>)
    requires
        forall|i: int| 0 <= i < tasks.len() && jobs.contains((#[trigger] tasks[i]).job_id) ==> tasks[i].cancelled,
    ensures
        stops(tasks, jobs) == Seq::<ActionV>::empty(),
    decreases tasks.len(),
{
    if tasks.len() > 0 {
        let d = tasks.drop_last();
        assert forall|i: int| 0 <= i < d.len() && jobs.contains((#[trigger] d[i]).job_id) implies d[i].cancelled by {
            assert(d[i] == tasks[i]);
        }
        lemma_nothing_to_stop(d, jobs);
        assert(tasks[tasks.len() - 1] == tasks.last());
    }
}

} // verus!
