//! Jobs and tasks as the coordinator tracks them.

use vstd::prelude::*;

use crate::json::{opt_json, opt_json_copy, Json, JsonV};
use crate::keyed;
use crate::keyed::{Keyed, Named};
use crate::props::{Pairs, Properties};
use crate::text;

verus! {

/// State of a job or of a task.
#[derive(Debug, PartialEq)]
pub enum JobState {
    Created,
    Scheduled,
    Deploying,
    Running,
    Completed,
    Failed { reason: String },
    Cancelled,
}

/// The mathematical value of a state.
#[verifier::ext_equal]
pub enum StateV {
    Created,
    Scheduled,
    Deploying,
    Running,
    Completed,
    Failed(Seq<char>),
    Cancelled,
}

impl View for JobState {
    type V = StateV;

    open spec fn view(&self) -> StateV {
        match self {
            JobState::Created => StateV::Created,
            JobState::Scheduled => StateV::Scheduled,
            JobState::Deploying => StateV::Deploying,
            JobState::Running => StateV::Running,
            JobState::Completed => StateV::Completed,
            JobState::Failed { reason } => StateV::Failed(reason@),
            JobState::Cancelled => StateV::Cancelled,
        }
    }
}

impl StateV {
    /// Whether nothing follows this state.
    pub open spec fn terminal(self) -> bool {
        self is Completed || self is Failed || self is Cancelled
    }

    /// Whether a task in this state was never handed to a worker.
    pub open spec fn undispatched(self) -> bool {
        self is Created || self is Scheduled
    }

    /// Whether a task in this state is with a worker.
    pub open spec fn active(self) -> bool {
        self is Deploying || self is Running
    }

    /// The name under which the state travels.
    pub open spec fn wire(self) -> Seq<char> {
        match self {
            StateV::Created => "CREATED"@,
            StateV::Scheduled => "SCHEDULED"@,
            StateV::Deploying => "DEPLOYING"@,
            StateV::Running => "RUNNING"@,
            StateV::Completed => "COMPLETED"@,
            StateV::Failed(_) => "FAILED"@,
            StateV::Cancelled => "CANCELLED"@,
        }
    }
}

/// The state that a travelled name stands for; an unknown name is `Created`.
pub open spec fn state_of_wire(s: Seq<char>) -> StateV {
    if s == "RUNNING"@ {
        StateV::Running
    } else if s == "COMPLETED"@ {
        StateV::Completed
    } else if s == "FAILED"@ {
        StateV::Failed("unknown"@)
    } else if s == "CANCELLED"@ {
        StateV::Cancelled
    } else if s == "SCHEDULED"@ {
        StateV::Scheduled
    } else if s == "DEPLOYING"@ {
        StateV::Deploying
    } else {
        StateV::Created
    }
}

/// The number of a state on the wire.
pub open spec fn state_number(s: StateV) -> i32 {
    match s {
        StateV::Created => 1,
        StateV::Scheduled => 2,
        StateV::Deploying => 2,
        StateV::Running => 3,
        StateV::Completed => 4,
        StateV::Failed(_) => 5,
        StateV::Cancelled => 6,
    }
}

/// The names of the states differ from each other.
pub proof fn lemma_wire_names()
    ensures
        "CREATED"@ != "SCHEDULED"@,
        "CREATED"@ != "DEPLOYING"@,
        "CREATED"@ != "RUNNING"@,
        "CREATED"@ != "COMPLETED"@,
        "CREATED"@ != "FAILED"@,
        "CREATED"@ != "CANCELLED"@,
        "SCHEDULED"@ != "DEPLOYING"@,
        "SCHEDULED"@ != "RUNNING"@,
        "SCHEDULED"@ != "COMPLETED"@,
        "SCHEDULED"@ != "FAILED"@,
        "SCHEDULED"@ != "CANCELLED"@,
        "DEPLOYING"@ != "RUNNING"@,
        "DEPLOYING"@ != "COMPLETED"@,
        "DEPLOYING"@ != "FAILED"@,
        "DEPLOYING"@ != "CANCELLED"@,
        "RUNNING"@ != "COMPLETED"@,
        "RUNNING"@ != "FAILED"@,
        "RUNNING"@ != "CANCELLED"@,
        "COMPLETED"@ != "FAILED"@,
        "COMPLETED"@ != "CANCELLED"@,
        "FAILED"@ != "CANCELLED"@,
{
    reveal_strlit("CREATED");
    reveal_strlit("SCHEDULED");
    reveal_strlit("DEPLOYING");
    reveal_strlit("RUNNING");
    reveal_strlit("COMPLETED");
    reveal_strlit("FAILED");
    reveal_strlit("CANCELLED");
    assert("CREATED"@[0] == 'C' && "SCHEDULED"@[0] == 'S' && "DEPLOYING"@[0] == 'D' && "RUNNING"@[0] == 'R');
    assert("COMPLETED"@[1] == 'O' && "CANCELLED"@[1] == 'A' && "FAILED"@[0] == 'F' && "CREATED"@[1] == 'R');
}

/// A state that travels arrives as the state it was; of a failure the reason is
/// lost.
pub proof fn law_state_travels(s: StateV)
    ensures
        match s {
            StateV::Failed(_) => state_of_wire(s.wire()) is Failed,
            other => state_of_wire(s.wire()) == other,
        },
        state_of_wire(s.wire()).terminal() == s.terminal(),
{
    lemma_wire_names();
}

impl JobState {
    /// The state that a travelled name stands for; an unknown name is `Created`.
    pub fn from_wire(s: &str) -> (r: JobState)
        ensures
            r@ == state_of_wire(s@),
    {
        if text::same(s, "RUNNING") {
            JobState::Running
        } else if text::same(s, "COMPLETED") {
            JobState::Completed
        } else if text::same(s, "FAILED") {
            JobState::Failed { reason: text::owned("unknown") }
        } else if text::same(s, "CANCELLED") {
            JobState::Cancelled
        } else if text::same(s, "SCHEDULED") {
            JobState::Scheduled
        } else if text::same(s, "DEPLOYING") {
            JobState::Deploying
        } else {
            JobState::Created
        }
    }

    /// The number of the state on the wire.
    pub fn to_proto_state(&self) -> (r: i32)
        ensures
            r == state_number(self@),
    {
        match self {
            JobState::Created => 1,
            JobState::Scheduled => 2,
            JobState::Deploying => 2,
            JobState::Running => 3,
            JobState::Completed => 4,
            JobState::Failed { .. } => 5,
            JobState::Cancelled => 6,
        }
    }

    /// The name under which the state travels.
    pub fn to_wire(&self) -> (r: &'static str)
        ensures
            r@ == self@.wire(),
    {
        match self {
            JobState::Created => "CREATED",
            JobState::Scheduled => "SCHEDULED",
            JobState::Deploying => "DEPLOYING",
            JobState::Running => "RUNNING",
            JobState::Completed => "COMPLETED",
            JobState::Failed { .. } => "FAILED",
            JobState::Cancelled => "CANCELLED",
        }
    }

    /// Whether nothing follows this state.
    pub fn is_terminal(&self) -> (r: bool)
        ensures
            r == self@.terminal(),
    {
        match self {
            JobState::Completed => true,
            JobState::Failed { .. } => true,
            JobState::Cancelled => true,
            _ => false,
        }
    }

    /// Whether a task in this state was never handed to a worker.
    pub fn is_undispatched(&self) -> (r: bool)
        ensures
            r == self@.undispatched(),
    {
        match self {
            JobState::Created => true,
            JobState::Scheduled => true,
            _ => false,
        }
    }

    /// Whether a task in this state is with a worker.
    pub fn is_active(&self) -> (r: bool)
        ensures
            r == self@.active(),
    {
        match self {
            JobState::Deploying => true,
            JobState::Running => true,
            _ => false,
        }
    }

    /// A copy.
    pub fn copy(&self) -> (r: JobState)
        ensures
            r@ == self@,
    {
        match self {
            JobState::Created => JobState::Created,
            JobState::Scheduled => JobState::Scheduled,
            JobState::Deploying => JobState::Deploying,
            JobState::Running => JobState::Running,
            JobState::Completed => JobState::Completed,
            JobState::Failed { reason } => JobState::Failed { reason: reason.clone() },
            JobState::Cancelled => JobState::Cancelled,
        }
    }
}

/// The characters of an optional text.
pub open spec fn opt_view(s: Option<String>) -> Option<Seq<char>> {
    match s {
        Some(t) => Some(t@),
        None => None,
    }
}

/// A copy of an optional text.
pub fn opt_copy(s: &Option<String>) -> (r: Option<String>)
    ensures
        opt_view(r) == opt_view(*s),
{
    match s {
        Some(t) => Some(t.clone()),
        None => None,
    }
}

// ---------------------------------------------------------------------------
// Tasks
// ---------------------------------------------------------------------------

/// Log lines that are retained of one task.
pub const TASK_LOG_RETAIN: usize = 500;

/// What the coordinator tracks of one task.
#[derive(Debug)]
pub struct TaskInfo {
    pub task_id: String,
    pub stage_id: String,
    pub worker_id: String,
    pub state: JobState,
    pub processed_records: u64,
    pub error: Option<String>,
    /// Time of the most recent record in epoch milliseconds (0 = none yet).
    pub last_record_at: i64,
    /// Most recent completed checkpoint and the size of its state.
    pub last_checkpoint_id: u64,
    pub last_checkpoint_size: u64,
    /// The last log lines that the worker shipped.
    pub logs: Vec<String>,
    /// What the task's sinks have measured, as the worker last shipped it.
    pub sink_metrics: Option<Json>,
}

/// The mathematical value of a task.
#[verifier::ext_equal]
pub struct TaskV {
    pub task_id: Seq<char>,
    pub stage_id: Seq<char>,
    pub worker_id: Seq<char>,
    pub state: StateV,
    pub processed_records: u64,
    pub error: Option<Seq<char>>,
    pub last_record_at: i64,
    pub last_checkpoint_id: u64,
    pub last_checkpoint_size: u64,
    pub logs: Seq<Seq<char>>,
    pub sink_metrics: Option<JsonV>,
}

impl View for TaskInfo {
    type V = TaskV;

    open spec fn view(&self) -> TaskV {
        TaskV {
            task_id: self.task_id@,
            stage_id: self.stage_id@,
            worker_id: self.worker_id@,
            state: self.state@,
            processed_records: self.processed_records,
            error: opt_view(self.error),
            last_record_at: self.last_record_at,
            last_checkpoint_id: self.last_checkpoint_id,
            last_checkpoint_size: self.last_checkpoint_size,
            logs: text::views(self.logs@),
            sink_metrics: opt_json(self.sink_metrics),
        }
    }
}

impl Named for TaskV {
    open spec fn name(self) -> Seq<char> {
        self.task_id
    }
}

impl Keyed for TaskInfo {
    fn is_named(&self, name: &str) -> (r: bool) {
        text::same(self.task_id.as_str(), name)
    }
}

/// A task that nothing is known of yet.
pub open spec fn new_task(task_id: Seq<char>, stage_id: Seq<char>, worker_id: Seq<char>) -> TaskV {
    TaskV {
        task_id,
        stage_id,
        worker_id,
        state: StateV::Created,
        processed_records: 0,
        error: None,
        last_record_at: 0,
        last_checkpoint_id: 0,
        last_checkpoint_size: 0,
        logs: Seq::empty(),
        sink_metrics: None,
    }
}

/// The lines that are retained after `lines` were appended to `logs`.
pub open spec fn logs_appended(logs: Seq<Seq<char>>, lines: Seq<Seq<char>>) -> Seq<Seq<char>> {
    crate::retention::newest(logs + lines, TASK_LOG_RETAIN as nat)
}

impl TaskInfo {
    /// A task that nothing is known of yet.
    pub fn new(task_id: String, stage_id: String, worker_id: String) -> (r: Self)
        ensures
            r@ == new_task(task_id@, stage_id@, worker_id@),
    {
        let r = TaskInfo {
            task_id,
            stage_id,
            worker_id,
            state: JobState::Created,
            processed_records: 0,
            error: None,
            last_record_at: 0,
            last_checkpoint_id: 0,
            last_checkpoint_size: 0,
            logs: Vec::new(),
            sink_metrics: None,
        };
        assert(r@.logs =~= Seq::empty());
        r
    }

    /// Appends log lines and keeps the last ones.
    pub fn append_logs(&mut self, lines: &Vec<String>)
        ensures
            final(self)@ == (TaskV { logs: logs_appended(old(self)@.logs, text::views(lines@)), ..old(self)@ }),
    {
        let ghost before = text::views(self.logs@);
        let ghost added = text::views(lines@);
        let mut i: usize = 0;
        let mut logs: Vec<String> = Vec::new();
        std::mem::swap(&mut self.logs, &mut logs);
        proof {
            assert(before + added.take(0) =~= before);
        }
        while i < lines.len()
            invariant
                i <= lines@.len(),
                added == text::views(lines@),
                text::views(logs@) == before + added.take(i as int),
            decreases lines@.len() - i,
        {
            let ghost prev = logs@;
            let line = lines[i].clone();
            logs.push(line);
            proof {
                assert(text::views(logs@) =~= text::views(prev).push(line@));
                assert(before + added.take(i + 1) =~= (before + added.take(i as int)).push(added[i as int]));
            }
            i += 1;
        }
        let ghost all = logs@;
        let (_gone, kept) = crate::retention::split_newest(logs, TASK_LOG_RETAIN);
        self.logs = kept;
        proof {
            assert(added.take(added.len() as int) =~= added);
            assert(text::views(self.logs@) =~= crate::retention::newest(text::views(all), TASK_LOG_RETAIN as nat));
        }
    }

    /// A copy.
    pub fn copy(&self) -> (r: Self)
        ensures
            r@ == self@,
    {
        TaskInfo {
            task_id: self.task_id.clone(),
            stage_id: self.stage_id.clone(),
            worker_id: self.worker_id.clone(),
            state: self.state.copy(),
            processed_records: self.processed_records,
            error: opt_copy(&self.error),
            last_record_at: self.last_record_at,
            last_checkpoint_id: self.last_checkpoint_id,
            last_checkpoint_size: self.last_checkpoint_size,
            logs: text::copy_list(&self.logs),
            sink_metrics: opt_json_copy(&self.sink_metrics),
        }
    }
}

/// The retained log never exceeds its bound and ends with the newest lines.
pub proof fn law_logs_are_bounded(logs: Seq<Seq<char>>, lines: Seq<Seq<char>>)
    ensures
        logs_appended(logs, lines).len() <= TASK_LOG_RETAIN,
        lines.len() > 0 ==> logs_appended(logs, lines).last() == lines.last(),
{
}

/// What a worker needs to run a task.
#[derive(Debug)]
pub struct TaskDescriptor {
    pub task_id: String,
    pub job_id: String,
    pub stage_id: String,
    pub task_name: String,
    pub task_index: i32,
    pub source_config_json: String,
    pub sink_config_json: String,
    pub parallelism: i32,
    pub config: Properties,
}

/// The mathematical value of a task descriptor.
#[verifier::ext_equal]
pub struct DescriptorV {
    pub task_id: Seq<char>,
    pub job_id: Seq<char>,
    pub stage_id: Seq<char>,
    pub task_name: Seq<char>,
    pub task_index: i32,
    pub source_config_json: Seq<char>,
    pub sink_config_json: Seq<char>,
    pub parallelism: i32,
    pub config: Pairs,
}

impl View for TaskDescriptor {
    type V = DescriptorV;

    open spec fn view(&self) -> DescriptorV {
        DescriptorV {
            task_id: self.task_id@,
            job_id: self.job_id@,
            stage_id: self.stage_id@,
            task_name: self.task_name@,
            task_index: self.task_index,
            source_config_json: self.source_config_json@,
            sink_config_json: self.sink_config_json@,
            parallelism: self.parallelism,
            config: self.config@,
        }
    }
}

impl Named for DescriptorV {
    open spec fn name(self) -> Seq<char> {
        self.task_id
    }
}

impl Keyed for TaskDescriptor {
    fn is_named(&self, name: &str) -> (r: bool) {
        text::same(self.task_id.as_str(), name)
    }
}

impl TaskDescriptor {
    /// A copy.
    pub fn copy(&self) -> (r: Self)
        ensures
            r@ == self@,
    {
        TaskDescriptor {
            task_id: self.task_id.clone(),
            job_id: self.job_id.clone(),
            stage_id: self.stage_id.clone(),
            task_name: self.task_name.clone(),
            task_index: self.task_index,
            source_config_json: self.source_config_json.clone(),
            sink_config_json: self.sink_config_json.clone(),
            parallelism: self.parallelism,
            config: self.config.copy(),
        }
    }
}

// ---------------------------------------------------------------------------
// Jobs
// ---------------------------------------------------------------------------

/// A job with its full state.
#[derive(Debug)]
pub struct RunningJob {
    pub job_id: String,
    pub job_name: String,
    pub state: JobState,
    pub parallelism: usize,
    pub tasks: Vec<TaskInfo>,
    pub start_time: i64,
    pub end_time: Option<i64>,
    pub error_message: Option<String>,
    pub checkpoint_interval_ms: u64,
    pub checkpoints_completed: u64,
    /// The id that the next coordinated checkpoint gets. It travels with the
    /// snapshots, so that a failover never hands out an id again.
    pub next_checkpoint_id: u64,
    /// When the last coordinated checkpoint was triggered, in epoch
    /// milliseconds; it does not travel.
    pub last_checkpoint_trigger_ms: i64,
    /// The configuration as JSON text, from which the job can be restarted; empty
    /// when it was not retained.
    pub raw_config: String,
}

/// The mathematical value of a job.
#[verifier::ext_equal]
pub struct JobV {
    pub job_id: Seq<char>,
    pub job_name: Seq<char>,
    pub state: StateV,
    pub parallelism: usize,
    pub tasks: Seq<TaskV>,
    pub start_time: i64,
    pub end_time: Option<i64>,
    pub error_message: Option<Seq<char>>,
    pub checkpoint_interval_ms: u64,
    pub checkpoints_completed: u64,
    pub next_checkpoint_id: u64,
    pub last_checkpoint_trigger_ms: i64,
    pub raw_config: Seq<char>,
}

impl View for RunningJob {
    type V = JobV;

    open spec fn view(&self) -> JobV {
        JobV {
            job_id: self.job_id@,
            job_name: self.job_name@,
            state: self.state@,
            parallelism: self.parallelism,
            tasks: keyed::values(self.tasks@),
            start_time: self.start_time,
            end_time: self.end_time,
            error_message: opt_view(self.error_message),
            checkpoint_interval_ms: self.checkpoint_interval_ms,
            checkpoints_completed: self.checkpoints_completed,
            next_checkpoint_id: self.next_checkpoint_id,
            last_checkpoint_trigger_ms: self.last_checkpoint_trigger_ms,
            raw_config: self.raw_config@,
        }
    }
}

impl Named for JobV {
    open spec fn name(self) -> Seq<char> {
        self.job_id
    }
}

impl Keyed for RunningJob {
    fn is_named(&self, name: &str) -> (r: bool) {
        text::same(self.job_id.as_str(), name)
    }
}

/// Copies of a list of tasks.
pub fn copy_tasks(v: &Vec<TaskInfo>) -> (r: Vec<TaskInfo>)
    ensures
        keyed::values(r@) == keyed::values(v@),
{
    let mut out: Vec<TaskInfo> = Vec::new();
    let mut i: usize = 0;
    while i < v.len()
        invariant
            i <= v@.len(),
            out@.len() == i,
            forall|k: int| 0 <= k < i ==> #[trigger] out@[k]@ == v@[k]@,
        decreases v@.len() - i,
    {
        let d = v[i].copy();
        out.push(d);
        i += 1;
    }
    assert(keyed::values(out@) =~= keyed::values(v@));
    out
}

impl RunningJob {
    /// The task called `task_id`.
    pub fn task(&self, task_id: &str) -> (r: Option<&TaskInfo>)
        ensures
            match r {
                Some(t) => keyed::named(self@.tasks, task_id@) == Some(t@),
                None => keyed::named(self@.tasks, task_id@) is None,
            },
    {
        match keyed::find(&self.tasks, task_id) {
            Some(i) => {
                assert(keyed::values(self.tasks@)[i as int] == self.tasks@[i as int]@);
                Some(&self.tasks[i])
            },
            None => None,
        }
    }

    /// A copy.
    pub fn copy(&self) -> (r: Self)
        ensures
            r@ == self@,
    {
        RunningJob {
            job_id: self.job_id.clone(),
            job_name: self.job_name.clone(),
            state: self.state.copy(),
            parallelism: self.parallelism,
            tasks: copy_tasks(&self.tasks),
            start_time: self.start_time,
            end_time: self.end_time,
            error_message: opt_copy(&self.error_message),
            checkpoint_interval_ms: self.checkpoint_interval_ms,
            checkpoints_completed: self.checkpoints_completed,
            next_checkpoint_id: self.next_checkpoint_id,
            last_checkpoint_trigger_ms: self.last_checkpoint_trigger_ms,
            raw_config: self.raw_config.clone(),
        }
    }
}

} // verus!
