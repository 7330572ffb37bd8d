//! The requests of clients: submitting, cancelling and restarting jobs, and
//! looking at jobs, logs, checkpoints and the cluster.

use vstd::prelude::*;

use crate::command::{Command, CommandV};
use crate::job::{JobV, RunningJob, TaskInfo};
use crate::job_config::plan_message;
use crate::job_coordinator::{compiled, planned_job, JobCoordinator};
use crate::json;
use crate::json::{Json, JsonV};
use crate::keyed::{named, values};
use crate::master::{MasterInfo, WorkerRegistry};
use crate::placement::{placement, placement_order};
use crate::props::Pairs;
use crate::text;

verus! {

/// Seconds that a restart waits for the job to come to its end.
pub const RESTART_CANCEL_TIMEOUT_SECS: u64 = 60;

/// Milliseconds that a restart waits once the job has come to its end, for
/// reports that are still under way.
pub const RESTART_SETTLE_MS: u64 = 2_000;

/// Milliseconds between two looks at a job that is to come to its end.
pub const RESTART_POLL_MS: u64 = 250;

// ---------------------------------------------------------------------------
// Errors
// ---------------------------------------------------------------------------

/// Why a request is refused.
#[derive(Debug)]
pub enum ClientError {
    /// The job's configuration is no JSON.
    InvalidConfig(serde_json::Error),
    /// The retained configuration of a job is no JSON.
    UnreadableConfig(serde_json::Error),
    /// The request cannot be met as things stand.
    FailedPrecondition(String),
    /// There is no such job.
    NotFound(String),
}

/// The mathematical value of a refusal.
pub enum ClientErrorV {
    InvalidConfig,
    UnreadableConfig,
    FailedPrecondition(Seq<char>),
    NotFound(Seq<char>),
}

impl View for ClientError {
    type V = ClientErrorV;

    open spec fn view(&self) -> ClientErrorV {
        match self {
            ClientError::InvalidConfig(_) => ClientErrorV::InvalidConfig,
            ClientError::UnreadableConfig(_) => ClientErrorV::UnreadableConfig,
            ClientError::FailedPrecondition(m) => ClientErrorV::FailedPrecondition(m@),
            ClientError::NotFound(m) => ClientErrorV::NotFound(m@),
        }
    }
}

/// What a master that does not lead answers. Clients read the address behind
/// `retry at ` and go there.
pub open spec fn not_leader(hint: Seq<char>) -> ClientErrorV {
    ClientErrorV::FailedPrecondition(
        "not the leader; retry at "@ + if hint.len() == 0 { "another master"@ } else { hint },
    )
}

/// What is answered for an unknown job.
pub open spec fn job_not_found(job_id: Seq<char>) -> ClientErrorV {
    ClientErrorV::NotFound("Job "@ + job_id + " not found"@)
}

// ---------------------------------------------------------------------------
// The handler
// ---------------------------------------------------------------------------

/// Where the requests of clients are answered: the coordinator, the registry and
/// the standing of the master that they came to.
#[derive(Debug)]
pub struct ClientHandler<'a> {
    pub coordinator: &'a JobCoordinator,
    pub workers: &'a WorkerRegistry,
    pub info: &'a MasterInfo,
    /// Whether the master leads.
    pub leads: bool,
    /// The leader's address, where another master is known to lead.
    pub hint: &'a str,
}

impl<'a> ClientHandler<'a> {
    /// The requests that come to a master with this standing.
    pub fn new(
        coordinator: &'a JobCoordinator,
        workers: &'a WorkerRegistry,
        info: &'a MasterInfo,
        leads: bool,
        hint: &'a str,
    ) -> (r: Self)
        ensures
            r == (ClientHandler { coordinator, workers, info, leads, hint }),
    {
        ClientHandler { coordinator, workers, info, leads, hint }
    }

    /// The requests that come to a single master, which always leads.
    pub fn new_direct(coordinator: &'a JobCoordinator, workers: &'a WorkerRegistry, info: &'a MasterInfo) -> (r: Self)
        ensures
            r == (ClientHandler { coordinator, workers, info, leads: true, hint: "" }),
    {
        ClientHandler { coordinator, workers, info, leads: true, hint: "" }
    }

    /// The coordinator.
    pub fn coordinator(&self) -> (r: &JobCoordinator)
        ensures
            r == self.coordinator,
    {
        self.coordinator
    }

    /// Lets a request pass at the leader only.
    pub fn require_leader(&self) -> (r: Result<(), ClientError>)
        ensures
            match r {
                Ok(_) => self.leads,
                Err(e) => !self.leads && e@ == not_leader(self.hint@),
            },
    {
        if self.leads {
            Ok(())
        } else if self.hint.is_empty() {
            Err(ClientError::FailedPrecondition(text::join2("not the leader; retry at ", "another master")))
        } else {
            Err(ClientError::FailedPrecondition(text::join2("not the leader; retry at ", self.hint)))
        }
    }
}

/// What is answered when the cluster did not take a change.
pub fn write_failed(reason: &str) -> (r: ClientError)
    ensures
        r@ == ClientErrorV::FailedPrecondition("consensus write: "@ + reason@),
{
    ClientError::FailedPrecondition(text::join2("consensus write: ", reason))
}

// ---------------------------------------------------------------------------
// Submitting
// ---------------------------------------------------------------------------

/// A job to run.
#[derive(Debug)]
pub struct SubmitJobRequest {
    pub job_id: String,
    pub job_name: String,
    pub job_config: Vec<u8>,
    /// Overrides the configured parallelism when it is positive.
    pub parallelism: i32,
}

/// What a client is told of a submitted job.
#[derive(Debug)]
pub struct SubmitJobResponse {
    pub success: bool,
    pub job_id: String,
    pub message: String,
}

/// A job that was planned: the change to be taken, and the answer once it is.
#[derive(Debug)]
pub struct Submission {
    pub command: Command,
    pub response: SubmitJobResponse,
}

/// The name of a job: what the client chose, else one made of the id.
pub open spec fn job_name_of(job_id: Seq<char>, job_name: Seq<char>) -> Seq<char> {
    if job_name.len() == 0 { "job-"@ + job_id } else { job_name }
}

/// The parallelism that a client asked for.
pub open spec fn asked_parallelism(parallelism: i32) -> Option<usize> {
    if parallelism > 0 { Some(parallelism as usize) } else { None }
}

/// Whether `r` is the outcome of planning a job on some workers; `verb` and `tail`
/// are part of the answer. The job retains its configuration as text, from which it
/// is read again.
pub open spec fn is_submission(
    r: Result<Submission, ClientError>,
    job_id: Seq<char>,
    job_name: Seq<char>,
    config: JsonV,
    asked: Option<usize>,
    workers: Pairs,
    now: i64,
    verb: Seq<char>,
    tail: Seq<char>,
) -> bool {
    match (r, compiled(job_id, job_name, config, asked, workers)) {
        (Ok(s), Ok(tasks)) => {
            &&& s.command@ == CommandV::SubmitJob(planned_job(job_id, job_name, config, asked, tasks, now), tasks)
            &&& s.response.success
            &&& s.response.job_id@ == job_id
            &&& s.response.message@ == "job '"@ + job_name + verb + text::decimal_text(tasks.len()) + tail
            &&& json::json_text(config).len() > 0
            &&& json::readable(config) ==> json::parsed_text(json::json_text(config)) == Some(config)
        },
        (Err(e), Err(ev)) => e@ == ClientErrorV::FailedPrecondition(plan_message(ev, job_name)),
        _ => false,
    }
}

/// Plans a job on the registered workers, the least loaded first.
fn plan_submission(
    job_id: &str,
    job_name: &str,
    config: &Json,
    asked: Option<usize>,
    workers: &WorkerRegistry,
    now: i64,
    verb: &str,
    tail: &str,
) -> (r: Result<Submission, ClientError>)
    ensures
        is_submission(
            r,
            job_id@,
            job_name@,
            config@,
            asked,
            placement(workers@),
            now,
            verb@,
            tail@,
        ),
{
    let nodes = placement_order(workers);
    match JobCoordinator::plan_job(job_id, job_name, config, asked, nodes.as_slice(), now) {
        Ok(planned) => {
            let count: u64 = planned.1.len() as u64;
            let head = text::join3("job '", job_name, verb);
            let number = text::decimal(count);
            let message = text::join3(head.as_str(), number.as_str(), tail);
            Ok(
                Submission {
                    command: Command::SubmitJob { job: planned.0, descriptors: planned.1 },
                    response: SubmitJobResponse { success: true, job_id: text::owned(job_id), message },
                },
            )
        },
        Err(e) => Err(ClientError::FailedPrecondition(e.message(job_name))),
    }
}

impl<'a> ClientHandler<'a> {
    /// Plans a job whose configuration was read.
    pub fn submit_config(&self, req: &SubmitJobRequest, config: &Json, now: i64) -> (r: Result<Submission, ClientError>)
        ensures
            if self.leads {
                is_submission(
                    r,
                    req.job_id@,
                    job_name_of(req.job_id@, req.job_name@),
                    config@,
                    asked_parallelism(req.parallelism),
                    placement(self.workers@),
                    now,
                    "' scheduled with "@,
                    " task(s)"@,
                )
            } else {
                r is Err && r->Err_0@ == not_leader(self.hint@)
            },
    {
        match self.require_leader() {
            Ok(_) => {},
            Err(e) => {
                return Err(e);
            },
        }
        let job_name = if req.job_name.as_str().is_empty() {
            text::join2("job-", req.job_id.as_str())
        } else {
            req.job_name.clone()
        };
        let asked: Option<usize> = if req.parallelism > 0 { Some(req.parallelism as usize) } else { None };
        plan_submission(
            req.job_id.as_str(),
            job_name.as_str(),
            config,
            asked,
            self.workers,
            now,
            "' scheduled with ",
            " task(s)",
        )
    }

    /// Plans a job that a client submits. A configuration that is no JSON is refused;
    /// then a master that does not lead refuses, too.
    pub fn submit_job(&self, req: &SubmitJobRequest, now: i64) -> (r: Result<Submission, ClientError>)
        ensures
            match json::parsed_json(req.job_config@) {
                None => r is Err && r->Err_0@ == ClientErrorV::InvalidConfig,
                Some(config) => if self.leads {
                    is_submission(
                        r,
                        req.job_id@,
                        job_name_of(req.job_id@, req.job_name@),
                        config,
                        asked_parallelism(req.parallelism),
                        placement(self.workers@),
                        now,
                        "' scheduled with "@,
                        " task(s)"@,
                    )
                } else {
                    r is Err && r->Err_0@ == not_leader(self.hint@)
                },
            },
    {
        match json::read_json(req.job_config.as_slice()) {
            Ok(config) => self.submit_config(req, &config, now),
            Err(e) => Err(ClientError::InvalidConfig(e)),
        }
    }

    /// The change that cancels a job. A job that is unknown or over is refused.
    pub fn cancel_job(&self, job_id: &str, now: i64) -> (r: Result<Command, ClientError>)
        ensures
            match r {
                Ok(c) => self.leads && c@ == CommandV::CancelJob(job_id@, now) && named(self.coordinator@.jobs, job_id@) is Some
                    && !(named(self.coordinator@.jobs, job_id@)->0).state.terminal(),
                Err(e) => if self.leads {
                    &&& match named(self.coordinator@.jobs, job_id@) {
                        Some(j) => j.state.terminal(),
                        None => true,
                    }
                    &&& e@ == ClientErrorV::NotFound("job "@ + job_id@ + " not found or already terminal"@)
                } else {
                    e@ == not_leader(self.hint@)
                },
            },
    {
        match self.require_leader() {
            Ok(_) => {},
            Err(e) => {
                return Err(e);
            },
        }
        let running: bool = match self.coordinator.get_job(job_id) {
            Some(j) => !j.state.is_terminal(),
            None => false,
        };
        if running {
            Ok(Command::CancelJob { job_id: text::owned(job_id), at_ms: now })
        } else {
            Err(ClientError::NotFound(text::join3("job ", job_id, " not found or already terminal")))
        }
    }
}

// ---------------------------------------------------------------------------
// Restarting
// ---------------------------------------------------------------------------

/// A restart under way.
#[derive(Debug)]
pub struct Restart {
    pub job_id: String,
    pub job_name: String,
    pub config: Json,
    /// The change that cancels the job first, unless it is over.
    pub cancel: Option<Command>,
}

/// Whether a job has come to its end: it is over, and none of its tasks is with a
/// worker. A job that is gone has.
pub open spec fn is_settled(j: Option<JobV>) -> bool {
    match j {
        Some(j) => j.state.terminal() && forall|i: int|
            0 <= i < j.tasks.len() ==> !(#[trigger] j.tasks[i]).state.active(),
        None => true,
    }
}

/// What a restart does next, after it has waited for a job to come to its end.
#[derive(Debug)]
pub enum RestartStep {
    /// The job has come to its end: wait this long, and submit it again.
    Resubmit(u64),
    /// Look again after this long.
    Wait(u64),
    /// Give up without submitting the job again.
    Abort(ClientError),
}

/// Whether `r` is how the restart of a job begins.
pub open spec fn is_restart(
    r: Result<Restart, ClientError>,
    job: Option<JobV>,
    job_id: Seq<char>,
    leads: bool,
    hint: Seq<char>,
    now: i64,
) -> bool {
    if !leads {
        r is Err && r->Err_0@ == not_leader(hint)
    } else {
        match job {
            None => r is Err && r->Err_0@ == ClientErrorV::NotFound("job "@ + job_id + " not found"@),
            Some(j) => if j.raw_config.len() == 0 {
                r is Err && r->Err_0@ == ClientErrorV::FailedPrecondition(
                    "job "@ + job_id + " has no retained config to restart from"@,
                )
            } else {
                match json::parsed_text(j.raw_config) {
                    None => r is Err && r->Err_0@ == ClientErrorV::UnreadableConfig,
                    Some(c) => {
                        &&& r is Ok
                        &&& r->Ok_0.job_id@ == job_id
                        &&& r->Ok_0.job_name@ == j.job_name
                        &&& r->Ok_0.config@ == c
                        &&& match r->Ok_0.cancel {
                            Some(cmd) => !j.state.terminal() && cmd@ == CommandV::CancelJob(job_id, now),
                            None => j.state.terminal(),
                        }
                    },
                }
            },
        }
    }
}

impl<'a> ClientHandler<'a> {
    /// Begins the restart of a job from the configuration that was retained of it. A
    /// job that is not over is cancelled first; that takes its last checkpoint. A job
    /// without a readable configuration is refused.
    pub fn begin_restart(&self, job_id: &str, now: i64) -> (r: Result<Restart, ClientError>)
        ensures
            is_restart(r, named(self.coordinator@.jobs, job_id@), job_id@, self.leads, self.hint@, now),
    {
        match self.require_leader() {
            Ok(_) => {},
            Err(e) => {
                return Err(e);
            },
        }
        let job = match self.coordinator.get_job(job_id) {
            Some(j) => j,
            None => {
                return Err(ClientError::NotFound(text::join3("job ", job_id, " not found")));
            },
        };
        if job.raw_config.as_str().is_empty() {
            return Err(
                ClientError::FailedPrecondition(text::join3("job ", job_id, " has no retained config to restart from")),
            );
        }
        match json::read_json(job.raw_config.as_str().as_bytes()) {
            Ok(config) => Ok(restart_with(&job, job_id, config, now)),
            Err(e) => Err(ClientError::UnreadableConfig(e)),
        }
    }
}

/// The restart of a job whose retained configuration was read.
pub fn restart_with(job: &RunningJob, job_id: &str, config: Json, now: i64) -> (r: Restart)
    ensures
        r.job_id@ == job_id@,
        r.job_name@ == job@.job_name,
        r.config@ == config@,
        match r.cancel {
            Some(cmd) => !job@.state.terminal() && cmd@ == CommandV::CancelJob(job_id@, now),
            None => job@.state.terminal(),
        },
{
    let cancel = if job.state.is_terminal() {
        None
    } else {
        Some(Command::CancelJob { job_id: text::owned(job_id), at_ms: now })
    };
    Restart { job_id: text::owned(job_id), job_name: job.job_name.clone(), config, cancel }
}

fn tasks_at_rest(tasks: &Vec<TaskInfo>) -> (r: bool)
    ensures
        r == (forall|i: int| 0 <= i < tasks@.len() ==> !(#[trigger] values(tasks@)[i]).state.active()),
{
    let mut i: usize = 0;
    while i < tasks.len()
        invariant
            i <= tasks@.len(),
            forall|k: int| 0 <= k < i ==> !(#[trigger] values(tasks@)[k]).state.active(),
        decreases tasks@.len() - i,
    {
        assert(values(tasks@)[i as int] == tasks@[i as int]@);
        if tasks[i].state.is_active() {
            return false;
        }
        i += 1;
    }
    true
}

impl<'a> ClientHandler<'a> {
    /// What a restart does after it has waited `waited_ms` for a job to come to its
    /// end.
    pub fn await_restart(&self, job_id: &str, waited_ms: u64) -> (r: RestartStep)
        ensures
            match r {
                RestartStep::Resubmit(ms) => is_settled(named(self.coordinator@.jobs, job_id@)) && ms == RESTART_SETTLE_MS,
                RestartStep::Wait(ms) => !is_settled(named(self.coordinator@.jobs, job_id@)) && waited_ms < 60_000 && ms
                    == RESTART_POLL_MS,
                RestartStep::Abort(e) => {
                    &&& !is_settled(named(self.coordinator@.jobs, job_id@))
                    &&& waited_ms >= 60_000
                    &&& e@ == ClientErrorV::FailedPrecondition(
                        "job "@ + job_id@
                            + " did not cancel within 60s; restart ABORTED without resubmitting (the old incarnation may still be consuming; inspect it with job status and retry)"@,
                    )
                },
            },
    {
        let settled: bool = match self.coordinator.get_job(job_id) {
            Some(j) => j.state.is_terminal() && tasks_at_rest(&j.tasks),
            None => true,
        };
        if settled {
            RestartStep::Resubmit(RESTART_SETTLE_MS)
        } else if waited_ms >= RESTART_CANCEL_TIMEOUT_SECS * 1_000 {
            RestartStep::Abort(
                ClientError::FailedPrecondition(
                    text::join3(
                        "job ",
                        job_id,
                        " did not cancel within 60s; restart ABORTED without resubmitting (the old incarnation may still be consuming; inspect it with job status and retry)",
                    ),
                ),
            )
        } else {
            RestartStep::Wait(RESTART_POLL_MS)
        }
    }

    /// Plans a job anew under its id, so that its tasks restore from their newest
    /// checkpoints.
    pub fn finish_restart(&self, restart: &Restart, now: i64) -> (r: Result<Submission, ClientError>)
        ensures
            is_submission(
                r,
                restart.job_id@,
                restart.job_name@,
                restart.config@,
                None,
                placement(self.workers@),
                now,
                "' restarted with "@,
                " task(s); workers restore from the latest checkpoint"@,
            ),
    {
        plan_submission(
            restart.job_id.as_str(),
            restart.job_name.as_str(),
            &restart.config,
            None,
            self.workers,
            now,
            "' restarted with ",
            " task(s); workers restore from the latest checkpoint",
        )
    }
}

/// A restart takes up the configuration that the job was submitted with: a job that
/// was planned from a configuration is restarted from the same, where that is read
/// back as it was written.
pub proof fn law_restart_keeps_the_configuration(
    submitted: Submission,
    job_id: Seq<char>,
    job_name: Seq<char>,
    config: JsonV,
    asked: Option<usize>,
    workers: Pairs,
    submitted_at: i64,
    verb: Seq<char>,
    tail: Seq<char>,
    job: JobV,
    restart: Result<Restart, ClientError>,
    now: i64,
)
    requires
        is_submission(Ok(submitted), job_id, job_name, config, asked, workers, submitted_at, verb, tail),
        json::readable(config),
        submitted.command@ matches CommandV::SubmitJob(planned, _) && job.raw_config == planned.raw_config
            && job.job_name == planned.job_name,
        is_restart(restart, Some(job), job_id, true, Seq::empty(), now),
    ensures
        restart is Ok,
        restart->Ok_0.job_id@ == job_id,
        restart->Ok_0.job_name@ == job_name,
        restart->Ok_0.config@ == config,
{
}

} // verus!
