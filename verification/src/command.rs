//! The durable changes of the coordinator's state, as values. A single master
//! applies them at once; a cluster agrees on their order first, so that every
//! member comes to the same state.

use vstd::prelude::*;

use crate::checkpoint_coordination::{drop_notices, of_others, stage_resolved, stage_triggered, Outcome};
use crate::dispatch::{dispatch_all, evicted_job, register_all};
use crate::job::{opt_copy, opt_view, DescriptorV, JobV, RunningJob, StateV, TaskDescriptor};
use crate::job_coordinator::{CoordinatorV, JobCoordinator};
use crate::keyed::{index_of, put, put_all, values};
use crate::props;
use crate::recovery::released_job;
use crate::task_reports::reported_job;
use crate::text;

verus! {

/// A durable change of the coordinator's state.
#[derive(Debug)]
pub enum Command {
    /// Registers a planned job.
    SubmitJob { job: RunningJob, descriptors: Vec<TaskDescriptor> },
    /// Cancels a job.
    CancelJob { job_id: String, at_ms: i64 },
    /// A worker's report of a task.
    TaskStatus {
        job_id: String,
        task_id: String,
        worker_id: String,
        state: String,
        records: u64,
        error: Option<String>,
    },
    /// A returning worker still runs these tasks of its own.
    AdoptTasks { worker_id: String, task_ids: Vec<String> },
    /// A worker does not run these tasks any more.
    ReleaseLostTasks { worker_id: String, task_ids: Vec<String> },
    /// These tasks are handed to a worker.
    MarkDispatched { task_ids: Vec<String>, worker_id: String },
    /// A worker is gone.
    EvictWorker { worker_id: String },
    /// A checkpoint of a pipeline begins.
    CheckpointTriggered { job_id: String, stage_id: String, at_ms: i64 },
    /// A checkpoint of a pipeline has ended; the tasks that took part are told, each
    /// by its worker.
    CheckpointResolved {
        job_id: String,
        stage_id: String,
        checkpoint_id: u64,
        completed: bool,
        participants: Vec<(String, String)>,
    },
}

/// The mathematical value of a command.
#[verifier::ext_equal]
pub enum CommandV {
    SubmitJob(JobV, Seq<DescriptorV>),
    CancelJob(Seq<char>, i64),
    TaskStatus { job_id: Seq<char>, task_id: Seq<char>, worker_id: Seq<char>, state: Seq<char>, records: u64, error: Option<Seq<char>> },
    AdoptTasks(Seq<char>, Seq<Seq<char>>),
    ReleaseLostTasks(Seq<char>, Seq<Seq<char>>),
    MarkDispatched(Seq<Seq<char>>, Seq<char>),
    EvictWorker(Seq<char>),
    CheckpointTriggered(Seq<char>, Seq<char>, i64),
    CheckpointResolved(Seq<char>, u64, Outcome),
}

impl View for Command {
    type V = CommandV;

    open spec fn view(&self) -> CommandV {
        match self {
            Command::SubmitJob { job, descriptors } => CommandV::SubmitJob(job@, values(descriptors@)),
            Command::CancelJob { job_id, at_ms } => CommandV::CancelJob(job_id@, *at_ms),
            Command::TaskStatus { job_id, task_id, worker_id, state, records, error } => CommandV::TaskStatus {
                job_id: job_id@,
                task_id: task_id@,
                worker_id: worker_id@,
                state: state@,
                records: *records,
                error: opt_view(*error),
            },
            Command::AdoptTasks { worker_id, task_ids } => CommandV::AdoptTasks(worker_id@, text::views(task_ids@)),
            Command::ReleaseLostTasks { worker_id, task_ids } => CommandV::ReleaseLostTasks(
                worker_id@,
                text::views(task_ids@),
            ),
            Command::MarkDispatched { task_ids, worker_id } => CommandV::MarkDispatched(
                text::views(task_ids@),
                worker_id@,
            ),
            Command::EvictWorker { worker_id } => CommandV::EvictWorker(worker_id@),
            Command::CheckpointTriggered { job_id, stage_id, at_ms } => CommandV::CheckpointTriggered(
                job_id@,
                stage_id@,
                *at_ms,
            ),
            Command::CheckpointResolved { job_id, stage_id, checkpoint_id, completed, participants } =>
                CommandV::CheckpointResolved(
                    job_id@,
                    *checkpoint_id,
                    (stage_id@, *completed, props::pairs_view(participants@)),
                ),
        }
    }
}

/// What applying a command gives.
#[derive(Debug, Clone, Copy, PartialEq, Eq, Structural)]
pub enum CommandResult {
    Done,
}

/// The coordinator after the cancellation of a job.
pub open spec fn cancelled(c: CoordinatorV, job_id: Seq<char>, at: i64) -> CoordinatorV {
    match index_of(c.jobs, job_id) {
        Some(i) => if c.jobs[i].state.terminal() {
            c
        } else {
            CoordinatorV {
                jobs: c.jobs.update(i, JobV { state: StateV::Cancelled, end_time: Some(at), ..c.jobs[i] }),
                pending: of_others(c.pending, job_id),
                outbox: c.outbox + drop_notices(c.pending, job_id),
                ..c
            }
        },
        None => c,
    }
}

/// The coordinator after a command.
pub open spec fn applied(c: CoordinatorV, cmd: CommandV, now: i64) -> CoordinatorV {
    match cmd {
        CommandV::SubmitJob(job, tasks) => CoordinatorV {
            jobs: put(c.jobs, job),
            tasks: put_all(c.tasks, tasks),
            ..c
        },
        CommandV::CancelJob(id, at) => cancelled(c, id, at),
        CommandV::TaskStatus { job_id, task_id, worker_id, state, records, error } => match index_of(c.jobs, job_id) {
            Some(i) => CoordinatorV {
                jobs: c.jobs.update(
                    i,
                    reported_job(c.jobs[i], task_id, crate::job::state_of_wire(state), records, error, now),
                ),
                ..c
            },
            None => c,
        },
        CommandV::AdoptTasks(worker, ids) => CoordinatorV {
            jobs: register_all((c.jobs, Seq::empty()), c.tasks, worker, ids).0,
            ..c
        },
        CommandV::ReleaseLostTasks(worker, ids) => CoordinatorV {
            jobs: c.jobs.map_values(|j: JobV| released_job(j, worker, ids)),
            ..c
        },
        CommandV::MarkDispatched(ids, worker) => CoordinatorV { jobs: dispatch_all(c.jobs, worker, ids), ..c },
        CommandV::EvictWorker(worker) => CoordinatorV {
            jobs: c.jobs.map_values(|j: JobV| evicted_job(j, worker)),
            ..c
        },
        CommandV::CheckpointTriggered(job, stage, at) => stage_triggered(c, job, stage, at),
        CommandV::CheckpointResolved(job, id, end) => stage_resolved(c, job, id, end),
    }
}

/// The coordinator after some commands, one after the other.
pub open spec fn applied_all(c: CoordinatorV, cmds: Seq<CommandV>, now: i64) -> CoordinatorV
    decreases cmds.len(),
{
    if cmds.len() == 0 {
        c
    } else {
        applied(applied_all(c, cmds.drop_last(), now), cmds.last(), now)
    }
}

impl JobCoordinator {
    /// Applies a command; `now` is the time that a job's end is noted with.
    pub fn apply_command(&mut self, cmd: &Command, now: i64) -> (r: CommandResult)
        ensures
            r == CommandResult::Done,
            final(self)@ == applied(old(self)@, cmd@, now),
            final(self).checkpoint_store == old(self).checkpoint_store,
    {
        match cmd {
            Command::SubmitJob { job, descriptors } => {
                let j = job.copy();
                self.install_job(j, descriptors);
            },
            Command::CancelJob { job_id, at_ms } => {
                let _ = self.cancel_job(job_id.as_str(), *at_ms);
            },
            Command::TaskStatus { job_id, task_id, worker_id: _, state, records, error } => {
                let e = opt_copy(error);
                self.report_task_status(job_id.as_str(), task_id.as_str(), state.as_str(), *records, e, now);
            },
            Command::AdoptTasks { worker_id, task_ids } => {
                let _ = self.register_running_tasks(worker_id.as_str(), task_ids);
            },
            Command::ReleaseLostTasks { worker_id, task_ids } => {
                self.release_lost_tasks(worker_id.as_str(), task_ids);
                assert(self@.jobs =~= applied(old(self)@, cmd@, now).jobs);
            },
            Command::MarkDispatched { task_ids, worker_id } => {
                self.mark_tasks_dispatched(task_ids, worker_id.as_str());
            },
            Command::EvictWorker { worker_id } => {
                let _ = self.evict_worker(worker_id.as_str());
                assert(self@.jobs =~= applied(old(self)@, cmd@, now).jobs);
            },
            Command::CheckpointTriggered { job_id, stage_id, at_ms } => {
                self.trigger_checkpoint_stage(job_id.as_str(), stage_id.as_str(), *at_ms);
            },
            Command::CheckpointResolved { job_id, stage_id, checkpoint_id, completed, participants } => {
                self.resolve_checkpoint_stage(
                    job_id.as_str(),
                    stage_id.as_str(),
                    *checkpoint_id,
                    *completed,
                    participants,
                );
            },
        }
        CommandResult::Done
    }

    /// Applies some commands, one after the other.
    pub fn apply_commands(&mut self, cmds: &Vec<Command>, now: i64)
        ensures
            final(self)@ == applied_all(old(self)@, values(cmds@), now),
            final(self).checkpoint_store == old(self).checkpoint_store,
    {
        let ghost c = self@;
        let ghost cv = values(cmds@);
        let mut i: usize = 0;
        assert(cv.take(0) =~= Seq::empty());
        while i < cmds.len()
            invariant
                i <= cmds@.len(),
                cv == values(cmds@),
                self.checkpoint_store == old(self).checkpoint_store,
                self@ == applied_all(c, cv.take(i as int), now),
            decreases cmds@.len() - i,
        {
            proof {
                assert(cv.take(i + 1).drop_last() =~= cv.take(i as int));
                assert(cv.take(i + 1).last() == cmds@[i as int]@);
            }
            let _ = self.apply_command(&cmds[i], now);
            i += 1;
        }
        assert(cv.take(cv.len() as int) =~= cv);
    }
}

/// Members that apply the same commands to the same state come to the same state,
/// also when one of them starts from where another one had got to.
pub proof fn law_replay(c: CoordinatorV, first: Seq<CommandV>, second: Seq<CommandV>, now: i64)
    ensures
        applied_all(applied_all(c, first, now), second, now) == applied_all(c, first + second, now),
    decreases second.len(),
{
    if second.len() == 0 {
        assert(first + second =~= first);
    } else {
        law_replay(c, first, second.drop_last(), now);
        assert((first + second).drop_last() =~= first + second.drop_last());
    }
}

} // verus!
