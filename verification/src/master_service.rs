//! The master's requests besides the heartbeat: registration, status reports and
//! checkpoints of workers.

use vstd::prelude::*;

use crate::checkpoint_coordination::{following, prepare_noted};
use crate::checkpoint_store;
use crate::command::{Command, CommandV};
use crate::heartbeat::reattaching;
use crate::job_coordinator::CoordinatorV;
use crate::keyed::{index_of, named, put};
use crate::master::{fresh_entry, pairs_without, MasterHandler, MasterV, WorkerEntry};
use crate::text;

verus! {

/// A worker that registers.
#[derive(Debug)]
pub struct WorkerRegistration {
    pub worker_id: String,
    pub address: String,
    pub running_task_ids: Vec<String>,
}

/// The answer to a registration.
#[derive(Debug)]
pub struct WorkerRegistrationResponse {
    pub success: bool,
    pub message: String,
    pub leader_address: String,
    pub term: u64,
}

/// Where workers are to send their heartbeats: to this master when it leads or
/// when no leader is known, else to the leader.
pub open spec fn leader_address_of(leads: bool, hint: Seq<char>, advertise: Seq<char>) -> Seq<char> {
    if leads || hint.len() == 0 { advertise } else { hint }
}

/// Where workers are to send their heartbeats.
pub fn leader_address(leads: bool, hint: &str, advertise: &str) -> (r: String)
    ensures
        r@ == leader_address_of(leads, hint@, advertise@),
{
    if leads || hint.is_empty() {
        text::owned(advertise)
    } else {
        text::owned(hint)
    }
}

/// The name of a task's state that a report's number stands for.
pub open spec fn status_text(code: i32) -> Seq<char> {
    if code == 0 || code == 1 {
        "CREATED"@
    } else if code == 2 {
        "RUNNING"@
    } else if code == 3 {
        "COMPLETED"@
    } else if code == 4 {
        "FAILED"@
    } else if code == 5 {
        "CANCELLED"@
    } else {
        "UNKNOWN"@
    }
}

/// The name of a task's state that a report's number stands for.
pub fn status_name(code: i32) -> (r: &'static str)
    ensures
        r@ == status_text(code),
{
    if code == 0 || code == 1 {
        "CREATED"
    } else if code == 2 {
        "RUNNING"
    } else if code == 3 {
        "COMPLETED"
    } else if code == 4 {
        "FAILED"
    } else if code == 5 {
        "CANCELLED"
    } else {
        "UNKNOWN"
    }
}

/// A worker's report of a task.
#[derive(Debug)]
pub struct TaskStatusReport {
    pub job_id: String,
    pub task_id: String,
    pub worker_id: String,
    pub state: i32,
    pub processed_records: i64,
    pub error_message: String,
}

/// The command that a report stands for. An empty error is none.
pub open spec fn status_command(r: TaskStatusReport) -> CommandV {
    CommandV::TaskStatus {
        job_id: r.job_id@,
        task_id: r.task_id@,
        worker_id: r.worker_id@,
        state: status_text(r.state),
        records: crate::heartbeat::at_least_zero(r.processed_records),
        error: if r.error_message@.len() == 0 { None } else { Some(r.error_message@) },
    }
}

/// The id of the last checkpoint that a task takes when it ends. It belongs to no
/// coordinated checkpoint.
pub const FINAL_CHECKPOINT_ID: u64 = 0xffff_ffff_ffff_ffff;

/// A worker's report of a checkpoint.
#[derive(Debug)]
pub struct CheckpointReport {
    pub job_id: String,
    pub task_id: String,
    pub checkpoint_id: i64,
    pub success: bool,
    /// Whether the report is the prepare of a coordinated checkpoint.
    pub prepare: bool,
    pub checkpoint_data: Vec<u8>,
}

/// The master's copy of a task's newest checkpoint.
#[derive(Debug)]
pub struct FetchCheckpointResponse {
    /// 0 when there is none.
    pub checkpoint_id: i64,
    pub checkpoint_data: Vec<u8>,
    /// The newest checkpoint that a heartbeat ever reported; 0 when there is none.
    pub latest_checkpoint_id: i64,
}

/// The state of a job in short.
#[derive(Debug)]
pub struct JobProbe {
    pub job_id: String,
    pub state: i32,
    pub job_name: String,
}

/// The coordinator after a report's bytes were stored. A failure and an empty
/// report leave nothing behind.
pub open spec fn stored(c: CoordinatorV, r: CheckpointReport) -> CoordinatorV {
    if r.success && r.checkpoint_data@.len() > 0 {
        CoordinatorV {
            store: checkpoint_store::store_saved(
                c.store,
                r.job_id@,
                r.task_id@,
                crate::heartbeat::at_least_zero(r.checkpoint_id),
                r.checkpoint_data@,
                c.keep,
            ),
            ..c
        }
    } else {
        c
    }
}

/// The coordinator after a checkpoint report, and the command that ends the
/// coordinated checkpoint that it decides.
pub open spec fn checkpoint_noted(c: CoordinatorV, r: CheckpointReport) -> (CoordinatorV, Option<CommandV>) {
    let s = stored(c, r);
    let id = crate::heartbeat::at_least_zero(r.checkpoint_id);
    if r.checkpoint_id == -1 {
        (s, None)
    } else if r.prepare {
        let n = prepare_noted(s, r.job_id@, r.task_id@, id, r.success);
        (
            n.0,
            match n.1 {
                Some(end) => Some(CommandV::CheckpointResolved(r.job_id@, id, end)),
                None => None,
            },
        )
    } else {
        match index_of(s.jobs, r.job_id@) {
            Some(i) => if r.success {
                let j = s.jobs[i];
                (
                    CoordinatorV {
                        jobs: s.jobs.update(
                            i,
                            crate::job::JobV { checkpoints_completed: following(j.checkpoints_completed), ..j },
                        ),
                        ..s
                    },
                    None,
                )
            } else {
                (s, None)
            },
            None => (s, None),
        }
    }
}

impl MasterHandler {
    /// Registers a worker, applying the changes in place: the tasks that it still
    /// runs are taken up again, and it enters the registry as it stands.
    pub fn register_worker(
        &mut self,
        reg: &WorkerRegistration,
        leads: bool,
        hint: &str,
        now: i64,
    ) -> (r: WorkerRegistrationResponse)
        ensures
            ({
                let a = reattaching(old(self)@, reg.worker_id@, text::views(reg.running_task_ids@), now);
                &&& final(self)@ == (MasterV {
                    workers: put(old(self)@.workers, fresh_entry(reg.worker_id@, reg.address@, now)),
                    ..a
                })
                &&& r.success
                &&& r.message@ == "registered"@
                &&& r.leader_address@ == leader_address_of(leads, hint@, old(self)@.advertise)
                &&& r.term == a.coordinator.term
            }),
    {
        let cmds = self.reattach_commands(reg.worker_id.as_str(), &reg.running_task_ids);
        self.apply_all(&cmds, now);
        self.enroll(reg, leads, hint, now)
    }

    /// Enters a worker in the registry, once its tasks were taken up again.
    pub fn enroll(
        &mut self,
        reg: &WorkerRegistration,
        leads: bool,
        hint: &str,
        now: i64,
    ) -> (r: WorkerRegistrationResponse)
        ensures
            final(self)@ == (MasterV {
                workers: put(old(self)@.workers, fresh_entry(reg.worker_id@, reg.address@, now)),
                ..old(self)@
            }),
            r.success,
            r.message@ == "registered"@,
            r.leader_address@ == leader_address_of(leads, hint@, old(self)@.advertise),
            r.term == old(self)@.coordinator.term,
    {
        let entry = WorkerEntry::new(reg.address.clone(), now);
        assert(crate::master::entry_as(reg.worker_id@, entry) == fresh_entry(reg.worker_id@, reg.address@, now));
        self.workers.insert(reg.worker_id.clone(), entry);
        WorkerRegistrationResponse {
            success: true,
            message: text::owned("registered"),
            leader_address: leader_address(leads, hint, self.info.advertise_addr.as_str()),
            term: self.coordinator.term(),
        }
    }

    /// Takes a worker's report of a task and returns the command that it stands
    /// for.
    pub fn report_task_status(&mut self, report: &TaskStatusReport) -> (r: Command)
        ensures
            r@ == status_command(*report),
            final(self)@ == (MasterV {
                assignments: pairs_without(old(self)@.assignments, report.task_id@),
                ..old(self)@
            }),
    {
        let _ = crate::master::take_pairs(&mut self.state.task_assignments, report.task_id.as_str());
        let records: u64 = if report.processed_records > 0 { report.processed_records as u64 } else { 0 };
        Command::TaskStatus {
            job_id: report.job_id.clone(),
            task_id: report.task_id.clone(),
            worker_id: report.worker_id.clone(),
            state: text::owned(status_name(report.state)),
            records,
            error: if report.error_message.as_str().is_empty() {
                None
            } else {
                Some(report.error_message.clone())
            },
        }
    }

    /// Takes a worker's report of a checkpoint. Uploaded bytes are stored. A
    /// prepare joins the coordinated checkpoint in flight; the command that ends it
    /// is returned when the prepare decides it. Another report is only counted. The
    /// final checkpoint of a task is stored and nothing else.
    pub fn report_checkpoint(&mut self, report: &CheckpointReport) -> (r: Option<Command>)
        ensures
            ({
                let n = checkpoint_noted(old(self)@.coordinator, *report);
                &&& final(self)@ == (MasterV { coordinator: n.0, ..old(self)@ })
                &&& match r {
                    Some(cmd) => n.1 == Some(cmd@),
                    None => n.1 is None,
                }
            }),
    {
        let id: u64 = if report.checkpoint_id > 0 { report.checkpoint_id as u64 } else { 0 };
        if report.success && report.checkpoint_data.len() > 0 {
            self.coordinator.checkpoint_store.save(
                report.job_id.as_str(),
                report.task_id.as_str(),
                id,
                report.checkpoint_data.as_slice(),
            );
        }
        let is_final: bool = report.checkpoint_id == -1;
        assert(is_final == ((report.checkpoint_id as u64) == FINAL_CHECKPOINT_ID)) by {
            let x = report.checkpoint_id;
            assert((x == -1i64) == ((x as u64) == 0xffff_ffff_ffff_ffffu64)) by (bit_vector);
        }
        if is_final {
            None
        } else if report.prepare {
            match self.coordinator.note_checkpoint_prepare(
                report.job_id.as_str(),
                report.task_id.as_str(),
                id,
                report.success,
            ) {
                Some(end) => Some(
                    Command::CheckpointResolved {
                        job_id: report.job_id.clone(),
                        stage_id: end.0,
                        checkpoint_id: id,
                        completed: end.1,
                        participants: end.2,
                    },
                ),
                None => None,
            }
        } else {
            self.coordinator.report_checkpoint(report.job_id.as_str(), report.task_id.as_str(), id, report.success);
            None
        }
    }

    /// The master's copy of a task's newest checkpoint, and the newest one that a
    /// heartbeat ever reported.
    pub fn fetch_checkpoint(&self, job_id: &str, task_id: &str) -> (r: FetchCheckpointResponse)
        ensures
            r.latest_checkpoint_id == match named(self@.coordinator.jobs, job_id@) {
                Some(j) => match named(j.tasks, task_id@) {
                    Some(t) => t.last_checkpoint_id as i64,
                    None => 0,
                },
                None => 0,
            },
            match checkpoint_store::history_of(self@.coordinator.store, job_id@, task_id@) {
                Some(h) => if h.len() > 0 {
                    r.checkpoint_id == h.last().0 as i64 && r.checkpoint_data@ == h.last().1
                } else {
                    r.checkpoint_id == 0 && r.checkpoint_data@.len() == 0
                },
                None => r.checkpoint_id == 0 && r.checkpoint_data@.len() == 0,
            },
    {
        let latest: i64 = match self.coordinator.get_job(job_id) {
            Some(job) => match job.task(task_id) {
                Some(t) => t.last_checkpoint_id as i64,
                None => 0,
            },
            None => 0,
        };
        match self.coordinator.fetch_checkpoint(job_id, task_id) {
            Some(e) => FetchCheckpointResponse {
                checkpoint_id: e.0 as i64,
                checkpoint_data: e.1,
                latest_checkpoint_id: latest,
            },
            None => FetchCheckpointResponse {
                checkpoint_id: 0,
                checkpoint_data: Vec::new(),
                latest_checkpoint_id: latest,
            },
        }
    }

    /// The state of a job in short; an unknown job is refused with a message.
    pub fn get_job_status(&self, job_id: &str) -> (r: Result<JobProbe, String>)
        ensures
            match (r, named(self@.coordinator.jobs, job_id@)) {
                (Ok(p), Some(j)) => p.job_id@ == j.job_id && p.state == crate::job::state_number(j.state)
                    && p.job_name@ == j.job_name,
                (Err(e), None) => e@ == "Job "@ + job_id@ + " not found"@,
                _ => false,
            },
    {
        match self.coordinator.get_job(job_id) {
            Some(job) => Ok(
                JobProbe { job_id: job.job_id.clone(), state: job.state.to_proto_state(), job_name: job.job_name.clone() },
            ),
            None => Err(text::join3("Job ", job_id, " not found")),
        }
    }

    /// Takes a worker out of the registry and returns the command that releases
    /// its tasks.
    pub fn unregister_worker(&mut self, worker_id: &str) -> (r: Command)
        ensures
            r@ == CommandV::EvictWorker(worker_id@),
            final(self)@ == (MasterV {
                workers: match index_of(old(self)@.workers, worker_id@) {
                    Some(i) => old(self)@.workers.remove(i),
                    None => old(self)@.workers,
                },
                ..old(self)@
            }),
    {
        self.workers.remove(worker_id);
        Command::EvictWorker { worker_id: text::owned(worker_id) }
    }
}

} // verus!
