//! What a worker's heartbeat is answered.
//!
//! The durable changes that a heartbeat brings about are commands. A cluster
//! agrees on them between the steps ([`MasterHandler::gate_heartbeat`],
//! [`MasterHandler::reattach_commands`], [`MasterHandler::settle_heartbeat`],
//! [`MasterHandler::offer_tasks`], [`MasterHandler::finish_heartbeat`]); a single
//! master applies them in place ([`MasterHandler::compute_heartbeat`]).

use vstd::prelude::*;

use crate::checkpoint_coordination::{due_stages, owed_triggers, queued_for, queued_for_others, told};
use crate::command::{applied_all, Command, CommandV};
use crate::dispatch::{cancelled_ids, claim_jobs, job_with_task, ClaimV, WorkerState};
use crate::job::{DescriptorV, JobV, TaskDescriptor};
use crate::job_coordinator::{
    CheckpointResolution, CheckpointTrigger, CoordinatorV, PendingV, ResolutionV, TriggerV,
};
use crate::json::{opt_json, Json, JsonV};
use crate::keyed;
use crate::keyed::{index_of, named, put, values};
use crate::master::{graced, pairs_of, pairs_without, standings, EntryV, MasterHandler, MasterV, WorkerEntry};
use crate::props;
use crate::props::Pairs;
use crate::recovery::{classified, lost_of_jobs, owned_by, stuck_ids, StuckTask, StuckV};
use crate::task_reports::metered_task;
use crate::text;

verus! {

// ---------------------------------------------------------------------------
// Messages
// ---------------------------------------------------------------------------

/// What a heartbeat says of a task that the worker runs.
#[derive(Debug)]
pub struct TaskReport {
    pub task_id: String,
    pub processed_records: i64,
    pub last_record_at: i64,
    pub logs: Vec<String>,
    pub last_checkpoint_id: i64,
    pub last_checkpoint_size_bytes: i64,
    /// What the task's sinks have measured, if they measure.
    pub sink_metrics: Option<Json>,
}

/// The mathematical value of a task's report.
#[verifier::ext_equal]
pub struct ReportV {
    pub task_id: Seq<char>,
    pub processed_records: i64,
    pub last_record_at: i64,
    pub logs: Seq<Seq<char>>,
    pub last_checkpoint_id: i64,
    pub last_checkpoint_size_bytes: i64,
    pub sink_metrics: Option<JsonV>,
}

impl View for TaskReport {
    type V = ReportV;

    open spec fn view(&self) -> ReportV {
        ReportV {
            task_id: self.task_id@,
            processed_records: self.processed_records,
            last_record_at: self.last_record_at,
            logs: text::views(self.logs@),
            last_checkpoint_id: self.last_checkpoint_id,
            last_checkpoint_size_bytes: self.last_checkpoint_size_bytes,
            sink_metrics: opt_json(self.sink_metrics),
        }
    }
}

/// A worker's heartbeat.
#[derive(Debug)]
pub struct HeartbeatRequest {
    pub worker_id: String,
    pub address: String,
    /// The highest term that the worker has seen.
    pub term: u64,
    /// All tasks that the worker runs.
    pub tasks: Vec<TaskReport>,
    pub load_score: u32,
    pub lag_ms: u32,
    pub mem_permille: u32,
    pub cpu_permille: u32,
    pub can_accept: bool,
    /// How long the worker is ready to wait for an answer.
    pub wait_ms: i64,
}

/// The mathematical value of a heartbeat.
#[verifier::ext_equal]
pub struct RequestV {
    pub worker_id: Seq<char>,
    pub address: Seq<char>,
    pub term: u64,
    pub tasks: Seq<ReportV>,
    pub load_score: u32,
    pub lag_ms: u32,
    pub mem_permille: u32,
    pub cpu_permille: u32,
    pub can_accept: bool,
    pub wait_ms: i64,
}

impl View for HeartbeatRequest {
    type V = RequestV;

    open spec fn view(&self) -> RequestV {
        RequestV {
            worker_id: self.worker_id@,
            address: self.address@,
            term: self.term,
            tasks: values(self.tasks@),
            load_score: self.load_score,
            lag_ms: self.lag_ms,
            mem_permille: self.mem_permille,
            cpu_permille: self.cpu_permille,
            can_accept: self.can_accept,
            wait_ms: self.wait_ms,
        }
    }
}

/// The answer to a heartbeat.
#[derive(Debug)]
pub struct HeartbeatResponse {
    pub worker_id: String,
    pub next_interval_ms: i64,
    pub pending_tasks: Vec<TaskDescriptor>,
    pub cancel_jobs: Vec<String>,
    pub preempted_task_ids: Vec<String>,
    pub term: u64,
    /// Where the leader is; empty when this master is the active one.
    pub leader_hint: String,
    pub checkpoint_triggers: Vec<CheckpointTrigger>,
    pub checkpoint_resolutions: Vec<CheckpointResolution>,
}

/// The mathematical value of an answer.
#[verifier::ext_equal]
pub struct ResponseV {
    pub worker_id: Seq<char>,
    pub next_interval_ms: i64,
    pub pending_tasks: Seq<DescriptorV>,
    pub cancel_jobs: Seq<Seq<char>>,
    pub preempted_task_ids: Seq<Seq<char>>,
    pub term: u64,
    pub leader_hint: Seq<char>,
    pub checkpoint_triggers: Seq<TriggerV>,
    pub checkpoint_resolutions: Seq<ResolutionV>,
}

impl View for HeartbeatResponse {
    type V = ResponseV;

    open spec fn view(&self) -> ResponseV {
        ResponseV {
            worker_id: self.worker_id@,
            next_interval_ms: self.next_interval_ms,
            pending_tasks: values(self.pending_tasks@),
            cancel_jobs: text::views(self.cancel_jobs@),
            preempted_task_ids: text::views(self.preempted_task_ids@),
            term: self.term,
            leader_hint: self.leader_hint@,
            checkpoint_triggers: values(self.checkpoint_triggers@),
            checkpoint_resolutions: values(self.checkpoint_resolutions@),
        }
    }
}

/// An answer that carries no instructions.
pub open spec fn quiet(worker: Seq<char>, interval: u64, term: u64, hint: Seq<char>) -> ResponseV {
    ResponseV {
        worker_id: worker,
        next_interval_ms: interval as i64,
        pending_tasks: Seq::empty(),
        cancel_jobs: Seq::empty(),
        preempted_task_ids: Seq::empty(),
        term,
        leader_hint: hint,
        checkpoint_triggers: Seq::empty(),
        checkpoint_resolutions: Seq::empty(),
    }
}

/// Whether an answer carries no instructions.
pub open spec fn has_nothing(r: ResponseV) -> bool {
    &&& r.pending_tasks.len() == 0
    &&& r.cancel_jobs.len() == 0
    &&& r.preempted_task_ids.len() == 0
    &&& r.checkpoint_triggers.len() == 0
    &&& r.checkpoint_resolutions.len() == 0
}

/// Whether an answer carries nothing that the worker must act on.
pub fn response_has_nothing(r: &HeartbeatResponse) -> (b: bool)
    ensures
        b == has_nothing(r@),
{
    r.pending_tasks.len() == 0 && r.cancel_jobs.len() == 0 && r.preempted_task_ids.len() == 0
        && r.checkpoint_triggers.len() == 0 && r.checkpoint_resolutions.len() == 0
}

/// For how long a heartbeat without an instruction is held back: what the worker
/// asked for, at most ten seconds.
pub fn wait_budget(wait_ms: i64) -> (r: u64)
    ensures
        r == crate::master::clamped(wait_ms as int, 0, 10_000),
{
    if wait_ms < 0 {
        0
    } else if wait_ms > 10_000 {
        10_000
    } else {
        wait_ms as u64
    }
}

fn quiet_response(worker_id: &String, interval: u64, term: u64, hint: &str) -> (r: HeartbeatResponse)
    ensures
        r@ == quiet(worker_id@, interval, term, hint@),
{
    let r = HeartbeatResponse {
        worker_id: worker_id.clone(),
        next_interval_ms: interval as i64,
        pending_tasks: Vec::new(),
        cancel_jobs: Vec::new(),
        preempted_task_ids: Vec::new(),
        term,
        leader_hint: text::owned(hint),
        checkpoint_triggers: Vec::new(),
        checkpoint_resolutions: Vec::new(),
    };
    assert(r@ =~= quiet(worker_id@, interval, term, hint@));
    r
}

// ---------------------------------------------------------------------------
// Steps
// ---------------------------------------------------------------------------

/// The tasks that a heartbeat reports.
pub open spec fn reported_ids(tasks: Seq<ReportV>) -> Seq<Seq<char>> {
    tasks.map_values(|t: ReportV| t.task_id)
}

/// A count that travelled as a signed number.
pub open spec fn at_least_zero(n: i64) -> u64 {
    if n > 0 { n as u64 } else { 0 }
}

/// What a heartbeat is answered before anything is decided: a worker that has
/// seen a higher term raises the master's own, and nothing is handed out; so it
/// is by a master that does not lead, which names the leader.
pub open spec fn gated(m: MasterV, hb: RequestV, leads: bool, hint: Seq<char>) -> (MasterV, Option<ResponseV>) {
    let c = m.coordinator;
    if hb.term > c.term {
        (
            MasterV { coordinator: CoordinatorV { term: hb.term, ..c }, ..m },
            Some(quiet(hb.worker_id, m.heartbeat, hb.term, ""@)),
        )
    } else if !leads {
        (m, Some(quiet(hb.worker_id, m.heartbeat, c.term, hint)))
    } else {
        (m, None)
    }
}

/// The commands by which a returning worker's tasks are taken up again: its own
/// are adopted, and what it should run and does not is released.
pub open spec fn reattached(c: CoordinatorV, worker: Seq<char>, running: Seq<Seq<char>>) -> Seq<CommandV> {
    let adopt = classified(c.jobs, c.tasks, worker, running).0;
    let lost = stuck_ids(lost_of_jobs(c.jobs, worker, running, false));
    let a = if adopt.len() > 0 {
        seq![CommandV::AdoptTasks(worker, adopt)]
    } else {
        Seq::empty()
    };
    if lost.len() > 0 { a.push(CommandV::ReleaseLostTasks(worker, lost)) } else { a }
}

/// The tasks that a returning worker has to stop, behind its id.
pub open spec fn fenced(worker: Seq<char>, ids: Seq<Seq<char>>) -> Pairs {
    ids.map_values(|id: Seq<char>| (worker, id))
}

/// The jobs after one task's metrics.
pub open spec fn metered(jobs: Seq<JobV>, worker: Seq<char>, t: ReportV) -> Seq<JobV> {
    match job_with_task(jobs, t.task_id) {
        Some(i) => {
            let j = jobs[i];
            let task = named(j.tasks, t.task_id)->0;
            jobs.update(
                i,
                JobV {
                    tasks: put(
                        j.tasks,
                        metered_task(
                            task,
                            j.state.terminal(),
                            at_least_zero(t.processed_records),
                            t.last_record_at,
                            t.logs,
                            worker,
                            at_least_zero(t.last_checkpoint_id),
                            at_least_zero(t.last_checkpoint_size_bytes),
                            t.sink_metrics,
                        ),
                    ),
                    ..j
                },
            )
        },
        None => jobs,
    }
}

/// The jobs after the metrics of some tasks.
pub open spec fn metered_all(jobs: Seq<JobV>, worker: Seq<char>, tasks: Seq<ReportV>) -> Seq<JobV>
    decreases tasks.len(),
{
    if tasks.len() == 0 {
        jobs
    } else {
        metered(metered_all(jobs, worker, tasks.drop_last()), worker, tasks.last())
    }
}

/// The report of an end that was lost.
pub open spec fn cancelled_report(s: StuckV) -> CommandV {
    CommandV::TaskStatus {
        job_id: s.job_id,
        task_id: s.task_id,
        worker_id: s.worker_id,
        state: "CANCELLED"@,
        records: s.processed_records,
        error: None,
    }
}

/// What a heartbeat's reports settle: metrics are noted; tasks of cancelled jobs
/// that the worker no longer runs are reported as cancelled; tasks that have been
/// missing for the grace period are released.
pub open spec fn settled(m: MasterV, hb: RequestV, now: i64) -> (MasterV, Seq<CommandV>) {
    let c = CoordinatorV { jobs: metered_all(m.coordinator.jobs, hb.worker_id, hb.tasks), ..m.coordinator };
    let reported = reported_ids(hb.tasks);
    let stuck = lost_of_jobs(c.jobs, hb.worker_id, reported, true);
    let g = graced(m.lost_since, c.jobs, hb.worker_id, reported, now, m.grace);
    let reports = stuck.map_values(|s: StuckV| cancelled_report(s));
    (
        MasterV { coordinator: c, lost_since: g.0, ..m },
        if g.1.len() > 0 {
            reports.push(CommandV::ReleaseLostTasks(hb.worker_id, stuck_ids(g.1)))
        } else {
            reports
        },
    )
}

/// A worker after its heartbeat.
pub open spec fn refreshed(workers: Seq<EntryV>, hb: RequestV, now: i64) -> EntryV {
    EntryV {
        worker_id: hb.worker_id,
        address: match named(workers, hb.worker_id) {
            Some(e) => e.address,
            None => hb.address,
        },
        last_heartbeat_ms: now,
        load_score: hb.load_score,
        lag_ms: hb.lag_ms,
        mem_permille: hb.mem_permille,
        cpu_permille: hb.cpu_permille,
        can_accept: hb.can_accept,
    }
}

/// Whether a worker returns from a silence longer than the soft timeout.
pub open spec fn was_silent(workers: Seq<EntryV>, worker: Seq<char>, now: i64, soft_timeout: u64) -> bool {
    match named(workers, worker) {
        Some(e) => now - e.last_heartbeat_ms > soft_timeout as i64,
        None => false,
    }
}

/// At most `limit` items; all of them when there is no limit.
pub open spec fn limited<T>(s: Seq<T>, limit: u32) -> Seq<T> {
    if limit > 0 && s.len() > limit { s.take(limit as int) } else { s }
}

/// The ids of some descriptors.
pub open spec fn descriptor_ids(d: Seq<DescriptorV>) -> Seq<Seq<char>> {
    d.map_values(|x: DescriptorV| x.task_id)
}

/// A claim by a worker, given the registry.
pub open spec fn claim(m: MasterV, worker: Seq<char>, address: Seq<char>) -> ClaimV {
    claim_jobs(
        ClaimV { all: m.coordinator.tasks, out: Seq::empty() },
        m.coordinator.jobs,
        worker,
        address,
        standings(m.workers),
    )
}

/// What a worker is offered: nothing after a long silence or while it is over a
/// watermark, else what it may claim.
pub open spec fn offered(m: MasterV, hb: RequestV, now: i64) -> (MasterV, bool, Seq<DescriptorV>) {
    let silent = was_silent(m.workers, hb.worker_id, now, m.soft_timeout);
    let n = MasterV { workers: put(m.workers, refreshed(m.workers, hb, now)), ..m };
    if silent || !hb.can_accept {
        (n, silent, Seq::empty())
    } else {
        let c = claim(n, hb.worker_id, hb.address);
        (
            MasterV { coordinator: CoordinatorV { tasks: c.all, ..n.coordinator }, ..n },
            false,
            limited(c.out, m.batch_limit),
        )
    }
}

/// The command that hands tasks to a worker, unless there are none.
pub open spec fn dispatch_commands(tasks: Seq<DescriptorV>, worker: Seq<char>) -> Seq<CommandV> {
    if tasks.len() > 0 {
        seq![CommandV::MarkDispatched(descriptor_ids(tasks), worker)]
    } else {
        Seq::empty()
    }
}

/// The commands that begin the checkpoints of some pipelines.
pub open spec fn begin_commands(stages: Pairs, now: i64) -> Seq<CommandV> {
    stages.map_values(|s: (Seq<char>, Seq<char>)| CommandV::CheckpointTriggered(s.0, s.1, now))
}

/// The commands that begin the checkpoints that are due. A heartbeat after a long
/// silence begins none.
pub open spec fn due_commands(c: CoordinatorV, silent: bool, now: i64) -> Seq<CommandV> {
    if silent { Seq::empty() } else { begin_commands(due_stages(c.jobs, c.pending, now), now) }
}

/// The tasks that were handed over.
pub open spec fn handed_over(tasks: Seq<DescriptorV>, jobs: Seq<JobV>, worker: Seq<char>) -> Seq<DescriptorV>
    decreases tasks.len(),
{
    if tasks.len() == 0 {
        tasks
    } else {
        let h = handed_over(tasks.drop_last(), jobs, worker);
        if owned_by(jobs, tasks.last().task_id, worker) { h.push(tasks.last()) } else { h }
    }
}

/// The answer, once it is known whether the tasks on offer were handed over.
pub open spec fn finished(
    m: MasterV,
    worker: Seq<char>,
    silent: bool,
    tasks: Seq<DescriptorV>,
    transferred: bool,
) -> (MasterV, ResponseV) {
    let c = m.coordinator;
    let n = CoordinatorV {
        pending: if silent { c.pending } else { c.pending.map_values(|cp: PendingV| told(cp, worker)) },
        outbox: queued_for_others(c.outbox, worker),
        ..c
    };
    (
        MasterV { coordinator: n, preemptions: pairs_without(m.preemptions, worker), ..m },
        ResponseV {
            worker_id: worker,
            next_interval_ms: m.heartbeat as i64,
            pending_tasks: if transferred { handed_over(tasks, c.jobs, worker) } else { Seq::empty() },
            cancel_jobs: cancelled_ids(c.jobs),
            preempted_task_ids: pairs_of(m.preemptions, worker),
            term: c.term,
            leader_hint: ""@,
            checkpoint_triggers: if silent { Seq::empty() } else { owed_triggers(c.pending, worker) },
            checkpoint_resolutions: queued_for(c.outbox, worker),
        },
    )
}

/// The master with its coordinator after some commands.
pub open spec fn with_commands(m: MasterV, cmds: Seq<CommandV>, now: i64) -> MasterV {
    MasterV { coordinator: applied_all(m.coordinator, cmds, now), ..m }
}

/// The master after a worker's tasks were taken up again.
pub open spec fn reattaching(m: MasterV, worker: Seq<char>, running: Seq<Seq<char>>, now: i64) -> MasterV {
    let c = m.coordinator;
    with_commands(
        MasterV {
            preemptions: m.preemptions + fenced(worker, classified(c.jobs, c.tasks, worker, running).1),
            ..m
        },
        reattached(c, worker, running),
        now,
    )
}

/// What a heartbeat makes of a single master, and its answer.
pub open spec fn heartbeat(m: MasterV, hb: RequestV, leads: bool, hint: Seq<char>, now: i64) -> (MasterV, ResponseV) {
    let g = gated(m, hb, leads, hint);
    match g.1 {
        Some(r) => (g.0, r),
        None => {
            let unknown = index_of(m.workers, hb.worker_id) is None && hb.tasks.len() > 0;
            let a = if unknown { reattaching(m, hb.worker_id, reported_ids(hb.tasks), now) } else { m };
            let s = settled(a, hb, now);
            let b = with_commands(s.0, s.1, now);
            let o = offered(b, hb, now);
            let d = with_commands(o.0, dispatch_commands(o.2, hb.worker_id), now);
            let e = with_commands(d, due_commands(d.coordinator, o.1, now), now);
            finished(e, hb.worker_id, o.1, o.2, true)
        },
    }
}

fn ids_of(tasks: &Vec<TaskDescriptor>) -> (r: Vec<String>)
    ensures
        text::views(r@) == descriptor_ids(values(tasks@)),
{
    let mut out: Vec<String> = Vec::new();
    let mut i: usize = 0;
    while i < tasks.len()
        invariant
            i <= tasks@.len(),
            out@.len() == i,
            forall|k: int| 0 <= k < i ==> (#[trigger] out@[k])@ == tasks@[k].task_id@,
        decreases tasks@.len() - i,
    {
        out.push(tasks[i].task_id.clone());
        i += 1;
    }
    assert(text::views(out@) =~= descriptor_ids(values(tasks@)));
    out
}

/// The reports of ends that were lost.
pub fn cancelled_reports(stuck: &Vec<StuckTask>) -> (r: Vec<Command>)
    ensures
        values(r@) == values(stuck@).map_values(|s: StuckV| cancelled_report(s)),
{
    let ghost sv = values(stuck@);
    let mut out: Vec<Command> = Vec::new();
    let mut i: usize = 0;
    while i < stuck.len()
        invariant
            i <= stuck@.len(),
            out@.len() == i,
            forall|k: int| 0 <= k < i ==> #[trigger] out@[k]@ == cancelled_report(stuck@[k]@),
        decreases stuck@.len() - i,
    {
        let s = &stuck[i];
        let cmd = Command::TaskStatus {
            job_id: s.job_id.clone(),
            task_id: s.task_id.clone(),
            worker_id: s.worker_id.clone(),
            state: text::owned("CANCELLED"),
            records: s.processed_records,
            error: None,
        };
        assert(cmd@ == cancelled_report(s@));
        out.push(cmd);
        i += 1;
    }
    assert(values(out@) =~= sv.map_values(|s: StuckV| cancelled_report(s)));
    out
}

fn ids_of_stuck(tasks: &Vec<StuckTask>) -> (r: Vec<String>)
    ensures
        text::views(r@) == stuck_ids(values(tasks@)),
{
    let mut out: Vec<String> = Vec::new();
    let mut i: usize = 0;
    while i < tasks.len()
        invariant
            i <= tasks@.len(),
            out@.len() == i,
            forall|k: int| 0 <= k < i ==> (#[trigger] out@[k])@ == tasks@[k].task_id@,
        decreases tasks@.len() - i,
    {
        out.push(tasks[i].task_id.clone());
        i += 1;
    }
    assert(text::views(out@) =~= stuck_ids(values(tasks@)));
    out
}

/// The ids of the tasks that a heartbeat reports.
pub fn ids_of_reports(tasks: &Vec<TaskReport>) -> (r: Vec<String>)
    ensures
        text::views(r@) == reported_ids(values(tasks@)),
{
    let mut out: Vec<String> = Vec::new();
    let mut i: usize = 0;
    while i < tasks.len()
        invariant
            i <= tasks@.len(),
            out@.len() == i,
            forall|k: int| 0 <= k < i ==> (#[trigger] out@[k])@ == tasks@[k].task_id@,
        decreases tasks@.len() - i,
    {
        out.push(tasks[i].task_id.clone());
        i += 1;
    }
    assert(text::views(out@) =~= reported_ids(values(tasks@)));
    out
}

/// The command that hands tasks to a worker, unless there are none.
pub fn dispatch_command(tasks: &Vec<TaskDescriptor>, worker_id: &str) -> (r: Option<Command>)
    ensures
        match r {
            Some(c) => dispatch_commands(values(tasks@), worker_id@) == seq![c@],
            None => dispatch_commands(values(tasks@), worker_id@).len() == 0,
        },
{
    if tasks.len() > 0 {
        let ids = ids_of(tasks);
        Some(Command::MarkDispatched { task_ids: ids, worker_id: text::owned(worker_id) })
    } else {
        None
    }
}

fn non_negative(n: i64) -> (r: u64)
    ensures
        r == at_least_zero(n),
{
    if n > 0 {
        n as u64
    } else {
        0
    }
}

impl MasterHandler {
    /// Answers a heartbeat before anything is decided, when the worker has seen a
    /// higher term or this master does not lead.
    pub fn gate_heartbeat(&mut self, hb: &HeartbeatRequest, leads: bool, hint: &str) -> (r: Option<HeartbeatResponse>)
        ensures
            ({
                let g = gated(old(self)@, hb@, leads, hint@);
                final(self)@ == g.0 && match r {
                    Some(a) => g.1 == Some(a@),
                    None => g.1 is None,
                }
            }),
    {
        let interval = self.heartbeat_interval_ms();
        if hb.term > self.coordinator.term() {
            let term = self.coordinator.observe_term(hb.term);
            return Some(quiet_response(&hb.worker_id, interval, term, ""));
        }
        if !leads {
            return Some(quiet_response(&hb.worker_id, interval, self.coordinator.term(), hint));
        }
        None
    }

    /// Takes up the tasks of a worker that registers or returns: what is still its
    /// own is adopted, what was given to another worker is to be stopped, and what
    /// it should run and does not is released. Returns the commands for it.
    pub fn reattach_commands(&mut self, worker_id: &str, running: &Vec<String>) -> (r: Vec<Command>)
        ensures
            values(r@) == reattached(old(self)@.coordinator, worker_id@, text::views(running@)),
            final(self)@ == (MasterV {
                preemptions: old(self)@.preemptions + fenced(
                    worker_id@,
                    classified(
                        old(self)@.coordinator.jobs,
                        old(self)@.coordinator.tasks,
                        worker_id@,
                        text::views(running@),
                    ).1,
                ),
                ..old(self)@
            }),
    {
        let ghost c = self@.coordinator;
        let ghost base = props::pairs_view(self.preemptions@);
        let split = self.coordinator.classify_running_tasks(worker_id, running);
        let lost = self.coordinator.reconcile_lost_active_tasks(worker_id, running);
        let mut out: Vec<Command> = Vec::new();
        assert(values(out@) =~= Seq::<CommandV>::empty());
        if split.0.len() > 0 {
            let cmd = Command::AdoptTasks { worker_id: text::owned(worker_id), task_ids: split.0 };
            let ghost prev = out@;
            out.push(cmd);
            assert(values(out@) =~= seq![cmd@]);
        }
        if lost.len() > 0 {
            let ids = ids_of_stuck(&lost);
            let cmd = Command::ReleaseLostTasks { worker_id: text::owned(worker_id), task_ids: ids };
            let ghost prev = out@;
            out.push(cmd);
            assert(values(out@) =~= values(prev).push(cmd@));
        }
        let ghost f = text::views(split.1@);
        let mut i: usize = 0;
        assert(base + fenced(worker_id@, f.take(0)) =~= base);
        while i < split.1.len()
            invariant
                i <= split.1@.len(),
                f == text::views(split.1@),
                props::pairs_view(self.preemptions@) == base + fenced(worker_id@, f.take(i as int)),
                self@ == (MasterV { preemptions: props::pairs_view(self.preemptions@), ..old(self)@ }),
            decreases split.1@.len() - i,
        {
            let ghost prev = self.preemptions@;
            let id = split.1[i].clone();
            self.preemptions.push((text::owned(worker_id), id));
            proof {
                assert(props::pairs_view(self.preemptions@) =~= props::pairs_view(prev).push((worker_id@, id@)));
                assert(fenced(worker_id@, f.take(i + 1)) =~= fenced(worker_id@, f.take(i as int)).push(
                    (worker_id@, id@),
                ));
            }
            i += 1;
        }
        assert(f.take(f.len() as int) =~= f);
        out
    }

    fn note_metrics(&mut self, hb: &HeartbeatRequest)
        ensures
            final(self)@ == (MasterV {
                coordinator: CoordinatorV {
                    jobs: metered_all(old(self)@.coordinator.jobs, hb@.worker_id, hb@.tasks),
                    ..old(self)@.coordinator
                },
                ..old(self)@
            }),
    {
        let ghost jobs = self@.coordinator.jobs;
        let ghost tv = hb@.tasks;
        let mut i: usize = 0;
        assert(tv.take(0) =~= Seq::empty());
        while i < hb.tasks.len()
            invariant
                i <= hb.tasks@.len(),
                tv == values(hb.tasks@),
                self@ == (MasterV {
                    coordinator: CoordinatorV {
                        jobs: metered_all(jobs, hb.worker_id@, tv.take(i as int)),
                        ..old(self)@.coordinator
                    },
                    ..old(self)@
                }),
            decreases hb.tasks@.len() - i,
        {
            let t = &hb.tasks[i];
            proof {
                assert(tv.take(i + 1).drop_last() =~= tv.take(i as int));
                assert(tv.take(i + 1).last() == t@);
            }
            self.coordinator.report_task_metrics(
                t.task_id.as_str(),
                non_negative(t.processed_records),
                t.last_record_at,
                &t.logs,
                hb.worker_id.as_str(),
                non_negative(t.last_checkpoint_id),
                non_negative(t.last_checkpoint_size_bytes),
                &t.sink_metrics,
            );
            i += 1;
        }
        assert(tv.take(tv.len() as int) =~= tv);
    }

    /// Takes the reports of a heartbeat: metrics are noted, and the commands are
    /// returned that report lost ends of cancelled tasks and release tasks that
    /// have been missing for the grace period.
    pub fn settle_heartbeat(&mut self, hb: &HeartbeatRequest, now: i64) -> (r: Vec<Command>)
        ensures
            (final(self)@, values(r@)) == settled(old(self)@, hb@, now),
    {
        self.note_metrics(hb);
        let reported = ids_of_reports(&hb.tasks);
        let stuck = self.coordinator.reconcile_lost_cancelled_tasks(hb.worker_id.as_str(), &reported);
        let mut out = cancelled_reports(&stuck);
        let due = self.reconcile_heartbeat_lost_tasks(hb.worker_id.as_str(), &reported, now);
        if due.len() > 0 {
            let ids = ids_of_stuck(&due);
            let cmd = Command::ReleaseLostTasks { worker_id: hb.worker_id.clone(), task_ids: ids };
            let ghost prev = out@;
            out.push(cmd);
            assert(values(out@) =~= values(prev).push(cmd@));
        }
        out
    }

    fn claim_limited(&mut self, worker_id: &str, address: &str) -> (r: Vec<TaskDescriptor>)
        ensures
            ({
                let c = claim(old(self)@, worker_id@, address@);
                &&& values(r@) == limited(c.out, old(self)@.batch_limit)
                &&& final(self)@ == (MasterV {
                    coordinator: CoordinatorV { tasks: c.all, ..old(self)@.coordinator },
                    ..old(self)@
                })
            }),
    {
        let workers = &self.workers;
        let ghost st = standings(workers@);
        let state_of = |w: &str| -> (r: WorkerState)
            ensures
                r == crate::master::standing(workers@, w@),
            { workers.classify(w) };
        let claimed = self.coordinator.claim_with(worker_id, address, &state_of, Ghost(st));
        let limit: u32 = self.dispatch_batch_limit;
        if limit > 0 && claimed.len() > limit as usize {
            let mut claimed = claimed;
            let ghost all = claimed@;
            claimed.truncate(limit as usize);
            assert(values(claimed@) =~= values(all).take(limit as int));
            claimed
        } else {
            claimed
        }
    }

    /// Notes a worker's heartbeat and what it measured, and returns whether it was
    /// silent for too long, and the tasks on offer. A worker that was silent for
    /// too long, or is over a watermark, is offered none.
    pub fn offer_tasks(&mut self, hb: &HeartbeatRequest, now: i64) -> (r: (bool, Vec<TaskDescriptor>))
        ensures
            (final(self)@, r.0, values(r.1@)) == offered(old(self)@, hb@, now),
    {
        let ghost w = self@.workers;
        let mut silent: bool = false;
        match keyed::find(&self.workers.workers, hb.worker_id.as_str()) {
            Some(i) => {
                proof {
                    assert(w[i as int] == self.workers.workers@[i as int]@);
                    keyed::lemma_index_of(w, hb.worker_id@);
                }
                let quiet_for: i128 = now as i128 - self.workers.workers[i].entry.last_heartbeat_ms as i128;
                silent = quiet_for > self.worker_soft_timeout_ms as i64 as i128;
                let address = self.workers.workers[i].entry.address.clone();
                let id = hb.worker_id.clone();
                let entry = WorkerEntry {
                    address,
                    last_heartbeat_ms: now,
                    load_score: hb.load_score,
                    lag_ms: hb.lag_ms,
                    mem_permille: hb.mem_permille,
                    cpu_permille: hb.cpu_permille,
                    can_accept: hb.can_accept,
                };
                self.workers.insert(id, entry);
            },
            None => {
                let entry = WorkerEntry {
                    address: hb.address.clone(),
                    last_heartbeat_ms: now,
                    load_score: hb.load_score,
                    lag_ms: hb.lag_ms,
                    mem_permille: hb.mem_permille,
                    cpu_permille: hb.cpu_permille,
                    can_accept: hb.can_accept,
                };
                self.workers.insert(hb.worker_id.clone(), entry);
            },
        }
        if silent || !hb.can_accept {
            let none: Vec<TaskDescriptor> = Vec::new();
            assert(values(none@) =~= Seq::empty());
            (silent, none)
        } else {
            let tasks = self.claim_limited(hb.worker_id.as_str(), hb.address.as_str());
            (false, tasks)
        }
    }

    /// The commands that begin the checkpoints that are due.
    pub fn checkpoint_commands(&self, silent: bool, now: i64) -> (r: Vec<Command>)
        ensures
            values(r@) == due_commands(self@.coordinator, silent, now),
    {
        let mut out: Vec<Command> = Vec::new();
        if silent {
            assert(values(out@) =~= Seq::empty());
            return out;
        }
        let stages = self.coordinator.due_checkpoint_stages(now);
        let ghost sv = props::pairs_view(stages@);
        let mut i: usize = 0;
        while i < stages.len()
            invariant
                i <= stages@.len(),
                out@.len() == i,
                sv == props::pairs_view(stages@),
                forall|k: int|
                    0 <= k < i ==> #[trigger] out@[k]@ == CommandV::CheckpointTriggered(sv[k].0, sv[k].1, now),
            decreases stages@.len() - i,
        {
            out.push(
                Command::CheckpointTriggered {
                    job_id: stages[i].0.clone(),
                    stage_id: stages[i].1.clone(),
                    at_ms: now,
                },
            );
            i += 1;
        }
        assert(values(out@) =~= begin_commands(sv, now));
        out
    }

    /// The answer to a heartbeat, once it is known whether the tasks on offer were
    /// handed over: those that were, the checkpoints to take, and what else waits
    /// for the worker.
    pub fn finish_heartbeat(
        &mut self,
        worker_id: &str,
        silent: bool,
        tasks: Vec<TaskDescriptor>,
        transferred: bool,
    ) -> (r: HeartbeatResponse)
        ensures
            (final(self)@, r@) == finished(old(self)@, worker_id@, silent, values(tasks@), transferred),
    {
        let ghost m = self@;
        let pending_tasks = if transferred {
            self.keep_owned(&tasks, worker_id)
        } else {
            let none: Vec<TaskDescriptor> = Vec::new();
            assert(values(none@) =~= Seq::empty());
            none
        };
        let checkpoint_triggers = if silent {
            let none: Vec<CheckpointTrigger> = Vec::new();
            assert(values(none@) =~= Seq::empty());
            none
        } else {
            self.coordinator.deliver_checkpoint_triggers(worker_id)
        };
        let checkpoint_resolutions = self.coordinator.drain_checkpoint_resolutions(worker_id);
        let cancel_jobs = self.coordinator.cancelled_job_ids();
        let preempted_task_ids = crate::master::take_pairs(&mut self.preemptions, worker_id);
        let r = HeartbeatResponse {
            worker_id: text::owned(worker_id),
            next_interval_ms: self.heartbeat_interval_ms as i64,
            pending_tasks,
            cancel_jobs,
            preempted_task_ids,
            term: self.coordinator.term(),
            leader_hint: text::owned(""),
            checkpoint_triggers,
            checkpoint_resolutions,
        };
        proof {
            let f = finished(m, worker_id@, silent, values(tasks@), transferred);
            assert(self@ =~= f.0);
            assert(r@ =~= f.1);
        }
        r
    }

    fn keep_owned(&self, tasks: &Vec<TaskDescriptor>, worker_id: &str) -> (r: Vec<TaskDescriptor>)
        ensures
            values(r@) == handed_over(values(tasks@), self@.coordinator.jobs, worker_id@),
    {
        let ghost tv = values(tasks@);
        let ghost jobs = self@.coordinator.jobs;
        let mut out: Vec<TaskDescriptor> = Vec::new();
        let mut i: usize = 0;
        proof {
            assert(tv.take(0) =~= Seq::empty());
            assert(values(out@) =~= Seq::empty());
        }
        while i < tasks.len()
            invariant
                i <= tasks@.len(),
                tv == values(tasks@),
                jobs == self@.coordinator.jobs,
                values(out@) == handed_over(tv.take(i as int), jobs, worker_id@),
            decreases tasks@.len() - i,
        {
            proof {
                assert(tv.take(i + 1).drop_last() =~= tv.take(i as int));
                assert(tv.take(i + 1).last() == tasks@[i as int]@);
            }
            if self.coordinator.task_owned_by(tasks[i].task_id.as_str(), worker_id) {
                let ghost prev = out@;
                let d = tasks[i].copy();
                out.push(d);
                assert(values(out@) =~= values(prev).push(d@));
            }
            i += 1;
        }
        assert(tv.take(tv.len() as int) =~= tv);
        out
    }

    /// Applies commands in place.
    pub fn apply_all(&mut self, cmds: &Vec<Command>, now: i64)
        ensures
            final(self)@ == with_commands(old(self)@, values(cmds@), now),
    {
        self.coordinator.apply_commands(cmds, now);
    }

    fn apply_dispatch(&mut self, tasks: &Vec<TaskDescriptor>, worker_id: &str, now: i64)
        ensures
            final(self)@ == with_commands(old(self)@, dispatch_commands(values(tasks@), worker_id@), now),
    {
        let mut cmds: Vec<Command> = Vec::new();
        match dispatch_command(tasks, worker_id) {
            Some(c) => {
                cmds.push(c);
                assert(values(cmds@) =~= seq![c@]);
            },
            None => {
                assert(values(cmds@) =~= dispatch_commands(values(tasks@), worker_id@));
            },
        }
        self.apply_all(&cmds, now);
    }

    /// Answers a heartbeat of a worker, applying the changes in place.
    pub fn compute_heartbeat(
        &mut self,
        hb: &HeartbeatRequest,
        leads: bool,
        hint: &str,
        now: i64,
    ) -> (r: HeartbeatResponse)
        ensures
            (final(self)@, r@) == heartbeat(old(self)@, hb@, leads, hint@, now),
    {
        let ghost m = self@;
        let ghost h = hb@;
        match self.gate_heartbeat(hb, leads, hint) {
            Some(r) => {
                return r;
            },
            None => {},
        }
        let ghost unknown = index_of(m.workers, h.worker_id) is None && h.tasks.len() > 0;
        let ghost a = if unknown { reattaching(m, h.worker_id, reported_ids(h.tasks), now) } else { m };
        if !self.workers.contains(hb.worker_id.as_str()) && hb.tasks.len() > 0 {
            let running = ids_of_reports(&hb.tasks);
            let cmds = self.reattach_commands(hb.worker_id.as_str(), &running);
            self.apply_all(&cmds, now);
        }
        assert(self@ == a);
        let ghost s = settled(a, h, now);
        let cmds = self.settle_heartbeat(hb, now);
        self.apply_all(&cmds, now);
        let ghost b = with_commands(s.0, s.1, now);
        assert(self@ == b);
        let ghost o = offered(b, h, now);
        let offer = self.offer_tasks(hb, now);
        assert((self@, offer.0, values(offer.1@)) == o);
        self.apply_dispatch(&offer.1, hb.worker_id.as_str(), now);
        assert(self@ == with_commands(o.0, dispatch_commands(o.2, h.worker_id), now));
        let due = self.checkpoint_commands(offer.0, now);
        self.apply_all(&due, now);
        self.finish_heartbeat(hb.worker_id.as_str(), offer.0, offer.1, true)
    }

    /// The tasks on offer for a worker whose heartbeat was held back.
    pub fn reoffer_tasks(&mut self, worker_id: &str) -> (r: Vec<TaskDescriptor>)
        ensures
            (final(self)@, values(r@)) == reoffered(old(self)@, worker_id@),
    {
        self.claim_limited(worker_id, "")
    }

    /// Answers a heartbeat that was held back and woken: the same decisions,
    /// without reports to take, and without new checkpoints.
    pub fn recompute_heartbeat(&mut self, worker_id: &str, now: i64) -> (r: HeartbeatResponse)
        ensures
            (final(self)@, r@) == woken(old(self)@, worker_id@, now),
    {
        let tasks = self.reoffer_tasks(worker_id);
        self.apply_dispatch(&tasks, worker_id, now);
        self.finish_heartbeat(worker_id, false, tasks, true)
    }
}

/// What a worker whose heartbeat was held back is offered.
pub open spec fn reoffered(m: MasterV, worker: Seq<char>) -> (MasterV, Seq<DescriptorV>) {
    let c = claim(m, worker, ""@);
    (MasterV { coordinator: CoordinatorV { tasks: c.all, ..m.coordinator }, ..m }, limited(c.out, m.batch_limit))
}

/// What a heartbeat that was held back makes of a single master, and its answer.
pub open spec fn woken(m: MasterV, worker: Seq<char>, now: i64) -> (MasterV, ResponseV) {
    let o = reoffered(m, worker);
    finished(with_commands(o.0, dispatch_commands(o.1, worker), now), worker, false, o.1, true)
}

} // verus!
