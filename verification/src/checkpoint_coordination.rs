//! Coordinated checkpoints. The master drives them: it assigns the id, collects
//! the prepare of every task of a pipeline, and resolves the checkpoint, which
//! completes when all prepared and is aborted when one failed or stayed silent.

use vstd::prelude::*;

use crate::job::{JobState, JobV, RunningJob, StateV, TaskV};
use crate::job_coordinator::{
    CheckpointResolution, CheckpointTrigger, CoordinatorV, JobCoordinator, PendingCheckpoint, PendingV,
    QueuedResolution, ResolutionV, TriggerV,
};
use crate::keyed;
use crate::keyed::{index_of, named, values};
use crate::props;
use crate::props::{lookup, Pairs};
use crate::text;

verus! {

// ---------------------------------------------------------------------------
// Triggering
// ---------------------------------------------------------------------------

/// The position of the checkpoint in flight for a job's pipeline.
pub open spec fn pending_index(p: Seq<PendingV>, job: Seq<char>, stage: Seq<char>) -> Option<int>
    decreases p.len(),
{
    if p.len() == 0 {
        None
    } else {
        match pending_index(p.drop_last(), job, stage) {
            Some(i) => Some(i),
            None => if p.last().job_id == job && p.last().stage_id == stage { Some(p.len() - 1) } else { None },
        }
    }
}

/// Where `pending_index` points.
pub proof fn lemma_pending_index(p: Seq<PendingV>, job: Seq<char>, stage: Seq<char>)
    ensures
        match pending_index(p, job, stage) {
            Some(i) => 0 <= i < p.len() && p[i].job_id == job && p[i].stage_id == stage && (forall|k: int|
                0 <= k < i ==> !((#[trigger] p[k]).job_id == job && p[k].stage_id == stage)),
            None => forall|k: int| 0 <= k < p.len() ==> !((#[trigger] p[k]).job_id == job && p[k].stage_id == stage),
        },
    decreases p.len(),
{
    if p.len() > 0 {
        let d = p.drop_last();
        lemma_pending_index(d, job, stage);
        match pending_index(d, job, stage) {
            Some(i) => {
                assert forall|k: int| 0 <= k < i implies !((#[trigger] p[k]).job_id == job && p[k].stage_id == stage) by {
                    assert(d[k] == p[k]);
                }
            },
            None => {
                assert forall|k: int| 0 <= k < p.len() - 1 implies !((#[trigger] p[k]).job_id == job && p[k].stage_id
                    == stage) by {
                    assert(d[k] == p[k]);
                }
            },
        }
    }
}

/// Tasks with their workers, by stage.
pub type Groups = Seq<(Seq<char>, Pairs)>;

/// The position of a stage's group.
pub open spec fn group_index(g: Groups, stage: Seq<char>) -> Option<int>
    decreases g.len(),
{
    if g.len() == 0 {
        None
    } else {
        match group_index(g.drop_last(), stage) {
            Some(i) => Some(i),
            None => if g.last().0 == stage { Some(g.len() - 1) } else { None },
        }
    }
}

/// The groups with one more task.
pub open spec fn grouped(g: Groups, stage: Seq<char>, member: (Seq<char>, Seq<char>)) -> Groups {
    match group_index(g, stage) {
        Some(i) => g.update(i, (stage, g[i].1.push(member))),
        None => g.push((stage, seq![member])),
    }
}

/// The running tasks by stage, stages in the order of their first task.
pub open spec fn running_groups(tasks: Seq<TaskV>) -> Groups
    decreases tasks.len(),
{
    if tasks.len() == 0 {
        Seq::empty()
    } else {
        let g = running_groups(tasks.drop_last());
        let t = tasks.last();
        if t.state is Running {
            grouped(g, t.stage_id, (t.task_id, t.worker_id))
        } else {
            g
        }
    }
}

/// Whether a new checkpoint of a job is due: it runs, and it was never triggered
/// or its interval has passed.
pub open spec fn trigger_due(j: JobV, now: i64) -> bool {
    j.state is Running && (j.last_checkpoint_trigger_ms <= 0 || now - j.last_checkpoint_trigger_ms
        >= j.checkpoint_interval_ms as i64)
}

/// One more than `n`, as far as there is room.
pub open spec fn following(n: u64) -> u64 {
    if n < u64::MAX { (n + 1) as u64 } else { n }
}

/// One more than `n`, as far as there is room.
pub fn next_after(n: u64) -> (r: u64)
    ensures
        r == following(n),
{
    if n < u64::MAX {
        n + 1
    } else {
        n
    }
}

/// The checkpoint that a group of tasks takes part in from now on.
pub open spec fn new_pending(job: Seq<char>, group: (Seq<char>, Pairs), id: u64, now: i64) -> PendingV {
    PendingV {
        job_id: job,
        stage_id: group.0,
        checkpoint_id: id,
        triggered_at_ms: now,
        participants: group.1,
        delivered: Seq::empty(),
        awaiting: group.1.map_values(|m: (Seq<char>, Seq<char>)| m.0),
    }
}

/// Checkpoints in flight, the next id, and whether one was triggered.
#[verifier::ext_equal]
pub struct TriggerStep {
    pub pending: Seq<PendingV>,
    pub next: u64,
    pub fired: bool,
}

/// Triggers one checkpoint per group whose pipeline has none in flight.
pub open spec fn trigger_groups(s: TriggerStep, job: Seq<char>, groups: Groups, now: i64) -> TriggerStep
    decreases groups.len(),
{
    if groups.len() == 0 {
        s
    } else {
        let h = trigger_groups(s, job, groups.drop_last(), now);
        let g = groups.last();
        if pending_index(h.pending, job, g.0) is Some {
            h
        } else {
            TriggerStep {
                pending: h.pending.push(new_pending(job, g, h.next, now)),
                next: following(h.next),
                fired: true,
            }
        }
    }
}

/// A job and the checkpoints in flight after its due checkpoints were triggered.
pub open spec fn trigger_job(j: JobV, pending: Seq<PendingV>, now: i64) -> (JobV, Seq<PendingV>) {
    if trigger_due(j, now) {
        let s = trigger_groups(
            TriggerStep { pending, next: j.next_checkpoint_id, fired: false },
            j.job_id,
            running_groups(j.tasks),
            now,
        );
        if s.fired {
            (JobV { next_checkpoint_id: s.next, last_checkpoint_trigger_ms: now, ..j }, s.pending)
        } else {
            (j, s.pending)
        }
    } else {
        (j, pending)
    }
}

/// All jobs and the checkpoints in flight after the due ones were triggered.
pub open spec fn trigger_jobs(jobs: Seq<JobV>, pending: Seq<PendingV>, now: i64) -> (Seq<JobV>, Seq<PendingV>)
    decreases jobs.len(),
{
    if jobs.len() == 0 {
        (jobs, pending)
    } else {
        let h = trigger_jobs(jobs.drop_last(), pending, now);
        let r = trigger_job(jobs.last(), h.1, now);
        (h.0.push(r.0), r.1)
    }
}

/// The pipelines among some groups of a job's tasks that have no checkpoint in
/// flight, behind the job.
pub open spec fn idle_stages(job: Seq<char>, groups: Groups, pending: Seq<PendingV>) -> Pairs
    decreases groups.len(),
{
    if groups.len() == 0 {
        Seq::empty()
    } else {
        let h = idle_stages(job, groups.drop_last(), pending);
        let g = groups.last();
        if pending_index(pending, job, g.0) is Some { h } else { h.push((job, g.0)) }
    }
}

/// The pipelines of a job that a checkpoint is due for, behind the job.
pub open spec fn due_stages_of(j: JobV, pending: Seq<PendingV>, now: i64) -> Pairs {
    if trigger_due(j, now) { idle_stages(j.job_id, running_groups(j.tasks), pending) } else { Seq::empty() }
}

/// The pipelines that a checkpoint is due for, each behind its job.
pub open spec fn due_stages(jobs: Seq<JobV>, pending: Seq<PendingV>, now: i64) -> Pairs
    decreases jobs.len(),
{
    if jobs.len() == 0 {
        Seq::empty()
    } else {
        due_stages(jobs.drop_last(), pending, now) + due_stages_of(jobs.last(), pending, now)
    }
}

/// The coordinator once a checkpoint of one pipeline was triggered. Nothing happens
/// when the job does not run, no task of the pipeline runs, or one is in flight.
pub open spec fn stage_triggered(c: CoordinatorV, job: Seq<char>, stage: Seq<char>, at: i64) -> CoordinatorV {
    match index_of(c.jobs, job) {
        None => c,
        Some(k) => {
            let j = c.jobs[k];
            let groups = running_groups(j.tasks);
            match group_index(groups, stage) {
                None => c,
                Some(i) => if j.state is Running && pending_index(c.pending, job, stage) is None {
                    CoordinatorV {
                        jobs: c.jobs.update(
                            k,
                            JobV {
                                next_checkpoint_id: following(j.next_checkpoint_id),
                                last_checkpoint_trigger_ms: at,
                                ..j
                            },
                        ),
                        pending: c.pending.push(new_pending(job, groups[i], j.next_checkpoint_id, at)),
                        ..c
                    }
                } else {
                    c
                },
            }
        },
    }
}

/// What a checkpoint still owes a worker, given the first `n` participants: the
/// tasks told by then, and the triggers handed out.
pub open spec fn delivered_upto(cp: PendingV, worker: Seq<char>, n: nat) -> (Seq<Seq<char>>, Seq<TriggerV>)
    decreases n,
{
    if n == 0 {
        (cp.delivered, Seq::empty())
    } else {
        let h = delivered_upto(cp, worker, (n - 1) as nat);
        let m = cp.participants[n - 1];
        if m.1 == worker && !h.0.contains(m.0) {
            (h.0.push(m.0), h.1.push((m.0, cp.checkpoint_id)))
        } else {
            h
        }
    }
}

/// A checkpoint after its triggers for a worker were handed out.
pub open spec fn told(cp: PendingV, worker: Seq<char>) -> PendingV {
    PendingV { delivered: delivered_upto(cp, worker, cp.participants.len()).0, ..cp }
}

/// The triggers that the checkpoints in flight owe a worker.
pub open spec fn owed_triggers(p: Seq<PendingV>, worker: Seq<char>) -> Seq<TriggerV>
    decreases p.len(),
{
    if p.len() == 0 {
        Seq::empty()
    } else {
        owed_triggers(p.drop_last(), worker) + delivered_upto(p.last(), worker, p.last().participants.len()).1
    }
}

// ---------------------------------------------------------------------------
// Resolving
// ---------------------------------------------------------------------------

/// What tasks are told when a checkpoint ends, each behind its worker.
pub open spec fn notices(participants: Pairs, id: u64, completed: bool) -> Seq<(Seq<char>, ResolutionV)> {
    participants.map_values(|m: (Seq<char>, Seq<char>)| (m.1, (m.0, id, completed)))
}

/// What the participants of a checkpoint are told when it ends.
pub open spec fn resolutions(cp: PendingV, completed: bool) -> Seq<(Seq<char>, ResolutionV)> {
    notices(cp.participants, cp.checkpoint_id, completed)
}

/// `s` without the text `x`.
pub open spec fn without(s: Seq<Seq<char>>, x: Seq<char>) -> Seq<Seq<char>>
    decreases s.len(),
{
    if s.len() == 0 {
        s
    } else {
        let h = without(s.drop_last(), x);
        if s.last() == x { h } else { h.push(s.last()) }
    }
}

/// A task once a checkpoint that it took part in has completed.
pub open spec fn checkpointed_task(t: TaskV, participants: Pairs, id: u64) -> TaskV {
    if lookup(participants, t.task_id) is Some && id > t.last_checkpoint_id {
        TaskV { last_checkpoint_id: id, last_checkpoint_size: 0, ..t }
    } else {
        t
    }
}

/// A job once a checkpoint has completed.
pub open spec fn checkpointed_job(j: JobV, participants: Pairs, id: u64) -> JobV {
    JobV {
        checkpoints_completed: following(j.checkpoints_completed),
        tasks: j.tasks.map_values(|t: TaskV| checkpointed_task(t, participants, id)),
        ..j
    }
}

/// The checkpoint in flight that a task's prepare for `id` belongs to.
pub open spec fn prepare_target(c: CoordinatorV, job: Seq<char>, task: Seq<char>, id: u64) -> Option<int> {
    match named(c.jobs, job) {
        None => None,
        Some(j) => match named(j.tasks, task) {
            None => None,
            Some(t) => match pending_index(c.pending, job, t.stage_id) {
                None => None,
                Some(i) => if c.pending[i].checkpoint_id == id { Some(i) } else { None },
            },
        },
    }
}

/// The coordinator after a task's prepare or failure, and the id of the
/// checkpoint when that resolved it.
pub open spec fn prepared(
    c: CoordinatorV,
    job: Seq<char>,
    task: Seq<char>,
    id: u64,
    success: bool,
) -> (CoordinatorV, Option<u64>) {
    match prepare_target(c, job, task, id) {
        None => (c, None),
        Some(i) => {
            let cp = c.pending[i];
            let left = without(cp.awaiting, task);
            if !success {
                (
                    CoordinatorV { pending: c.pending.remove(i), outbox: c.outbox + resolutions(cp, false), ..c },
                    Some(id),
                )
            } else if left.len() > 0 {
                (CoordinatorV { pending: c.pending.update(i, PendingV { awaiting: left, ..cp }), ..c }, None)
            } else {
                let k = index_of(c.jobs, job)->0;
                (
                    CoordinatorV {
                        pending: c.pending.remove(i),
                        outbox: c.outbox + resolutions(cp, true),
                        jobs: c.jobs.update(k, checkpointed_job(c.jobs[k], cp.participants, id)),
                        ..c
                    },
                    Some(id),
                )
            }
        },
    }
}

/// How a checkpoint ended: its pipeline, whether it completed, and who took part.
pub type Outcome = (Seq<char>, bool, Pairs);

/// The coordinator once a task's prepare or failure was noted, and how the
/// checkpoint ends when that decides it. The checkpoint stays in flight.
pub open spec fn prepare_noted(
    c: CoordinatorV,
    job: Seq<char>,
    task: Seq<char>,
    id: u64,
    success: bool,
) -> (CoordinatorV, Option<Outcome>) {
    match prepare_target(c, job, task, id) {
        None => (c, None),
        Some(i) => {
            let cp = c.pending[i];
            let left = without(cp.awaiting, task);
            if !success {
                (c, Some((cp.stage_id, false, cp.participants)))
            } else {
                (
                    CoordinatorV { pending: c.pending.update(i, PendingV { awaiting: left, ..cp }), ..c },
                    if left.len() > 0 { None } else { Some((cp.stage_id, true, cp.participants)) },
                )
            }
        },
    }
}

/// The coordinator once a checkpoint of a pipeline has ended.
pub open spec fn stage_resolved(c: CoordinatorV, job: Seq<char>, id: u64, end: Outcome) -> CoordinatorV {
    let left = match pending_index(c.pending, job, end.0) {
        Some(i) => if c.pending[i].checkpoint_id == id { c.pending.remove(i) } else { c.pending },
        None => c.pending,
    };
    CoordinatorV {
        pending: left,
        outbox: c.outbox + notices(end.2, id, end.1),
        jobs: match index_of(c.jobs, job) {
            Some(k) => if end.1 {
                c.jobs.update(k, checkpointed_job(c.jobs[k], end.2, id))
            } else {
                c.jobs
            },
            None => c.jobs,
        },
        ..c
    }
}

/// Whether a checkpoint has waited for longer than `timeout`.
pub open spec fn timed_out(cp: PendingV, now: i64, timeout: u64) -> bool {
    now - cp.triggered_at_ms > timeout as i64
}

/// The checkpoints that have not waited too long.
pub open spec fn in_time(p: Seq<PendingV>, now: i64, timeout: u64) -> Seq<PendingV>
    decreases p.len(),
{
    if p.len() == 0 {
        p
    } else {
        let h = in_time(p.drop_last(), now, timeout);
        if timed_out(p.last(), now, timeout) { h } else { h.push(p.last()) }
    }
}

/// What the participants of the checkpoints that waited too long are told.
pub open spec fn timeout_notices(p: Seq<PendingV>, now: i64, timeout: u64) -> Seq<(Seq<char>, ResolutionV)>
    decreases p.len(),
{
    if p.len() == 0 {
        Seq::empty()
    } else {
        let h = timeout_notices(p.drop_last(), now, timeout);
        if timed_out(p.last(), now, timeout) { h + resolutions(p.last(), false) } else { h }
    }
}

/// The checkpoints of other jobs.
pub open spec fn of_others(p: Seq<PendingV>, job: Seq<char>) -> Seq<PendingV>
    decreases p.len(),
{
    if p.len() == 0 {
        p
    } else {
        let h = of_others(p.drop_last(), job);
        if p.last().job_id == job { h } else { h.push(p.last()) }
    }
}

/// What the participants of a dropped job's checkpoints are told.
pub open spec fn drop_notices(p: Seq<PendingV>, job: Seq<char>) -> Seq<(Seq<char>, ResolutionV)>
    decreases p.len(),
{
    if p.len() == 0 {
        Seq::empty()
    } else {
        let h = drop_notices(p.drop_last(), job);
        if p.last().job_id == job { h + resolutions(p.last(), false) } else { h }
    }
}

/// What waits for one worker, oldest first.
pub open spec fn queued_for(q: Seq<(Seq<char>, ResolutionV)>, worker: Seq<char>) -> Seq<ResolutionV>
    decreases q.len(),
{
    if q.len() == 0 {
        Seq::empty()
    } else {
        let h = queued_for(q.drop_last(), worker);
        if q.last().0 == worker { h.push(q.last().1) } else { h }
    }
}

/// What waits for the other workers.
pub open spec fn queued_for_others(
    q: Seq<(Seq<char>, ResolutionV)>,
    worker: Seq<char>,
) -> Seq<(Seq<char>, ResolutionV)>
    decreases q.len(),
{
    if q.len() == 0 {
        q
    } else {
        let h = queued_for_others(q.drop_last(), worker);
        if q.last().0 == worker { h } else { h.push(q.last()) }
    }
}

// ---------------------------------------------------------------------------
// Execution
// ---------------------------------------------------------------------------

/// A stage's running tasks.
struct Group {
    stage_id: String,
    members: Vec<(String, String)>,
}

impl View for Group {
    type V = (Seq<char>, Pairs);

    closed spec fn view(&self) -> (Seq<char>, Pairs) {
        (self.stage_id@, props::pairs_view(self.members@))
    }
}

pub proof fn lemma_group_index(g: Groups, stage: Seq<char>)
    ensures
        match group_index(g, stage) {
            Some(i) => 0 <= i < g.len() && g[i].0 == stage && (forall|k: int|
                0 <= k < i ==> (#[trigger] g[k]).0 != stage),
            None => forall|k: int| 0 <= k < g.len() ==> (#[trigger] g[k]).0 != stage,
        },
    decreases g.len(),
{
    if g.len() > 0 {
        let d = g.drop_last();
        lemma_group_index(d, stage);
        match group_index(d, stage) {
            Some(i) => {
                assert forall|k: int| 0 <= k < i implies (#[trigger] g[k]).0 != stage by {
                    assert(d[k] == g[k]);
                }
            },
            None => {
                assert forall|k: int| 0 <= k < g.len() - 1 implies (#[trigger] g[k]).0 != stage by {
                    assert(d[k] == g[k]);
                }
            },
        }
    }
}

fn add_to_group(groups: &mut Vec<Group>, stage: &String, task: String, worker: String)
    ensures
        values(final(groups)@) == grouped(values(old(groups)@), stage@, (task@, worker@)),
{
    let ghost g = values(groups@);
    let mut i: usize = 0;
    while i < groups.len()
        invariant
            i <= groups@.len(),
            g == values(groups@),
            g == values(old(groups)@),
            forall|k: int| 0 <= k < i ==> (#[trigger] g[k]).0 != stage@,
        decreases groups@.len() - i,
    {
        assert(g[i as int] == groups@[i as int]@);
        if text::same(groups[i].stage_id.as_str(), stage.as_str()) {
            proof {
                lemma_group_index(g, stage@);
            }
            let ghost prev = groups@[i as int].members@;
            groups[i].members.push((task, worker));
            proof {
                assert(props::pairs_view(groups@[i as int].members@) =~= props::pairs_view(prev).push((task@, worker@)));
                assert(values(groups@) =~= g.update(i as int, (stage@, g[i as int].1.push((task@, worker@)))));
            }
            return;
        }
        i += 1;
    }
    proof {
        lemma_group_index(g, stage@);
    }
    let mut members: Vec<(String, String)> = Vec::new();
    members.push((task, worker));
    proof {
        assert(props::pairs_view(members@) =~= seq![(task@, worker@)]);
    }
    groups.push(Group { stage_id: stage.clone(), members });
    assert(values(groups@) =~= g.push((stage@, seq![(task@, worker@)])));
}

fn group_running(job: &RunningJob) -> (r: Vec<Group>)
    ensures
        values(r@) == running_groups(job@.tasks),
{
    let ghost tasks = job@.tasks;
    let mut groups: Vec<Group> = Vec::new();
    let mut i: usize = 0;
    proof {
        assert(tasks.take(0) =~= Seq::empty());
        assert(values(groups@) =~= Seq::empty());
    }
    while i < job.tasks.len()
        invariant
            i <= job.tasks@.len(),
            tasks == values(job.tasks@),
            values(groups@) == running_groups(tasks.take(i as int)),
        decreases job.tasks@.len() - i,
    {
        proof {
            assert(tasks.take(i + 1).drop_last() =~= tasks.take(i as int));
            assert(tasks.take(i + 1).last() == job.tasks@[i as int]@);
        }
        let running: bool = match job.tasks[i].state {
            JobState::Running => true,
            _ => false,
        };
        if running {
            let task = job.tasks[i].task_id.clone();
            let worker = job.tasks[i].worker_id.clone();
            add_to_group(&mut groups, &job.tasks[i].stage_id, task, worker);
        }
        i += 1;
    }
    assert(tasks.take(tasks.len() as int) =~= tasks);
    groups
}

fn find_pending(pending: &Vec<PendingCheckpoint>, job: &str, stage: &str) -> (r: Option<usize>)
    ensures
        match r {
            Some(i) => i < pending@.len() && pending_index(values(pending@), job@, stage@) == Some(i as int),
            None => pending_index(values(pending@), job@, stage@) is None,
        },
{
    let ghost p = values(pending@);
    let mut i: usize = 0;
    while i < pending.len()
        invariant
            i <= pending@.len(),
            p == values(pending@),
            forall|k: int| 0 <= k < i ==> !((#[trigger] p[k]).job_id == job@ && p[k].stage_id == stage@),
        decreases pending@.len() - i,
    {
        assert(p[i as int] == pending@[i as int]@);
        if text::same(pending[i].job_id.as_str(), job) && text::same(pending[i].stage_id.as_str(), stage) {
            proof {
                lemma_pending_index(p, job@, stage@);
            }
            return Some(i);
        }
        i += 1;
    }
    proof {
        lemma_pending_index(p, job@, stage@);
    }
    None
}

fn fresh_pending(job: &String, group: Group, id: u64, now: i64) -> (r: PendingCheckpoint)
    ensures
        r@ == new_pending(job@, group@, id, now),
{
    let mut awaiting: Vec<String> = Vec::new();
    let mut i: usize = 0;
    while i < group.members.len()
        invariant
            i <= group.members@.len(),
            awaiting@.len() == i,
            forall|k: int| 0 <= k < i ==> (#[trigger] awaiting@[k])@ == group.members@[k].0@,
        decreases group.members@.len() - i,
    {
        let id = group.members[i].0.clone();
        awaiting.push(id);
        i += 1;
    }
    let ghost members = props::pairs_view(group.members@);
    proof {
        assert(text::views(awaiting@) =~= members.map_values(|m: (Seq<char>, Seq<char>)| m.0));
    }
    let r = PendingCheckpoint {
        job_id: job.clone(),
        stage_id: group.stage_id,
        checkpoint_id: id,
        triggered_at_ms: now,
        participants: group.members,
        delivered: Vec::new(),
        awaiting,
    };
    assert(r@.delivered =~= Seq::empty());
    r
}

fn runs(job: &RunningJob) -> (r: bool)
    ensures
        r == (job@.state is Running),
{
    match job.state {
        JobState::Running => true,
        _ => false,
    }
}

fn is_due(job: &RunningJob, now: i64) -> (r: bool)
    ensures
        r == trigger_due(job@, now),
{
    if !runs(job) {
        return false;
    }
    if job.last_checkpoint_trigger_ms > 0 {
        let since: i128 = now as i128 - job.last_checkpoint_trigger_ms as i128;
        since >= job.checkpoint_interval_ms as i64 as i128
    } else {
        true
    }
}

fn trigger_one(job: &mut RunningJob, pending: &mut Vec<PendingCheckpoint>, now: i64)
    ensures
        (final(job)@, values(final(pending)@)) == trigger_job(old(job)@, values(old(pending)@), now),
{
    if !is_due(job, now) {
        return;
    }
    let ghost j = job@;
    let mut groups = group_running(job);
    let ghost all = values(groups@);
    let ghost s0 = TriggerStep { pending: values(pending@), next: j.next_checkpoint_id, fired: false };
    let mut next: u64 = job.next_checkpoint_id;
    let mut fired: bool = false;
    proof {
        assert(all.take(0) =~= Seq::empty());
        assert(all.skip(0) =~= all);
    }
    while groups.len() > 0
        invariant
            groups@.len() <= all.len(),
            values(groups@) == all.skip(all.len() - groups@.len()),
            job@ == j,
            (TriggerStep { pending: values(pending@), next, fired }) == trigger_groups(
                s0,
                j.job_id,
                all.take(all.len() - groups@.len()),
                now,
            ),
        decreases groups@.len(),
    {
        let ghost done = all.len() - groups@.len();
        let ghost before = groups@;
        assert(values(groups@)[0] == all[done]);
        let g = groups.remove(0);
        proof {
            assert(g@ == all[done]);
            assert(values(groups@) =~= values(before).skip(1));
            assert(all.skip(done).skip(1) =~= all.skip(done + 1));
            assert(all.take(done + 1).drop_last() =~= all.take(done));
            assert(all.take(done + 1).last() == g@);
        }
        if find_pending(pending, job.job_id.as_str(), g.stage_id.as_str()).is_none() {
            let ghost prev = values(pending@);
            let cp = fresh_pending(&job.job_id, g, next, now);
            let ghost cpv = cp@;
            pending.push(cp);
            assert(values(pending@) =~= prev.push(cpv));
            next = next_after(next);
            fired = true;
        }
    }
    assert(all.take(all.len() as int) =~= all);
    if fired {
        job.next_checkpoint_id = next;
        job.last_checkpoint_trigger_ms = now;
    }
}

fn deliver_to(cp: &mut PendingCheckpoint, worker_id: &str, triggers: &mut Vec<CheckpointTrigger>)
    ensures
        final(cp)@ == told(old(cp)@, worker_id@),
        values(final(triggers)@) == values(old(triggers)@) + delivered_upto(
            old(cp)@,
            worker_id@,
            old(cp)@.participants.len(),
        ).1,
{
    let ghost c = cp@;
    let ghost base = values(triggers@);
    let mut i: usize = 0;
    assert(base + Seq::<TriggerV>::empty() =~= base);
    while i < cp.participants.len()
        invariant
            i <= cp.participants@.len(),
            cp@ == (PendingV { delivered: cp@.delivered, ..c }),
            (cp@.delivered, values(triggers@)) == (
                delivered_upto(c, worker_id@, i as nat).0,
                base + delivered_upto(c, worker_id@, i as nat).1,
            ),
        decreases cp.participants@.len() - i,
    {
        assert(c.participants[i as int] == (cp.participants@[i as int].0@, cp.participants@[i as int].1@));
        if text::same(cp.participants[i].1.as_str(), worker_id) && !text::holds(
            &cp.delivered,
            cp.participants[i].0.as_str(),
        ) {
            let ghost prev = cp.delivered@;
            let ghost sent = triggers@;
            let id = cp.participants[i].0.clone();
            let told_id = id.clone();
            cp.delivered.push(id);
            triggers.push(CheckpointTrigger { task_id: told_id, checkpoint_id: cp.checkpoint_id });
            proof {
                assert(text::views(cp.delivered@) =~= text::views(prev).push(id@));
                assert(values(triggers@) =~= values(sent).push((id@, c.checkpoint_id)));
                assert(base + delivered_upto(c, worker_id@, (i + 1) as nat).1 =~= (base + delivered_upto(
                    c,
                    worker_id@,
                    i as nat,
                ).1).push((id@, c.checkpoint_id)));
            }
        }
        i += 1;
    }
}

fn queue_notices(outbox: &mut Vec<QueuedResolution>, participants: &Vec<(String, String)>, id: u64, completed: bool)
    ensures
        values(final(outbox)@) == values(old(outbox)@) + notices(props::pairs_view(participants@), id, completed),
{
    let ghost base = values(outbox@);
    let ghost pv = props::pairs_view(participants@);
    let ghost all = notices(pv, id, completed);
    let mut i: usize = 0;
    assert(base + all.take(0) =~= base);
    while i < participants.len()
        invariant
            i <= participants@.len(),
            pv == props::pairs_view(participants@),
            all == notices(pv, id, completed),
            values(outbox@) == base + all.take(i as int),
        decreases participants@.len() - i,
    {
        let ghost prev = outbox@;
        let q = QueuedResolution {
            worker_id: participants[i].1.clone(),
            resolution: CheckpointResolution { task_id: participants[i].0.clone(), checkpoint_id: id, completed },
        };
        let ghost qv = q@;
        outbox.push(q);
        proof {
            assert(pv[i as int] == (participants@[i as int].0@, participants@[i as int].1@));
            assert(all[i as int] == qv);
            assert(values(outbox@) =~= values(prev).push(qv));
            assert(base + all.take(i + 1) =~= (base + all.take(i as int)).push(qv));
        }
        i += 1;
    }
    assert(all.take(all.len() as int) =~= all);
}

fn queue_resolutions(outbox: &mut Vec<QueuedResolution>, cp: &PendingCheckpoint, completed: bool)
    ensures
        values(final(outbox)@) == values(old(outbox)@) + resolutions(cp@, completed),
{
    queue_notices(outbox, &cp.participants, cp.checkpoint_id, completed);
}

fn idle_of(job: &RunningJob, pending: &Vec<PendingCheckpoint>, out: &mut Vec<(String, String)>)
    ensures
        props::pairs_view(final(out)@) == props::pairs_view(old(out)@) + idle_stages(
            job@.job_id,
            running_groups(job@.tasks),
            values(pending@),
        ),
{
    let groups = group_running(job);
    let ghost all = values(groups@);
    let ghost p = values(pending@);
    let ghost base = props::pairs_view(out@);
    let mut i: usize = 0;
    proof {
        assert(all.take(0) =~= Seq::empty());
        assert(base + Seq::<(Seq<char>, Seq<char>)>::empty() =~= base);
    }
    while i < groups.len()
        invariant
            i <= groups@.len(),
            all == values(groups@),
            p == values(pending@),
            props::pairs_view(out@) == base + idle_stages(job@.job_id, all.take(i as int), p),
        decreases groups@.len() - i,
    {
        proof {
            assert(all.take(i + 1).drop_last() =~= all.take(i as int));
            assert(all.take(i + 1).last() == groups@[i as int]@);
        }
        if find_pending(pending, job.job_id.as_str(), groups[i].stage_id.as_str()).is_none() {
            let ghost prev = out@;
            let ghost h = idle_stages(job@.job_id, all.take(i as int), p);
            let pair = (job.job_id.clone(), groups[i].stage_id.clone());
            out.push(pair);
            proof {
                let x = (pair.0@, pair.1@);
                assert(props::pairs_view(out@) =~= props::pairs_view(prev).push(x));
                assert((base + h).push(x) =~= base + h.push(x));
            }
        }
        i += 1;
    }
    assert(all.take(all.len() as int) =~= all);
}

fn drop_text(list: &Vec<String>, x: &str) -> (r: Vec<String>)
    ensures
        text::views(r@) == without(text::views(list@), x@),
{
    let ghost all = text::views(list@);
    let mut out: Vec<String> = Vec::new();
    let mut i: usize = 0;
    proof {
        assert(all.take(0) =~= Seq::empty());
        assert(text::views(out@) =~= Seq::empty());
    }
    while i < list.len()
        invariant
            i <= list@.len(),
            all == text::views(list@),
            text::views(out@) == without(all.take(i as int), x@),
        decreases list@.len() - i,
    {
        proof {
            assert(all.take(i + 1).drop_last() =~= all.take(i as int));
            assert(all.take(i + 1).last() == list@[i as int]@);
        }
        if !text::same(list[i].as_str(), x) {
            let ghost prev = out@;
            let s = list[i].clone();
            out.push(s);
            assert(text::views(out@) =~= text::views(prev).push(s@));
        }
        i += 1;
    }
    assert(all.take(all.len() as int) =~= all);
    out
}

fn is_participant(participants: &Vec<(String, String)>, task: &str) -> (r: bool)
    ensures
        r == (lookup(props::pairs_view(participants@), task@) is Some),
{
    let ghost p = props::pairs_view(participants@);
    let mut i: usize = 0;
    while i < participants.len()
        invariant
            i <= participants@.len(),
            p == props::pairs_view(participants@),
            forall|k: int| 0 <= k < i ==> (#[trigger] p[k]).0 != task@,
        decreases participants@.len() - i,
    {
        assert(p[i as int].0 == participants@[i as int].0@);
        if text::same(participants[i].0.as_str(), task) {
            proof {
                props::lemma_lookup(p, task@);
            }
            return true;
        }
        i += 1;
    }
    proof {
        props::lemma_lookup(p, task@);
    }
    false
}

fn mark_checkpointed(job: &mut RunningJob, participants: &Vec<(String, String)>, id: u64)
    ensures
        final(job)@ == checkpointed_job(old(job)@, props::pairs_view(participants@), id),
{
    let ghost j = job@;
    let ghost p = props::pairs_view(participants@);
    job.checkpoints_completed = next_after(job.checkpoints_completed);
    let mut i: usize = 0;
    while i < job.tasks.len()
        invariant
            i <= job.tasks@.len(),
            job.tasks@.len() == j.tasks.len(),
            p == props::pairs_view(participants@),
            job@ == (JobV {
                tasks: job@.tasks,
                checkpoints_completed: following(j.checkpoints_completed),
                ..j
            }),
            forall|k: int| 0 <= k < i ==> #[trigger] job.tasks@[k]@ == checkpointed_task(j.tasks[k], p, id),
            forall|k: int| i <= k < j.tasks.len() ==> #[trigger] job.tasks@[k]@ == j.tasks[k],
        decreases job.tasks@.len() - i,
    {
        assert(job.tasks@[i as int]@ == j.tasks[i as int]);
        if is_participant(participants, job.tasks[i].task_id.as_str()) && id > job.tasks[i].last_checkpoint_id {
            job.tasks[i].last_checkpoint_id = id;
            job.tasks[i].last_checkpoint_size = 0;
        }
        i += 1;
    }
    assert(job@.tasks =~= j.tasks.map_values(|t: TaskV| checkpointed_task(t, p, id)));
}

impl JobCoordinator {
    /// Triggers the coordinated checkpoints that are due and returns the triggers
    /// that `worker_id` has not been handed yet. A pipeline has at most one
    /// checkpoint in flight. A worker that sends its heartbeat late still gets
    /// its triggers.
    pub fn due_checkpoint_triggers(&mut self, worker_id: &str, now: i64) -> (r: Vec<CheckpointTrigger>)
        ensures
            ({
                let t = trigger_jobs(old(self)@.jobs, old(self)@.pending, now);
                values(r@) == owed_triggers(t.1, worker_id@) && final(self)@ == (CoordinatorV {
                    jobs: t.0,
                    pending: t.1.map_values(|cp: PendingV| told(cp, worker_id@)),
                    ..old(self)@
                })
            }),
            final(self).checkpoint_store == old(self).checkpoint_store,
    {
        let ghost jobs = self@.jobs;
        let ghost pend = self@.pending;
        let mut i: usize = 0;
        assert(jobs.take(0) =~= Seq::empty());
        assert(values(self.jobs@).take(0) =~= Seq::empty());
        while i < self.jobs.len()
            invariant
                i <= self.jobs@.len(),
                self.jobs@.len() == jobs.len(),
                self.all_tasks == old(self).all_tasks,
                self.checkpoint_store == old(self).checkpoint_store,
                self.term == old(self).term,
                self.checkpoint_outbox == old(self).checkpoint_outbox,
                forall|k: int| i <= k < jobs.len() ==> #[trigger] self.jobs@[k]@ == jobs[k],
                (values(self.jobs@).take(i as int), values(self.pending_checkpoints@)) == trigger_jobs(
                    jobs.take(i as int),
                    pend,
                    now,
                ),
            decreases self.jobs@.len() - i,
        {
            let ghost before = values(self.jobs@);
            proof {
                assert(jobs.take(i + 1).drop_last() =~= jobs.take(i as int));
                assert(jobs.take(i + 1).last() == jobs[i as int]);
                assert(self.jobs@[i as int]@ == jobs[i as int]);
            }
            trigger_one(&mut self.jobs[i], &mut self.pending_checkpoints, now);
            proof {
                assert(values(self.jobs@).take(i + 1) =~= before.take(i as int).push(self.jobs@[i as int]@));
            }
            i += 1;
        }
        proof {
            assert(jobs.take(jobs.len() as int) =~= jobs);
            assert(values(self.jobs@).take(jobs.len() as int) =~= values(self.jobs@));
        }
        self.deliver_checkpoint_triggers(worker_id)
    }

    /// The triggers that the checkpoints in flight owe a worker; each is handed
    /// out once.
    pub fn deliver_checkpoint_triggers(&mut self, worker_id: &str) -> (r: Vec<CheckpointTrigger>)
        ensures
            values(r@) == owed_triggers(old(self)@.pending, worker_id@),
            final(self)@ == (CoordinatorV {
                pending: old(self)@.pending.map_values(|cp: PendingV| told(cp, worker_id@)),
                ..old(self)@
            }),
            final(self).checkpoint_store == old(self).checkpoint_store,
    {
        let ghost p = values(self.pending_checkpoints@);
        let mut triggers: Vec<CheckpointTrigger> = Vec::new();
        let mut i: usize = 0;
        proof {
            assert(p.take(0) =~= Seq::empty());
            assert(values(triggers@) =~= Seq::empty());
        }
        while i < self.pending_checkpoints.len()
            invariant
                i <= self.pending_checkpoints@.len(),
                self.pending_checkpoints@.len() == p.len(),
                self.jobs == old(self).jobs,
                self.all_tasks == old(self).all_tasks,
                self.checkpoint_store == old(self).checkpoint_store,
                self.term == old(self).term,
                self.checkpoint_outbox == old(self).checkpoint_outbox,
                forall|k: int| 0 <= k < i ==> #[trigger] self.pending_checkpoints@[k]@ == told(p[k], worker_id@),
                forall|k: int| i <= k < p.len() ==> #[trigger] self.pending_checkpoints@[k]@ == p[k],
                values(triggers@) == owed_triggers(p.take(i as int), worker_id@),
            decreases self.pending_checkpoints@.len() - i,
        {
            proof {
                assert(p.take(i + 1).drop_last() =~= p.take(i as int));
                assert(p.take(i + 1).last() == p[i as int]);
                assert(self.pending_checkpoints@[i as int]@ == p[i as int]);
            }
            deliver_to(&mut self.pending_checkpoints[i], worker_id, &mut triggers);
            i += 1;
        }
        proof {
            assert(p.take(p.len() as int) =~= p);
            assert(values(self.pending_checkpoints@) =~= p.map_values(|cp: PendingV| told(cp, worker_id@)));
        }
        triggers
    }

    /// The pipelines that a checkpoint is due for, each behind its job.
    pub fn due_checkpoint_stages(&self, now: i64) -> (r: Vec<(String, String)>)
        ensures
            props::pairs_view(r@) == due_stages(self@.jobs, self@.pending, now),
    {
        let ghost jobs = self@.jobs;
        let mut out: Vec<(String, String)> = Vec::new();
        let mut i: usize = 0;
        proof {
            assert(jobs.take(0) =~= Seq::empty());
            assert(props::pairs_view(out@) =~= Seq::empty());
        }
        while i < self.jobs.len()
            invariant
                i <= self.jobs@.len(),
                jobs == values(self.jobs@),
                props::pairs_view(out@) == due_stages(jobs.take(i as int), self@.pending, now),
            decreases self.jobs@.len() - i,
        {
            proof {
                assert(jobs.take(i + 1).drop_last() =~= jobs.take(i as int));
                assert(jobs.take(i + 1).last() == self.jobs@[i as int]@);
            }
            if is_due(&self.jobs[i], now) {
                idle_of(&self.jobs[i], &self.pending_checkpoints, &mut out);
            } else {
                let ghost h = due_stages(jobs.take(i as int), self@.pending, now);
                assert(h + Seq::<(Seq<char>, Seq<char>)>::empty() =~= h);
            }
            i += 1;
        }
        assert(jobs.take(jobs.len() as int) =~= jobs);
        out
    }

    /// Triggers a checkpoint of one pipeline, at a time that was agreed on.
    pub fn trigger_checkpoint_stage(&mut self, job_id: &str, stage_id: &str, at_ms: i64)
        ensures
            final(self)@ == stage_triggered(old(self)@, job_id@, stage_id@, at_ms),
            final(self).checkpoint_store == old(self).checkpoint_store,
    {
        let ghost c = self@;
        let k = match keyed::find(&self.jobs, job_id) {
            Some(k) => k,
            None => {
                return;
            },
        };
        proof {
            assert(c.jobs[k as int] == self.jobs@[k as int]@);
            keyed::lemma_index_of(c.jobs, job_id@);
        }
        if !runs(&self.jobs[k]) || find_pending(&self.pending_checkpoints, job_id, stage_id).is_some() {
            return;
        }
        let mut groups = group_running(&self.jobs[k]);
        let ghost all = values(groups@);
        let mut i: usize = 0;
        while i < groups.len()
            invariant
                i <= groups@.len(),
                all == values(groups@),
                all == running_groups(c.jobs[k as int].tasks),
                k < self.jobs@.len(),
                c == self@,
                self.checkpoint_store == old(self).checkpoint_store,
                c == old(self)@,
                c.jobs[k as int] == self.jobs@[k as int]@,
                c.jobs[k as int].job_id == job_id@,
                c.jobs[k as int].state is Running,
                index_of(c.jobs, job_id@) == Some(k as int),
                pending_index(c.pending, job_id@, stage_id@) is None,
                forall|n: int| 0 <= n < i ==> (#[trigger] all[n]).0 != stage_id@,
            decreases groups@.len() - i,
        {
            assert(all[i as int] == groups@[i as int]@);
            if text::same(groups[i].stage_id.as_str(), stage_id) {
                proof {
                    lemma_group_index(all, stage_id@);
                }
                let id: u64 = self.jobs[k].next_checkpoint_id;
                let g = groups.remove(i);
                let cp = fresh_pending(&self.jobs[k].job_id, g, id, at_ms);
                let ghost cpv = cp@;
                self.pending_checkpoints.push(cp);
                self.jobs[k].next_checkpoint_id = next_after(id);
                self.jobs[k].last_checkpoint_trigger_ms = at_ms;
                proof {
                    let j = c.jobs[k as int];
                    assert(values(self.pending_checkpoints@) =~= c.pending.push(cpv));
                    assert(values(self.jobs@) =~= c.jobs.update(
                        k as int,
                        JobV {
                            next_checkpoint_id: following(j.next_checkpoint_id),
                            last_checkpoint_trigger_ms: at_ms,
                            ..j
                        },
                    ));
                }
                return;
            }
            i += 1;
        }
        proof {
            lemma_group_index(all, stage_id@);
        }
    }

    /// Notes a task's prepare, or its failure, for a coordinated checkpoint. When
    /// that decides the checkpoint, how it ends is returned: its pipeline, whether
    /// it completed, and the tasks that took part with their workers.
    pub fn note_checkpoint_prepare(
        &mut self,
        job_id: &str,
        task_id: &str,
        checkpoint_id: u64,
        success: bool,
    ) -> (r: Option<(String, bool, Vec<(String, String)>)>)
        ensures
            ({
                let n = prepare_noted(old(self)@, job_id@, task_id@, checkpoint_id, success);
                &&& final(self)@ == n.0
                &&& match r {
                    Some(end) => n.1 == Some((end.0@, end.1, props::pairs_view(end.2@))),
                    None => n.1 is None,
                }
            }),
            final(self).checkpoint_store == old(self).checkpoint_store,
    {
        let ghost c = self@;
        let k = match keyed::find(&self.jobs, job_id) {
            Some(k) => k,
            None => {
                return None;
            },
        };
        assert(c.jobs[k as int] == self.jobs@[k as int]@);
        let stage = match self.jobs[k].task(task_id) {
            Some(t) => t.stage_id.clone(),
            None => {
                return None;
            },
        };
        let i = match find_pending(&self.pending_checkpoints, job_id, stage.as_str()) {
            Some(i) => i,
            None => {
                return None;
            },
        };
        proof {
            assert(c.pending[i as int] == self.pending_checkpoints@[i as int]@);
            lemma_pending_index(c.pending, job_id@, stage@);
        }
        if self.pending_checkpoints[i].checkpoint_id != checkpoint_id {
            return None;
        }
        let participants = props::copy_pairs(&self.pending_checkpoints[i].participants);
        if !success {
            return Some((stage, false, participants));
        }
        let left = drop_text(&self.pending_checkpoints[i].awaiting, task_id);
        assert(text::views(left@).len() == left@.len());
        let waits: bool = left.len() > 0;
        self.pending_checkpoints[i].awaiting = left;
        proof {
            let cp = c.pending[i as int];
            assert(values(self.pending_checkpoints@) =~= c.pending.update(
                i as int,
                PendingV { awaiting: without(cp.awaiting, task_id@), ..cp },
            ));
        }
        if waits {
            None
        } else {
            Some((stage, true, participants))
        }
    }

    /// Ends a checkpoint of a pipeline as was agreed on: its tasks are told, and one
    /// that completed is counted and noted with them.
    pub fn resolve_checkpoint_stage(
        &mut self,
        job_id: &str,
        stage_id: &str,
        checkpoint_id: u64,
        completed: bool,
        participants: &Vec<(String, String)>,
    )
        ensures
            final(self)@ == stage_resolved(
                old(self)@,
                job_id@,
                checkpoint_id,
                (stage_id@, completed, props::pairs_view(participants@)),
            ),
            final(self).checkpoint_store == old(self).checkpoint_store,
    {
        let ghost c = self@;
        if let Some(i) = find_pending(&self.pending_checkpoints, job_id, stage_id) {
            assert(c.pending[i as int] == self.pending_checkpoints@[i as int]@);
            if self.pending_checkpoints[i].checkpoint_id == checkpoint_id {
                let _ = self.pending_checkpoints.remove(i);
                assert(values(self.pending_checkpoints@) =~= c.pending.remove(i as int));
            }
        }
        queue_notices(&mut self.checkpoint_outbox, participants, checkpoint_id, completed);
        if completed {
            if let Some(k) = keyed::find(&self.jobs, job_id) {
                assert(c.jobs[k as int] == self.jobs@[k as int]@);
                mark_checkpointed(&mut self.jobs[k], participants, checkpoint_id);
                proof {
                    assert(self@.jobs =~= c.jobs.update(
                        k as int,
                        checkpointed_job(c.jobs[k as int], props::pairs_view(participants@), checkpoint_id),
                    ));
                }
            }
        }
    }

    /// Takes a task's prepare, or its failure, for a coordinated checkpoint. The
    /// last prepare completes the checkpoint and a failure aborts it; its id is
    /// then returned. What belongs to no checkpoint in flight is ignored.
    pub fn handle_checkpoint_prepare(
        &mut self,
        job_id: &str,
        task_id: &str,
        checkpoint_id: u64,
        success: bool,
    ) -> (r: Option<u64>)
        ensures
            (final(self)@, r) == prepared(old(self)@, job_id@, task_id@, checkpoint_id, success),
            final(self).checkpoint_store == old(self).checkpoint_store,
    {
        let ghost c = self@;
        let k = match keyed::find(&self.jobs, job_id) {
            Some(k) => k,
            None => {
                return None;
            },
        };
        assert(c.jobs[k as int] == self.jobs@[k as int]@);
        let stage = match self.jobs[k].task(task_id) {
            Some(t) => t.stage_id.clone(),
            None => {
                return None;
            },
        };
        let i = match find_pending(&self.pending_checkpoints, job_id, stage.as_str()) {
            Some(i) => i,
            None => {
                return None;
            },
        };
        assert(c.pending[i as int] == self.pending_checkpoints@[i as int]@);
        if self.pending_checkpoints[i].checkpoint_id != checkpoint_id {
            return None;
        }
        if !success {
            let cp = self.pending_checkpoints.remove(i);
            queue_resolutions(&mut self.checkpoint_outbox, &cp, false);
            assert(values(self.pending_checkpoints@) =~= c.pending.remove(i as int));
            return Some(checkpoint_id);
        }
        let left = drop_text(&self.pending_checkpoints[i].awaiting, task_id);
        assert(text::views(left@).len() == left@.len());
        if left.len() > 0 {
            self.pending_checkpoints[i].awaiting = left;
            proof {
                let cp = c.pending[i as int];
                assert(values(self.pending_checkpoints@) =~= c.pending.update(
                    i as int,
                    PendingV { awaiting: without(cp.awaiting, task_id@), ..cp },
                ));
            }
            return None;
        }
        let cp = self.pending_checkpoints.remove(i);
        queue_resolutions(&mut self.checkpoint_outbox, &cp, true);
        assert(values(self.pending_checkpoints@) =~= c.pending.remove(i as int));
        mark_checkpointed(&mut self.jobs[k], &cp.participants, checkpoint_id);
        proof {
            assert(self@.jobs =~= c.jobs.update(
                k as int,
                checkpointed_job(c.jobs[k as int], c.pending[i as int].participants, checkpoint_id),
            ));
        }
        Some(checkpoint_id)
    }

    /// Takes the resolutions that wait for a worker's heartbeat.
    pub fn drain_checkpoint_resolutions(&mut self, worker_id: &str) -> (r: Vec<CheckpointResolution>)
        ensures
            values(r@) == queued_for(old(self)@.outbox, worker_id@),
            final(self)@ == (CoordinatorV {
                outbox: queued_for_others(old(self)@.outbox, worker_id@),
                ..old(self)@
            }),
            final(self).checkpoint_store == old(self).checkpoint_store,
    {
        let ghost q = self@.outbox;
        let mut out: Vec<CheckpointResolution> = Vec::new();
        let mut kept: Vec<QueuedResolution> = Vec::new();
        let mut queue: Vec<QueuedResolution> = Vec::new();
        std::mem::swap(&mut self.checkpoint_outbox, &mut queue);
        proof {
            assert(q.take(0) =~= Seq::empty());
            assert(q.skip(0) =~= q);
            assert(values(out@) =~= Seq::empty());
            assert(values(kept@) =~= Seq::empty());
        }
        while queue.len() > 0
            invariant
                queue@.len() <= q.len(),
                values(queue@) == q.skip(q.len() - queue@.len()),
                values(out@) == queued_for(q.take(q.len() - queue@.len()), worker_id@),
                values(kept@) == queued_for_others(q.take(q.len() - queue@.len()), worker_id@),
            decreases queue@.len(),
        {
            let ghost done = q.len() - queue@.len();
            let ghost before = queue@;
            assert(values(queue@)[0] == q[done]);
            let item = queue.remove(0);
            proof {
                assert(item@ == q[done]);
                assert(values(queue@) =~= values(before).skip(1));
                assert(q.skip(done).skip(1) =~= q.skip(done + 1));
                assert(q.take(done + 1).drop_last() =~= q.take(done));
                assert(q.take(done + 1).last() == item@);
            }
            if text::same(item.worker_id.as_str(), worker_id) {
                let ghost prev = out@;
                let ghost rv = item.resolution@;
                out.push(item.resolution);
                assert(values(out@) =~= values(prev).push(rv));
            } else {
                let ghost prev = kept@;
                let ghost iv = item@;
                kept.push(item);
                assert(values(kept@) =~= values(prev).push(iv));
            }
        }
        assert(q.take(q.len() as int) =~= q);
        self.checkpoint_outbox = kept;
        out
    }

    /// Aborts the coordinated checkpoints that have waited too long for a
    /// prepare, and returns how many.
    pub fn abort_timed_out_checkpoints(&mut self, timeout_ms: u64, now: i64) -> (r: usize)
        ensures
            r == old(self)@.pending.len() - in_time(old(self)@.pending, now, timeout_ms).len(),
            final(self)@ == (CoordinatorV {
                pending: in_time(old(self)@.pending, now, timeout_ms),
                outbox: old(self)@.outbox + timeout_notices(old(self)@.pending, now, timeout_ms),
                ..old(self)@
            }),
            final(self).checkpoint_store == old(self).checkpoint_store,
    {
        let ghost p = self@.pending;
        let ghost base = self@.outbox;
        let mut kept: Vec<PendingCheckpoint> = Vec::new();
        let mut queue: Vec<PendingCheckpoint> = Vec::new();
        std::mem::swap(&mut self.pending_checkpoints, &mut queue);
        let total: usize = queue.len();
        proof {
            assert(p.take(0) =~= Seq::empty());
            assert(p.skip(0) =~= p);
            assert(values(kept@) =~= Seq::empty());
            assert(base + Seq::<(Seq<char>, ResolutionV)>::empty() =~= base);
        }
        while queue.len() > 0
            invariant
                queue@.len() <= p.len(),
                kept@.len() + queue@.len() <= p.len(),
                values(queue@) == p.skip(p.len() - queue@.len()),
                self.jobs == old(self).jobs,
                self.all_tasks == old(self).all_tasks,
                self.checkpoint_store == old(self).checkpoint_store,
                self.term == old(self).term,
                values(kept@) == in_time(p.take(p.len() - queue@.len()), now, timeout_ms),
                self@.outbox == base + timeout_notices(p.take(p.len() - queue@.len()), now, timeout_ms),
            decreases queue@.len(),
        {
            let ghost done = p.len() - queue@.len();
            let ghost before = queue@;
            assert(values(queue@)[0] == p[done]);
            let cp = queue.remove(0);
            proof {
                assert(cp@ == p[done]);
                assert(values(queue@) =~= values(before).skip(1));
                assert(p.skip(done).skip(1) =~= p.skip(done + 1));
                assert(p.take(done + 1).drop_last() =~= p.take(done));
                assert(p.take(done + 1).last() == cp@);
            }
            let waited: i128 = now as i128 - cp.triggered_at_ms as i128;
            let limit: i64 = timeout_ms as i64;
            if waited > limit as i128 {
                queue_resolutions(&mut self.checkpoint_outbox, &cp, false);
                assert((base + timeout_notices(p.take(done), now, timeout_ms)) + resolutions(cp@, false) =~= base + (
                timeout_notices(p.take(done), now, timeout_ms) + resolutions(cp@, false)));
            } else {
                let ghost prev = kept@;
                let ghost cv = cp@;
                kept.push(cp);
                assert(values(kept@) =~= values(prev).push(cv));
            }
        }
        assert(p.take(p.len() as int) =~= p);
        let left: usize = kept.len();
        self.pending_checkpoints = kept;
        total - left
    }

    /// Aborts the coordinated checkpoints of a job that are in flight.
    pub fn drop_pending_checkpoints(&mut self, job_id: &str)
        ensures
            final(self)@ == (CoordinatorV {
                pending: of_others(old(self)@.pending, job_id@),
                outbox: old(self)@.outbox + drop_notices(old(self)@.pending, job_id@),
                ..old(self)@
            }),
            final(self).checkpoint_store == old(self).checkpoint_store,
    {
        let ghost p = self@.pending;
        let ghost base = self@.outbox;
        let mut kept: Vec<PendingCheckpoint> = Vec::new();
        let mut queue: Vec<PendingCheckpoint> = Vec::new();
        std::mem::swap(&mut self.pending_checkpoints, &mut queue);
        proof {
            assert(p.take(0) =~= Seq::empty());
            assert(p.skip(0) =~= p);
            assert(values(kept@) =~= Seq::empty());
            assert(base + Seq::<(Seq<char>, ResolutionV)>::empty() =~= base);
        }
        while queue.len() > 0
            invariant
                queue@.len() <= p.len(),
                values(queue@) == p.skip(p.len() - queue@.len()),
                self.jobs == old(self).jobs,
                self.all_tasks == old(self).all_tasks,
                self.checkpoint_store == old(self).checkpoint_store,
                self.term == old(self).term,
                values(kept@) == of_others(p.take(p.len() - queue@.len()), job_id@),
                self@.outbox == base + drop_notices(p.take(p.len() - queue@.len()), job_id@),
            decreases queue@.len(),
        {
            let ghost done = p.len() - queue@.len();
            let ghost before = queue@;
            assert(values(queue@)[0] == p[done]);
            let cp = queue.remove(0);
            proof {
                assert(cp@ == p[done]);
                assert(values(queue@) =~= values(before).skip(1));
                assert(p.skip(done).skip(1) =~= p.skip(done + 1));
                assert(p.take(done + 1).drop_last() =~= p.take(done));
                assert(p.take(done + 1).last() == cp@);
            }
            if text::same(cp.job_id.as_str(), job_id) {
                queue_resolutions(&mut self.checkpoint_outbox, &cp, false);
                assert((base + drop_notices(p.take(done), job_id@)) + resolutions(cp@, false) =~= base + (drop_notices(
                    p.take(done),
                    job_id@,
                ) + resolutions(cp@, false)));
            } else {
                let ghost prev = kept@;
                let ghost cv = cp@;
                kept.push(cp);
                assert(values(kept@) =~= values(prev).push(cv));
            }
        }
        assert(p.take(p.len() as int) =~= p);
        self.pending_checkpoints = kept;
    }

    /// Cancels a job that is not over yet, together with its checkpoints in
    /// flight. Returns whether there was one.
    pub fn cancel_job(&mut self, job_id: &str, now: i64) -> (r: bool)
        ensures
            r == match named(old(self)@.jobs, job_id@) {
                Some(j) => !j.state.terminal(),
                None => false,
            },
            final(self)@ == if r {
                let i = index_of(old(self)@.jobs, job_id@)->0;
                let j = old(self)@.jobs[i];
                CoordinatorV {
                    jobs: old(self)@.jobs.update(i, JobV { state: StateV::Cancelled, end_time: Some(now), ..j }),
                    pending: of_others(old(self)@.pending, job_id@),
                    outbox: old(self)@.outbox + drop_notices(old(self)@.pending, job_id@),
                    ..old(self)@
                }
            } else {
                old(self)@
            },
            final(self).checkpoint_store == old(self).checkpoint_store,
    {
        let ghost jobs = self@.jobs;
        match keyed::find(&self.jobs, job_id) {
            Some(i) => {
                assert(jobs[i as int] == self.jobs@[i as int]@);
                if self.jobs[i].state.is_terminal() {
                    return false;
                }
                self.jobs[i].state = JobState::Cancelled;
                self.jobs[i].end_time = Some(now);
                assert(self@.jobs =~= jobs.update(
                    i as int,
                    JobV { state: StateV::Cancelled, end_time: Some(now), ..jobs[i as int] },
                ));
                self.drop_pending_checkpoints(job_id);
                true
            },
            None => false,
        }
    }
}

} // verus!
