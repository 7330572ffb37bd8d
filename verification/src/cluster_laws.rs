//! What masters and workers tell each other: how a heartbeat is answered, what reports
//! and commands do, and who is taken for silent.

use vstd::prelude::*;

use crate::checkpoint_coordination::{in_time, timeout_notices};
use crate::checkpoint_store;
use crate::command::{applied, CommandV};
use crate::coordination_laws::lemma_push_contains;
use crate::coordinator_laws::unique_tasks;
use crate::dispatch::{dispatch_one, evicted_job, job_with_task, owner_of, register_one};
use crate::handover_laws::is_over;
use crate::heartbeat::{
    at_least_zero, begin_commands, claim, dispatch_commands, due_commands, fenced, finished, gated, handed_over,
    limited, metered, metered_all, offered, reattached, refreshed, reported_ids, settled, was_silent, ReportV, RequestV,
};
use crate::job::{state_number, state_of_wire, DescriptorV, JobV, StateV};
use crate::job_coordinator::CoordinatorV;
use crate::keyed;
use crate::keyed::{distinct, index_of, named, put_all, Named};
use crate::master::{
    fresh_entry, grace_of, pairs_of, pairs_without, silent, standing, EntryV, MasterV,
};
use crate::master_service::{
    checkpoint_noted, leader_address_of, status_command, status_text, stored, CheckpointReport, TaskStatusReport,
};
use crate::node::{dismissed, looked_after};
use crate::props::Pairs;
use crate::recovery::{classified, lost_of_jobs, overdue, owned_by, released_job, stuck_ids};
use crate::task_reports::{metered_task, reported_job};

verus! {

// ---------------------------------------------------------------------------
// The registry
// ---------------------------------------------------------------------------

/// How a worker stands: one that is not registered is gone, one that accepts tasks is
/// healthy, and one that does not is overloaded.
pub proof fn law_standing(workers: Seq<EntryV>, i: int, other: Seq<char>)
    requires
        distinct(workers),
        0 <= i < workers.len(),
        forall|k: int| 0 <= k < workers.len() ==> (#[trigger] workers[k]).worker_id != other,
    ensures
        workers[i].can_accept ==> standing(workers, workers[i].worker_id) is Healthy,
        !workers[i].can_accept ==> standing(workers, workers[i].worker_id) is Overloaded,
        standing(workers, other) is Dead,
{
    lemma_entry(workers, i);
    keyed::lemma_index_of(workers, other);
    match index_of(workers, other) {
        Some(k) => {
            assert(workers[k].worker_id == other);
        },
        None => {},
    }
}

proof fn lemma_entry(workers: Seq<EntryV>, i: int)
    requires
        distinct(workers),
        0 <= i < workers.len(),
    ensures
        index_of(workers, workers[i].worker_id) == Some(i),
        named(workers, workers[i].worker_id) == Some(workers[i]),
{
    let id = workers[i].worker_id;
    keyed::lemma_index_of(workers, id);
    assert(workers[i].name() == id);
    let k = index_of(workers, id)->0;
    if k != i {
        assert(workers[k].name() == workers[i].name());
    }
}

/// The workers that have been silent for longer than the timeout are found, in order, and
/// no others.
pub proof fn law_silent_workers(w: Seq<EntryV>, timeout: i64, now: i64)
    ensures
        silent(w, timeout, now) == w.filter(|e: EntryV| now - e.last_heartbeat_ms > timeout).map_values(
            |e: EntryV| e.worker_id,
        ),
    decreases w.len(),
{
    reveal(Seq::filter);
    let late = |e: EntryV| now - e.last_heartbeat_ms > timeout;
    let id = |e: EntryV| e.worker_id;
    if w.len() > 0 {
        law_silent_workers(w.drop_last(), timeout, now);
        assert(silent(w, timeout, now) =~= w.filter(late).map_values(id));
    } else {
        assert(silent(w, timeout, now) =~= w.filter(late).map_values(id));
    }
}

/// A worker that registers accepts tasks, is under no load, and was heard of now.
pub proof fn law_new_workers(worker: Seq<char>, address: Seq<char>, now: i64)
    ensures
        ({
            let e = fresh_entry(worker, address, now);
            &&& e.worker_id == worker && e.address == address && e.last_heartbeat_ms == now
            &&& e.load_score == 0 && e.lag_ms == 0 && e.mem_permille == 0 && e.cpu_permille == 0
            &&& e.can_accept
        }),
{
}

/// What is kept of the pairs of a key, and what is left to the other keys.
pub proof fn law_pairs(p: Pairs, key: Seq<char>)
    ensures
        pairs_of(p, key) == p.filter(|e: (Seq<char>, Seq<char>)| e.0 == key).map_values(|e: (Seq<char>, Seq<char>)| e.1),
        pairs_without(p, key) == p.filter(|e: (Seq<char>, Seq<char>)| e.0 != key),
    decreases p.len(),
{
    reveal(Seq::filter);
    let own = |e: (Seq<char>, Seq<char>)| e.0 == key;
    let value = |e: (Seq<char>, Seq<char>)| e.1;
    if p.len() > 0 {
        law_pairs(p.drop_last(), key);
    }
    assert(pairs_of(p, key) =~= p.filter(own).map_values(value));
}

/// How long a missing task is waited for: six heartbeats, and at least half a minute.
pub proof fn law_grace(heartbeat: u64)
    ensures
        grace_of(heartbeat) >= 30_000,
        grace_of(heartbeat) >= 6 * heartbeat,
        grace_of(heartbeat) == 30_000 || grace_of(heartbeat) == 6 * heartbeat,
{
}

// ---------------------------------------------------------------------------
// Heartbeats
// ---------------------------------------------------------------------------

/// A master that learns of a higher term takes it and says nothing else; one that does
/// not lead names the leader; one that leads goes on.
pub proof fn law_gate(m: MasterV, hb: RequestV, leads: bool, hint: Seq<char>)
    requires
        m.heartbeat <= i64::MAX,
    ensures
        ({
            let g = gated(m, hb, leads, hint);
            &&& hb.term > m.coordinator.term ==> (g.1 matches Some(r) && r.term == hb.term && r.leader_hint == ""@
                && r.worker_id == hb.worker_id && r.next_interval_ms == m.heartbeat) && g.0.coordinator.term == hb.term
                && g.0.workers == m.workers && g.0.coordinator.jobs == m.coordinator.jobs
            &&& hb.term <= m.coordinator.term && !leads ==> g.0 == m && (g.1 matches Some(r) && r.term
                == m.coordinator.term && r.leader_hint == hint && r.worker_id == hb.worker_id && r.next_interval_ms
                == m.heartbeat)
            &&& hb.term <= m.coordinator.term && leads ==> g.0 == m && g.1 is None
        }),
{
}

/// A worker was silent when it is known and its last heartbeat is longer ago than the soft
/// timeout.
pub proof fn law_was_silent(workers: Seq<EntryV>, i: int, now: i64, timeout: u64, other: Seq<char>)
    requires
        distinct(workers),
        0 <= i < workers.len(),
        timeout <= i64::MAX,
        forall|k: int| 0 <= k < workers.len() ==> (#[trigger] workers[k]).worker_id != other,
    ensures
        was_silent(workers, workers[i].worker_id, now, timeout) <==> now - workers[i].last_heartbeat_ms > timeout,
        !was_silent(workers, other, now, timeout),
{
    lemma_entry(workers, i);
    keyed::lemma_index_of(workers, other);
    match index_of(workers, other) {
        Some(k) => {
            assert(workers[k].worker_id == other);
        },
        None => {},
    }
}

/// A heartbeat renews what is known of a worker: when it was heard of, and how it stands.
/// Its address stays the one that it registered with.
pub proof fn law_renewed_worker(workers: Seq<EntryV>, hb: RequestV, now: i64)
    ensures
        ({
            let e = refreshed(workers, hb, now);
            &&& e.worker_id == hb.worker_id && e.last_heartbeat_ms == now
            &&& e.load_score == hb.load_score && e.lag_ms == hb.lag_ms && e.mem_permille == hb.mem_permille
            &&& e.cpu_permille == hb.cpu_permille && e.can_accept == hb.can_accept
            &&& named(workers, hb.worker_id) is None ==> e.address == hb.address
            &&& named(workers, hb.worker_id) matches Some(o) ==> e.address == o.address
        }),
{
}

/// Of what a worker may take it is handed the first ones, as many as the limit says; a
/// limit of zero is none.
pub proof fn law_limit<T>(s: Seq<T>, limit: u32)
    ensures
        limited(s, limit).is_prefix_of(s),
        limit == 0 || s.len() <= limit ==> limited(s, limit) == s,
        limit > 0 && s.len() > limit ==> limited(s, limit).len() == limit,
{
    if limit > 0 && s.len() > limit {
        assert(limited(s, limit).is_prefix_of(s));
    }
}

/// A heartbeat renews the worker; one that was silent, or that does not accept tasks, is
/// offered none, and the plan stays; another is offered what it may claim, within the
/// limit.
pub proof fn law_offer(m: MasterV, hb: RequestV, now: i64)
    ensures
        ({
            let o = offered(m, hb, now);
            let s = was_silent(m.workers, hb.worker_id, now, m.soft_timeout);
            &&& named(o.0.workers, hb.worker_id) == Some(refreshed(m.workers, hb, now))
            &&& o.1 == s
            &&& o.0.coordinator.jobs == m.coordinator.jobs
            &&& s || !hb.can_accept ==> o.2.len() == 0 && o.0.coordinator == m.coordinator
            &&& !s && hb.can_accept ==> ({
                let c = claim(MasterV { workers: o.0.workers, ..m }, hb.worker_id, hb.address);
                o.2 == limited(c.out, m.batch_limit) && o.0.coordinator.tasks == c.all
            })
        }),
{
    keyed::lemma_put(m.workers, refreshed(m.workers, hb, now));
}

/// What a heartbeat is answered. The worker gets the tasks that it was offered and that
/// are its own by now, the preemptions and the outcomes that wait for it, and, unless it
/// was silent, the triggers that it is owed; what it got is then no longer kept for it.
pub proof fn law_answer(m: MasterV, worker: Seq<char>, silent: bool, tasks: Seq<DescriptorV>, transferred: bool)
    requires
        m.heartbeat <= i64::MAX,
    ensures
        ({
            let f = finished(m, worker, silent, tasks, transferred);
            let c = m.coordinator;
            &&& f.1.worker_id == worker && f.1.next_interval_ms == m.heartbeat && f.1.term == c.term
            &&& f.1.leader_hint == ""@
            &&& !transferred ==> f.1.pending_tasks.len() == 0
            &&& transferred ==> f.1.pending_tasks == tasks.filter(|d: DescriptorV| owned_by(c.jobs, d.task_id, worker))
            &&& f.1.preempted_task_ids == m.preemptions.filter(|e: (Seq<char>, Seq<char>)| e.0 == worker).map_values(
                |e: (Seq<char>, Seq<char>)| e.1,
            )
            &&& f.0.preemptions == m.preemptions.filter(|e: (Seq<char>, Seq<char>)| e.0 != worker)
            &&& f.1.cancel_jobs == crate::dispatch::cancelled_ids(c.jobs)
            &&& f.1.checkpoint_resolutions == crate::checkpoint_coordination::queued_for(c.outbox, worker)
            &&& f.0.coordinator.outbox == crate::checkpoint_coordination::queued_for_others(c.outbox, worker)
            &&& silent ==> f.1.checkpoint_triggers.len() == 0 && f.0.coordinator.pending == c.pending
            &&& !silent ==> f.1.checkpoint_triggers == crate::checkpoint_coordination::owed_triggers(c.pending, worker)
                && f.0.coordinator.pending.len() == c.pending.len() && forall|i: int|
                0 <= i < c.pending.len() ==> #[trigger] f.0.coordinator.pending[i]
                    == crate::checkpoint_coordination::told(c.pending[i], worker)
            &&& f.0.coordinator.jobs == c.jobs && f.0.coordinator.tasks == c.tasks && f.0.workers == m.workers
        }),
{
    law_pairs(m.preemptions, worker);
    lemma_handed_over(tasks, m.coordinator.jobs, worker);
}

proof fn lemma_handed_over(tasks: Seq<DescriptorV>, jobs: Seq<JobV>, worker: Seq<char>)
    ensures
        handed_over(tasks, jobs, worker) == tasks.filter(|d: DescriptorV| owned_by(jobs, d.task_id, worker)),
    decreases tasks.len(),
{
    reveal(Seq::filter);
    if tasks.len() > 0 {
        lemma_handed_over(tasks.drop_last(), jobs, worker);
    }
}

/// Workers are told of a job exactly when it was cancelled and one of its tasks has not
/// ended.
pub proof fn law_who_hears_of_a_cancellation(jobs: Seq<JobV>, id: Seq<char>)
    ensures
        crate::dispatch::cancelled_ids(jobs).contains(id) <==> exists|k: int|
            0 <= k < jobs.len() && (#[trigger] jobs[k]).job_id == id && is_still_stopping(jobs[k]),
    decreases jobs.len(),
{
    let r = crate::dispatch::cancelled_ids(jobs);
    if jobs.len() == 0 {
        assert(!r.contains(id));
    } else {
        let d = jobs.drop_last();
        let j = jobs.last();
        law_who_hears_of_a_cancellation(d, id);
        lemma_push_contains(crate::dispatch::cancelled_ids(d), j.job_id, id);
        assert(crate::dispatch::unsettled(j.tasks) == exists|x: int|
            0 <= x < j.tasks.len() && !is_over((#[trigger] j.tasks[x]).state));
        if exists|k: int| 0 <= k < d.len() && (#[trigger] d[k]).job_id == id && is_still_stopping(d[k]) {
            let k = choose|k: int| 0 <= k < d.len() && (#[trigger] d[k]).job_id == id && is_still_stopping(d[k]);
            assert(jobs[k] == d[k]);
        }
        if exists|k: int| 0 <= k < jobs.len() && (#[trigger] jobs[k]).job_id == id && is_still_stopping(jobs[k]) {
            let k = choose|k: int| 0 <= k < jobs.len() && (#[trigger] jobs[k]).job_id == id && is_still_stopping(jobs[k]);
            if k < d.len() {
                assert(d[k] == jobs[k]);
            }
        }
        assert(jobs[jobs.len() - 1] == j);
    }
}

/// Whether a job was cancelled and one of its tasks has not ended.
pub open spec fn is_still_stopping(j: JobV) -> bool {
    j.state is Cancelled && exists|x: int| 0 <= x < j.tasks.len() && !is_over((#[trigger] j.tasks[x]).state)
}

/// What a worker that comes back gets for the tasks that it reports: those that are
/// planned for it, or for nobody, are its own; those that are planned for another worker
/// are to be stopped; those that no job has are ignored.
pub proof fn law_whose_tasks(jobs: Seq<JobV>, all: Seq<DescriptorV>, worker: Seq<char>, ids: Seq<Seq<char>>, id: Seq<char>)
    ensures
        classified(jobs, all, worker, ids).0.contains(id) <==> ids.contains(id) && job_with_task(jobs, id) is Some && (
        owner_of(all, id) == worker || owner_of(all, id).len() == 0),
        classified(jobs, all, worker, ids).1.contains(id) <==> ids.contains(id) && job_with_task(jobs, id) is Some
            && owner_of(all, id) != worker && owner_of(all, id).len() > 0,
    decreases ids.len(),
{
    if ids.len() == 0 {
        assert(!classified(jobs, all, worker, ids).0.contains(id));
        assert(!classified(jobs, all, worker, ids).1.contains(id));
    } else {
        let d = ids.drop_last();
        law_whose_tasks(jobs, all, worker, d, id);
        let h = classified(jobs, all, worker, d);
        lemma_push_contains(d, ids.last(), id);
        assert(d.push(ids.last()) =~= ids);
        lemma_push_contains(h.0, ids.last(), id);
        lemma_push_contains(h.1, ids.last(), id);
    }
}

/// The worker that a task is planned for is the one that its descriptor names.
pub proof fn law_owner(all: Seq<DescriptorV>, i: int, owner: Seq<char>)
    requires
        distinct(all),
        0 <= i < all.len(),
    ensures
        crate::props::lookup(all[i].config, "worker_id"@) == Some(owner) ==> owner_of(all, all[i].task_id) == owner,
        crate::props::lookup(all[i].config, "worker_id"@) is None ==> owner_of(all, all[i].task_id).len() == 0,
{
    let id = all[i].task_id;
    keyed::lemma_index_of(all, id);
    assert(all[i].name() == id);
    let k = index_of(all, id)->0;
    if k != i {
        assert(all[k].name() == all[i].name());
    }
}

/// What a worker that comes back gives rise to: it takes up what is its own, and what it
/// should have and does not report is released.
pub proof fn law_coming_back(c: CoordinatorV, worker: Seq<char>, running: Seq<Seq<char>>)
    ensures
        ({
            let r = reattached(c, worker, running);
            let own = classified(c.jobs, c.tasks, worker, running).0;
            let lost = stuck_ids(lost_of_jobs(c.jobs, worker, running, false));
            &&& r.contains(CommandV::AdoptTasks(worker, own)) <==> own.len() > 0
            &&& r.contains(CommandV::ReleaseLostTasks(worker, lost)) <==> lost.len() > 0
            &&& r.len() == (if own.len() > 0 { 1int } else { 0 }) + (if lost.len() > 0 { 1int } else { 0 })
        }),
        forall|ids: Seq<Seq<char>>, i: int|
            0 <= i < ids.len() ==> fenced(worker, ids).len() == ids.len() && #[trigger] fenced(worker, ids)[i] == (
                worker,
                ids[i],
            ),
{
    let r = reattached(c, worker, running);
    let own = classified(c.jobs, c.tasks, worker, running).0;
    let lost = stuck_ids(lost_of_jobs(c.jobs, worker, running, false));
    if own.len() > 0 {
        assert(r[0] == CommandV::AdoptTasks(worker, own));
    }
    if lost.len() > 0 {
        assert(r.last() == CommandV::ReleaseLostTasks(worker, lost));
        assert(r[r.len() - 1] == r.last());
    }
    assert forall|i: int| 0 <= i < r.len() implies (#[trigger] r[i]) is AdoptTasks && own.len() > 0 || r[i] is ReleaseLostTasks
        && lost.len() > 0 by {
    }
}

/// What a heartbeat's numbers say of a task: those below zero say nothing.
pub proof fn law_heartbeat_metrics(jobs: Seq<JobV>, worker: Seq<char>, r: ReportV, k: int, x: int)
    requires
        unique_tasks(jobs),
        0 <= k < jobs.len(),
        0 <= x < jobs[k].tasks.len(),
        jobs[k].tasks[x].task_id == r.task_id,
    ensures
        metered(jobs, worker, r).len() == jobs.len(),
        forall|m: int| 0 <= m < jobs.len() && m != k ==> #[trigger] metered(jobs, worker, r)[m] == jobs[m],
        metered(jobs, worker, r)[k] == (JobV {
            tasks: jobs[k].tasks.update(
                x,
                metered_task(
                    jobs[k].tasks[x],
                    is_over(jobs[k].state),
                    if r.processed_records < 0 { 0 } else { r.processed_records as u64 },
                    r.last_record_at,
                    r.logs,
                    worker,
                    if r.last_checkpoint_id < 0 { 0 } else { r.last_checkpoint_id as u64 },
                    if r.last_checkpoint_size_bytes < 0 { 0 } else { r.last_checkpoint_size_bytes as u64 },
                    r.sink_metrics,
                ),
            ),
            ..jobs[k]
        }),
        forall|n: i64| n < 0 ==> #[trigger] at_least_zero(n) == 0,
{
    let id = r.task_id;
    crate::dispatch::lemma_job_with_task(jobs, id);
    keyed::lemma_index_of(jobs[k].tasks, id);
    assert(jobs[k].tasks[x].name() == id);
    let y = index_of(jobs[k].tasks, id)->0;
    assert(jobs[k].tasks[y].task_id == jobs[k].tasks[x].task_id);
    let m = job_with_task(jobs, id)->0;
    keyed::lemma_index_of(jobs[m].tasks, id);
    let z = index_of(jobs[m].tasks, id)->0;
    assert(jobs[m].tasks[z].task_id == jobs[k].tasks[x].task_id);
}

/// A heartbeat's reports are taken one after the other.
pub proof fn law_reports_in_order(jobs: Seq<JobV>, worker: Seq<char>, tasks: Seq<ReportV>, r: ReportV)
    ensures
        metered_all(jobs, worker, Seq::empty()) == jobs,
        metered_all(jobs, worker, tasks.push(r)) == metered(metered_all(jobs, worker, tasks), worker, r),
        reported_ids(tasks.push(r)) == reported_ids(tasks).push(r.task_id),
{
    assert(tasks.push(r).drop_last() =~= tasks);
    assert(reported_ids(tasks.push(r)) =~= reported_ids(tasks).push(r.task_id));
}

/// A task of a cancelled job that its worker no longer runs is reported as cancelled, and
/// one that is missing for longer than the grace is released.
pub proof fn law_settling(m: MasterV, hb: RequestV, now: i64)
    ensures
        ({
            let s = settled(m, hb, now);
            let jobs = metered_all(m.coordinator.jobs, hb.worker_id, hb.tasks);
            let stuck = lost_of_jobs(jobs, hb.worker_id, reported_ids(hb.tasks), true);
            let g = crate::master::graced(m.lost_since, jobs, hb.worker_id, reported_ids(hb.tasks), now, m.grace);
            &&& s.0.coordinator.jobs == jobs
            &&& s.0.lost_since == g.0
            &&& s.1.len() == stuck.len() + (if g.1.len() > 0 { 1int } else { 0 })
            &&& forall|i: int|
                0 <= i < stuck.len() ==> (#[trigger] s.1[i] == (CommandV::TaskStatus {
                    job_id: stuck[i].job_id,
                    task_id: stuck[i].task_id,
                    worker_id: stuck[i].worker_id,
                    state: "CANCELLED"@,
                    records: stuck[i].processed_records,
                    error: None,
                }))
            &&& g.1.len() > 0 ==> s.1.last() == CommandV::ReleaseLostTasks(hb.worker_id, stuck_ids(g.1))
        }),
{
}

/// What is handed out is marked so, in one command; checkpoints begin by one command each,
/// and none for a worker that was silent.
pub proof fn law_heartbeat_commands(tasks: Seq<DescriptorV>, worker: Seq<char>, stages: Pairs, c: CoordinatorV, now: i64, i: int)
    ensures
        tasks.len() == 0 ==> dispatch_commands(tasks, worker).len() == 0,
        tasks.len() > 0 ==> dispatch_commands(tasks, worker).len() == 1 && (dispatch_commands(tasks, worker)[0] matches
            CommandV::MarkDispatched(ids, w) && w == worker && ids.len() == tasks.len() && (0 <= i < ids.len() ==> ids[i]
            == tasks[i].task_id)),
        begin_commands(stages, now).len() == stages.len(),
        0 <= i < stages.len() ==> begin_commands(stages, now)[i] == CommandV::CheckpointTriggered(
            stages[i].0,
            stages[i].1,
            now,
        ),
        due_commands(c, true, now).len() == 0,
        due_commands(c, false, now) == begin_commands(
            crate::checkpoint_coordination::due_stages(c.jobs, c.pending, now),
            now,
        ),
{
}

// ---------------------------------------------------------------------------
// Reports
// ---------------------------------------------------------------------------

/// What the numbers of a task's state stand for.
pub proof fn law_state_codes(code: i32)
    ensures
        status_text(0) == "CREATED"@ && status_text(1) == "CREATED"@,
        status_text(2) == "RUNNING"@,
        status_text(3) == "COMPLETED"@,
        status_text(4) == "FAILED"@,
        status_text(5) == "CANCELLED"@,
        code < 0 || code > 5 ==> status_text(code) == "UNKNOWN"@,
{
}

/// What the names of states stand for; an unknown one is that of a new task.
pub proof fn law_state_names(s: Seq<char>)
    ensures
        state_of_wire("CREATED"@) is Created,
        state_of_wire("SCHEDULED"@) is Scheduled,
        state_of_wire("DEPLOYING"@) is Deploying,
        state_of_wire("RUNNING"@) is Running,
        state_of_wire("COMPLETED"@) is Completed,
        state_of_wire("FAILED"@) == StateV::Failed("unknown"@),
        state_of_wire("CANCELLED"@) is Cancelled,
        s != "SCHEDULED"@ && s != "DEPLOYING"@ && s != "RUNNING"@ && s != "COMPLETED"@ && s != "FAILED"@ && s
            != "CANCELLED"@ ==> state_of_wire(s) is Created,
        StateV::Created.wire() == "CREATED"@ && StateV::Scheduled.wire() == "SCHEDULED"@,
        StateV::Deploying.wire() == "DEPLOYING"@ && StateV::Running.wire() == "RUNNING"@,
        StateV::Completed.wire() == "COMPLETED"@ && StateV::Cancelled.wire() == "CANCELLED"@,
        StateV::Failed(s).wire() == "FAILED"@,
{
    reveal_strlit("CREATED");
    reveal_strlit("SCHEDULED");
    reveal_strlit("DEPLOYING");
    reveal_strlit("RUNNING");
    reveal_strlit("COMPLETED");
    reveal_strlit("FAILED");
    reveal_strlit("CANCELLED");
    assert("CREATED"@[0] != "RUNNING"@[0]);
    assert("SCHEDULED"@[0] != "DEPLOYING"@[0]);
    assert("SCHEDULED"@[0] != "COMPLETED"@[0]);
    assert("SCHEDULED"@[0] != "CANCELLED"@[0]);
    assert("DEPLOYING"@[0] != "COMPLETED"@[0]);
    assert("DEPLOYING"@[0] != "CANCELLED"@[0]);
    assert("COMPLETED"@[1] != "CANCELLED"@[1]);
}

/// The numbers of a job's state.
pub proof fn law_state_numbers(reason: Seq<char>)
    ensures
        state_number(StateV::Created) == 1,
        state_number(StateV::Scheduled) == 2 && state_number(StateV::Deploying) == 2,
        state_number(StateV::Running) == 3,
        state_number(StateV::Completed) == 4,
        state_number(StateV::Failed(reason)) == 5,
        state_number(StateV::Cancelled) == 6,
        crate::client_queries::task_number(StateV::Created) == 1,
        crate::client_queries::task_number(StateV::Scheduled) == 1,
        crate::client_queries::task_number(StateV::Deploying) == 2,
        crate::client_queries::task_number(StateV::Running) == 2,
        crate::client_queries::task_number(StateV::Completed) == 3,
        crate::client_queries::task_number(StateV::Failed(reason)) == 4,
        crate::client_queries::task_number(StateV::Cancelled) == 5,
{
}

/// A worker's report of a task is passed on as it is: an empty message is no error, and
/// records below zero are none.
pub proof fn law_status_reports(r: TaskStatusReport)
    ensures
        status_command(r) matches CommandV::TaskStatus { job_id, task_id, worker_id, state, records, error } && job_id
            == r.job_id@ && task_id == r.task_id@ && worker_id == r.worker_id@ && state == status_text(r.state) && (
        r.processed_records >= 0 ==> records == r.processed_records) && (r.processed_records < 0 ==> records == 0) && (
        r.error_message@.len() == 0 ==> error is None) && (r.error_message@.len() > 0 ==> error == Some(r.error_message@)),
{
}

/// What becomes of a worker's report of a checkpoint. Its bytes are kept when it succeeded
/// and has some. The last checkpoint of a task, with the id of minus one, does nothing
/// else; a prepare is noted for the checkpoint in flight, and ends it when it decides it;
/// any other success is counted.
pub proof fn law_checkpoint_reports(c: CoordinatorV, r: CheckpointReport)
    ensures
        ({
            let n = checkpoint_noted(c, r);
            let id = if r.checkpoint_id < 0 { 0u64 } else { r.checkpoint_id as u64 };
            let kept = if r.success && r.checkpoint_data@.len() > 0 {
                CoordinatorV {
                    store: checkpoint_store::store_saved(c.store, r.job_id@, r.task_id@, id, r.checkpoint_data@, c.keep),
                    ..c
                }
            } else {
                c
            };
            &&& stored(c, r) == kept
            &&& r.checkpoint_id == -1 ==> n == (kept, None::<CommandV>)
            &&& r.checkpoint_id != -1 && r.prepare ==> ({
                let p = crate::checkpoint_coordination::prepare_noted(kept, r.job_id@, r.task_id@, id, r.success);
                n.0 == p.0 && (n.1 is Some <==> p.1 is Some) && (p.1 matches Some(end) ==> n.1 == Some(
                    CommandV::CheckpointResolved(r.job_id@, id, end),
                ))
            })
            &&& r.checkpoint_id != -1 && !r.prepare ==> n.1 is None && n.0.pending == c.pending && n.0.outbox == c.outbox
                && n.0.store == kept.store
            &&& r.checkpoint_id != -1 && !r.prepare && !r.success ==> n.0 == kept
            &&& r.checkpoint_id != -1 && !r.prepare && r.success ==> (index_of(c.jobs, r.job_id@) matches Some(i) ==> (
            c.jobs[i].checkpoints_completed < u64::MAX ==> n.0.jobs == c.jobs.update(
                i,
                JobV { checkpoints_completed: (c.jobs[i].checkpoints_completed + 1) as u64, ..c.jobs[i] },
            )))
        }),
{
}

/// A worker is sent to the leader, when another one is known, and else stays here.
pub proof fn law_leader_address(hint: Seq<char>, advertise: Seq<char>)
    ensures
        leader_address_of(true, hint, advertise) == advertise,
        hint.len() > 0 ==> leader_address_of(false, hint, advertise) == hint,
        hint.len() == 0 ==> leader_address_of(false, hint, advertise) == advertise,
{
}

// ---------------------------------------------------------------------------
// Commands
// ---------------------------------------------------------------------------

/// What a cancellation does to a job that is not over: it is cancelled as of then, its
/// checkpoints in flight are dropped, and their participants hear of it. One that is over
/// or unknown stays.
pub proof fn law_cancellation(c: CoordinatorV, i: int, at: i64, now: i64)
    requires
        distinct(c.jobs),
        0 <= i < c.jobs.len(),
    ensures
        ({
            let r = applied(c, CommandV::CancelJob(c.jobs[i].job_id, at), now);
            &&& is_over(c.jobs[i].state) ==> r == c
            &&& !is_over(c.jobs[i].state) ==> {
                &&& r.jobs == c.jobs.update(i, JobV { state: StateV::Cancelled, end_time: Some(at), ..c.jobs[i] })
                &&& r.pending == crate::checkpoint_coordination::of_others(c.pending, c.jobs[i].job_id)
                &&& r.outbox == c.outbox + crate::checkpoint_coordination::drop_notices(c.pending, c.jobs[i].job_id)
                &&& r.tasks == c.tasks && r.store == c.store && r.term == c.term
            }
        }),
{
    let id = c.jobs[i].job_id;
    keyed::lemma_index_of(c.jobs, id);
    assert(c.jobs[i].name() == id);
    let k = index_of(c.jobs, id)->0;
    if k != i {
        assert(c.jobs[k].name() == c.jobs[i].name());
    }
}

/// What the other commands do, each to the jobs that it speaks of.
pub proof fn law_commands(
    c: CoordinatorV,
    now: i64,
    job: JobV,
    tasks: Seq<DescriptorV>,
    worker: Seq<char>,
    ids: Seq<Seq<char>>,
    id: Seq<char>,
    i: int,
)
    requires
        0 <= i < c.jobs.len(),
    ensures
        ({
            let r = applied(c, CommandV::SubmitJob(job, tasks), now);
            &&& named(r.jobs, job.job_id) == Some(job)
            &&& forall|n: Seq<char>| n != job.job_id ==> #[trigger] named(r.jobs, n) == named(c.jobs, n)
            &&& r.tasks == put_all(c.tasks, tasks)
            &&& r.pending == c.pending && r.outbox == c.outbox && r.store == c.store && r.term == c.term
        }),
        ({
            let r = applied(c, CommandV::EvictWorker(worker), now);
            r.jobs.len() == c.jobs.len() && r.jobs[i] == evicted_job(c.jobs[i], worker) && r == (CoordinatorV {
                jobs: r.jobs,
                ..c
            })
        }),
        ({
            let r = applied(c, CommandV::ReleaseLostTasks(worker, ids), now);
            r.jobs.len() == c.jobs.len() && r.jobs[i] == released_job(c.jobs[i], worker, ids) && r == (CoordinatorV {
                jobs: r.jobs,
                ..c
            })
        }),
        applied(c, CommandV::MarkDispatched(Seq::empty(), worker), now) == c,
        applied(c, CommandV::MarkDispatched(ids.push(id), worker), now).jobs == dispatch_one(
            applied(c, CommandV::MarkDispatched(ids, worker), now).jobs,
            worker,
            id,
        ),
        applied(c, CommandV::AdoptTasks(worker, Seq::empty()), now) == c,
        applied(c, CommandV::AdoptTasks(worker, seq![id]), now).jobs == register_one(
            (c.jobs, Seq::empty()),
            c.tasks,
            worker,
            id,
        ).0,
{
    keyed::lemma_put(c.jobs, job);
    assert(ids.push(id).drop_last() =~= ids);
    assert(seq![id].drop_last() =~= Seq::<Seq<char>>::empty());
}

/// A report of a task reaches the job that it names, and only that one.
pub proof fn law_status_command(
    c: CoordinatorV,
    i: int,
    task: Seq<char>,
    worker: Seq<char>,
    state: Seq<char>,
    records: u64,
    error: Option<Seq<char>>,
    now: i64,
)
    requires
        distinct(c.jobs),
        0 <= i < c.jobs.len(),
    ensures
        ({
            let cmd = CommandV::TaskStatus {
                job_id: c.jobs[i].job_id,
                task_id: task,
                worker_id: worker,
                state,
                records,
                error,
            };
            let r = applied(c, cmd, now);
            &&& r == (CoordinatorV { jobs: r.jobs, ..c })
            &&& r.jobs == c.jobs.update(i, reported_job(c.jobs[i], task, state_of_wire(state), records, error, now))
        }),
{
    let id = c.jobs[i].job_id;
    keyed::lemma_index_of(c.jobs, id);
    assert(c.jobs[i].name() == id);
    let k = index_of(c.jobs, id)->0;
    if k != i {
        assert(c.jobs[k].name() == c.jobs[i].name());
    }
}

// ---------------------------------------------------------------------------
// Looking after a cluster
// ---------------------------------------------------------------------------

/// What a master does from time to time: it dismisses the workers that have been silent
/// for longer than the timeout and evicts each of them, gives up the checkpoints that have
/// waited for too long, and reports the tasks of overdue cancellations as cancelled.
pub proof fn law_looking_after(m: MasterV, eviction: u64, checkpoint: u64, now: i64, i: int)
    requires
        eviction <= i64::MAX,
    ensures
        ({
            let r = looked_after(m, eviction, checkpoint, now);
            let gone = m.workers.filter(|e: EntryV| now - e.last_heartbeat_ms > eviction).map_values(
                |e: EntryV| e.worker_id,
            );
            let late = overdue(m.coordinator.jobs, m.force_timeout, now);
            &&& r.1.len() == gone.len() + late.len()
            &&& 0 <= i < gone.len() ==> r.1[i] == CommandV::EvictWorker(gone[i])
            &&& 0 <= i < late.len() ==> (r.1[gone.len() + i] == (CommandV::TaskStatus {
                job_id: late[i].job_id,
                task_id: late[i].task_id,
                worker_id: late[i].worker_id,
                state: "CANCELLED"@,
                records: late[i].processed_records,
                error: None,
            }))
            &&& r.0.coordinator.pending == in_time(m.coordinator.pending, now, checkpoint)
            &&& r.0.coordinator.outbox == m.coordinator.outbox + timeout_notices(m.coordinator.pending, now, checkpoint)
            &&& r.0.workers == dismissed(m.workers, gone)
            &&& r.0.coordinator.jobs == m.coordinator.jobs
        }),
{
    law_silent_workers(m.workers, eviction as i64, now);
    assert((|e: EntryV| now - e.last_heartbeat_ms > eviction as i64) =~= (|e: EntryV| now - e.last_heartbeat_ms > eviction));
}

/// A dismissed worker is no longer registered, and the others are.
pub proof fn law_dismissal(w: Seq<EntryV>, ids: Seq<Seq<char>>, id: Seq<char>)
    requires
        distinct(w),
    ensures
        distinct(dismissed(w, ids)),
        ids.contains(id) ==> named(dismissed(w, ids), id) is None,
        !ids.contains(id) ==> named(dismissed(w, ids), id) == named(w, id),
    decreases ids.len(),
{
    if ids.len() > 0 {
        let d = ids.drop_last();
        law_dismissal(w, d, id);
        lemma_push_contains(d, ids.last(), id);
        assert(d.push(ids.last()) =~= ids);
        lemma_removed(dismissed(w, d), ids.last(), id);
    }
}

proof fn lemma_removed(w: Seq<EntryV>, gone: Seq<char>, id: Seq<char>)
    requires
        distinct(w),
    ensures
        ({
            let r = match index_of(w, gone) {
                Some(i) => w.remove(i),
                None => w,
            };
            &&& distinct(r)
            &&& named(r, gone) is None
            &&& id != gone ==> named(r, id) == named(w, id)
        }),
{
    keyed::lemma_index_of(w, gone);
    match index_of(w, gone) {
        Some(i) => {
            let r = w.remove(i);
            assert forall|a: int, b: int| 0 <= a < b < r.len() implies (#[trigger] r[a]).name() != (#[trigger] r[b]).name() by {
                let x = if a < i { a } else { a + 1 };
                let y = if b < i { b } else { b + 1 };
                assert(w[x].name() != w[y].name());
            }
            keyed::lemma_index_of(r, gone);
            match index_of(r, gone) {
                Some(k) => {
                    let x = if k < i { k } else { k + 1 };
                    assert(w[x].name() == gone && w[i].name() == gone);
                    if x < i {
                        assert(w[x].name() != w[i].name());
                    } else {
                        assert(w[i].name() != w[x].name());
                    }
                },
                None => {},
            }
            if id != gone {
                keyed::lemma_index_of(r, id);
                keyed::lemma_index_of(w, id);
                match index_of(w, id) {
                    Some(x) => {
                        let y = if x < i { x } else { x - 1 };
                        assert(r[y] == w[x]);
                        assert(r[y].name() == id);
                        let z = index_of(r, id)->0;
                        if z != y {
                            assert(r[z].name() == r[y].name());
                        }
                    },
                    None => {
                        match index_of(r, id) {
                            Some(k) => {
                                let x = if k < i { k } else { k + 1 };
                                assert(w[x].name() == id);
                            },
                            None => {},
                        }
                    },
                }
            }
        },
        None => {},
    }
}

} // verus!
