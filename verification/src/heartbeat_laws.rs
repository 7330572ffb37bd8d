//! What holds of every heartbeat.

use vstd::prelude::*;

use crate::command::{applied_all, CommandV};
use crate::dispatch::{job_with_task, lemma_job_with_task};
use crate::heartbeat::{
    dispatch_commands, due_commands, gated, handed_over, has_nothing, heartbeat, offered, reattaching, reoffered,
    reported_ids, settled, was_silent, with_commands, woken, RequestV,
};
use crate::job::{DescriptorV, JobV, TaskV};
use crate::job_coordinator::CoordinatorV;
use crate::keyed;
use crate::keyed::{index_of, named, Named};
use crate::master::{
    elapsed, graced, is_pinned, missing_since, place_of, since_without, stays_noted, still_missing, watched, MasterV,
    Since,
};
use crate::recovery::{law_only_unreported_tasks_are_lost, lost_of_job, lost_of_jobs, owned_by, stuck_ids, StuckV};

verus! {

/// A worker that has seen a higher term, and a worker that asks a master which
/// does not lead, get no instructions, and nothing changes but the term.
pub proof fn law_only_the_leader_instructs(m: MasterV, hb: RequestV, leads: bool, hint: Seq<char>, now: i64)
    requires
        hb.term > m.coordinator.term || !leads,
    ensures
        has_nothing(heartbeat(m, hb, leads, hint, now).1),
        heartbeat(m, hb, leads, hint, now).0 == (MasterV {
            coordinator: CoordinatorV {
                term: if hb.term > m.coordinator.term { hb.term } else { m.coordinator.term },
                ..m.coordinator
            },
            ..m
        }),
{
}

proof fn lemma_applied_all_term(c: CoordinatorV, cmds: Seq<CommandV>, now: i64)
    ensures
        applied_all(c, cmds, now).term == c.term,
    decreases cmds.len(),
{
    if cmds.len() > 0 {
        lemma_applied_all_term(c, cmds.drop_last(), now);
    }
}

/// The master's term never falls, and an answer carries the current one.
pub proof fn law_term_never_falls(m: MasterV, hb: RequestV, leads: bool, hint: Seq<char>, now: i64)
    ensures
        heartbeat(m, hb, leads, hint, now).0.coordinator.term >= m.coordinator.term,
        heartbeat(m, hb, leads, hint, now).1.term == heartbeat(m, hb, leads, hint, now).0.coordinator.term,
{
    if gated(m, hb, leads, hint).1 is None {
        let unknown = index_of(m.workers, hb.worker_id) is None && hb.tasks.len() > 0;
        let a = if unknown { reattaching(m, hb.worker_id, reported_ids(hb.tasks), now) } else { m };
        if unknown {
            lemma_applied_all_term(
                m.coordinator,
                crate::heartbeat::reattached(m.coordinator, hb.worker_id, reported_ids(hb.tasks)),
                now,
            );
        }
        let s = settled(a, hb, now);
        lemma_applied_all_term(s.0.coordinator, s.1, now);
        let b = with_commands(s.0, s.1, now);
        let o = offered(b, hb, now);
        lemma_applied_all_term(o.0.coordinator, dispatch_commands(o.2, hb.worker_id), now);
        let d = with_commands(o.0, dispatch_commands(o.2, hb.worker_id), now);
        lemma_applied_all_term(d.coordinator, due_commands(d.coordinator, o.1, now), now);
    }
}

proof fn lemma_handed_over(tasks: Seq<DescriptorV>, jobs: Seq<JobV>, worker: Seq<char>)
    ensures
        handed_over(tasks, jobs, worker).len() <= tasks.len(),
    decreases tasks.len(),
{
    if tasks.len() > 0 {
        lemma_handed_over(tasks.drop_last(), jobs, worker);
    }
}

/// A worker that is over a watermark, or that returns from a silence longer than
/// the soft timeout, is handed no tasks; nobody is handed more than the limit.
pub proof fn law_who_is_handed_tasks(m: MasterV, hb: RequestV, leads: bool, hint: Seq<char>, now: i64)
    ensures
        !hb.can_accept || was_silent(m.workers, hb.worker_id, now, m.soft_timeout) ==> heartbeat(
            m,
            hb,
            leads,
            hint,
            now,
        ).1.pending_tasks.len() == 0,
        m.batch_limit > 0 ==> heartbeat(m, hb, leads, hint, now).1.pending_tasks.len() <= m.batch_limit,
{
    if gated(m, hb, leads, hint).1 is None {
        let unknown = index_of(m.workers, hb.worker_id) is None && hb.tasks.len() > 0;
        let a = if unknown { reattaching(m, hb.worker_id, reported_ids(hb.tasks), now) } else { m };
        let s = settled(a, hb, now);
        let b = with_commands(s.0, s.1, now);
        let o = offered(b, hb, now);
        let d = with_commands(o.0, dispatch_commands(o.2, hb.worker_id), now);
        assert(b.workers == m.workers && b.soft_timeout == m.soft_timeout && b.batch_limit == m.batch_limit);
        let e = with_commands(d, due_commands(d.coordinator, o.1, now), now);
        lemma_handed_over(o.2, e.coordinator.jobs, hb.worker_id);
    }
}

proof fn lemma_handed_over_owned(tasks: Seq<DescriptorV>, jobs: Seq<JobV>, worker: Seq<char>)
    ensures
        forall|i: int|
            0 <= i < handed_over(tasks, jobs, worker).len() ==> owned_by(
                jobs,
                (#[trigger] handed_over(tasks, jobs, worker)[i]).task_id,
                worker,
            ),
    decreases tasks.len(),
{
    if tasks.len() > 0 {
        lemma_handed_over_owned(tasks.drop_last(), jobs, worker);
        let h = handed_over(tasks.drop_last(), jobs, worker);
        let r = handed_over(tasks, jobs, worker);
        assert forall|i: int| 0 <= i < r.len() implies owned_by(jobs, (#[trigger] r[i]).task_id, worker) by {
            if i < h.len() {
                assert(r[i] == h[i]);
            }
        }
    }
}

/// A worker is handed only tasks that are its own by then: a task whose transfer did
/// not take effect is not delivered.
pub proof fn law_handed_tasks_are_owned(m: MasterV, hb: RequestV, leads: bool, hint: Seq<char>, now: i64, i: int)
    requires
        0 <= i < heartbeat(m, hb, leads, hint, now).1.pending_tasks.len(),
    ensures
        owned_by(
            heartbeat(m, hb, leads, hint, now).0.coordinator.jobs,
            heartbeat(m, hb, leads, hint, now).1.pending_tasks[i].task_id,
            hb.worker_id,
        ),
{
    let unknown = index_of(m.workers, hb.worker_id) is None && hb.tasks.len() > 0;
    let a = if unknown { reattaching(m, hb.worker_id, reported_ids(hb.tasks), now) } else { m };
    let s = settled(a, hb, now);
    let b = with_commands(s.0, s.1, now);
    let o = offered(b, hb, now);
    let d = with_commands(o.0, dispatch_commands(o.2, hb.worker_id), now);
    let e = with_commands(d, due_commands(d.coordinator, o.1, now), now);
    lemma_handed_over_owned(o.2, e.coordinator.jobs, hb.worker_id);
}

/// The same holds of a heartbeat that was held back.
pub proof fn law_reoffered_tasks_are_owned(m: MasterV, worker: Seq<char>, now: i64, i: int)
    requires
        0 <= i < woken(m, worker, now).1.pending_tasks.len(),
    ensures
        owned_by(
            woken(m, worker, now).0.coordinator.jobs,
            woken(m, worker, now).1.pending_tasks[i].task_id,
            worker,
        ),
{
    let o = reoffered(m, worker);
    let d = with_commands(o.0, dispatch_commands(o.1, worker), now);
    lemma_handed_over_owned(o.1, d.coordinator.jobs, worker);
}

// ---------------------------------------------------------------------------
// The grace period
// ---------------------------------------------------------------------------

proof fn lemma_pushed(l: Since, e: ((Seq<char>, Seq<char>), i64), task: (Seq<char>, Seq<char>))
    ensures
        missing_since(l.push(e), task) == match missing_since(l, task) {
            Some(t) => Some(t),
            None => if e.0 == task { Some(e.1) } else { None },
        },
{
    assert(l.push(e).drop_last() =~= l);
}

proof fn lemma_without(l: Since, gone: (Seq<char>, Seq<char>), task: (Seq<char>, Seq<char>))
    ensures
        missing_since(since_without(l, gone), task) == if task == gone { None } else { missing_since(l, task) },
    decreases l.len(),
{
    if l.len() > 0 {
        lemma_without(l.drop_last(), gone, task);
        if l.last().0 != gone {
            lemma_pushed(since_without(l.drop_last(), gone), l.last(), task);
        }
    }
}

proof fn lemma_still_missing(
    l: Since,
    jobs: Seq<JobV>,
    worker: Seq<char>,
    reported: Seq<Seq<char>>,
    task: (Seq<char>, Seq<char>),
)
    ensures
        missing_since(still_missing(l, jobs, worker, reported), task) == if stays_noted(task, jobs, worker, reported) {
            missing_since(l, task)
        } else {
            None
        },
    decreases l.len(),
{
    if l.len() > 0 {
        let h = still_missing(l.drop_last(), jobs, worker, reported);
        lemma_still_missing(l.drop_last(), jobs, worker, reported, task);
        lemma_pushed(h, l.last(), task);
    }
}

/// The places of some stuck tasks.
pub open spec fn places_of(v: Seq<StuckV>) -> Seq<(Seq<char>, Seq<char>)> {
    v.map_values(|s: StuckV| place_of(s))
}

proof fn lemma_watched_other(l: Since, missing: Seq<StuckV>, now: i64, grace: i64, task: (Seq<char>, Seq<char>))
    requires
        forall|i: int| 0 <= i < missing.len() ==> place_of(#[trigger] missing[i]) != task,
    ensures
        missing_since(watched(l, missing, now, grace).0, task) == missing_since(l, task),
        forall|i: int|
            0 <= i < watched(l, missing, now, grace).1.len() ==> place_of(#[trigger] watched(l, missing, now, grace).1[i])
                != task,
    decreases missing.len(),
{
    if missing.len() > 0 {
        let d = missing.drop_last();
        assert forall|i: int| 0 <= i < d.len() implies place_of(#[trigger] d[i]) != task by {
            assert(d[i] == missing[i]);
        }
        lemma_watched_other(l, d, now, grace, task);
        let h = watched(l, d, now, grace);
        let m = missing.last();
        assert(m == missing[missing.len() - 1]);
        lemma_pushed(h.0, (place_of(m), now), task);
        lemma_without(h.0.push((place_of(m), now)), place_of(m), task);
        lemma_without(h.0, place_of(m), task);
        let r = watched(l, missing, now, grace);
        assert forall|i: int| 0 <= i < r.1.len() implies place_of(#[trigger] r.1[i]) != task by {
            if i < h.1.len() {
                assert(r.1[i] == h.1[i]);
            }
        }
    }
}

/// Since when a task is taken to be missing, when it is missing now.
pub open spec fn counted_from(l: Since, task: (Seq<char>, Seq<char>), now: i64) -> i64 {
    match missing_since(l, task) {
        Some(t) => t,
        None => now,
    }
}

proof fn lemma_watched(l: Since, missing: Seq<StuckV>, now: i64, grace: i64, k: int)
    requires
        places_of(missing).no_duplicates(),
        0 <= k < missing.len(),
    ensures
        ({
            let r = watched(l, missing, now, grace);
            let t = place_of(missing[k]);
            let since = counted_from(l, t, now);
            if elapsed(now, since) >= grace {
                r.1.contains(missing[k]) && missing_since(r.0, t) is None
            } else {
                missing_since(r.0, t) == Some(since) && forall|i: int|
                    0 <= i < r.1.len() ==> place_of(#[trigger] r.1[i]) != t
            }
        }),
    decreases missing.len(),
{
    let d = missing.drop_last();
    let m = missing.last();
    let t = place_of(missing[k]);
    let h = watched(l, d, now, grace);
    let r = watched(l, missing, now, grace);
    let ids = places_of(missing);
    assert(places_of(d).no_duplicates()) by {
        assert forall|i: int, j: int| 0 <= i < d.len() && 0 <= j < d.len() && i != j implies places_of(d)[i]
            != places_of(d)[j] by {
            assert(ids[i] != ids[j]);
        }
    }
    if k == missing.len() - 1 {
        assert forall|i: int| 0 <= i < d.len() implies place_of(#[trigger] d[i]) != t by {
            assert(ids[i] != ids[k]);
        }
        lemma_watched_other(l, d, now, grace, t);
        lemma_pushed(h.0, (t, now), t);
        lemma_without(h.0.push((t, now)), t, t);
        lemma_without(h.0, t, t);
        if elapsed(now, counted_from(l, t, now)) >= grace {
            assert(r.1[r.1.len() - 1] == m);
        }
    } else {
        assert(d[k] == missing[k]);
        lemma_watched(l, d, now, grace, k);
        assert(ids[k] != ids[missing.len() - 1]);
        assert(place_of(m) != t);
        lemma_pushed(h.0, (place_of(m), now), t);
        lemma_without(h.0.push((place_of(m), now)), place_of(m), t);
        lemma_without(h.0, place_of(m), t);
        if elapsed(now, counted_from(l, t, now)) >= grace {
            let i = choose|i: int| 0 <= i < h.1.len() && h.1[i] == missing[k];
            assert(r.1[i] == missing[k]);
        } else {
            assert forall|i: int| 0 <= i < r.1.len() implies place_of(#[trigger] r.1[i]) != t by {
                if i < h.1.len() {
                    assert(r.1[i] == h.1[i]);
                }
            }
        }
    }
}

proof fn lemma_lost_of_job_is_pinned(j: JobV, tasks: Seq<TaskV>, worker: Seq<char>, reported: Seq<Seq<char>>, i: int)
    requires
        0 <= i < lost_of_job(j, tasks, worker, reported, false).len(),
    ensures
        lost_of_job(j, tasks, worker, Seq::empty(), false).contains(
            lost_of_job(j, tasks, worker, reported, false)[i],
        ),
    decreases tasks.len(),
{
    let d = tasks.drop_last();
    let h = lost_of_job(j, d, worker, reported, false);
    let r = lost_of_job(j, tasks, worker, reported, false);
    let hp = lost_of_job(j, d, worker, Seq::empty(), false);
    let rp = lost_of_job(j, tasks, worker, Seq::empty(), false);
    if i < h.len() {
        lemma_lost_of_job_is_pinned(j, d, worker, reported, i);
        let k = choose|k: int| 0 <= k < hp.len() && hp[k] == h[i];
        assert(rp[k] == r[i]);
    } else {
        assert(rp[rp.len() - 1] == r[i]);
    }
}

proof fn lemma_missing_is_pinned(jobs: Seq<JobV>, worker: Seq<char>, reported: Seq<Seq<char>>, i: int)
    requires
        0 <= i < lost_of_jobs(jobs, worker, reported, false).len(),
    ensures
        is_pinned(jobs, lost_of_jobs(jobs, worker, reported, false)[i].task_id, worker),
    decreases jobs.len(),
{
    let d = jobs.drop_last();
    let h = lost_of_jobs(d, worker, reported, false);
    let n = lost_of_job(jobs.last(), jobs.last().tasks, worker, reported, false);
    let r = lost_of_jobs(jobs, worker, reported, false);
    let hp = lost_of_jobs(d, worker, Seq::empty(), false);
    let np = lost_of_job(jobs.last(), jobs.last().tasks, worker, Seq::empty(), false);
    let rp = lost_of_jobs(jobs, worker, Seq::empty(), false);
    let ids = stuck_ids(rp);
    if i < h.len() {
        lemma_missing_is_pinned(d, worker, reported, i);
        let k = choose|k: int| 0 <= k < hp.len() && #[trigger] stuck_ids(hp)[k] == h[i].task_id;
        assert(rp[k] == hp[k]);
        assert(ids[k] == r[i].task_id);
    } else {
        lemma_lost_of_job_is_pinned(jobs.last(), jobs.last().tasks, worker, reported, i - h.len());
        let k = choose|k: int| 0 <= k < np.len() && np[k] == n[i - h.len()];
        assert(rp[hp.len() + k] == r[i]);
        assert(ids[hp.len() + k] == r[i].task_id);
    }
}

/// A missing task is released exactly when it has been missing for the grace
/// period, counted from the first heartbeat of its worker that did not report it.
/// Until then that time stays noted; once released it is forgotten.
pub proof fn law_grace_period(
    l: Since,
    jobs: Seq<JobV>,
    worker: Seq<char>,
    reported: Seq<Seq<char>>,
    now: i64,
    grace: i64,
    k: int,
)
    requires
        places_of(lost_of_jobs(jobs, worker, reported, false)).no_duplicates(),
        0 <= k < lost_of_jobs(jobs, worker, reported, false).len(),
    ensures
        ({
            let lost = lost_of_jobs(jobs, worker, reported, false)[k];
            let g = graced(l, jobs, worker, reported, now, grace);
            let since = counted_from(l, (lost.task_id, worker), now);
            if elapsed(now, since) >= grace {
                g.1.contains(lost) && missing_since(g.0, (lost.task_id, worker)) is None
            } else {
                missing_since(g.0, (lost.task_id, worker)) == Some(since) && forall|i: int|
                    0 <= i < g.1.len() ==> place_of(#[trigger] g.1[i]) != (lost.task_id, worker)
            }
        }),
{
    let missing = lost_of_jobs(jobs, worker, reported, false);
    law_only_unreported_tasks_are_lost(jobs, worker, reported, false);
    let t = place_of(missing[k]);
    assert(missing[k].worker_id == worker);
    assert(stuck_ids(missing)[k] == t.0);
    lemma_still_missing(l, jobs, worker, reported, t);
    lemma_watched(still_missing(l, jobs, worker, reported), missing, now, grace, k);
}

/// A task that its worker reports again, or that is no longer expected of it, is
/// forgotten: a later absence starts a new grace period.
pub proof fn law_grace_starts_anew(
    l: Since,
    jobs: Seq<JobV>,
    worker: Seq<char>,
    reported: Seq<Seq<char>>,
    now: i64,
    grace: i64,
    task: Seq<char>,
)
    requires
        reported.contains(task) || !is_pinned(jobs, task, worker),
    ensures
        missing_since(graced(l, jobs, worker, reported, now, grace).0, (task, worker)) is None,
{
    let missing = lost_of_jobs(jobs, worker, reported, false);
    let ids = stuck_ids(missing);
    law_only_unreported_tasks_are_lost(jobs, worker, reported, false);
    if ids.contains(task) {
        let i = choose|i: int| 0 <= i < ids.len() && ids[i] == task;
        assert(missing[i].task_id == task);
        lemma_missing_is_pinned(jobs, worker, reported, i);
        assert(false);
    }
    assert forall|i: int| 0 <= i < missing.len() implies place_of(#[trigger] missing[i]) != (task, worker) by {
        assert(ids[i] == missing[i].task_id);
        if missing[i].task_id == task {
            assert(ids.contains(task));
        }
    }
    lemma_still_missing(l, jobs, worker, reported, (task, worker));
    lemma_watched_other(still_missing(l, jobs, worker, reported), missing, now, grace, (task, worker));
}

/// The heartbeats of other workers neither shorten nor restart the grace period of
/// a task, and do not release it: its note stays while the task is pinned on its
/// worker.
pub proof fn law_grace_is_the_workers_own(
    l: Since,
    jobs: Seq<JobV>,
    other: Seq<char>,
    reported: Seq<Seq<char>>,
    now: i64,
    grace: i64,
    task: Seq<char>,
    worker: Seq<char>,
)
    requires
        other != worker,
        is_pinned(jobs, task, worker),
    ensures
        ({
            let g = graced(l, jobs, other, reported, now, grace);
            &&& missing_since(g.0, (task, worker)) == missing_since(l, (task, worker))
            &&& forall|i: int| 0 <= i < g.1.len() ==> (#[trigger] g.1[i]).worker_id != worker
        }),
{
    let missing = lost_of_jobs(jobs, other, reported, false);
    law_only_unreported_tasks_are_lost(jobs, other, reported, false);
    assert forall|i: int| 0 <= i < missing.len() implies place_of(#[trigger] missing[i]) != (task, worker) by {
        assert(missing[i].worker_id == other);
    }
    lemma_still_missing(l, jobs, other, reported, (task, worker));
    lemma_watched_other(still_missing(l, jobs, other, reported), missing, now, grace, (task, worker));
    lemma_due_are_missing(still_missing(l, jobs, other, reported), missing, now, grace);
    let g = graced(l, jobs, other, reported, now, grace);
    assert forall|i: int| 0 <= i < g.1.len() implies (#[trigger] g.1[i]).worker_id != worker by {
        assert(missing.contains(g.1[i]));
        let k = choose|k: int| 0 <= k < missing.len() && missing[k] == g.1[i];
        assert(missing[k].worker_id == other);
    }
}

proof fn lemma_due_are_missing(l: Since, missing: Seq<StuckV>, now: i64, grace: i64)
    ensures
        forall|i: int|
            0 <= i < watched(l, missing, now, grace).1.len() ==> missing.contains(
                #[trigger] watched(l, missing, now, grace).1[i],
            ),
    decreases missing.len(),
{
    if missing.len() > 0 {
        let d = missing.drop_last();
        lemma_due_are_missing(l, d, now, grace);
        let h = watched(l, d, now, grace);
        let r = watched(l, missing, now, grace);
        assert forall|i: int| 0 <= i < r.1.len() implies missing.contains(#[trigger] r.1[i]) by {
            if i < h.1.len() {
                assert(r.1[i] == h.1[i]);
                assert(d.contains(h.1[i]));
                let k = choose|k: int| 0 <= k < d.len() && d[k] == h.1[i];
                assert(missing[k] == r.1[i]);
            } else {
                assert(missing[missing.len() - 1] == r.1[i]);
            }
        }
    }
}

/// What a task's sinks have measured on a worker is what clients see of the task once the
/// worker's heartbeat was taken.
pub proof fn law_sink_metrics_reach_clients(
    jobs: Seq<JobV>,
    worker: Seq<char>,
    t: crate::worker::RunningV,
    measured: Seq<crate::worker::MeasuredV>,
)
    requires
        job_with_task(jobs, t.task_id) is Some,
        named(measured, t.task_id) is Some,
        (named(measured, t.task_id)->0).sink_metrics is Some,
    ensures
        ({
            let i = job_with_task(jobs, t.task_id)->0;
            let after = crate::heartbeat::metered(jobs, worker, crate::worker::task_report(t, measured))[i];
            &&& named(after.tasks, t.task_id) is Some
            &&& crate::client_queries::task_status(after, named(after.tasks, t.task_id)->0).sink_metrics == (named(
                measured,
                t.task_id,
            )->0).sink_metrics
        }),
{
    lemma_job_with_task(jobs, t.task_id);
    let i = job_with_task(jobs, t.task_id)->0;
    let after = crate::heartbeat::metered(jobs, worker, crate::worker::task_report(t, measured))[i];
    keyed::lemma_index_of(jobs[i].tasks, t.task_id);
    let k = index_of(jobs[i].tasks, t.task_id)->0;
    assert(after.tasks[k].name() == t.task_id);
    assert forall|x: int| 0 <= x < k implies (#[trigger] after.tasks[x]).name() != t.task_id by {
        assert(jobs[i].tasks[x].name() != t.task_id);
    }
    keyed::lemma_index_is(after.tasks, t.task_id, k);
}

} // verus!
