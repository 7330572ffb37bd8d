//! What holds of cancelled jobs: workers are told of them until their tasks have
//! ended, and no longer than a deadline allows.

use vstd::prelude::*;

use crate::command::{applied, applied_all};
use crate::coordinator_laws::same_jobs;
use crate::dispatch::{cancelled_ids, unsettled};
use crate::heartbeat::cancelled_report;
use crate::job::{JobV, StateV, TaskV};
use crate::job_coordinator::CoordinatorV;
use crate::keyed;
use crate::keyed::{distinct, index_of, named, Named};
use crate::recovery::{cancel_overdue, overdue, unended, StuckV};
use crate::task_reports::reported_task;

verus! {

proof fn lemma_cancelled_ids(jobs: Seq<JobV>, k: int)
    requires
        0 <= k < jobs.len(),
        jobs[k].state is Cancelled,
        unsettled(jobs[k].tasks),
    ensures
        cancelled_ids(jobs).contains(jobs[k].job_id),
    decreases jobs.len(),
{
    let d = jobs.drop_last();
    let r = cancelled_ids(jobs);
    if k == jobs.len() - 1 {
        assert(r[r.len() - 1] == jobs[k].job_id);
    } else {
        assert(d[k] == jobs[k]);
        lemma_cancelled_ids(d, k);
        let h = cancelled_ids(d);
        let i = choose|i: int| 0 <= i < h.len() && h[i] == jobs[k].job_id;
        assert(r[i] == h[i]);
    }
}

/// Whether a job of this id was cancelled and has a task that has not ended.
pub open spec fn to_be_stopped(jobs: Seq<JobV>, id: Seq<char>) -> bool {
    exists|k: int|
        0 <= k < jobs.len() && (#[trigger] jobs[k]).job_id == id && jobs[k].state is Cancelled && unsettled(jobs[k].tasks)
}

proof fn lemma_only_to_be_stopped(jobs: Seq<JobV>)
    ensures
        forall|i: int| 0 <= i < cancelled_ids(jobs).len() ==> to_be_stopped(jobs, #[trigger] cancelled_ids(jobs)[i]),
    decreases jobs.len(),
{
    if jobs.len() > 0 {
        let d = jobs.drop_last();
        lemma_only_to_be_stopped(d);
        let h = cancelled_ids(d);
        let r = cancelled_ids(jobs);
        assert forall|i: int| 0 <= i < r.len() implies to_be_stopped(jobs, #[trigger] r[i]) by {
            if i < h.len() {
                assert(r[i] == h[i]);
                let k = choose|k: int|
                    0 <= k < d.len() && (#[trigger] d[k]).job_id == h[i] && d[k].state is Cancelled && unsettled(
                        d[k].tasks,
                    );
                assert(jobs[k] == d[k]);
            } else {
                assert(jobs[jobs.len() - 1].job_id == r[i]);
            }
        }
    }
}

/// Workers are told of exactly those jobs that were cancelled and have a task that
/// has not ended.
pub proof fn law_who_is_to_be_stopped(jobs: Seq<JobV>, id: Seq<char>)
    ensures
        cancelled_ids(jobs).contains(id) <==> to_be_stopped(jobs, id),
{
    lemma_only_to_be_stopped(jobs);
    if to_be_stopped(jobs, id) {
        let k = choose|k: int|
            0 <= k < jobs.len() && (#[trigger] jobs[k]).job_id == id && jobs[k].state is Cancelled && unsettled(
                jobs[k].tasks,
            );
        lemma_cancelled_ids(jobs, k);
    }
}

/// Whether a list names a task of a job.
pub open spec fn names(late: Seq<StuckV>, job: Seq<char>, task: Seq<char>) -> bool {
    exists|n: int| 0 <= n < late.len() && (#[trigger] late[n]).job_id == job && late[n].task_id == task
}

/// Whether every job has tasks of different ids.
pub open spec fn own_tasks(jobs: Seq<JobV>) -> bool {
    forall|k: int| 0 <= k < jobs.len() ==> distinct((#[trigger] jobs[k]).tasks)
}

/// Whether `t` has ended in `r` when it had ended before, or when a list names it.
pub open spec fn ended(r: TaskV, t: TaskV, job: Seq<char>, late: Seq<StuckV>) -> bool {
    &&& r.task_id == t.task_id
    &&& t.state.terminal() || names(late, job, t.task_id) ==> r.state.terminal()
}

proof fn lemma_reports_end(c: CoordinatorV, late: Seq<StuckV>, now: i64)
    requires
        distinct(c.jobs),
        own_tasks(c.jobs),
    ensures
        ({
            let r = applied_all(c, late.map_values(|s: StuckV| cancelled_report(s)), now);
            &&& same_jobs(r.jobs, c.jobs)
            &&& own_tasks(r.jobs)
            &&& forall|k: int|
                0 <= k < c.jobs.len() ==> (#[trigger] r.jobs[k]).tasks.len() == c.jobs[k].tasks.len() && (
                c.jobs[k].state is Cancelled ==> r.jobs[k].state is Cancelled)
            &&& forall|k: int, x: int|
                0 <= k < c.jobs.len() && 0 <= x < c.jobs[k].tasks.len() ==> ended(
                    #[trigger] r.jobs[k].tasks[x],
                    c.jobs[k].tasks[x],
                    c.jobs[k].job_id,
                    late,
                )
        }),
    decreases late.len(),
{
    let cmds = late.map_values(|s: StuckV| cancelled_report(s));
    if late.len() == 0 {
        assert(cmds =~= Seq::empty());
    } else {
        let d = late.drop_last();
        let s = late.last();
        lemma_reports_end(c, d, now);
        assert(cmds.drop_last() =~= d.map_values(|s: StuckV| cancelled_report(s)));
        let h = applied_all(c, cmds.drop_last(), now);
        let r = applied(h, cancelled_report(s), now);
        assert(r == applied_all(c, cmds, now));
        assert(distinct(h.jobs)) by {
            assert forall|i: int, j: int| 0 <= i < j < h.jobs.len() implies (#[trigger] h.jobs[i]).name() != (
            #[trigger] h.jobs[j]).name() by {
                assert(c.jobs[i].name() != c.jobs[j].name());
            }
        }
        keyed::lemma_index_of(h.jobs, s.job_id);
        assert(crate::job::state_of_wire("CANCELLED"@) is Cancelled) by {
            crate::job::lemma_wire_names();
        }
        match index_of(h.jobs, s.job_id) {
            None => {
                assert(r.jobs == h.jobs);
            },
            Some(k0) => {
                let j = h.jobs[k0];
                keyed::lemma_index_of(j.tasks, s.task_id);
                if let Some(t) = named(j.tasks, s.task_id) {
                    keyed::lemma_put_distinct(
                        j.tasks,
                        reported_task(t, StateV::Cancelled, s.processed_records, None),
                    );
                }
            },
        }
        assert forall|k: int| 0 <= k < c.jobs.len() implies (#[trigger] r.jobs[k]).tasks.len() == c.jobs[k].tasks.len()
            && (c.jobs[k].state is Cancelled ==> r.jobs[k].state is Cancelled) by {
            assert(h.jobs[k].tasks.len() == c.jobs[k].tasks.len());
        }
        assert forall|k: int, x: int|
            0 <= k < c.jobs.len() && 0 <= x < c.jobs[k].tasks.len() implies ended(
            #[trigger] r.jobs[k].tasks[x],
            c.jobs[k].tasks[x],
            c.jobs[k].job_id,
            late,
        ) by {
            let t = c.jobs[k].tasks[x];
            let u = h.jobs[k].tasks[x];
            assert(h.jobs[k].tasks.len() == c.jobs[k].tasks.len());
            assert(ended(u, t, c.jobs[k].job_id, d));
            assert(h.jobs[k].job_id == c.jobs[k].job_id);
            let here = s.job_id == c.jobs[k].job_id && s.task_id == t.task_id;
            if names(late, c.jobs[k].job_id, t.task_id) && !here {
                let n = choose|n: int|
                    0 <= n < late.len() && (#[trigger] late[n]).job_id == c.jobs[k].job_id && late[n].task_id
                        == t.task_id;
                assert(d[n] == late[n]);
                assert(names(d, c.jobs[k].job_id, t.task_id));
            }
            if here {
                assert(h.jobs[k].name() == s.job_id);
                let k0 = index_of(h.jobs, s.job_id)->0;
                if k0 != k {
                    assert(h.jobs[k0].name() == h.jobs[k].name());
                }
                assert(u.name() == s.task_id);
                let x0 = index_of(h.jobs[k].tasks, s.task_id)->0;
                if x0 != x {
                    assert(h.jobs[k].tasks[x0].name() == h.jobs[k].tasks[x].name());
                    assert(distinct(h.jobs[k].tasks));
                }
            }
        }
        assert(own_tasks(r.jobs));
        assert(same_jobs(r.jobs, c.jobs));
    }
}

proof fn lemma_unended(j: JobV, tasks: Seq<TaskV>, x: int)
    requires
        0 <= x < tasks.len(),
        !tasks[x].state.terminal(),
    ensures
        names(unended(j, tasks), j.job_id, tasks[x].task_id),
    decreases tasks.len(),
{
    let d = tasks.drop_last();
    let r = unended(j, tasks);
    if x == tasks.len() - 1 {
        assert(r[r.len() - 1].task_id == tasks[x].task_id && r[r.len() - 1].job_id == j.job_id);
    } else {
        assert(d[x] == tasks[x]);
        lemma_unended(j, d, x);
        let h = unended(j, d);
        let n = choose|n: int| 0 <= n < h.len() && (#[trigger] h[n]).job_id == j.job_id && h[n].task_id == tasks[x].task_id;
        assert(r[n] == h[n]);
    }
}

proof fn lemma_overdue(jobs: Seq<JobV>, timeout: u64, now: i64, k: int, x: int)
    requires
        0 <= k < jobs.len(),
        cancel_overdue(jobs[k], timeout, now),
        0 <= x < jobs[k].tasks.len(),
        !jobs[k].tasks[x].state.terminal(),
    ensures
        names(overdue(jobs, timeout, now), jobs[k].job_id, jobs[k].tasks[x].task_id),
    decreases jobs.len(),
{
    let d = jobs.drop_last();
    let h = overdue(d, timeout, now);
    let r = overdue(jobs, timeout, now);
    let job = jobs[k].job_id;
    let task = jobs[k].tasks[x].task_id;
    if k == jobs.len() - 1 {
        lemma_unended(jobs[k], jobs[k].tasks, x);
        let u = unended(jobs[k], jobs[k].tasks);
        let n = choose|n: int| 0 <= n < u.len() && (#[trigger] u[n]).job_id == job && u[n].task_id == task;
        assert(r[h.len() + n] == u[n]);
    } else {
        assert(d[k] == jobs[k]);
        lemma_overdue(d, timeout, now, k, x);
        let n = choose|n: int| 0 <= n < h.len() && (#[trigger] h[n]).job_id == job && h[n].task_id == task;
        assert(r[n] == h[n]);
    }
}

/// Once the deadline has passed and the reports that it gives rise to were applied,
/// workers are no longer told of a cancelled job.
pub proof fn law_cancellation_ends(c: CoordinatorV, timeout: u64, now: i64, k: int)
    requires
        distinct(c.jobs),
        own_tasks(c.jobs),
        0 <= k < c.jobs.len(),
        cancel_overdue(c.jobs[k], timeout, now),
    ensures
        !cancelled_ids(
            applied_all(
                c,
                overdue(c.jobs, timeout, now).map_values(|s: StuckV| cancelled_report(s)),
                now,
            ).jobs,
        ).contains(c.jobs[k].job_id),
{
    let late = overdue(c.jobs, timeout, now);
    let r = applied_all(c, late.map_values(|s: StuckV| cancelled_report(s)), now);
    lemma_reports_end(c, late, now);
    let id = c.jobs[k].job_id;
    assert(!unsettled(r.jobs[k].tasks)) by {
        if unsettled(r.jobs[k].tasks) {
            let x = choose|x: int| 0 <= x < r.jobs[k].tasks.len() && !(#[trigger] r.jobs[k].tasks[x]).state.terminal();
            assert(ended(r.jobs[k].tasks[x], c.jobs[k].tasks[x], id, late));
            if !c.jobs[k].tasks[x].state.terminal() {
                lemma_overdue(c.jobs, timeout, now, k, x);
            }
        }
    }
    law_who_is_to_be_stopped(r.jobs, id);
    if to_be_stopped(r.jobs, id) {
        let i = choose|i: int|
            0 <= i < r.jobs.len() && (#[trigger] r.jobs[i]).job_id == id && r.jobs[i].state is Cancelled && unsettled(
                r.jobs[i].tasks,
            );
        assert(r.jobs[i].job_id == c.jobs[i].job_id);
        if i != k {
            assert(c.jobs[i].name() == c.jobs[k].name());
        }
    }
}

} // verus!
