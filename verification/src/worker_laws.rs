//! What a worker does on a master's word, what it forwards of checkpoints, when it accepts
//! tasks, and how members of a cluster agree.

use vstd::prelude::*;

use crate::admission::{
    clamped, counted_to, evaluated, healthy, lag_ratio, memory_ratio, no_signals, ratio_permille, seconds_since,
    AdmissionConfig, AdmissionSignals, AdmissionState,
};
use crate::checkpoint_forwarder::{forwarded, forwarded_all, CheckpointForwarder, ForwardV, MessageV};
use crate::command::applied;
use crate::coordination_laws::{lemma_add_contains, lemma_push_contains};
use crate::factory_attrs::{attrs_of, default_category, last_setting, FactoryKind, TokenV};
use crate::heartbeat::ResponseV;
use crate::job::DescriptorV;
use crate::job_coordinator::{ResolutionV, TriggerV};
use crate::job_manager::{cancellable, running_jobs, JobInfoV};
use crate::keyed;
use crate::keyed::{distinct, index_of, Named};
use crate::leader_election::{after_heartbeat, after_vote, grants, majority, ElectionV};
use crate::raft::log_store::{at_index, file_bytes, file_lines, lines_of, rising, within, LogEntry, LogId};
use crate::raft::network::others;
use crate::raft::state_machine::{snapshot_id_of, stepped, stepped_all, LoggedV, MachineV, PayloadV};
use crate::raft::{
    address_of, voter_message, RaftWrite, VoterError, WritePath, BOOTSTRAP_DELAY_SECS, ELECTION_TIMEOUT_MAX_MS,
    ELECTION_TIMEOUT_MIN_MS, HEARTBEAT_INTERVAL_MS, INSTALL_SNAPSHOT_TIMEOUT_MS, MAX_PAYLOAD_ENTRIES,
    SNAPSHOT_EVERY_N_LOGS,
};
use crate::resource_manager;
use crate::resource_manager::least_loaded;
use crate::text;
use crate::worker::{
    assigned_all, end_report, instructed, jobs_cancelled, preempted_all, resolved, scheduled_all, stops, task_report,
    triggered, ActionV, GateV, MeasuredV, RunningV, StepV, TaskEnd, WorkerV,
};

verus! {

// ---------------------------------------------------------------------------
// A master's word
// ---------------------------------------------------------------------------

/// What a worker has to do on a master's word. The clean-up of a cancelled job is
/// scheduled once, after the grace that is configured, a second at least. Tasks of
/// cancelled jobs are stopped, unless they were already, and so are tasks that other
/// workers took. Gated tasks hear of checkpoints that begin and that end. The tasks that
/// are handed out and do not run here yet are started.
pub proof fn law_instructions(w: WorkerV, r: ResponseV, job: Seq<char>, task: Seq<char>, n: u64, done: bool)
    requires
        distinct(w.running),
    ensures
        ({
            let a = instructed(w, r).1;
            &&& a.contains(ActionV::CleanUp(job, n)) <==> r.cancel_jobs.contains(job) && !w.cleanups.contains(job) && (
            w.clean matches Some(c) && n >= 1 && n >= c.grace_secs && (n == 1 || n == c.grace_secs))
            &&& a.contains(ActionV::Cancel(task)) <==> (exists|i: int|
                0 <= i < w.running.len() && (#[trigger] w.running[i]).task_id == task && !w.running[i].cancelled
                    && r.cancel_jobs.contains(w.running[i].job_id)) || (r.preempted_task_ids.contains(task) && exists|i: int|
                0 <= i < w.running.len() && (#[trigger] w.running[i]).task_id == task)
            &&& a.contains(ActionV::Trigger(task, n)) <==> r.checkpoint_triggers.contains((task, n)) && exists|i: int|
                0 <= i < w.gates.len() && (#[trigger] w.gates[i]).task_id == task
            &&& a.contains(ActionV::Resolve(task, n, done)) <==> r.checkpoint_resolutions.contains((task, n, done)) && exists|
                i: int,
            |
                0 <= i < w.gates.len() && (#[trigger] w.gates[i]).task_id == task
        }),
{
    let none = Seq::<ActionV>::empty();
    let a = (WorkerV { term: r.term, ..w }, none);
    let b = jobs_cancelled(a, r.cancel_jobs);
    let c = preempted_all(b, r.preempted_task_ids);
    let t = triggered(c.0.gates, r.checkpoint_triggers);
    let z = resolved(c.0.gates, r.checkpoint_resolutions);
    let d = (c.0, c.1 + t + z);
    let clean = ActionV::CleanUp(job, n);
    let stop = ActionV::Cancel(task);
    let begin = ActionV::Trigger(task, n);
    let end = ActionV::Resolve(task, n, done);
    lemma_running_kept(a, r.cancel_jobs);
    lemma_cancelled_actions(a, r.cancel_jobs, clean);
    lemma_cancelled_actions(a, r.cancel_jobs, stop);
    lemma_cancelled_actions(a, r.cancel_jobs, begin);
    lemma_cancelled_actions(a, r.cancel_jobs, end);
    lemma_preempted_actions(b, r.preempted_task_ids, clean);
    lemma_preempted_actions(b, r.preempted_task_ids, stop);
    lemma_preempted_actions(b, r.preempted_task_ids, begin);
    lemma_preempted_actions(b, r.preempted_task_ids, end);
    lemma_triggered(w.gates, r.checkpoint_triggers, clean);
    lemma_triggered(w.gates, r.checkpoint_triggers, stop);
    lemma_triggered(w.gates, r.checkpoint_triggers, begin);
    lemma_triggered(w.gates, r.checkpoint_triggers, end);
    lemma_resolved(w.gates, r.checkpoint_resolutions, clean);
    lemma_resolved(w.gates, r.checkpoint_resolutions, stop);
    lemma_resolved(w.gates, r.checkpoint_resolutions, begin);
    lemma_resolved(w.gates, r.checkpoint_resolutions, end);
    lemma_assigned_actions(d, r.pending_tasks, clean);
    lemma_assigned_actions(d, r.pending_tasks, stop);
    lemma_assigned_actions(d, r.pending_tasks, begin);
    lemma_assigned_actions(d, r.pending_tasks, end);
    lemma_three(c.1, t, z, clean);
    lemma_three(c.1, t, z, stop);
    lemma_three(c.1, t, z, begin);
    lemma_three(c.1, t, z, end);
    assert(!none.contains(clean) && !none.contains(stop) && !none.contains(begin) && !none.contains(end));
    lemma_is_named(w.running, task);
    lemma_is_named(b.0.running, task);
    lemma_is_named(w.gates, task);
    if exists|i: int| 0 <= i < w.running.len() && (#[trigger] w.running[i]).task_id == task {
        let i = choose|i: int| 0 <= i < w.running.len() && (#[trigger] w.running[i]).task_id == task;
        assert(b.0.running[i].name() == task);
        assert(w.running[i].name() == task);
    }
    if exists|i: int| 0 <= i < b.0.running.len() && (#[trigger] b.0.running[i]).name() == task {
        let i = choose|i: int| 0 <= i < b.0.running.len() && (#[trigger] b.0.running[i]).name() == task;
        assert(w.running[i].task_id == task);
    }
    if exists|i: int| 0 <= i < w.gates.len() && (#[trigger] w.gates[i]).task_id == task {
        let i = choose|i: int| 0 <= i < w.gates.len() && (#[trigger] w.gates[i]).task_id == task;
        assert(w.gates[i].name() == task);
    }
    if exists|i: int| 0 <= i < w.gates.len() && (#[trigger] w.gates[i]).name() == task {
        let i = choose|i: int| 0 <= i < w.gates.len() && (#[trigger] w.gates[i]).name() == task;
        assert(w.gates[i].task_id == task);
    }
}

/// Which tasks a worker starts: of those that are handed out, the ones that do not run
/// here yet, each once.
pub proof fn law_started_tasks(w: WorkerV, r: ResponseV, d: DescriptorV)
    requires
        distinct(w.running),
    ensures
        instructed(w, r).1.contains(ActionV::Start(d)) <==> exists|k: int|
            0 <= k < r.pending_tasks.len() && #[trigger] r.pending_tasks[k] == d && is_first(r.pending_tasks, k) && forall|
                i: int,
            |
                0 <= i < w.running.len() ==> (#[trigger] w.running[i]).task_id != d.task_id,
{
    let none = Seq::<ActionV>::empty();
    let a = (WorkerV { term: r.term, ..w }, none);
    let b = jobs_cancelled(a, r.cancel_jobs);
    let c = preempted_all(b, r.preempted_task_ids);
    let t = triggered(c.0.gates, r.checkpoint_triggers);
    let z = resolved(c.0.gates, r.checkpoint_resolutions);
    let s = (c.0, c.1 + t + z);
    let start = ActionV::Start(d);
    lemma_running_kept(a, r.cancel_jobs);
    lemma_cancelled_actions(a, r.cancel_jobs, start);
    lemma_preempted_actions(b, r.preempted_task_ids, start);
    lemma_triggered(w.gates, r.checkpoint_triggers, start);
    lemma_resolved(w.gates, r.checkpoint_resolutions, start);
    lemma_three(c.1, t, z, start);
    lemma_assigned_actions(s, r.pending_tasks, start);
    assert(!none.contains(start));
    lemma_is_named(s.0.running, d.task_id);
    let runs = exists|i: int| 0 <= i < w.running.len() && (#[trigger] w.running[i]).task_id == d.task_id;
    if runs {
        let i = choose|i: int| 0 <= i < w.running.len() && (#[trigger] w.running[i]).task_id == d.task_id;
        assert(s.0.running[i].name() == d.task_id);
    }
    if exists|i: int| 0 <= i < s.0.running.len() && (#[trigger] s.0.running[i]).name() == d.task_id {
        let i = choose|i: int| 0 <= i < s.0.running.len() && (#[trigger] s.0.running[i]).name() == d.task_id;
        assert(w.running[i].task_id == d.task_id);
    }
}

/// What a worker remembers after a master's word: the term, the clean-ups that are now
/// scheduled, and its running tasks. Those that it had stay, and are marked when they were
/// told to stop; those that it starts come behind them, not marked.
pub proof fn law_after_instructions(w: WorkerV, r: ResponseV, i: int, job: Seq<char>)
    requires
        distinct(w.running),
        0 <= i < w.running.len(),
    ensures
        ({
            let v = instructed(w, r).0;
            let t = w.running[i];
            &&& v.term == r.term && v.gates == w.gates && v.id == w.id && v.address == w.address
            &&& v.storage == w.storage && v.clean == w.clean && v.store == w.store && v.admission == w.admission
            &&& v.cleanups.contains(job) <==> w.cleanups.contains(job) || (w.clean is Some && r.cancel_jobs.contains(job))
            &&& v.running.len() >= w.running.len()
            &&& v.running[i].task_id == t.task_id && v.running[i].job_id == t.job_id
            &&& v.running[i].cancelled <==> t.cancelled || r.cancel_jobs.contains(t.job_id)
                || r.preempted_task_ids.contains(t.task_id)
            &&& forall|k: int| w.running.len() <= k < v.running.len() ==> !(#[trigger] v.running[k]).cancelled
        }),
{
    let a = (WorkerV { term: r.term, ..w }, Seq::<ActionV>::empty());
    let b = jobs_cancelled(a, r.cancel_jobs);
    let c = preempted_all(b, r.preempted_task_ids);
    let s = (c.0, c.1 + triggered(c.0.gates, r.checkpoint_triggers) + resolved(c.0.gates, r.checkpoint_resolutions));
    lemma_running_kept(a, r.cancel_jobs);
    if let Some(clean) = w.clean {
        lemma_scheduled(a, r.cancel_jobs, clean.grace_secs, ActionV::Cancel(job), job);
    }
    lemma_preempted_actions(b, r.preempted_task_ids, ActionV::Cancel(job));
    lemma_assigned_actions(s, r.pending_tasks, ActionV::Cancel(job));
    assert(b.0.running[i].cancelled == (w.running[i].cancelled || r.cancel_jobs.contains(w.running[i].job_id)));
    assert(c.0.running[i].cancelled == (b.0.running[i].cancelled || r.preempted_task_ids.contains(w.running[i].task_id)));
    assert(instructed(w, r).0.running[i] == c.0.running[i]);
}

/// Whether an entry is the first of its task.
pub open spec fn is_first(ds: Seq<DescriptorV>, k: int) -> bool {
    forall|m: int| 0 <= m < k ==> (#[trigger] ds[m]).task_id != ds[k].task_id
}

proof fn lemma_is_named<S: Named>(s: Seq<S>, name: Seq<char>)
    ensures
        index_of(s, name) is Some <==> exists|i: int| 0 <= i < s.len() && (#[trigger] s[i]).name() == name,
{
    keyed::lemma_index_of(s, name);
}

proof fn lemma_three(x: Seq<ActionV>, y: Seq<ActionV>, z: Seq<ActionV>, a: ActionV)
    ensures
        (x + y + z).contains(a) <==> x.contains(a) || y.contains(a) || z.contains(a),
{
    lemma_add_contains(x, y, a);
    lemma_add_contains(x + y, z, a);
}

proof fn lemma_scheduled(s: StepV, jobs: Seq<Seq<char>>, grace: u64, a: ActionV, job: Seq<char>)
    ensures
        ({
            let r = scheduled_all(s, jobs, grace);
            &&& r.0 == (WorkerV { cleanups: r.0.cleanups, ..s.0 })
            &&& r.0.cleanups.contains(job) <==> s.0.cleanups.contains(job) || jobs.contains(job)
            &&& r.1.contains(a) <==> s.1.contains(a) || (a matches ActionV::CleanUp(j, n) && jobs.contains(j)
                && !s.0.cleanups.contains(j) && n >= 1 && n >= grace && (n == 1 || n == grace))
        }),
    decreases jobs.len(),
{
    if jobs.len() > 0 {
        let d = jobs.drop_last();
        let l = jobs.last();
        lemma_scheduled(s, d, grace, a, job);
        lemma_scheduled(s, d, grace, a, l);
        let h = scheduled_all(s, d, grace);
        assert(d.push(l) =~= jobs);
        lemma_push_contains(d, l, job);
        lemma_push_contains(h.0.cleanups, l, job);
        lemma_push_contains(h.1, ActionV::CleanUp(l, if grace == 0 { 1 } else { grace }), a);
        match a {
            ActionV::CleanUp(j, _) => {
                lemma_push_contains(d, l, j);
            },
            _ => {},
        }
    } else {
        assert(!jobs.contains(job));
        match a {
            ActionV::CleanUp(j, _) => {
                assert(!jobs.contains(j));
            },
            _ => {},
        }
    }
}

proof fn lemma_stops(tasks: Seq<RunningV>, jobs: Seq<Seq<char>>, a: ActionV)
    ensures
        stops(tasks, jobs).contains(a) <==> (a matches ActionV::Cancel(id) && exists|i: int|
            0 <= i < tasks.len() && (#[trigger] tasks[i]).task_id == id && !tasks[i].cancelled && jobs.contains(
                tasks[i].job_id,
            )),
    decreases tasks.len(),
{
    let r = stops(tasks, jobs);
    if tasks.len() == 0 {
        assert(!r.contains(a));
    } else {
        let d = tasks.drop_last();
        let l = tasks.last();
        lemma_stops(d, jobs, a);
        lemma_push_contains(stops(d, jobs), ActionV::Cancel(l.task_id), a);
        match a {
            ActionV::Cancel(id) => {
                if exists|i: int|
                    0 <= i < d.len() && (#[trigger] d[i]).task_id == id && !d[i].cancelled && jobs.contains(d[i].job_id) {
                    let i = choose|i: int|
                        0 <= i < d.len() && (#[trigger] d[i]).task_id == id && !d[i].cancelled && jobs.contains(d[i].job_id);
                    assert(tasks[i] == d[i]);
                }
                if exists|i: int|
                    0 <= i < tasks.len() && (#[trigger] tasks[i]).task_id == id && !tasks[i].cancelled && jobs.contains(
                        tasks[i].job_id,
                    ) {
                    let i = choose|i: int|
                        0 <= i < tasks.len() && (#[trigger] tasks[i]).task_id == id && !tasks[i].cancelled && jobs.contains(
                            tasks[i].job_id,
                        );
                    if i < d.len() {
                        assert(d[i] == tasks[i]);
                    } else {
                        assert(tasks[i] == l);
                    }
                }
                assert(tasks[tasks.len() - 1] == l);
            },
            _ => {},
        }
    }
}

proof fn lemma_cancelled_actions(s: StepV, jobs: Seq<Seq<char>>, a: ActionV)
    requires
        s.1.len() == 0,
    ensures
        jobs_cancelled(s, jobs).1.contains(a) <==> (a matches ActionV::CleanUp(j, n) && jobs.contains(j)
            && !s.0.cleanups.contains(j) && (s.0.clean matches Some(c) && n >= 1 && n >= c.grace_secs && (n == 1 || n
            == c.grace_secs))) || (a matches ActionV::Cancel(id) && exists|i: int|
            0 <= i < s.0.running.len() && (#[trigger] s.0.running[i]).task_id == id && !s.0.running[i].cancelled
                && jobs.contains(s.0.running[i].job_id)),
{
    assert(!s.1.contains(a));
    lemma_stops(s.0.running, jobs, a);
    match s.0.clean {
        Some(c) => {
            lemma_scheduled(s, jobs, c.grace_secs, a, Seq::empty());
            lemma_add_contains(scheduled_all(s, jobs, c.grace_secs).1, stops(s.0.running, jobs), a);
        },
        None => {
            lemma_add_contains(s.1, stops(s.0.running, jobs), a);
        },
    }
}

proof fn lemma_running_kept(s: StepV, jobs: Seq<Seq<char>>)
    requires
        distinct(s.0.running),
    ensures
        ({
            let r = jobs_cancelled(s, jobs).0;
            &&& distinct(r.running) && r.running.len() == s.0.running.len()
            &&& r == (WorkerV { running: r.running, cleanups: r.cleanups, ..s.0 })
            &&& s.0.clean is None ==> r.cleanups == s.0.cleanups
            &&& s.0.clean matches Some(c) ==> r.cleanups == scheduled_all(s, jobs, c.grace_secs).0.cleanups
            &&& forall|i: int|
                0 <= i < s.0.running.len() ==> (#[trigger] r.running[i]) == (RunningV {
                    cancelled: s.0.running[i].cancelled || jobs.contains(s.0.running[i].job_id),
                    ..s.0.running[i]
                })
        }),
{
    let r = jobs_cancelled(s, jobs).0;
    if let Some(c) = s.0.clean {
        lemma_scheduled(s, jobs, c.grace_secs, ActionV::Cancel(Seq::empty()), Seq::empty());
    }
    assert forall|i: int, j: int| 0 <= i < j < r.running.len() implies (#[trigger] r.running[i]).name() != (
    #[trigger] r.running[j]).name() by {
        assert(s.0.running[i].name() != s.0.running[j].name());
    }
}

proof fn lemma_preempted_actions(s: StepV, ids: Seq<Seq<char>>, a: ActionV)
    requires
        distinct(s.0.running),
    ensures
        ({
            let r = preempted_all(s, ids);
            &&& distinct(r.0.running) && r.0.running.len() == s.0.running.len()
            &&& r.0 == (WorkerV { running: r.0.running, ..s.0 })
            &&& forall|i: int|
                0 <= i < s.0.running.len() ==> (#[trigger] r.0.running[i]) == (RunningV {
                    cancelled: s.0.running[i].cancelled || ids.contains(s.0.running[i].task_id),
                    ..s.0.running[i]
                })
            &&& r.1.contains(a) <==> s.1.contains(a) || (a matches ActionV::Cancel(id) && ids.contains(id) && index_of(
                s.0.running,
                id,
            ) is Some)
        }),
    decreases ids.len(),
{
    let r = preempted_all(s, ids);
    if ids.len() > 0 {
        let d = ids.drop_last();
        let l = ids.last();
        lemma_preempted_actions(s, d, a);
        let h = preempted_all(s, d);
        assert(d.push(l) =~= ids);
        keyed::lemma_index_of(h.0.running, l);
        keyed::lemma_index_of(s.0.running, l);
        lemma_push_contains(h.1, ActionV::Cancel(l), a);
        match a {
            ActionV::Cancel(id) => {
                lemma_push_contains(d, l, id);
            },
            _ => {},
        }
        lemma_is_named(s.0.running, l);
        lemma_is_named(h.0.running, l);
        match index_of(h.0.running, l) {
            Some(x) => {
                assert(h.0.running[x].name() == l);
                assert(s.0.running[x].name() == l);
            },
            None => {
                match index_of(s.0.running, l) {
                    Some(x) => {
                        assert(h.0.running[x].name() == l);
                    },
                    None => {},
                }
            },
        }
        assert forall|i: int| 0 <= i < s.0.running.len() implies (#[trigger] r.0.running[i]) == (RunningV {
            cancelled: s.0.running[i].cancelled || ids.contains(s.0.running[i].task_id),
            ..s.0.running[i]
        }) by {
            lemma_push_contains(d, l, s.0.running[i].task_id);
            assert(h.0.running[i].task_id == s.0.running[i].task_id);
            assert(h.0.running[i].name() == s.0.running[i].task_id);
            match index_of(h.0.running, l) {
                Some(x) => {
                    if i < x {
                        assert(h.0.running[i].name() != h.0.running[x].name());
                    } else if x < i {
                        assert(h.0.running[x].name() != h.0.running[i].name());
                    }
                },
                None => {},
            }
        }
        assert forall|i: int, j: int| 0 <= i < j < r.0.running.len() implies (#[trigger] r.0.running[i]).name() != (
        #[trigger] r.0.running[j]).name() by {
            assert(h.0.running[i].name() != h.0.running[j].name());
        }
    } else {
        assert forall|i: int| 0 <= i < s.0.running.len() implies (#[trigger] r.0.running[i]) == (RunningV {
            cancelled: s.0.running[i].cancelled || ids.contains(s.0.running[i].task_id),
            ..s.0.running[i]
        }) by {
            assert(!ids.contains(s.0.running[i].task_id));
        }
        match a {
            ActionV::Cancel(id) => {
                assert(!ids.contains(id));
            },
            _ => {},
        }
    }
}

proof fn lemma_triggered(gates: Seq<GateV>, triggers: Seq<TriggerV>, a: ActionV)
    ensures
        triggered(gates, triggers).contains(a) <==> (a matches ActionV::Trigger(t, n) && triggers.contains((t, n))
            && index_of(gates, t) is Some),
    decreases triggers.len(),
{
    let r = triggered(gates, triggers);
    if triggers.len() == 0 {
        assert(!r.contains(a));
        match a {
            ActionV::Trigger(t, n) => {
                assert(!triggers.contains((t, n)));
            },
            _ => {},
        }
    } else {
        let d = triggers.drop_last();
        let l = triggers.last();
        lemma_triggered(gates, d, a);
        lemma_push_contains(triggered(gates, d), ActionV::Trigger(l.0, l.1), a);
        assert(d.push(l) =~= triggers);
        match a {
            ActionV::Trigger(t, n) => {
                lemma_push_contains(d, l, (t, n));
            },
            _ => {},
        }
    }
}

proof fn lemma_resolved(gates: Seq<GateV>, resolutions: Seq<ResolutionV>, a: ActionV)
    ensures
        resolved(gates, resolutions).contains(a) <==> (a matches ActionV::Resolve(t, n, b) && resolutions.contains(
            (t, n, b),
        ) && index_of(gates, t) is Some),
    decreases resolutions.len(),
{
    let r = resolved(gates, resolutions);
    if resolutions.len() == 0 {
        assert(!r.contains(a));
        match a {
            ActionV::Resolve(t, n, b) => {
                assert(!resolutions.contains((t, n, b)));
            },
            _ => {},
        }
    } else {
        let d = resolutions.drop_last();
        let l = resolutions.last();
        lemma_resolved(gates, d, a);
        lemma_push_contains(resolved(gates, d), ActionV::Resolve(l.0, l.1, l.2), a);
        assert(d.push(l) =~= resolutions);
        match a {
            ActionV::Resolve(t, n, b) => {
                lemma_push_contains(d, l, (t, n, b));
            },
            _ => {},
        }
    }
}

/// Whether an entry is the first of its task, and that task does not run yet.
pub open spec fn is_new(s: Seq<RunningV>, ds: Seq<DescriptorV>, k: int, d: DescriptorV) -> bool {
    0 <= k < ds.len() && ds[k] == d && is_first(ds, k) && index_of(s, d.task_id) is None
}

proof fn lemma_assigned_actions(s: StepV, ds: Seq<DescriptorV>, a: ActionV)
    ensures
        ({
            let r = assigned_all(s, ds);
            &&& s.0.running.is_prefix_of(r.0.running)
            &&& r.0 == (WorkerV { running: r.0.running, ..s.0 })
            &&& forall|k: int| s.0.running.len() <= k < r.0.running.len() ==> !(#[trigger] r.0.running[k]).cancelled
            &&& r.1.contains(a) <==> s.1.contains(a) || (a matches ActionV::Start(d) && exists|k: int|
                is_new(s.0.running, ds, k, d))
            &&& a matches ActionV::Start(d) ==> (exists|k: int|
                0 <= k < ds.len() && #[trigger] ds[k] == d && is_first(ds, k) && index_of(s.0.running, d.task_id) is None)
                == (exists|k: int| is_new(s.0.running, ds, k, d))
        }),
    decreases ds.len(),
{
    match a {
        ActionV::Start(d) => {
            if exists|k: int| is_new(s.0.running, ds, k, d) {
                let k = choose|k: int| is_new(s.0.running, ds, k, d);
                assert(ds[k] == d);
            }
            if exists|k: int|
                0 <= k < ds.len() && #[trigger] ds[k] == d && is_first(ds, k) && index_of(s.0.running, d.task_id) is None {
                let k = choose|k: int|
                    0 <= k < ds.len() && #[trigger] ds[k] == d && is_first(ds, k) && index_of(s.0.running, d.task_id) is None;
                assert(is_new(s.0.running, ds, k, d));
            }
        },
        _ => {},
    }
    lemma_assigned_names(s, ds, Seq::empty());
    if ds.len() > 0 {
        let e = ds.drop_last();
        let l = ds.last();
        let h = assigned_all(s, e);
        let r = assigned_all(s, ds);
        lemma_assigned_actions(s, e, a);
        lemma_assigned_names(s, e, l.task_id);
        lemma_push_contains(h.1, ActionV::Start(l), a);
        assert(s.0.running.is_prefix_of(r.0.running));
        let top = ds.len() - 1;
        match a {
            ActionV::Start(d) => {
                if exists|k: int| is_new(s.0.running, e, k, d) {
                    let k = choose|k: int| is_new(s.0.running, e, k, d);
                    assert(ds[k] == e[k]);
                    assert(is_first(ds, k)) by {
                        assert forall|m: int| 0 <= m < k implies (#[trigger] ds[m]).task_id != ds[k].task_id by {
                            assert(e[m].task_id != e[k].task_id);
                        }
                    }
                    assert(is_new(s.0.running, ds, k, d));
                }
                if index_of(h.0.running, l.task_id) is None && d == l {
                    assert(is_first(ds, top)) by {
                        assert forall|m: int| 0 <= m < top implies (#[trigger] ds[m]).task_id != ds[top].task_id by {
                            assert(e[m] == ds[m]);
                        }
                    }
                    assert(is_new(s.0.running, ds, top, d));
                }
                if exists|k: int| is_new(s.0.running, ds, k, d) {
                    let k = choose|k: int| is_new(s.0.running, ds, k, d);
                    if k < top {
                        assert(e[k] == ds[k]);
                        assert(is_first(e, k)) by {
                            assert forall|m: int| 0 <= m < k implies (#[trigger] e[m]).task_id != e[k].task_id by {
                                assert(ds[m].task_id != ds[k].task_id);
                            }
                        }
                        assert(is_new(s.0.running, e, k, d));
                    } else {
                        assert(d == l);
                        if exists|m: int| 0 <= m < e.len() && (#[trigger] e[m]).task_id == l.task_id {
                            let m = choose|m: int| 0 <= m < e.len() && (#[trigger] e[m]).task_id == l.task_id;
                            assert(ds[m].task_id != ds[k].task_id);
                        }
                    }
                }
            },
            _ => {},
        }
    } else {
        match a {
            ActionV::Start(d) => {
                assert forall|k: int| !is_new(s.0.running, ds, k, d) by {
                }
            },
            _ => {},
        }
    }
}

proof fn lemma_assigned_names(s: StepV, ds: Seq<DescriptorV>, name: Seq<char>)
    ensures
        index_of(assigned_all(s, ds).0.running, name) is Some <==> index_of(s.0.running, name) is Some || exists|m: int|
            0 <= m < ds.len() && (#[trigger] ds[m]).task_id == name,
    decreases ds.len(),
{
    if ds.len() > 0 {
        let e = ds.drop_last();
        let l = ds.last();
        lemma_assigned_names(s, e, name);
        lemma_assigned_names(s, e, l.task_id);
        let h = assigned_all(s, e);
        let r = assigned_all(s, ds);
        if index_of(h.0.running, l.task_id) is None {
            assert(r.0.running.drop_last() =~= h.0.running);
            assert(r.0.running.last().name() == l.task_id);
        }
        if exists|m: int| 0 <= m < e.len() && (#[trigger] e[m]).task_id == name {
            let m = choose|m: int| 0 <= m < e.len() && (#[trigger] e[m]).task_id == name;
            assert(ds[m] == e[m]);
        }
        if exists|m: int| 0 <= m < ds.len() && (#[trigger] ds[m]).task_id == name {
            let m = choose|m: int| 0 <= m < ds.len() && (#[trigger] ds[m]).task_id == name;
            if m < e.len() {
                assert(e[m] == ds[m]);
            } else {
                assert(ds[m] == l);
            }
        }
        assert(ds[ds.len() - 1] == l);
    }
}

// ---------------------------------------------------------------------------
// Reports of a worker
// ---------------------------------------------------------------------------

/// A running task is reported with what was measured of it, and with nothing where
/// nothing was.
pub proof fn law_task_reports(t: RunningV, measured: Seq<MeasuredV>, i: int)
    requires
        distinct(measured),
        0 <= i < measured.len(),
        measured[i].processed_records <= i64::MAX,
        measured[i].last_checkpoint_id <= i64::MAX,
        measured[i].last_checkpoint_size <= i64::MAX,
    ensures
        task_report(t, measured).task_id == t.task_id,
        measured[i].task_id == t.task_id ==> ({
            let r = task_report(t, measured);
            let m = measured[i];
            &&& r.processed_records == m.processed_records && r.last_record_at == m.last_record_at && r.logs == m.new_lines
            &&& r.last_checkpoint_id == m.last_checkpoint_id && r.last_checkpoint_size_bytes == m.last_checkpoint_size
            &&& r.sink_metrics == m.sink_metrics
        }),
        (forall|k: int| 0 <= k < measured.len() ==> (#[trigger] measured[k]).task_id != t.task_id) ==> ({
            let r = task_report(t, measured);
            &&& r.processed_records == 0 && r.last_record_at == 0 && r.logs.len() == 0
            &&& r.last_checkpoint_id == 0 && r.last_checkpoint_size_bytes == 0 && r.sink_metrics is None
        }),
{
    keyed::lemma_index_of(measured, t.task_id);
    if measured[i].task_id == t.task_id {
        assert(measured[i].name() == t.task_id);
        let k = index_of(measured, t.task_id)->0;
        if k < i {
            assert(measured[k].name() != measured[i].name());
        } else if i < k {
            assert(measured[i].name() != measured[k].name());
        }
    }
    match index_of(measured, t.task_id) {
        Some(k) => {
            assert(measured[k].task_id == t.task_id);
        },
        None => {},
    }
}

/// How a task's end is reported: its state by number, the records that it processed, and
/// what went wrong.
pub proof fn law_end_reports(e: TaskEnd)
    ensures
        e matches TaskEnd::Completed { records } ==> end_report(e) == (3i32, records, None::<Seq<char>>),
        e matches TaskEnd::Cancelled { records } ==> end_report(e) == (5i32, records, None::<Seq<char>>),
        e matches TaskEnd::Failed { records, error } ==> end_report(e) == (4i32, records, Some(error@)),
        e matches TaskEnd::Unexpected { records, state } ==> end_report(e) == (
            2i32,
            records,
            Some("unexpected state "@ + state@),
        ),
        e matches TaskEnd::Crashed { error } ==> end_report(e) == (4i32, 0u64, Some(error@)),
        e matches TaskEnd::Panicked { message: Some(m) } ==> end_report(e) == (4i32, 0u64, Some("task panicked: "@ + m@)),
        e matches TaskEnd::Panicked { message: None } ==> end_report(e) == (
            4i32,
            0u64,
            Some("task panicked: "@ + "unknown panic"@),
        ),
{
}

// ---------------------------------------------------------------------------
// Checkpoints on their way
// ---------------------------------------------------------------------------

/// What becomes of a checkpoint that a task took: it is stored locally before anything
/// else, then in the shared store where one is used, and last it is reported as prepared;
/// its bytes go along where the master keeps them. One of a task that is not known, or of
/// which the commit is done, does nothing.
pub proof fn law_forwarded_checkpoints(
    f: CheckpointForwarder,
    w: WorkerV,
    task: Seq<char>,
    id: u64,
    data: Seq<u8>,
    i: int,
    other: Seq<char>,
)
    requires
        distinct(w.gates),
        0 <= i < w.gates.len(),
        w.gates[i].task_id == task,
        id <= i64::MAX,
        forall|k: int| 0 <= k < w.gates.len() ==> (#[trigger] w.gates[k]).task_id != other,
    ensures
        ({
            let r = forwarded(f, w, MessageV::Checkpoint(task, id, data));
            let job = w.gates[i].job_id;
            let n = r.1.len() - 1;
            &&& r.0 == w
            &&& r.1[0] == ForwardV::Persist(job, task, id, data)
            &&& f.write_to_s3 ==> n == 2 && r.1[1] == ForwardV::Share(job, task, id, data)
            &&& !f.write_to_s3 ==> n == 1
            &&& r.1[n] matches ForwardV::Report { job_id, task_id, checkpoint_id, success, prepare, data: bytes, term }
                && job_id == job && task_id == task && checkpoint_id == id && success && prepare && term == w.term && (
            f.upload_to_master ==> bytes == data) && (!f.upload_to_master ==> bytes.len() == 0)
        }),
        ({
            let r = forwarded(f, w, MessageV::CheckpointFailed(task, id));
            let job = w.gates[i].job_id;
            &&& r.0 == w
            &&& job.len() == 0 ==> r.1.len() == 0
            &&& job.len() > 0 ==> r.1.len() == 1 && (r.1[0] matches ForwardV::Report {
                job_id,
                task_id,
                checkpoint_id,
                success,
                prepare,
                data: bytes,
                term,
            } && job_id == job && task_id == task && checkpoint_id == id && !success && prepare && bytes.len() == 0 && term
                == w.term)
        }),
        forwarded(f, w, MessageV::Checkpoint(other, id, data)) == (w, Seq::<ForwardV>::empty()),
        forwarded(f, w, MessageV::CheckpointFailed(other, id)) == (w, Seq::<ForwardV>::empty()),
        forwarded(f, w, MessageV::CommitDone(task, id)) == (w, Seq::<ForwardV>::empty()),
        forwarded(f, w, MessageV::Done(task)) == (WorkerV { gates: w.gates.remove(i), ..w }, Seq::<ForwardV>::empty()),
        forwarded(f, w, MessageV::Done(other)) == (w, Seq::<ForwardV>::empty()),
{
    keyed::lemma_index_of(w.gates, task);
    keyed::lemma_index_of(w.gates, other);
    assert(w.gates[i].name() == task);
    let k = index_of(w.gates, task)->0;
    if k < i {
        assert(w.gates[k].name() != w.gates[i].name());
    } else if i < k {
        assert(w.gates[i].name() != w.gates[k].name());
    }
    match index_of(w.gates, other) {
        Some(x) => {
            assert(w.gates[x].task_id == other);
        },
        None => {},
    }
}

/// Messages are forwarded one after the other.
pub proof fn law_forwarded_in_order(f: CheckpointForwarder, w: WorkerV, ms: Seq<MessageV>, m: MessageV)
    ensures
        forwarded_all(f, w, Seq::empty()) == (w, Seq::<ForwardV>::empty()),
        forwarded_all(f, w, ms.push(m)).0 == forwarded(f, forwarded_all(f, w, ms).0, m).0,
        forwarded_all(f, w, ms.push(m)).1 == forwarded_all(f, w, ms).1 + forwarded(f, forwarded_all(f, w, ms).0, m).1,
{
    assert(ms.push(m).drop_last() =~= ms);
}

// ---------------------------------------------------------------------------
// Accepting tasks
// ---------------------------------------------------------------------------

/// A worker is healthy when neither its lag nor its memory has reached its limit; a limit
/// of zero is none, and what was not measured has not reached it.
pub proof fn law_healthy(s: AdmissionSignals, c: AdmissionConfig)
    ensures
        !healthy(s, c) <==> (c.lag_threshold_ms > 0 && (s.lag_ms matches Some(l) && l >= c.lag_threshold_ms)) || (
        c.memory_watermark_percent > 0 && (s.mem_permille matches Some(m) && m >= 10 * c.memory_watermark_percent)),
{
}

/// A worker that is healthy counts its healthy seconds and, where it was overloaded, stays
/// so until they reach the cooldown. One that is not is overloaded and counts anew.
pub proof fn law_evaluation(s: AdmissionSignals, c: AdmissionConfig, state: AdmissionState, secs: u64)
    ensures
        ({
            let r = evaluated(s, c, state, secs);
            &&& !healthy(s, c) ==> r.overloaded && r.consecutive_healthy_secs == 0
            &&& healthy(s, c) && state.consecutive_healthy_secs + secs <= u64::MAX ==> r.consecutive_healthy_secs
                == state.consecutive_healthy_secs + secs
            &&& healthy(s, c) && state.consecutive_healthy_secs + secs > u64::MAX ==> r.consecutive_healthy_secs == u64::MAX
            &&& healthy(s, c) && !state.overloaded ==> !r.overloaded
            &&& healthy(s, c) && state.overloaded ==> (r.overloaded <==> r.consecutive_healthy_secs < c.cooldown_secs)
        }),
{
}

/// A ratio is in thousandths, rounded to the nearest, and at most a thousand; without a
/// threshold it is zero.
pub proof fn law_ratio(value: nat, threshold: nat)
    ensures
        threshold == 0 ==> ratio_permille(value, threshold) == 0,
        threshold > 0 && value >= threshold ==> ratio_permille(value, threshold) == 1000,
        threshold > 0 && value < threshold ==> ({
            let r = ratio_permille(value, threshold);
            2 * threshold * r <= value * 2000 + threshold < 2 * threshold * (r + 1)
        }),
{
    if threshold > 0 && value < threshold {
        let n = (value * 2000 + threshold) as int;
        let d = (2 * threshold) as int;
        vstd::arithmetic::div_mod::lemma_fundamental_div_mod(n, d);
        assert(ratio_permille(value, threshold) == n / d);
        assert(d * (n / d + 1) == d * (n / d) + d) by (nonlinear_arith);
    }
}

/// The load goes by the lag and by the memory, each against its limit.
pub proof fn law_load(s: AdmissionSignals, c: AdmissionConfig)
    ensures
        s.lag_ms is None ==> lag_ratio(s, c) == 0,
        s.lag_ms matches Some(l) ==> lag_ratio(s, c) == ratio_permille(l as nat, c.lag_threshold_ms as nat),
        s.mem_permille is None ==> memory_ratio(s, c) == 0,
        s.mem_permille matches Some(m) ==> memory_ratio(s, c) == ratio_permille(
            m as nat,
            (10 * c.memory_watermark_percent) as nat,
        ),
{
}

/// Signals are kept within their ranges: a lag in thirty-two bits, shares up to a
/// thousand.
pub proof fn law_signals(s: AdmissionSignals)
    ensures
        ({
            let r = clamped(s);
            &&& s.lag_ms is None <==> r.lag_ms is None
            &&& s.lag_ms matches Some(l) ==> (l <= 0xffff_ffff ==> r.lag_ms == Some(l)) && (l > 0xffff_ffff ==> r.lag_ms
                == Some(0xffff_ffffu64))
            &&& s.mem_permille is None <==> r.mem_permille is None
            &&& s.mem_permille matches Some(m) ==> (m <= 1000 ==> r.mem_permille == Some(m)) && (m > 1000
                ==> r.mem_permille == Some(1000u32))
            &&& s.cpu_permille is None <==> r.cpu_permille is None
            &&& s.cpu_permille matches Some(m) ==> (m <= 1000 ==> r.cpu_permille == Some(m)) && (m > 1000
                ==> r.cpu_permille == Some(1000u32))
        }),
        no_signals().lag_ms is None && no_signals().mem_permille is None && no_signals().cpu_permille is None,
{
}

/// Whole seconds are counted from the time that was counted to; a breach, a clock that
/// went back, or the first decision count from now on.
pub proof fn law_counted_seconds(t: i64, now: i64)
    ensures
        seconds_since(None, now) == 0,
        now <= t ==> seconds_since(Some(t), now) == 0,
        now > t ==> 1000 * seconds_since(Some(t), now) <= now - t < 1000 * (seconds_since(Some(t), now) + 1),
        counted_to(None, now, true) == now && counted_to(None, now, false) == now,
        counted_to(Some(t), now, false) == now,
        now <= t ==> counted_to(Some(t), now, true) == now,
        now > t ==> counted_to(Some(t), now, true) == t + 1000 * seconds_since(Some(t), now),
{
}

// ---------------------------------------------------------------------------
// Registers
// ---------------------------------------------------------------------------

/// A task goes to the first of the workers with the fewest running tasks.
pub proof fn law_first_least_loaded(w: Seq<resource_manager::WorkerV>)
    ensures
        w.len() == 0 <==> least_loaded(w) is None,
        least_loaded(w) matches Some(i) ==> 0 <= i < w.len() && (forall|k: int|
            0 <= k < i ==> (#[trigger] w[k]).running_tasks > w[i].running_tasks) && (forall|k: int|
            i <= k < w.len() ==> (#[trigger] w[k]).running_tasks >= w[i].running_tasks),
    decreases w.len(),
{
    if w.len() > 0 {
        let d = w.drop_last();
        law_first_least_loaded(d);
        if d.len() == 0 {
            assert(least_loaded(w) == Some(0int));
        } else {
            let i = least_loaded(d)->0;
            let j = least_loaded(w)->0;
            assert(d[i] == w[i]);
            assert forall|k: int| 0 <= k < j implies (#[trigger] w[k]).running_tasks > w[j].running_tasks by {
                assert(d[k] == w[k]);
            }
            assert forall|k: int| j <= k < w.len() implies (#[trigger] w[k]).running_tasks >= w[j].running_tasks by {
                if k < d.len() {
                    assert(d[k] == w[k]);
                }
            }
        }
    }
}

/// A registered job can be cancelled while it is new, scheduled or running, and counts as
/// running only in that state.
pub proof fn law_registered_jobs(jobs: Seq<JobInfoV>, state: Seq<char>)
    ensures
        cancellable(state) <==> state == "CREATED"@ || state == "SCHEDULED"@ || state == "RUNNING"@,
        running_jobs(jobs) == jobs.filter(|j: JobInfoV| j.state == "RUNNING"@).len(),
    decreases jobs.len(),
{
    reveal(Seq::filter);
    if jobs.len() > 0 {
        law_registered_jobs(jobs.drop_last(), state);
    }
}

// ---------------------------------------------------------------------------
// Agreement
// ---------------------------------------------------------------------------

/// A vote is granted for a later term by a member that has not voted for anyone else. The
/// member then has that term and that vote; a refused request changes nothing.
pub proof fn law_votes(e: ElectionV, candidate: Seq<char>, term: u64)
    ensures
        grants(e, candidate, term) <==> term > e.term && (e.voted_for matches Some(v) ==> v == candidate),
        grants(e, candidate, term) ==> after_vote(e, candidate, term) == (ElectionV {
            term,
            voted_for: Some(candidate),
            ..e
        }),
        !grants(e, candidate, term) ==> after_vote(e, candidate, term) == e,
{
}

/// A heartbeat makes a member follow the leader that sent it, unless it leads itself.
pub proof fn law_leaders_heartbeat(e: ElectionV, leader: Seq<char>, now: u64)
    ensures
        e.role is Leader ==> after_heartbeat(e, leader, now) == e,
        !(e.role is Leader) ==> ({
            let r = after_heartbeat(e, leader, now);
            &&& r.role is Follower && r.last_heartbeat == now && r.voted_for == Some(leader)
            &&& r.term == e.term && r.my_id == e.my_id && r.peers == e.peers
            &&& r.heartbeat_interval == e.heartbeat_interval && r.election_timeout == e.election_timeout
        }),
{
}

/// A majority is more than half, and no more than needed.
pub proof fn law_majority(n: nat)
    ensures
        2 * majority(n) > n,
        majority(n) > 0 && 2 * (majority(n) - 1) <= n,
{
}

/// Members are numbered from one, in their order.
pub proof fn law_member_addresses(members: Seq<Seq<char>>, id: u64)
    ensures
        1 <= id <= members.len() ==> address_of(members, id) == Some(members[id - 1]),
        id == 0 || id > members.len() ==> address_of(members, id) is None,
{
}

/// A member leads when it is the known leader; else it points to the address of the known
/// one, if it knows it.
pub proof fn law_leading(w: RaftWrite)
    ensures
        w.leads() <==> w.leader.leader_id == Some(w.my_id),
        w.leader.leader_id is None || w.leads() ==> w.hint().len() == 0,
        w.leader.leader_id matches Some(id) ==> (id != w.my_id && 1 <= id <= w.members@.len() ==> w.hint() == w.members@[id
            - 1]) && (id != w.my_id && (id == 0 || id > w.members@.len()) ==> w.hint().len() == 0),
{
}

/// What is said of voters that cannot be accepted.
pub proof fn law_voter_messages(n: usize)
    ensures
        voter_message(VoterError::Empty) == "empty member list: at least one master/hybrid node is required"@,
        voter_message(VoterError::Even(n)) == text::decimal_text(n as nat)
            + " masters configured: voter counts must be odd (1, 3, 5, ...) — two voters cannot reach a majority after either node fails, which would reintroduce the dual-master risk this design eliminates"@,
{
}

/// The pace of agreement.
pub proof fn law_pace()
    ensures
        ELECTION_TIMEOUT_MIN_MS == 800 && ELECTION_TIMEOUT_MAX_MS == 1_600 && HEARTBEAT_INTERVAL_MS == 150,
        INSTALL_SNAPSHOT_TIMEOUT_MS == 5_000 && MAX_PAYLOAD_ENTRIES == 256 && SNAPSHOT_EVERY_N_LOGS == 4_096,
        BOOTSTRAP_DELAY_SECS == 5,
{
}

/// What an entry of the log does: each is noted as applied; one with members sets them,
/// and one with a command carries it out.
pub proof fn law_log_entries(m: MachineV, e: LoggedV, es: Seq<LoggedV>, now: i64)
    ensures
        stepped(m, e, now).last_applied == Some(e.0),
        e.1 is Blank ==> stepped(m, e, now) == (MachineV { last_applied: Some(e.0), ..m }),
        e.1 matches PayloadV::Membership(v) ==> ({
            let r = stepped(m, e, now);
            r.membership == v && r.membership_log_id == Some(e.0) && r.coordinator == m.coordinator
        }),
        e.1 matches PayloadV::Normal(c) ==> ({
            let r = stepped(m, e, now);
            r.coordinator == applied(m.coordinator, c, now) && r.membership == m.membership && r.membership_log_id
                == m.membership_log_id
        }),
        stepped_all(m, Seq::empty(), now) == m,
        stepped_all(m, es.push(e), now) == stepped(stepped_all(m, es, now), e, now),
{
    assert(es.push(e).drop_last() =~= es);
}

/// A snapshot is called by the last entry that it covers.
pub proof fn law_snapshot_names(id: LogId)
    ensures
        snapshot_id_of(Some(id)) == "snapshot-"@ + text::decimal_text(id.index as nat),
        snapshot_id_of(None) == "snapshot-"@ + text::decimal_text(0),
{
}

/// The other channels, and what lies between two bounds.
pub proof fn law_others<C>(s: Seq<(u64, C)>, target: u64, i: u64, a: u64, b: u64)
    ensures
        others(s, target) == s.filter(|e: (u64, C)| e.0 != target),
        within(i, Some(a), Some(b)) <==> a < i < b,
        within(i, None, Some(b)) <==> i < b,
        within(i, Some(a), None) <==> a < i,
        within(i, None, None),
    decreases s.len(),
{
    reveal(Seq::filter);
    if s.len() > 0 {
        law_others(s.drop_last(), target, i, a, b);
    }
}

/// A log's file holds one line after the other, each ended by a line feed.
pub proof fn law_log_file(lines: Seq<Seq<u8>>, l: Seq<u8>)
    ensures
        file_bytes(Seq::empty()).len() == 0,
        file_bytes(lines.push(l)) == file_bytes(lines) + l + seq![10u8],
{
    assert(lines.push(l).drop_last() =~= lines);
    assert(file_bytes(lines.push(l)) =~= file_bytes(lines) + l + seq![10u8]);
}

/// A log's file is read line by line: a line feed ends a line, lines without anything in
/// them are left out, and a last line needs no line feed.
pub proof fn law_log_lines(a: Seq<u8>, rest: Seq<u8>, l: Seq<u8>)
    requires
        forall|i: int| 0 <= i < l.len() ==> (#[trigger] l[i]) != 10,
    ensures
        lines_of(a + seq![10u8] + rest) == lines_of(a) + lines_of(rest),
        l.len() > 0 ==> lines_of(l) == seq![l],
        l.len() == 0 ==> lines_of(l).len() == 0,
{
    let x = a + seq![10u8];
    assert(x.drop_last() =~= a);
    assert(x.last() == 10);
    lemma_lines_behind(x, rest);
    assert(lines_of(a + seq![10u8] + rest) =~= lines_of(a) + lines_of(rest));
    lemma_one_line(l);
}

proof fn lemma_lines_behind(x: Seq<u8>, rest: Seq<u8>)
    requires
        file_lines(x).1.len() == 0,
    ensures
        file_lines(x + rest).0 == file_lines(x).0 + file_lines(rest).0,
        file_lines(x + rest).1 == file_lines(rest).1,
    decreases rest.len(),
{
    if rest.len() == 0 {
        assert(x + rest =~= x);
        assert(file_lines(x + rest).0 =~= file_lines(x).0 + file_lines(rest).0);
        assert(file_lines(x + rest).1 =~= file_lines(rest).1);
    } else {
        lemma_lines_behind(x, rest.drop_last());
        assert((x + rest).drop_last() =~= x + rest.drop_last());
        assert((x + rest).last() == rest.last());
        assert(file_lines(x + rest).0 =~= file_lines(x).0 + file_lines(rest).0);
    }
}

proof fn lemma_one_line(l: Seq<u8>)
    requires
        forall|i: int| 0 <= i < l.len() ==> (#[trigger] l[i]) != 10,
    ensures
        file_lines(l).0.len() == 0,
        file_lines(l).1 == l,
    decreases l.len(),
{
    if l.len() > 0 {
        let d = l.drop_last();
        assert forall|i: int| 0 <= i < d.len() implies (#[trigger] d[i]) != 10 by {
            assert(l[i] != 10);
        }
        lemma_one_line(d);
        assert(l[l.len() - 1] != 10);
        assert(file_lines(l).1 =~= l);
    } else {
        assert(file_lines(l).1 =~= l);
    }
}

/// An entry of a log is found by its index.
pub proof fn law_entries_by_index(s: Seq<LogEntry>, i: int, index: u64)
    requires
        rising(s),
    ensures
        0 <= i < s.len() ==> at_index(s, s[i].log_id.index) == Some((s[i].log_id, s[i].line@)),
        (forall|k: int| 0 <= k < s.len() ==> (#[trigger] s[k]).log_id.index != index) ==> at_index(s, index) is None,
    decreases s.len(),
{
    if s.len() > 0 {
        let d = s.drop_last();
        assert(rising(d)) by {
            assert forall|a: int, b: int| 0 <= a < b < d.len() implies (#[trigger] d[a]).log_id.index < (
            #[trigger] d[b]).log_id.index by {
                assert(s[a].log_id.index < s[b].log_id.index);
            }
        }
        law_entries_by_index(d, i, index);
        if 0 <= i < d.len() {
            assert(d[i] == s[i]);
            assert(s[i].log_id.index < s[s.len() - 1].log_id.index);
        }
        if forall|k: int| 0 <= k < s.len() ==> (#[trigger] s[k]).log_id.index != index {
            assert forall|k: int| 0 <= k < d.len() implies (#[trigger] d[k]).log_id.index != index by {
                assert(s[k].log_id.index != index);
            }
            assert(s[s.len() - 1].log_id.index != index);
        }
    }
}

// ---------------------------------------------------------------------------
// Factories
// ---------------------------------------------------------------------------

/// The category of a factory that names none.
pub proof fn law_default_categories()
    ensures
        default_category(FactoryKind::Source) == "source"@,
        default_category(FactoryKind::Sink) == "sink"@,
        default_category(FactoryKind::Transform) == "transform"@,
{
}

/// Whether a name is set at a place: the name, an equals sign, and a literal.
pub open spec fn is_set_at(t: Seq<TokenV>, i: int, name: Seq<char>) -> bool {
    0 <= i && i + 2 < t.len() && t[i] == TokenV::Ident(name) && t[i + 1] == TokenV::Punct('=') && t[i + 2] is Literal
}

/// An attribute's id and category are the literals that are set last for their names, with
/// the quotes around them taken off; a name that is not set has none.
pub proof fn law_attributes(t: Seq<TokenV>, i: int, s: Seq<char>)
    ensures
        is_set_at(t, i, "id"@) && t[i + 2] == TokenV::Literal(s) && (forall|k: int| i < k ==> !#[trigger] is_set_at(
            t,
            k,
            "id"@,
        )) ==> attrs_of(t).id == Some(text::trimmed_of(s, '"')),
        is_set_at(t, i, "category"@) && t[i + 2] == TokenV::Literal(s) && (forall|k: int|
            i < k ==> !#[trigger] is_set_at(t, k, "category"@)) ==> attrs_of(t).category == Some(
            text::trimmed_of(s, '"'),
        ),
        (forall|k: int| !#[trigger] is_set_at(t, k, "id"@)) ==> attrs_of(t).id is None,
        (forall|k: int| !#[trigger] is_set_at(t, k, "category"@)) ==> attrs_of(t).category is None,
{
    lemma_last_set(t, t.len(), "id"@, i);
    lemma_last_set(t, t.len(), "category"@, i);
}

proof fn lemma_last_set(t: Seq<TokenV>, n: nat, name: Seq<char>, i: int)
    requires
        n <= t.len(),
    ensures
        i < n && is_set_at(t, i, name) && (forall|k: int| i < k ==> !#[trigger] is_set_at(t, k, name)) ==> last_setting(
            t,
            n,
            name,
        ) == Some(text::trimmed_of(t[i + 2]->Literal_0, '"')),
        (forall|k: int| !#[trigger] is_set_at(t, k, name)) ==> last_setting(t, n, name) is None,
    decreases n,
{
    if n > 0 {
        lemma_last_set(t, (n - 1) as nat, name, i);
        if crate::factory_attrs::setting_at(t, n - 1, name) is Some {
            assert(is_set_at(t, n - 1, name));
        }
        if is_set_at(t, n - 1, name) {
            assert(crate::factory_attrs::setting_at(t, n - 1, name) == Some(text::trimmed_of(t[(n + 1) as int]->Literal_0, '"')));
        }
    }
}

} // verus!
