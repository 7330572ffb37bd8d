//! What clients are told, how a node finds its way in a cluster, and what a worker makes
//! of the settings of a task.

use vstd::prelude::*;

use crate::checkpoint_store;
use crate::client_handler::{
    asked_parallelism, is_restart, is_settled, is_submission, job_name_of, job_not_found, not_leader, ClientError,
    ClientErrorV, Restart, Submission, RESTART_CANCEL_TIMEOUT_SECS, RESTART_POLL_MS, RESTART_SETTLE_MS,
};
use crate::client_queries::{
    count_jobs, count_tasks, histories, is_job_status, stored_history, summary_of, task_status, with_reported,
    worker_report, Counted, HistoryV, JobStatus,
};
use crate::command::CommandV;
use crate::handover_laws::{is_out, is_over};
use crate::job::{JobV, TaskV};
use crate::job_config::{plan_message, PlanErrorV};
use crate::job_coordinator::compiled;
use crate::json;
use crate::json::JsonV;
use crate::keyed;
use crate::keyed::{ordered, values};
use crate::master::EntryV;
use crate::node::{
    advertised, clean_of, higher, is_me, masters_of, port_of, shares_in_s3, turned_to,
    FAILURES_BEFORE_FAILOVER,
};
use crate::pipeline::{
    assembled, declared_sinks, described, interval_of, restore_order, PipelineErrorV, PlanV, Setting, SinkPlanV,
};
use crate::props::{lookup, Pairs};
use crate::server_config::EngineServerConfig;
use crate::text;

verus! {

// ---------------------------------------------------------------------------
// Reports on a cluster
// ---------------------------------------------------------------------------

/// Of the tasks of a job all are counted, or those that run, or those that run on one
/// worker; a worker without an id runs none.
pub proof fn law_counted_tasks(tasks: Seq<TaskV>, worker: Seq<char>)
    ensures
        count_tasks(tasks, Counted::All) == tasks.len(),
        count_tasks(tasks, Counted::Running) == tasks.filter(|t: TaskV| t.state is Running).len(),
        worker.len() > 0 ==> count_tasks(tasks, Counted::RunningOn(worker)) == tasks.filter(
            |t: TaskV| t.state is Running && t.worker_id == worker,
        ).len(),
        worker.len() == 0 ==> count_tasks(tasks, Counted::RunningOn(worker)) == 0,
    decreases tasks.len(),
{
    reveal(Seq::filter);
    if tasks.len() > 0 {
        law_counted_tasks(tasks.drop_last(), worker);
    }
}

/// The tasks of several jobs are counted job by job.
pub proof fn law_counted_jobs(jobs: Seq<JobV>, j: JobV, what: Counted)
    ensures
        count_jobs(Seq::empty(), what) == 0,
        count_jobs(jobs.push(j), what) == count_jobs(jobs, what) + count_tasks(j.tasks, what),
{
    assert(jobs.push(j).drop_last() =~= jobs);
}

/// A worker is reported as it last said of itself, with the number of the tasks that run
/// on it.
pub proof fn law_reported_workers(e: EntryV, jobs: Seq<JobV>)
    requires
        count_jobs(jobs, Counted::RunningOn(e.worker_id)) <= i32::MAX,
    ensures
        ({
            let r = worker_report(e, jobs);
            &&& r.worker_id == e.worker_id && r.address == e.address && r.last_heartbeat == e.last_heartbeat_ms
            &&& r.load_score == e.load_score && r.lag_ms == e.lag_ms && r.mem_permille == e.mem_permille
            &&& r.can_accept == e.can_accept
            &&& r.running_tasks == count_jobs(jobs, Counted::RunningOn(e.worker_id))
        }),
{
}

/// A task is reported with its own numbers and with the times of its job; a job that has
/// not ended has the end zero.
pub proof fn law_reported_tasks(j: JobV, t: TaskV)
    requires
        t.processed_records <= i64::MAX,
    ensures
        ({
            let r = task_status(j, t);
            &&& r.task_id == t.task_id && r.stage_id == t.stage_id && r.worker_id == t.worker_id
            &&& r.processed_records == t.processed_records && r.last_record_at == t.last_record_at
            &&& r.sink_metrics == t.sink_metrics && r.start_time == j.start_time
            &&& j.end_time is None ==> r.end_time == 0
            &&& j.end_time matches Some(at) ==> r.end_time == at
            &&& t.state is Created || t.state is Scheduled ==> r.state == 1
            &&& is_out(t.state) ==> r.state == 2
            &&& t.state is Completed ==> r.state == 3
            &&& t.state is Failed ==> r.state == 4
            &&& t.state is Cancelled ==> r.state == 5
        }),
{
}

/// A job's status holds what is known of the job, and one entry for each of its tasks, in
/// the order of their ids.
pub proof fn law_reported_jobs(r: JobStatus, j: JobV)
    requires
        is_job_status(r, j),
        j.checkpoint_interval_ms <= i64::MAX,
        j.checkpoints_completed <= i64::MAX,
    ensures
        r.job_name@ == j.job_name && r.start_time == j.start_time && r.job_config@ == j.raw_config,
        r.checkpoint_interval_ms == j.checkpoint_interval_ms && r.checkpoints_completed == j.checkpoints_completed,
        j.end_time is None ==> r.end_time == 0,
        j.end_time matches Some(at) ==> r.end_time == at,
        j.error_message is None ==> r.error_message@.len() == 0,
        j.error_message matches Some(m) ==> r.error_message@ == m,
        r.state == 1 <==> j.state is Created,
        r.state == 2 <==> j.state is Scheduled || j.state is Deploying,
        r.state == 3 <==> j.state is Running,
        r.state == 4 <==> j.state is Completed,
        r.state == 5 <==> j.state is Failed,
        r.state == 6 <==> j.state is Cancelled,
        r.tasks@.len() == j.tasks.len(),
        forall|x: int| 0 <= x < j.tasks.len() ==> values(r.tasks@).contains(#[trigger] task_status(j, j.tasks[x])),
        forall|a: int, b: int|
            0 <= a < b < r.tasks@.len() ==> !text::before(
                (#[trigger] values(r.tasks@)[b]).task_id,
                (#[trigger] values(r.tasks@)[a]).task_id,
            ),
{
    broadcast use vstd::seq_lib::group_to_multiset_ensures;

    let s = j.tasks.map_values(|t: TaskV| task_status(j, t));
    keyed::law_ordered(s);
    let o = ordered(s);
    assert(o.len() == o.to_multiset().len());
    assert(s.len() == s.to_multiset().len());
    assert forall|x: int| 0 <= x < j.tasks.len() implies values(r.tasks@).contains(#[trigger] task_status(j, j.tasks[x])) by {
        assert(s[x] == task_status(j, j.tasks[x]));
        assert(s.contains(s[x]));
        assert(s.to_multiset().count(s[x]) > 0);
        assert(o.to_multiset().count(s[x]) > 0);
        assert(o.contains(s[x]));
    }
    assert forall|a: int, b: int| 0 <= a < b < r.tasks@.len() implies !text::before(
        (#[trigger] values(r.tasks@)[b]).task_id,
        (#[trigger] values(r.tasks@)[a]).task_id,
    ) by {
        assert(!text::before(keyed::Named::name(o[b]), keyed::Named::name(o[a])));
    }
}

/// A job's line in a listing.
pub proof fn law_listed_jobs(j: JobV)
    ensures
        ({
            let s = summary_of(j);
            &&& s.job_id == j.job_id && s.job_name == j.job_name && s.start_time == j.start_time
            &&& j.end_time is None ==> s.end_time == 0
            &&& j.end_time matches Some(at) ==> s.end_time == at
            &&& s.state == 1 <==> j.state is Created
            &&& s.state == 2 <==> j.state is Scheduled || j.state is Deploying
            &&& s.state == 3 <==> j.state is Running
            &&& s.state == 4 <==> j.state is Completed
            &&& s.state == 5 <==> j.state is Failed
            &&& s.state == 6 <==> j.state is Cancelled
        }),
{
}

/// Whether a history of a task stands in `h` and holds something.
pub open spec fn has_history(h: Seq<HistoryV>, task: Seq<char>) -> bool {
    exists|i: int| 0 <= i < h.len() && (#[trigger] h[i]).task_id == task && h[i].entries.len() > 0
}

/// What is added to the stored histories: for a task that reported a checkpoint, and of
/// which none is stored, that one checkpoint. What is stored stays in front.
pub proof fn law_added_histories(h: Seq<HistoryV>, tasks: Seq<TaskV>, t: TaskV)
    requires
        t.last_checkpoint_id <= i64::MAX,
        t.last_checkpoint_size <= i64::MAX,
    ensures
        with_reported(h, Seq::empty()) == h,
        ({
            let g = with_reported(h, tasks);
            let r = with_reported(h, tasks.push(t));
            &&& t.last_checkpoint_id == 0 || has_history(g, t.task_id) ==> r == g
            &&& t.last_checkpoint_id > 0 && !has_history(g, t.task_id) ==> {
                &&& r.len() == g.len() + 1 && g.is_prefix_of(r)
                &&& r.last().task_id == t.task_id
                &&& r.last().entries.len() == 1
                &&& r.last().entries[0].0 == t.last_checkpoint_id && r.last().entries[0].1 == t.last_checkpoint_size
            }
        }),
{
    assert(tasks.push(t).drop_last() =~= tasks);
    let g = with_reported(h, tasks);
    if t.last_checkpoint_id > 0 && !has_history(g, t.task_id) {
        assert(g.is_prefix_of(with_reported(h, tasks.push(t))));
    }
}

/// A stored history is shown as it is stored.
pub proof fn law_shown_history(task: Seq<char>, entries: Seq<(u64, u64)>, i: int)
    requires
        0 <= i < entries.len(),
        entries[i].0 <= i64::MAX,
        entries[i].1 <= i64::MAX,
    ensures
        stored_history((task, entries)).task_id == task,
        stored_history((task, entries)).entries.len() == entries.len(),
        stored_history((task, entries)).entries[i].0 == entries[i].0,
        stored_history((task, entries)).entries[i].1 == entries[i].1,
{
}

/// The history of a job holds that of each task for which the store lists one.
pub proof fn law_stored_histories(store: checkpoint_store::Store, j: JobV, job_id: Seq<char>, x: int)
    requires
        0 <= x < checkpoint_store::job_listing(store, job_id).len(),
    ensures
        histories(store, j, job_id).contains(stored_history(checkpoint_store::job_listing(store, job_id)[x])),
{
    broadcast use vstd::seq_lib::group_to_multiset_ensures;

    let l = checkpoint_store::job_listing(store, job_id);
    let s = l.map_values(|m: (Seq<char>, Seq<(u64, u64)>)| stored_history(m));
    let w = with_reported(s, j.tasks);
    lemma_histories_stay(s, j.tasks);
    keyed::law_ordered(w);
    assert(s[x] == stored_history(l[x]));
    assert(w[x] == s[x]);
    assert(w.contains(w[x]));
    assert(w.to_multiset().count(w[x]) > 0);
    assert(ordered(w).to_multiset().count(w[x]) > 0);
}

proof fn lemma_histories_stay(h: Seq<HistoryV>, tasks: Seq<TaskV>)
    ensures
        h.is_prefix_of(with_reported(h, tasks)),
    decreases tasks.len(),
{
    if tasks.len() > 0 {
        lemma_histories_stay(h, tasks.drop_last());
        let g = with_reported(h, tasks.drop_last());
        let r = with_reported(h, tasks);
        assert(g.is_prefix_of(r));
        assert forall|i: int| 0 <= i < h.len() implies h[i] == #[trigger] r[i] by {
            assert(g[i] == h[i]);
        }
        assert(h.is_prefix_of(r));
    }
}

// ---------------------------------------------------------------------------
// Requests of clients
// ---------------------------------------------------------------------------

/// What a client is told that asks the wrong master, or for a job that is not there.
pub proof fn law_refusals(hint: Seq<char>, job_id: Seq<char>)
    ensures
        hint.len() > 0 ==> not_leader(hint) == ClientErrorV::FailedPrecondition("not the leader; retry at "@ + hint),
        hint.len() == 0 ==> not_leader(hint) == ClientErrorV::FailedPrecondition(
            "not the leader; retry at "@ + "another master"@,
        ),
        job_not_found(job_id) == ClientErrorV::NotFound("Job "@ + job_id + " not found"@),
{
}

/// A job without a name is called by its id, and a parallelism that is not positive was
/// not asked for.
pub proof fn law_asked(job_id: Seq<char>, name: Seq<char>, n: i32)
    ensures
        name.len() > 0 ==> job_name_of(job_id, name) == name,
        name.len() == 0 ==> job_name_of(job_id, name) == "job-"@ + job_id,
        n <= 0 ==> asked_parallelism(n) is None,
        n > 0 ==> (asked_parallelism(n) matches Some(p) && p == n),
{
}

/// A submission succeeds exactly when its configuration can be planned; it then hands the
/// planned job and tasks on, and answers with the job's id.
pub proof fn law_submissions(
    r: Result<Submission, ClientError>,
    job_id: Seq<char>,
    name: Seq<char>,
    config: JsonV,
    asked: Option<usize>,
    workers: Pairs,
    now: i64,
    verb: Seq<char>,
    tail: Seq<char>,
)
    requires
        is_submission(r, job_id, name, config, asked, workers, now, verb, tail),
    ensures
        r is Ok <==> compiled(job_id, name, config, asked, workers) is Ok,
        r is Ok ==> ({
            let tasks = compiled(job_id, name, config, asked, workers)->Ok_0;
            &&& r->Ok_0.response.success && r->Ok_0.response.job_id@ == job_id
            &&& r->Ok_0.response.message@ == "job '"@ + name + verb + text::decimal_text(tasks.len()) + tail
            &&& (r->Ok_0.command@ matches CommandV::SubmitJob(job, t) && t == tasks && job.job_id == job_id && job.job_name
                == name && job.start_time == now)
        }),
        r is Err ==> r->Err_0@ is FailedPrecondition,
{
}

/// A job has settled when it is gone, or has ended with no task left at a worker.
pub proof fn law_settled(j: JobV)
    ensures
        is_settled(None),
        is_settled(Some(j)) <==> is_over(j.state) && forall|i: int|
            0 <= i < j.tasks.len() ==> !is_out((#[trigger] j.tasks[i]).state),
{
    if is_settled(Some(j)) {
        assert forall|i: int| 0 <= i < j.tasks.len() implies !is_out((#[trigger] j.tasks[i]).state) by {
            assert(!j.tasks[i].state.active());
        }
    }
    if is_over(j.state) && forall|i: int| 0 <= i < j.tasks.len() ==> !is_out((#[trigger] j.tasks[i]).state) {
        assert forall|i: int| 0 <= i < j.tasks.len() implies !(#[trigger] j.tasks[i]).state.active() by {
            assert(!is_out(j.tasks[i].state));
        }
    }
}

/// A restart begins only at the leader, for a job that is known, whose configuration was
/// kept and can be read. A job that is not over is cancelled first.
pub proof fn law_restarts(
    r: Result<Restart, ClientError>,
    job: Option<JobV>,
    job_id: Seq<char>,
    leads: bool,
    hint: Seq<char>,
    now: i64,
)
    requires
        is_restart(r, job, job_id, leads, hint, now),
    ensures
        r is Ok <==> leads && (job matches Some(j) && j.raw_config.len() > 0 && json::parsed_text(j.raw_config) is Some),
        !leads ==> r->Err_0@ == not_leader(hint),
        leads && job is None ==> r->Err_0@ == ClientErrorV::NotFound("job "@ + job_id + " not found"@),
        leads && job is Some && job->0.raw_config.len() == 0 ==> r->Err_0@ == ClientErrorV::FailedPrecondition(
            "job "@ + job_id + " has no retained config to restart from"@,
        ),
        leads && job is Some && job->0.raw_config.len() > 0 && r is Err ==> r->Err_0@ is UnreadableConfig,
        r is Ok ==> ({
            let j = job->0;
            &&& r->Ok_0.job_id@ == job_id && r->Ok_0.job_name@ == j.job_name
            &&& Some(r->Ok_0.config@) == json::parsed_text(j.raw_config)
            &&& is_over(j.state) <==> r->Ok_0.cancel is None
            &&& r->Ok_0.cancel matches Some(c) ==> c@ == CommandV::CancelJob(job_id, now)
        }),
{
}

/// How long a restart waits: a minute for the job to stop, looking every quarter of a
/// second, and two seconds for things to settle.
pub proof fn law_restart_pace()
    ensures
        RESTART_CANCEL_TIMEOUT_SECS == 60,
        RESTART_POLL_MS == 250,
        RESTART_SETTLE_MS == 2_000,
        FAILURES_BEFORE_FAILOVER == 3,
{
}

/// What is said of a configuration that cannot be planned.
pub proof fn law_refused_plans(job_name: Seq<char>, pipeline: Seq<char>)
    ensures
        plan_message(PlanErrorV::NoWorker, job_name) == "no worker registered: cannot schedule job '"@ + job_name
            + "' — start a worker with `seatunnel-engine-server --role worker --master <master>`"@,
        plan_message(PlanErrorV::EmptyPipelines, job_name) == "'pipelines' section is empty"@,
        plan_message(PlanErrorV::PipelineWithoutSource(pipeline), job_name) == "pipeline '"@ + pipeline
            + "' has no source section"@,
        plan_message(PlanErrorV::PipelineWithEmptySource(pipeline), job_name) == "pipeline '"@ + pipeline
            + "' has an empty source section"@,
        plan_message(PlanErrorV::PipelineWithoutSinks(pipeline), job_name) == "pipeline '"@ + pipeline
            + "' has no sinks section"@,
        plan_message(PlanErrorV::NoSource, job_name) == "job config has no source section"@,
        plan_message(PlanErrorV::EmptySource, job_name) == "job config has an empty source section"@,
        plan_message(PlanErrorV::NoSink, job_name) == "job config has no sink section"@,
        plan_message(PlanErrorV::MalformedSinks, job_name) == "the sinks are neither a map nor a list of maps"@,
{
}

// ---------------------------------------------------------------------------
// A node of a cluster
// ---------------------------------------------------------------------------

/// Which masters a node turns to: those that it was started with, trimmed and without
/// blank ones; where there are none, the members of the configuration.
pub proof fn law_masters(arg: Seq<char>, members: Seq<Seq<char>>)
    ensures
        masters_of(None, members) == members,
        ({
            let given = text::split_text(arg, ',').map_values(|s: Seq<char>| text::trimmed(s)).filter(
                |s: Seq<char>| s.len() > 0,
            );
            &&& given.len() > 0 ==> masters_of(Some(arg), members) == given
            &&& given.len() == 0 ==> masters_of(Some(arg), members) == members
        }),
{
    crate::config_laws::law_members(text::split_text(arg, ','));
}

/// The address that a node is known by: the one that was chosen for it; else its host and
/// port, where the host that stands for every address is written as the local one.
pub proof fn law_advertised(chosen: Seq<char>, host: Seq<char>, port: u16)
    ensures
        chosen.len() > 0 ==> advertised(Some(chosen), host, port) == chosen,
        chosen.len() == 0 ==> advertised(Some(chosen), host, port) == advertised(None, host, port),
        host == "0.0.0.0"@ || host == "::"@ ==> advertised(None, host, port) == "127.0.0.1"@ + ":"@
            + text::decimal_text(port as nat),
        host != "0.0.0.0"@ && host != "::"@ ==> advertised(None, host, port) == host + ":"@ + text::decimal_text(
            port as nat,
        ),
{
}

/// The port of an address is the number behind its last colon.
pub proof fn law_port(host: Seq<char>, port: u16, digits: Seq<char>)
    requires
        !digits.contains(':'),
    ensures
        port_of(host + seq![':'] + digits) == text::unsigned_number(digits, 65_535),
        !host.contains(':') ==> port_of(host) is None,
{
    crate::value_laws::law_last_part(host, ':', digits);
}

/// A member of a cluster is this node when it has its address, or when it is a local one
/// with its port.
pub proof fn law_is_me(advertise: Seq<char>, member: Seq<char>)
    ensures
        is_me(advertise, advertise),
        is_me(advertise, member) && member != advertise ==> port_of(member) is Some && port_of(member) == port_of(
            advertise,
        ) && "127.0.0.1"@.is_prefix_of(member),
        port_of(member) is Some && port_of(member) == port_of(advertise) && "127.0.0.1"@.is_prefix_of(member) ==> is_me(
            advertise,
            member,
        ),
{
    let p = "127.0.0.1"@;
    if p.is_prefix_of(member) {
        assert(member.take(p.len() as int) =~= p);
    }
    if text::has_prefix(member, p) {
        assert(p.is_prefix_of(member));
    }
}

/// The higher of two numbers.
pub proof fn law_higher(a: u64, b: u64)
    ensures
        higher(a, b) >= a && higher(a, b) >= b,
        higher(a, b) == a || higher(a, b) == b,
{
}

/// Checkpoints are shared in an object store when that is what the configuration says and
/// it names a bucket; cleaning up goes by its minutes, and only when it is switched on.
pub proof fn law_configured_node(c: EngineServerConfig)
    requires
        c.clean_grace_minutes * 60 <= u64::MAX,
        c.clean_interval_minutes * 60 <= u64::MAX,
        c.history_job_expire_minutes * 60 <= u64::MAX,
    ensures
        shares_in_s3(c) <==> c.storage_type@ == "s3"@ && c.s3.bucket@.len() > 0,
        clean_of(c) is Some <==> c.auto_clean,
        clean_of(c) matches Some(k) ==> k.grace_secs == 60 * c.clean_grace_minutes && k.interval_secs == 60
            * c.clean_interval_minutes && k.ttl_secs == 60 * c.history_job_expire_minutes,
{
}

/// Each failover turns to the master behind the last one, and from the last master to the
/// first.
pub proof fn law_next_master(start: nat, failovers: nat, masters: nat)
    requires
        start < masters,
    ensures
        turned_to(start, 0, masters) == start,
        turned_to(start, failovers, masters) < masters,
        turned_to(start, failovers, masters) + 1 < masters ==> turned_to(start, failovers + 1, masters) == turned_to(
            start,
            failovers,
            masters,
        ) + 1,
        turned_to(start, failovers, masters) + 1 == masters ==> turned_to(start, failovers + 1, masters) == 0,
    decreases failovers,
{
    if failovers > 0 {
        law_next_master(start, (failovers - 1) as nat, masters);
    }
    let t = turned_to(start, failovers, masters);
    assert(turned_to(start, failovers + 1, masters) == (t + 1) % masters);
    if t + 1 < masters {
        vstd::arithmetic::div_mod::lemma_small_mod(t + 1, masters);
    } else if t + 1 == masters {
        vstd::arithmetic::div_mod::lemma_mod_self_0(masters as int);
    }
}

// ---------------------------------------------------------------------------
// A task's pipeline
// ---------------------------------------------------------------------------

/// The settings of a task name its pipeline. What is written for a pipeline comes first,
/// and the older keys stand in for it.
pub proof fn law_task_settings(c: Pairs, index: i32, parallelism: i32, source: JsonV, transforms: Seq<JsonV>, sinks: JsonV)
    ensures
        ({
            let r = assembled(c, index, parallelism, source, JsonV::Array(transforms), sinks);
            &&& r is Ok ==> {
                let p = r->Ok_0;
                &&& lookup(c, "pipeline.source.plugin"@) matches Some(s) ==> p.source_plugin == s
                &&& lookup(c, "pipeline.source.plugin"@) is None ==> (lookup(c, "source.plugin"@) matches Some(s)
                    ==> p.source_plugin == s)
                &&& lookup(c, "pipeline.source.plugin"@) is None && lookup(c, "source.plugin"@) is None
                    ==> p.source_plugin == ""@
                &&& p.source_config == source && p.transforms == transforms
                &&& p.subtask_index == text::signed_text(index as int)
                &&& parallelism >= 1 ==> p.parallelism == parallelism && p.subtask_count == text::signed_text(
                    parallelism as int,
                )
                &&& parallelism < 1 ==> p.parallelism == 1 && p.subtask_count == text::signed_text(1)
                &&& p.checkpoint_interval == interval_of(c)
            }
            &&& lookup(c, "pipeline.sinks"@) is None ==> r is Ok && (r->Ok_0.sinks matches SinkPlanV::Single(
                plugin,
                config,
            ) && config == sinks && (lookup(c, "sink.plugin"@) matches Some(s) ==> plugin == s) && (lookup(
                c,
                "sink.plugin"@,
            ) is None ==> plugin == "console"@))
            &&& lookup(c, "pipeline.sinks"@) is Some && !(sinks is Array) ==> r == Err::<PlanV, PipelineErrorV>(
                PipelineErrorV::Malformed(Setting::Sinks),
            )
            &&& lookup(c, "pipeline.sinks"@) is Some && sinks is Array && are_sinks(sinks->Array_0) ==> r is Ok && (
            r->Ok_0.sinks matches SinkPlanV::Fanout(list, on_failure) && list.len() == sinks->Array_0.len() && (forall|
                k: int,
            |
                0 <= k < list.len() ==> json::field(sinks->Array_0[k], "plugin"@) == Some(JsonV::Str((#[trigger] list[k]).0))
                    && json::field(sinks->Array_0[k], "config"@) == Some(list[k].1)) && (lookup(
                c,
                "pipeline.on-sink-failure"@,
            ) matches Some(s) ==> on_failure == s) && (lookup(c, "pipeline.on-sink-failure"@) is None ==> on_failure
                == "fail"@))
            &&& lookup(c, "pipeline.sinks"@) is Some && sinks is Array && !are_sinks(sinks->Array_0) ==> r == Err::<PlanV, PipelineErrorV>(PipelineErrorV::Malformed(Setting::Sinks))
        }),
{
    if sinks is Array {
        lemma_declared(sinks->Array_0);
    }
}

/// Whether each value names a plugin and holds a configuration for it.
pub open spec fn are_sinks(a: Seq<JsonV>) -> bool {
    forall|k: int|
        0 <= k < a.len() ==> (json::field(#[trigger] a[k], "plugin"@) matches Some(JsonV::Str(_))) && json::field(
            a[k],
            "config"@,
        ) is Some
}

proof fn lemma_declared(a: Seq<JsonV>)
    ensures
        declared_sinks(a) is Some <==> are_sinks(a),
        declared_sinks(a) matches Some(list) ==> list.len() == a.len() && forall|k: int|
            0 <= k < list.len() ==> json::field(a[k], "plugin"@) == Some(JsonV::Str((#[trigger] list[k]).0)) && json::field(
                a[k],
                "config"@,
            ) == Some(list[k].1),
    decreases a.len(),
{
    if a.len() > 0 {
        let d = a.drop_last();
        lemma_declared(d);
        assert(a[a.len() - 1] == a.last());
        if are_sinks(a) {
            assert forall|k: int| 0 <= k < d.len() implies (json::field(#[trigger] d[k], "plugin"@) matches Some(
                JsonV::Str(_),
            )) && json::field(d[k], "config"@) is Some by {
                assert(d[k] == a[k]);
            }
            assert(are_sinks(d));
        }
        if declared_sinks(a) is Some {
            let list = declared_sinks(a)->0;
            let h = declared_sinks(d)->0;
            assert(list == h.push(list.last()));
            assert forall|k: int| 0 <= k < list.len() implies json::field(a[k], "plugin"@) == Some(
                JsonV::Str((#[trigger] list[k]).0),
            ) && json::field(a[k], "config"@) == Some(list[k].1) by {
                if k < h.len() {
                    assert(list[k] == h[k]);
                    assert(d[k] == a[k]);
                }
            }
            assert(are_sinks(a)) by {
                assert forall|k: int| 0 <= k < a.len() implies (json::field(#[trigger] a[k], "plugin"@) matches Some(
                    JsonV::Str(_),
                )) && json::field(a[k], "config"@) is Some by {
                    assert(json::field(a[k], "plugin"@) == Some(JsonV::Str(list[k].0)));
                }
            }
        }
    }
}

/// How often a task takes checkpoints: as its setting says, and every half a minute where
/// that is missing or is no number.
pub proof fn law_task_interval(c: Pairs)
    ensures
        lookup(c, "checkpoint.interval"@) is None ==> interval_of(c) == 30_000,
        lookup(c, "checkpoint.interval"@) matches Some(v) ==> (text::unsigned_number(v, u64::MAX as nat) matches Some(n)
            ==> interval_of(c) == n) && (text::unsigned_number(v, u64::MAX as nat) is None ==> interval_of(c) == 30_000),
{
}

/// What is read of a task's settings, and why they are refused. The texts of the source,
/// the transforms and the sinks are read in this order.
pub proof fn law_task_texts(c: Pairs, index: i32, parallelism: i32, source: Seq<char>, transforms: Seq<char>, sinks: Seq<char>)
    requires
        first_of(c, "pipeline.source.config"@, "source.config"@, "{}"@, source),
        first_of(c, "transform.config"@, "transform.config"@, "[]"@, transforms),
        first_of(c, "pipeline.sinks"@, "sink.config"@, "{}"@, sinks),
    ensures
        ({
            let r = described(c, index, parallelism);
            let s = json::parsed_text(source);
            let t = json::parsed_text(transforms);
            let k = json::parsed_text(sinks);
            &&& s is None ==> r == Err::<PlanV, PipelineErrorV>(PipelineErrorV::Unreadable(Setting::Source))
            &&& s is Some && t is None ==> r == Err::<PlanV, PipelineErrorV>(PipelineErrorV::Unreadable(Setting::Transforms))
            &&& s is Some && t is Some && !(t->0 is Array) ==> r == Err::<PlanV, PipelineErrorV>(
                PipelineErrorV::Malformed(Setting::Transforms),
            )
            &&& s is Some && t is Some && t->0 is Array && k is None ==> r == Err::<PlanV, PipelineErrorV>(
                PipelineErrorV::Unreadable(Setting::Sinks),
            )
            &&& s is Some && t is Some && t->0 is Array && k is Some ==> r == assembled(
                c,
                index,
                parallelism,
                s->0,
                t->0,
                k->0,
            )
        }),
{
}

/// Whether `value` is the setting of `key`, else that of `other`, else `default`.
pub open spec fn first_of(c: Pairs, key: Seq<char>, other: Seq<char>, default: Seq<char>, value: Seq<char>) -> bool {
    &&& lookup(c, key) is Some ==> lookup(c, key) == Some(value)
    &&& lookup(c, key) is None && lookup(c, other) is Some ==> lookup(c, other) == Some(value)
    &&& lookup(c, key) is None && lookup(c, other) is None ==> value == default
}

/// Where a task's state comes from when it starts: a local checkpoint comes before
/// everything else; then the storage decides, and an object store only where there is one.
pub proof fn law_restoring(storage: Seq<char>, has_s3: bool)
    ensures
        restore_order(true, storage, has_s3) is Local,
        restore_order(false, "master"@, has_s3) is Master,
        restore_order(false, "s3"@, true) is S3,
        restore_order(false, "s3"@, false) is Cold,
        storage != "master"@ && storage != "s3"@ ==> restore_order(false, storage, has_s3) is Cold,
{
    reveal_strlit("master");
    reveal_strlit("s3");
    assert("master"@.len() == 6 && "s3"@.len() == 2);
}

} // verus!
