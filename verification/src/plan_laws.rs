//! What becomes of a submitted configuration: which settings a job takes from it, which
//! pipelines it is made of, and what each of their tasks is told.

use vstd::prelude::*;

use crate::coordinator_laws::{lemma_task_config, task_count};
use crate::job::{DescriptorV, StateV};
use crate::job_config::{
    blocks_of, plan_list, plan_of, sink_list, transforms_of, BlockV, PipelineV, PlanErrorV,
};
use crate::job_coordinator::{compiled, job_interval, job_parallelism, plan_tasks, planned_job, JobSettings};
use crate::json;
use crate::json::{field, member, sorted_members, with_member, JsonV};
use crate::props::{lookup, Pairs};
use crate::text;

verus! {

// ---------------------------------------------------------------------------
// Settings
// ---------------------------------------------------------------------------

/// Transforms that are given as a map are planned in its order, one for each member. One
/// whose settings are a map keeps each of them and has its name beside them; of another
/// the name and the value are kept.
pub proof fn law_transforms_keep_their_settings(config: JsonV, o: Seq<(Seq<char>, JsonV)>, i: int)
    requires
        field(config, "transform"@) == Some(JsonV::Object(o)),
        0 <= i < o.len(),
        o[i].1 matches JsonV::Object(inner) ==> sorted_members(inner),
    ensures
        transforms_of(config).len() == o.len(),
        field(transforms_of(config)[i], "plugin_name"@) == Some(JsonV::Str(o[i].0)),
        o[i].1 matches JsonV::Object(inner) ==> forall|key: Seq<char>|
            key != "plugin_name"@ ==> #[trigger] field(transforms_of(config)[i], key) == member(inner, key),
        !(o[i].1 is Object) ==> field(transforms_of(config)[i], "config"@) == Some(o[i].1) && forall|key: Seq<char>|
            key != "plugin_name"@ && key != "config"@ ==> #[trigger] field(transforms_of(config)[i], key) is None,
{
    match o[i].1 {
        JsonV::Object(inner) => {
            json::lemma_with_member(inner, "plugin_name"@, JsonV::Str(o[i].0));
        },
        other => {
            lemma_two_members("plugin_name"@, JsonV::Str(o[i].0), "config"@, other);
        },
    }
}

/// Transforms that are given as a list are planned as they are; without a section there
/// are none.
pub proof fn law_listed_transforms(config: JsonV, items: Seq<JsonV>)
    ensures
        field(config, "transform"@) == Some(JsonV::Array(items)) ==> transforms_of(config) == items,
        field(config, "transform"@) is None ==> transforms_of(config).len() == 0,
{
}

proof fn lemma_two_members(a: Seq<char>, x: JsonV, b: Seq<char>, y: JsonV)
    requires
        a == "plugin_name"@ && b == "config"@ || a == "plugin"@ && b == "config"@,
    ensures
        ({
            let o = with_member(with_member(Seq::empty(), a, x), b, y);
            &&& member(o, a) == Some(x)
            &&& member(o, b) == Some(y)
            &&& forall|key: Seq<char>| key != a && key != b ==> #[trigger] member(o, key) is None
        }),
{
    reveal_strlit("plugin_name");
    reveal_strlit("plugin");
    reveal_strlit("config");
    assert("config"@[0] == 'c' && "plugin"@[0] == 'p' && "plugin_name"@[0] == 'p');
    let none = Seq::<(Seq<char>, JsonV)>::empty();
    json::lemma_with_member(none, a, x);
    json::lemma_with_member(with_member(none, a, x), b, y);
}

/// How parallel a job is: as it is asked for, else as its environment says, in a number or
/// as the default of a map, else one. It is never zero.
pub proof fn law_parallelism(config: JsonV, env: JsonV, asked: Option<usize>, n: int)
    requires
        field(config, "env"@) == Some(env),
        0 <= n <= usize::MAX,
        n <= u64::MAX,
    ensures
        asked matches Some(p) ==> job_parallelism(config, asked) == if p == 0 { 1 } else { p },
        field(env, "parallelism"@) == Some(JsonV::Int(n)) ==> job_parallelism(config, None) == if n == 0 { 1 } else { n },
        (field(env, "parallelism"@) matches Some(JsonV::Object(o)) && member(o, "default"@) == Some(JsonV::Int(n)))
            ==> job_parallelism(config, None) == if n == 0 { 1 } else { n },
        (field(env, "parallelism"@) matches Some(JsonV::Object(o)) && !(member(o, "default"@) matches Some(JsonV::Int(_))))
            ==> job_parallelism(config, None) == 1,
        !(field(env, "parallelism"@) matches Some(JsonV::Int(_))) && !(field(env, "parallelism"@) matches Some(
            JsonV::Object(_),
        )) ==> job_parallelism(config, None) == 1,
{
}

/// Whether a setting holds no interval: it is no number, and no map with a number for one.
pub open spec fn no_interval(v: Option<JsonV>) -> bool {
    match v {
        Some(JsonV::Int(_)) => false,
        Some(JsonV::Object(o)) => !(member(o, "interval"@) matches Some(JsonV::Int(_))),
        _ => true,
    }
}

/// A job's checkpoint interval: what its environment says under `checkpoint`, in a number
/// or as the interval of a map, else under the dotted key, else half a minute.
pub proof fn law_interval(config: JsonV, env: JsonV, n: int)
    requires
        field(config, "env"@) == Some(env),
        0 <= n <= u64::MAX,
    ensures
        field(env, "checkpoint"@) == Some(JsonV::Int(n)) ==> job_interval(config) == n,
        (field(env, "checkpoint"@) matches Some(JsonV::Object(o)) && member(o, "interval"@) == Some(JsonV::Int(n)))
            ==> job_interval(config) == n,
        no_interval(field(env, "checkpoint"@)) && field(env, "checkpoint.interval"@) == Some(JsonV::Int(n))
            ==> job_interval(config) == n,
        no_interval(field(env, "checkpoint"@)) && !(field(env, "checkpoint.interval"@) matches Some(JsonV::Int(_)))
            ==> job_interval(config) == 30_000,
{
}

/// Without an environment a job is not parallel and its interval is half a minute.
pub proof fn law_without_environment(config: JsonV)
    requires
        field(config, "env"@) is None,
    ensures
        job_parallelism(config, None) == 1,
        job_interval(config) == 30_000,
{
}

// ---------------------------------------------------------------------------
// Pipelines
// ---------------------------------------------------------------------------

/// Whether a section names a plugin with its settings first: in a map, or in the first
/// map of a list.
pub open spec fn names_first(section: JsonV, plugin: Seq<char>, settings: JsonV) -> bool {
    match section {
        JsonV::Object(o) => o.len() > 0 && o[0] == (plugin, settings),
        JsonV::Array(a) => a.len() > 0 && (a[0] matches JsonV::Object(o) && o.len() > 0 && o[0] == (plugin, settings)),
        _ => false,
    }
}

/// What a job does when a sink fails: as its environment says, else it fails.
pub open spec fn jobs_policy(config: JsonV, policy: Seq<char>) -> bool {
    match field(config, "env"@) {
        Some(env) => match field(env, "on-sink-failure"@) {
            Some(JsonV::Str(s)) => policy == s,
            _ => policy == "fail"@,
        },
        None => policy == "fail"@,
    }
}

/// A configuration with one source and a map of sinks is one pipeline: the source's first
/// plugin with its settings, and every sink with its own, in order.
pub proof fn law_single_pipeline(
    config: JsonV,
    parallelism: usize,
    source: JsonV,
    plugin: Seq<char>,
    settings: JsonV,
    sinks: Seq<BlockV>,
    policy: Seq<char>,
)
    requires
        !(field(config, "pipelines"@) matches Some(JsonV::Array(_))),
        field(config, "source"@) == Some(source),
        names_first(source, plugin, settings),
        field(config, "sink"@) == Some(JsonV::Object(sinks)),
        jobs_policy(config, policy),
    ensures
        plan_of(config, parallelism) matches Ok(plan) && plan.len() == 1 && plan[0] == (PipelineV {
            name: "pipeline"@,
            parallelism,
            source_plugin: plugin,
            source_config: settings,
            sinks,
            on_sink_failure: policy,
        }),
{
}

/// A list of maps of sinks holds the sinks of each, one map behind the other.
pub proof fn law_listed_sinks(items: Seq<JsonV>, o: Seq<BlockV>)
    ensures
        blocks_of(JsonV::Array(Seq::empty())) == Some(Seq::<BlockV>::empty()),
        blocks_of(JsonV::Array(items.push(JsonV::Object(o)))) == match blocks_of(JsonV::Array(items)) {
            Some(head) => Some(head + o),
            None => None,
        },
        forall|x: JsonV| !(x is Object) ==> #[trigger] blocks_of(JsonV::Array(items.push(x))) is None,
        blocks_of(JsonV::Object(o)) == Some(o),
{
    assert(items.push(JsonV::Object(o)).drop_last() =~= items);
    assert forall|x: JsonV| !(x is Object) implies #[trigger] blocks_of(JsonV::Array(items.push(x))) is None by {
        assert(items.push(x).drop_last() =~= items);
    }
}

/// What is missing from a configuration without pipelines is said.
pub proof fn law_incomplete_configurations(config: JsonV, parallelism: usize)
    requires
        !(field(config, "pipelines"@) matches Some(JsonV::Array(_))),
    ensures
        field(config, "source"@) is None ==> plan_of(config, parallelism) == Err::<Seq<PipelineV>, PlanErrorV>(
            PlanErrorV::NoSource,
        ),
        field(config, "source"@) == Some(JsonV::Object(Seq::empty())) ==> plan_of(config, parallelism) == Err::<
            Seq<PipelineV>,
            PlanErrorV,
        >(PlanErrorV::EmptySource),
        (field(config, "source"@) matches Some(JsonV::Object(o)) && o.len() > 0) && field(config, "sink"@) is None
            ==> plan_of(config, parallelism) == Err::<Seq<PipelineV>, PlanErrorV>(PlanErrorV::NoSink),
{
}

/// Whether a pipeline is what an entry of a list says: its name, or else its position;
/// its parallelism, or else the job's; the first plugin of its source; the sinks under
/// `sinks`, or else under `sink`; and what it does when a sink fails, or else what the job
/// does.
pub open spec fn says(entry: JsonV, i: nat, default: usize, policy: Seq<char>, p: PipelineV) -> bool {
    &&& match field(entry, "name"@) {
        Some(JsonV::Str(s)) => p.name == s,
        _ => p.name == "p"@ + text::decimal_text(i),
    }
    &&& match field(entry, "parallelism"@) {
        Some(JsonV::Int(n)) => {
            &&& 0 <= n <= usize::MAX && n <= u64::MAX ==> p.parallelism == if n == 0 { 1 } else { n }
            &&& n < 0 || n > u64::MAX ==> p.parallelism == default
        },
        _ => p.parallelism == default,
    }
    &&& field(entry, "source"@) matches Some(source) && names_first(source, p.source_plugin, p.source_config)
    &&& match field(entry, "sinks"@) {
        Some(section) => blocks_of(section) == Some(p.sinks),
        None => field(entry, "sink"@) matches Some(section) && blocks_of(section) == Some(p.sinks),
    }
    &&& match field(entry, "on-sink-failure"@) {
        Some(JsonV::Str(s)) => p.on_sink_failure == s,
        _ => p.on_sink_failure == policy,
    }
}

/// A list of pipelines is planned entry by entry: each pipeline is what its entry says.
pub proof fn law_listed_pipelines(config: JsonV, list: Seq<JsonV>, default: usize, policy: Seq<char>)
    requires
        field(config, "pipelines"@) == Some(JsonV::Array(list)),
        jobs_policy(config, policy),
    ensures
        list.len() == 0 ==> plan_of(config, default) == Err::<Seq<PipelineV>, PlanErrorV>(PlanErrorV::EmptyPipelines),
        plan_of(config, default) matches Ok(plan) ==> plan.len() == list.len() && forall|i: int|
            0 <= i < list.len() ==> says(#[trigger] list[i], i as nat, default, policy, plan[i]),
{
    lemma_listed(list, default, policy);
}

proof fn lemma_listed(list: Seq<JsonV>, default: usize, policy: Seq<char>)
    ensures
        plan_list(list, default, policy) matches Ok(plan) ==> plan.len() == list.len() && forall|i: int|
            0 <= i < list.len() ==> says(#[trigger] list[i], i as nat, default, policy, plan[i]),
    decreases list.len(),
{
    if list.len() > 0 {
        let d = list.drop_last();
        lemma_listed(d, default, policy);
        match plan_list(list, default, policy) {
            Ok(plan) => {
                let h = plan_list(d, default, policy)->Ok_0;
                assert forall|i: int| 0 <= i < list.len() implies says(
                    #[trigger] list[i],
                    i as nat,
                    default,
                    policy,
                    plan[i],
                ) by {
                    if i < d.len() {
                        assert(d[i] == list[i]);
                        assert(plan[i] == h[i]);
                    }
                }
            },
            Err(_) => {},
        }
    }
}

/// A list is planned when every entry has a source with a plugin and sinks in a map.
pub proof fn law_complete_lists_are_planned(config: JsonV, list: Seq<JsonV>, default: usize)
    requires
        field(config, "pipelines"@) == Some(JsonV::Array(list)),
        list.len() > 0,
        forall|i: int|
            0 <= i < list.len() ==> (field(#[trigger] list[i], "source"@) matches Some(JsonV::Object(s)) && s.len() > 0),
        forall|i: int|
            0 <= i < list.len() ==> (field(#[trigger] list[i], "sinks"@) matches Some(JsonV::Object(_))) || (field(
                list[i],
                "sinks"@,
            ) is None && (field(list[i], "sink"@) matches Some(JsonV::Object(_)))),
    ensures
        plan_of(config, default) is Ok,
{
    lemma_complete(list, default, crate::job_config::default_policy(config));
}

proof fn lemma_complete(list: Seq<JsonV>, default: usize, policy: Seq<char>)
    requires
        forall|i: int|
            0 <= i < list.len() ==> (field(#[trigger] list[i], "source"@) matches Some(JsonV::Object(s)) && s.len() > 0),
        forall|i: int|
            0 <= i < list.len() ==> (field(#[trigger] list[i], "sinks"@) matches Some(JsonV::Object(_))) || (field(
                list[i],
                "sinks"@,
            ) is None && (field(list[i], "sink"@) matches Some(JsonV::Object(_)))),
    ensures
        plan_list(list, default, policy) is Ok,
    decreases list.len(),
{
    if list.len() > 0 {
        let d = list.drop_last();
        assert forall|i: int| 0 <= i < d.len() implies (field(#[trigger] d[i], "source"@) matches Some(JsonV::Object(s))
            && s.len() > 0) && ((field(d[i], "sinks"@) matches Some(JsonV::Object(_))) || (field(d[i], "sinks"@) is None && (
        field(d[i], "sink"@) matches Some(JsonV::Object(_))))) by {
            assert(d[i] == list[i]);
        }
        lemma_complete(d, default, policy);
        assert(list.last() == list[list.len() - 1]);
    }
}

/// The first entry that lacks a source, a plugin in it or sinks is the one that a list is
/// refused for.
pub proof fn law_incomplete_entries(list: Seq<JsonV>, entry: JsonV, default: usize, policy: Seq<char>, name: Seq<char>)
    requires
        plan_list(list, default, policy) is Ok,
        field(entry, "name"@) == Some(JsonV::Str(name)),
    ensures
        ({
            let r = plan_list(list.push(entry), default, policy);
            &&& field(entry, "source"@) is None ==> r == Err::<Seq<PipelineV>, PlanErrorV>(
                PlanErrorV::PipelineWithoutSource(name),
            )
            &&& field(entry, "source"@) == Some(JsonV::Object(Seq::empty())) ==> r == Err::<Seq<PipelineV>, PlanErrorV>(
                PlanErrorV::PipelineWithEmptySource(name),
            )
            &&& (field(entry, "source"@) matches Some(JsonV::Object(o)) && o.len() > 0) && field(entry, "sinks"@) is None
                && field(entry, "sink"@) is None ==> r == Err::<Seq<PipelineV>, PlanErrorV>(
                PlanErrorV::PipelineWithoutSinks(name),
            )
        }),
        forall|more: Seq<JsonV>|
            plan_list(list.push(entry), default, policy) is Err ==> #[trigger] plan_list(
                list.push(entry) + more,
                default,
                policy,
            ) == plan_list(list.push(entry), default, policy),
{
    assert(list.push(entry).drop_last() =~= list);
    assert forall|more: Seq<JsonV>| plan_list(list.push(entry), default, policy) is Err implies #[trigger] plan_list(
        list.push(entry) + more,
        default,
        policy,
    ) == plan_list(list.push(entry), default, policy) by {
        lemma_refused_early(list.push(entry), more, default, policy);
    }
}

proof fn lemma_refused_early(list: Seq<JsonV>, more: Seq<JsonV>, default: usize, policy: Seq<char>)
    requires
        plan_list(list, default, policy) is Err,
    ensures
        plan_list(list + more, default, policy) == plan_list(list, default, policy),
    decreases more.len(),
{
    if more.len() == 0 {
        assert(list + more =~= list);
    } else {
        lemma_refused_early(list, more.drop_last(), default, policy);
        assert((list + more).drop_last() =~= list + more.drop_last());
    }
}

/// The sinks of a pipeline travel as a list, each with its plugin and its settings.
pub proof fn law_sinks_travel(sinks: Seq<BlockV>, i: int)
    requires
        0 <= i < sinks.len(),
    ensures
        sink_list(sinks) matches JsonV::Array(a) && a.len() == sinks.len() && field(a[i], "plugin"@) == Some(
            JsonV::Str(sinks[i].0),
        ) && field(a[i], "config"@) == Some(sinks[i].1),
{
    lemma_two_members("plugin"@, JsonV::Str(sinks[i].0), "config"@, sinks[i].1);
}

// ---------------------------------------------------------------------------
// Tasks
// ---------------------------------------------------------------------------

/// Whether a task is what it should be as number `i` of a pipeline that goes to a worker:
/// its ids are made of the job's, the pipeline's position and its own; it knows its
/// position and its pipeline's parallelism; and its configuration says where it runs, what
/// it reads, how that is transformed, where it goes, and how often it is saved.
pub open spec fn is_task(
    d: DescriptorV,
    s: JobSettings,
    pipe: nat,
    p: PipelineV,
    i: nat,
    worker: (Seq<char>, Seq<char>),
) -> bool {
    &&& d.job_id == s.job_id
    &&& d.stage_id == s.job_id + "-p"@ + text::decimal_text(pipe)
    &&& d.task_id == d.stage_id + "-"@ + text::decimal_text(i)
    &&& d.task_name == s.job_name + "-"@ + p.name + "-"@ + text::decimal_text(i)
    &&& i <= i32::MAX ==> d.task_index == i
    &&& p.parallelism <= i32::MAX ==> d.parallelism == p.parallelism
    &&& lookup(d.config, "worker_id"@) == Some(worker.0)
    &&& lookup(d.config, "worker_address"@) == Some(worker.1)
    &&& lookup(d.config, "job.name"@) == Some(s.job_name)
    &&& lookup(d.config, "pipeline.index"@) == Some(text::decimal_text(pipe))
    &&& lookup(d.config, "pipeline.name"@) == Some(p.name)
    &&& lookup(d.config, "pipeline.source.plugin"@) == Some(p.source_plugin)
    &&& lookup(d.config, "pipeline.source.config"@) == Some(json::json_text(p.source_config))
    &&& lookup(d.config, "pipeline.sinks"@) == Some(json::json_text(sink_list(p.sinks)))
    &&& lookup(d.config, "pipeline.on-sink-failure"@) == Some(p.on_sink_failure)
    &&& lookup(d.config, "transform.config"@) == Some(json::json_text(JsonV::Array(s.transforms)))
    &&& lookup(d.config, "checkpoint.interval"@) == Some(text::decimal_text(s.interval as nat))
}

proof fn lemma_tasks_of(s: JobSettings, plan: Seq<PipelineV>, n: nat, workers: Pairs, p: nat, i: nat)
    requires
        workers.len() > 0,
        p < n <= plan.len(),
        i < plan[p as int].parallelism,
    ensures
        plan_tasks(s, plan, n, workers).len() == task_count(plan, n),
        task_count(plan, p) + i < plan_tasks(s, plan, n, workers).len(),
        is_task(
            plan_tasks(s, plan, n, workers)[(task_count(plan, p) + i) as int],
            s,
            p,
            plan[p as int],
            i,
            workers[(task_count(plan, p) + i) as int % (workers.len() as int)],
        ),
    decreases n,
{
    let m = (n - 1) as nat;
    let h = plan_tasks(s, plan, m, workers);
    lemma_count(s, plan, m, workers);
    if p < m {
        lemma_tasks_of(s, plan, m, workers, p, i);
        assert(plan_tasks(s, plan, n, workers)[(task_count(plan, p) + i) as int] == h[(task_count(plan, p) + i) as int]);
    } else {
        let w = workers[(task_count(plan, p) + i) as int % (workers.len() as int)];
        lemma_task_config(s, p, plan[p as int], w);
    }
}

proof fn lemma_count(s: JobSettings, plan: Seq<PipelineV>, n: nat, workers: Pairs)
    requires
        n <= plan.len(),
    ensures
        plan_tasks(s, plan, n, workers).len() == task_count(plan, n),
    decreases n,
{
    if n > 0 {
        lemma_count(s, plan, (n - 1) as nat, workers);
    }
}

/// A submitted job has the tasks of its pipelines, one pipeline behind the other, and the
/// workers take turns over all of them. Without workers it is refused.
pub proof fn law_compiled_tasks(
    job_id: Seq<char>,
    job_name: Seq<char>,
    config: JsonV,
    asked: Option<usize>,
    workers: Pairs,
    plan: Seq<PipelineV>,
    p: nat,
    i: nat,
)
    requires
        plan_of(config, job_parallelism(config, asked)) == Ok::<Seq<PipelineV>, PlanErrorV>(plan),
        p < plan.len(),
        i < plan[p as int].parallelism,
    ensures
        workers.len() == 0 ==> compiled(job_id, job_name, config, asked, workers) == Err::<Seq<DescriptorV>, PlanErrorV>(
            PlanErrorV::NoWorker,
        ),
        workers.len() > 0 ==> (compiled(job_id, job_name, config, asked, workers) matches Ok(tasks) && tasks.len()
            == task_count(plan, plan.len()) && is_task(
            tasks[(task_count(plan, p) + i) as int],
            JobSettings { job_id, job_name, transforms: transforms_of(config), interval: job_interval(config) },
            p,
            plan[p as int],
            i,
            workers[(task_count(plan, p) + i) as int % (workers.len() as int)],
        )),
{
    if workers.len() > 0 {
        lemma_tasks_of(
            JobSettings { job_id, job_name, transforms: transforms_of(config), interval: job_interval(config) },
            plan,
            plan.len(),
            workers,
            p,
            i,
        );
    }
}

/// A planned job waits for its tasks to be handed out, each to the worker that its
/// configuration names; it has had no checkpoint, and its first one will have the id one.
pub proof fn law_planned_job(
    job_id: Seq<char>,
    job_name: Seq<char>,
    config: JsonV,
    asked: Option<usize>,
    tasks: Seq<DescriptorV>,
    now: i64,
    x: int,
    worker: Seq<char>,
)
    requires
        0 <= x < tasks.len(),
        lookup(tasks[x].config, "worker_id"@) == Some(worker),
    ensures
        ({
            let j = planned_job(job_id, job_name, config, asked, tasks, now);
            &&& j.job_id == job_id && j.job_name == job_name
            &&& j.state is Scheduled
            &&& j.start_time == now && j.end_time is None && j.error_message is None
            &&& j.checkpoints_completed == 0 && j.next_checkpoint_id == 1 && j.last_checkpoint_trigger_ms == 0
            &&& j.parallelism == job_parallelism(config, asked)
            &&& j.checkpoint_interval_ms == job_interval(config)
            &&& j.raw_config == json::json_text(config)
            &&& j.tasks.len() == tasks.len()
            &&& j.tasks[x].task_id == tasks[x].task_id && j.tasks[x].stage_id == tasks[x].stage_id
            &&& j.tasks[x].worker_id == worker
            &&& j.tasks[x].state == StateV::Scheduled
            &&& j.tasks[x].processed_records == 0 && j.tasks[x].error is None && j.tasks[x].last_checkpoint_id == 0
        }),
{
}

} // verus!
