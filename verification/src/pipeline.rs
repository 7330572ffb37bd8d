//! A task's pipeline as its descriptor describes it, and where its state is
//! restored from.

use vstd::prelude::*;

use crate::job::TaskDescriptor;
use crate::coordinator_laws::lemma_task_config;
use crate::job_config::{sink_list, sinks_view, BlockV, SinkDeclaration, DEFAULT_CHECKPOINT_INTERVAL_MS};
use crate::job_config::PipelineV;
use crate::job_coordinator::{descriptor_of, JobSettings};
use crate::json;
use crate::json::{Json, JsonV};
use crate::props::{lookup, Pairs, Properties};
use crate::text;

verus! {

/// Where a pipeline's records go.
#[derive(Debug)]
pub enum SinkPlan {
    /// To a list of sinks, with what happens when one of them fails.
    Fanout { sinks: Vec<SinkDeclaration>, on_failure: String },
    /// To one sink.
    Single { plugin: String, config: Json },
}

/// The mathematical value of where records go.
#[verifier::ext_equal]
pub enum SinkPlanV {
    Fanout(Seq<BlockV>, Seq<char>),
    Single(Seq<char>, JsonV),
}

impl View for SinkPlan {
    type V = SinkPlanV;

    open spec fn view(&self) -> SinkPlanV {
        match self {
            SinkPlan::Fanout { sinks, on_failure } => SinkPlanV::Fanout(sinks_view(sinks@), on_failure@),
            SinkPlan::Single { plugin, config } => SinkPlanV::Single(plugin@, config@),
        }
    }
}

/// What a task runs.
#[derive(Debug)]
pub struct PipelinePlan {
    pub source_plugin: String,
    pub source_config: Json,
    /// The share of the subtask, handed to the source as two settings.
    pub subtask_index: String,
    pub subtask_count: String,
    pub parallelism: usize,
    pub transforms: Vec<Json>,
    pub sinks: SinkPlan,
    pub checkpoint_interval: u64,
}

/// The mathematical value of what a task runs.
#[verifier::ext_equal]
pub struct PlanV {
    pub source_plugin: Seq<char>,
    pub source_config: JsonV,
    pub subtask_index: Seq<char>,
    pub subtask_count: Seq<char>,
    pub parallelism: usize,
    pub transforms: Seq<JsonV>,
    pub sinks: SinkPlanV,
    pub checkpoint_interval: u64,
}

impl View for PipelinePlan {
    type V = PlanV;

    open spec fn view(&self) -> PlanV {
        PlanV {
            source_plugin: self.source_plugin@,
            source_config: self.source_config@,
            subtask_index: self.subtask_index@,
            subtask_count: self.subtask_count@,
            parallelism: self.parallelism,
            transforms: json::items_view(self.transforms@),
            sinks: self.sinks@,
            checkpoint_interval: self.checkpoint_interval,
        }
    }
}

/// Why a descriptor describes no pipeline.
#[derive(Debug)]
pub enum PipelineError {
    /// A setting is no JSON.
    Unreadable(Setting, serde_json::Error),
    /// A setting is JSON of another shape.
    Malformed(Setting),
}

/// A setting that holds JSON.
#[derive(Debug, Clone, Copy, PartialEq, Eq, Structural)]
pub enum Setting {
    Source,
    Transforms,
    Sinks,
}

/// The mathematical value of such an error.
pub enum PipelineErrorV {
    Unreadable(Setting),
    Malformed(Setting),
}

impl View for PipelineError {
    type V = PipelineErrorV;

    open spec fn view(&self) -> PipelineErrorV {
        match self {
            PipelineError::Unreadable(s, _) => PipelineErrorV::Unreadable(*s),
            PipelineError::Malformed(s) => PipelineErrorV::Malformed(*s),
        }
    }
}

/// A setting, else another one, else a default.
pub open spec fn setting(c: Pairs, key: Seq<char>, other: Seq<char>, default: Seq<char>) -> Seq<char> {
    match lookup(c, key) {
        Some(v) => v,
        None => match lookup(c, other) {
            Some(v) => v,
            None => default,
        },
    }
}

fn setting_of(c: &Properties, key: &str, other: &str, default: &str) -> (r: String)
    ensures
        r@ == setting(c@, key@, other@, default@),
{
    match c.get(key) {
        Some(v) => v.clone(),
        None => match c.get(other) {
            Some(v) => v.clone(),
            None => text::owned(default),
        },
    }
}

/// The plugin of the source.
pub open spec fn source_plugin_of(c: Pairs) -> Seq<char> {
    setting(c, "pipeline.source.plugin"@, "source.plugin"@, ""@)
}

/// The text of the source's configuration.
pub open spec fn source_text(c: Pairs) -> Seq<char> {
    setting(c, "pipeline.source.config"@, "source.config"@, "{}"@)
}

/// The text of the transforms.
pub open spec fn transforms_text(c: Pairs) -> Seq<char> {
    setting(c, "transform.config"@, "transform.config"@, "[]"@)
}

/// The text of the sinks: of the list, else of the single sink.
pub open spec fn sinks_text(c: Pairs) -> Seq<char> {
    setting(c, "pipeline.sinks"@, "sink.config"@, "{}"@)
}

/// The checkpoint interval; one that is no number is the default.
pub open spec fn interval_of(c: Pairs) -> u64 {
    match lookup(c, "checkpoint.interval"@) {
        Some(v) => match text::unsigned_number(v, u64::MAX as nat) {
            Some(n) => n as u64,
            None => DEFAULT_CHECKPOINT_INTERVAL_MS,
        },
        None => DEFAULT_CHECKPOINT_INTERVAL_MS,
    }
}

/// `n`, at least one.
pub open spec fn at_least_one(n: i32) -> int {
    if n < 1 { 1 } else { n as int }
}

/// The sink that an entry of the list declares.
pub open spec fn declared_sink(v: JsonV) -> Option<BlockV> {
    match v {
        JsonV::Object(o) => match (json::member(o, "plugin"@), json::member(o, "config"@)) {
            (Some(JsonV::Str(p)), Some(c)) => Some((p, c)),
            _ => None,
        },
        _ => None,
    }
}

/// The sinks that a list declares, if every entry declares one.
pub open spec fn declared_sinks(a: Seq<JsonV>) -> Option<Seq<BlockV>>
    decreases a.len(),
{
    if a.len() == 0 {
        Some(Seq::empty())
    } else {
        match (declared_sinks(a.drop_last()), declared_sink(a.last())) {
            (Some(h), Some(s)) => Some(h.push(s)),
            _ => None,
        }
    }
}

/// The sinks of a pipeline, given the JSON of its setting.
pub open spec fn sink_plan(c: Pairs, sinks: JsonV) -> Option<SinkPlanV> {
    if lookup(c, "pipeline.sinks"@) is Some {
        match sinks {
            JsonV::Array(a) => match declared_sinks(a) {
                Some(s) => Some(
                    SinkPlanV::Fanout(
                        s,
                        setting(c, "pipeline.on-sink-failure"@, "pipeline.on-sink-failure"@, "fail"@),
                    ),
                ),
                None => None,
            },
            _ => None,
        }
    } else {
        Some(SinkPlanV::Single(setting(c, "sink.plugin"@, "sink.plugin"@, "console"@), sinks))
    }
}

/// What a task runs, given the JSON of its settings.
pub open spec fn assembled(
    c: Pairs,
    index: i32,
    parallelism: i32,
    source: JsonV,
    transforms: JsonV,
    sinks: JsonV,
) -> Result<PlanV, PipelineErrorV> {
    match transforms {
        JsonV::Array(t) => match sink_plan(c, sinks) {
            Some(s) => Ok(
                PlanV {
                    source_plugin: source_plugin_of(c),
                    source_config: source,
                    subtask_index: text::signed_text(index as int),
                    subtask_count: text::signed_text(at_least_one(parallelism)),
                    parallelism: at_least_one(parallelism) as usize,
                    transforms: t,
                    sinks: s,
                    checkpoint_interval: interval_of(c),
                },
            ),
            None => Err(PipelineErrorV::Malformed(Setting::Sinks)),
        },
        _ => Err(PipelineErrorV::Malformed(Setting::Transforms)),
    }
}

/// What a descriptor's settings describe.
pub open spec fn described(c: Pairs, index: i32, parallelism: i32) -> Result<PlanV, PipelineErrorV> {
    match json::parsed_text(source_text(c)) {
        None => Err(PipelineErrorV::Unreadable(Setting::Source)),
        Some(source) => match json::parsed_text(transforms_text(c)) {
            None => Err(PipelineErrorV::Unreadable(Setting::Transforms)),
            Some(transforms) => if !(transforms is Array) {
                Err(PipelineErrorV::Malformed(Setting::Transforms))
            } else {
                match json::parsed_text(sinks_text(c)) {
                    None => Err(PipelineErrorV::Unreadable(Setting::Sinks)),
                    Some(sinks) => assembled(c, index, parallelism, source, transforms, sinks),
                }
            },
        },
    }
}

fn find_declared(v: &Json) -> (r: Option<SinkDeclaration>)
    ensures
        match (r, declared_sink(v@)) {
            (Some(s), Some(b)) => (s.plugin@, s.config@) == b,
            (None, None) => true,
            _ => false,
        },
{
    proof {
        json::lemma_json_parts(*v);
    }
    match v {
        Json::Object(_) => {
            let plugin = match v.get("plugin") {
                Some(p) => p.as_str(),
                None => None,
            };
            let config = v.get("config");
            match (plugin, config) {
                (Some(p), Some(c)) => Some(SinkDeclaration { plugin: text::owned(p), config: c.copy() }),
                _ => None,
            }
        },
        _ => None,
    }
}

fn find_all_declared(items: &Vec<Json>) -> (r: Option<Vec<SinkDeclaration>>)
    ensures
        match (r, declared_sinks(json::items_view(items@))) {
            (Some(s), Some(b)) => sinks_view(s@) == b,
            (None, None) => true,
            _ => false,
        },
{
    let ghost a = json::items_view(items@);
    let mut out: Vec<SinkDeclaration> = Vec::new();
    let mut i: usize = 0;
    proof {
        assert(a.take(0) =~= Seq::empty());
        assert(sinks_view(out@) =~= Seq::empty());
    }
    while i < items.len()
        invariant
            i <= items@.len(),
            a == json::items_view(items@),
            declared_sinks(a.take(i as int)) == Some(sinks_view(out@)),
        decreases items@.len() - i,
    {
        proof {
            assert(a.take(i + 1).drop_last() =~= a.take(i as int));
            assert(a.take(i + 1).last() == items@[i as int]@);
        }
        match find_declared(&items[i]) {
            Some(s) => {
                let ghost prev = out@;
                let ghost sv = (s.plugin@, s.config@);
                out.push(s);
                assert(sinks_view(out@) =~= sinks_view(prev).push(sv));
            },
            None => {
                proof {
                    lemma_undeclared(a, i as int);
                }
                return None;
            },
        }
        i += 1;
    }
    assert(a.take(a.len() as int) =~= a);
    Some(out)
}

proof fn lemma_undeclared(a: Seq<JsonV>, i: int)
    requires
        0 <= i < a.len(),
        declared_sink(a[i]) is None,
    ensures
        declared_sinks(a) is None,
    decreases a.len(),
{
    if i < a.len() - 1 {
        lemma_undeclared(a.drop_last(), i);
    }
}

/// What a task runs, given the JSON of its settings. The transforms are a list,
/// and so are the sinks of a pipeline that has a list of them.
pub fn assemble_pipeline(
    task: &TaskDescriptor,
    source: Json,
    transforms: Json,
    sinks: Json,
) -> (r: Result<PipelinePlan, PipelineError>)
    ensures
        match (r, assembled(task@.config, task@.task_index, task@.parallelism, source@, transforms@, sinks@)) {
            (Ok(p), Ok(v)) => p@ == v,
            (Err(e), Err(v)) => e@ == v,
            _ => false,
        },
{
    proof {
        json::lemma_json_parts(transforms);
        json::lemma_json_parts(sinks);
    }
    let cfg = &task.config;
    let list = match transforms {
        Json::Array(t) => t,
        _ => {
            return Err(PipelineError::Malformed(Setting::Transforms));
        },
    };
    let plan = if cfg.get("pipeline.sinks").is_some() {
        match sinks {
            Json::Array(items) => match find_all_declared(&items) {
                Some(s) => SinkPlan::Fanout {
                    sinks: s,
                    on_failure: setting_of(cfg, "pipeline.on-sink-failure", "pipeline.on-sink-failure", "fail"),
                },
                None => {
                    return Err(PipelineError::Malformed(Setting::Sinks));
                },
            },
            _ => {
                return Err(PipelineError::Malformed(Setting::Sinks));
            },
        }
    } else {
        SinkPlan::Single { plugin: setting_of(cfg, "sink.plugin", "sink.plugin", "console"), config: sinks }
    };
    let parallelism: i32 = if task.parallelism < 1 { 1 } else { task.parallelism };
    let checkpoint_interval: u64 = match cfg.get("checkpoint.interval") {
        Some(v) => match text::parse_u64(v.as_str()) {
            Some(n) => n,
            None => DEFAULT_CHECKPOINT_INTERVAL_MS,
        },
        None => DEFAULT_CHECKPOINT_INTERVAL_MS,
    };
    Ok(
        PipelinePlan {
            source_plugin: setting_of(cfg, "pipeline.source.plugin", "source.plugin", ""),
            source_config: source,
            subtask_index: text::signed_decimal(task.task_index as i64),
            subtask_count: text::signed_decimal(parallelism as i64),
            parallelism: parallelism as usize,
            transforms: list,
            sinks: plan,
            checkpoint_interval,
        },
    )
}

/// What a task runs, as its descriptor describes it. A descriptor of a pipeline
/// names its source and its list of sinks; an older one names a source and one
/// sink.
pub fn plan_pipeline(task: &TaskDescriptor) -> (r: Result<PipelinePlan, PipelineError>)
    ensures
        match (r, described(task@.config, task@.task_index, task@.parallelism)) {
            (Ok(p), Ok(v)) => p@ == v,
            (Err(e), Err(v)) => e@ == v,
            _ => false,
        },
{
    let cfg = &task.config;
    let source_raw = setting_of(cfg, "pipeline.source.config", "source.config", "{}");
    let source = match json::read_json(source_raw.as_str().as_bytes()) {
        Ok(v) => v,
        Err(e) => {
            return Err(PipelineError::Unreadable(Setting::Source, e));
        },
    };
    let transforms_raw = setting_of(cfg, "transform.config", "transform.config", "[]");
    let transforms = match json::read_json(transforms_raw.as_str().as_bytes()) {
        Ok(v) => v,
        Err(e) => {
            return Err(PipelineError::Unreadable(Setting::Transforms, e));
        },
    };
    proof {
        json::lemma_json_parts(transforms);
    }
    match &transforms {
        Json::Array(_) => {},
        _ => {
            return Err(PipelineError::Malformed(Setting::Transforms));
        },
    }
    let sinks_raw = setting_of(cfg, "pipeline.sinks", "sink.config", "{}");
    match json::read_json(sinks_raw.as_str().as_bytes()) {
        Ok(sinks) => assemble_pipeline(task, source, transforms, sinks),
        Err(e) => Err(PipelineError::Unreadable(Setting::Sinks, e)),
    }
}

/// Whether a document's text is read back as the document.
pub open spec fn reads_back(v: JsonV) -> bool {
    json::parsed_text(json::json_text(v)) == Some(v)
}

proof fn lemma_sink_list(sinks: Seq<BlockV>)
    ensures
        sink_list(sinks) is Array,
        declared_sinks(sink_list(sinks)->Array_0) == Some(sinks),
    decreases sinks.len(),
{
    let a = sink_list(sinks)->Array_0;
    if sinks.len() == 0 {
        assert(sinks =~= Seq::empty());
    } else {
        let d = sinks.drop_last();
        lemma_sink_list(d);
        assert(a.drop_last() =~= sink_list(d)->Array_0);
        let e = Seq::<(Seq<char>, JsonV)>::empty();
        let o = json::with_member(e, "plugin"@, JsonV::Str(sinks.last().0));
        json::lemma_with_member(e, "plugin"@, JsonV::Str(sinks.last().0));
        json::lemma_with_member(o, "config"@, sinks.last().1);
        reveal_strlit("plugin");
        reveal_strlit("config");
        assert("plugin"@[0] == 'p' && "config"@[0] == 'c');
        assert(a.last() == JsonV::Object(json::with_member(o, "config"@, sinks.last().1)));
        assert(d.push(sinks.last()) =~= sinks);
    }
}

/// A worker runs what the coordinator planned: the source, the transforms, the
/// sinks and the interval of a task's pipeline arrive as they were, as far as
/// their texts are read back.
pub proof fn law_planned_pipeline_arrives(s: JobSettings, pipe: nat, p: PipelineV, i: nat, worker: (Seq<char>, Seq<char>))
    ensures
        reads_back(p.source_config) && reads_back(JsonV::Array(s.transforms)) && reads_back(sink_list(p.sinks)) ==> ({
            let d = descriptor_of(s, pipe, p, i, worker);
            described(d.config, d.task_index, d.parallelism) == Ok::<PlanV, PipelineErrorV>(
                PlanV {
                    source_plugin: p.source_plugin,
                    source_config: p.source_config,
                    subtask_index: text::signed_text(d.task_index as int),
                    subtask_count: text::signed_text(at_least_one(d.parallelism)),
                    parallelism: at_least_one(d.parallelism) as usize,
                    transforms: s.transforms,
                    sinks: SinkPlanV::Fanout(p.sinks, p.on_sink_failure),
                    checkpoint_interval: s.interval,
                },
            )
        }),
{
    lemma_task_config(s, pipe, p, worker);
    lemma_sink_list(p.sinks);
    text::law_decimal_round_trip(s.interval as nat, u64::MAX as nat);
}

// ---------------------------------------------------------------------------
// Restoring
// ---------------------------------------------------------------------------

/// Where a task's state is restored from.
#[derive(Debug, Clone, Copy, PartialEq, Eq, Structural)]
pub enum RestoreSource {
    /// The worker's own disk.
    Local,
    /// The master's store.
    Master,
    /// The shared object store.
    S3,
    /// Nowhere: the task starts from the beginning.
    Cold,
}

/// Where a task's state is restored from: the worker's own disk when it has a
/// checkpoint, else the backend that the storage type names.
pub open spec fn restore_order(has_local: bool, storage: Seq<char>, has_s3: bool) -> RestoreSource {
    if has_local {
        RestoreSource::Local
    } else if storage == "master"@ {
        RestoreSource::Master
    } else if storage == "s3"@ && has_s3 {
        RestoreSource::S3
    } else {
        RestoreSource::Cold
    }
}

/// Where a task's state is restored from.
pub fn restore_source(has_local: bool, storage_type: &str, has_s3: bool) -> (r: RestoreSource)
    ensures
        r == restore_order(has_local, storage_type@, has_s3),
{
    if has_local {
        RestoreSource::Local
    } else if text::same(storage_type, "master") {
        RestoreSource::Master
    } else if text::same(storage_type, "s3") && has_s3 {
        RestoreSource::S3
    } else {
        RestoreSource::Cold
    }
}

/// The checkpoint that a master answered with; one without an id or without bytes
/// is none.
pub fn fetched_checkpoint(checkpoint_id: i64, checkpoint_data: Vec<u8>) -> (r: Option<(u64, Vec<u8>)>)
    ensures
        match r {
            Some(e) => checkpoint_id > 0 && e.0 == checkpoint_id && e.1@ == checkpoint_data@ && e.1@.len() > 0,
            None => checkpoint_id <= 0 || checkpoint_data@.len() == 0,
        },
{
    if checkpoint_id > 0 && checkpoint_data.len() > 0 {
        Some((checkpoint_id as u64, checkpoint_data))
    } else {
        None
    }
}

} // verus!
