//! Reading a job's configuration: parallelism, checkpoint interval, pipelines,
//! sinks and transforms.

use vstd::prelude::*;

use crate::json;
use crate::json::{field, Json, JsonV};
use crate::text;

verus! {

/// Checkpoint interval of a job whose configuration does not set one.
pub const DEFAULT_CHECKPOINT_INTERVAL_MS: u64 = 30_000;

/// One sink of a pipeline: the plugin and its configuration.
#[derive(Debug)]
pub struct SinkDeclaration {
    pub plugin: String,
    pub config: Json,
}

/// One pipeline of a job.
#[derive(Debug)]
pub struct PipelineSpec {
    pub name: String,
    pub parallelism: usize,
    pub source_plugin: String,
    pub source_config: Json,
    pub sinks: Vec<SinkDeclaration>,
    pub on_sink_failure: String,
}

/// Why a job cannot be planned.
#[derive(Debug)]
pub enum PlanError {
    /// No worker has registered.
    NoWorker,
    /// The list of pipelines is empty.
    EmptyPipelines,
    /// A listed pipeline has no source.
    PipelineWithoutSource(String),
    /// A listed pipeline has an empty source.
    PipelineWithEmptySource(String),
    /// A listed pipeline has no sinks.
    PipelineWithoutSinks(String),
    /// The job has no source.
    NoSource,
    /// The job's source is empty.
    EmptySource,
    /// The job has no sink.
    NoSink,
    /// The sinks are neither a map nor a list of maps.
    MalformedSinks,
}

/// A plugin name and its configuration.
pub type BlockV = (Seq<char>, JsonV);

/// The mathematical value of a pipeline.
#[verifier::ext_equal]
pub struct PipelineV {
    pub name: Seq<char>,
    pub parallelism: usize,
    pub source_plugin: Seq<char>,
    pub source_config: JsonV,
    pub sinks: Seq<BlockV>,
    pub on_sink_failure: Seq<char>,
}

/// The mathematical value of a planning error.
pub enum PlanErrorV {
    NoWorker,
    EmptyPipelines,
    PipelineWithoutSource(Seq<char>),
    PipelineWithEmptySource(Seq<char>),
    PipelineWithoutSinks(Seq<char>),
    NoSource,
    EmptySource,
    NoSink,
    MalformedSinks,
}

/// The plugins and configurations of a list of sinks.
pub open spec fn sinks_view(v: Seq<SinkDeclaration>) -> Seq<BlockV> {
    v.map_values(|s: SinkDeclaration| (s.plugin@, s.config@))
}

impl View for PipelineSpec {
    type V = PipelineV;

    open spec fn view(&self) -> PipelineV {
        PipelineV {
            name: self.name@,
            parallelism: self.parallelism,
            source_plugin: self.source_plugin@,
            source_config: self.source_config@,
            sinks: sinks_view(self.sinks@),
            on_sink_failure: self.on_sink_failure@,
        }
    }
}

impl View for PlanError {
    type V = PlanErrorV;

    open spec fn view(&self) -> PlanErrorV {
        match self {
            PlanError::NoWorker => PlanErrorV::NoWorker,
            PlanError::EmptyPipelines => PlanErrorV::EmptyPipelines,
            PlanError::PipelineWithoutSource(n) => PlanErrorV::PipelineWithoutSource(n@),
            PlanError::PipelineWithEmptySource(n) => PlanErrorV::PipelineWithEmptySource(n@),
            PlanError::PipelineWithoutSinks(n) => PlanErrorV::PipelineWithoutSinks(n@),
            PlanError::NoSource => PlanErrorV::NoSource,
            PlanError::EmptySource => PlanErrorV::EmptySource,
            PlanError::NoSink => PlanErrorV::NoSink,
            PlanError::MalformedSinks => PlanErrorV::MalformedSinks,
        }
    }
}

/// What a planning error says of the job called `job_name`.
pub open spec fn plan_message(e: PlanErrorV, job_name: Seq<char>) -> Seq<char> {
    match e {
        PlanErrorV::NoWorker => "no worker registered: cannot schedule job '"@ + job_name
            + "' — start a worker with `seatunnel-engine-server --role worker --master <master>`"@,
        PlanErrorV::EmptyPipelines => "'pipelines' section is empty"@,
        PlanErrorV::PipelineWithoutSource(n) => "pipeline '"@ + n + "' has no source section"@,
        PlanErrorV::PipelineWithEmptySource(n) => "pipeline '"@ + n + "' has an empty source section"@,
        PlanErrorV::PipelineWithoutSinks(n) => "pipeline '"@ + n + "' has no sinks section"@,
        PlanErrorV::NoSource => "job config has no source section"@,
        PlanErrorV::EmptySource => "job config has an empty source section"@,
        PlanErrorV::NoSink => "job config has no sink section"@,
        PlanErrorV::MalformedSinks => "the sinks are neither a map nor a list of maps"@,
    }
}

impl PlanError {
    /// What the error says of the job called `job_name`.
    pub fn message(&self, job_name: &str) -> (r: String)
        ensures
            r@ == plan_message(self@, job_name@),
    {
        match self {
            PlanError::NoWorker => text::join3(
                "no worker registered: cannot schedule job '",
                job_name,
                "' — start a worker with `seatunnel-engine-server --role worker --master <master>`",
            ),
            PlanError::EmptyPipelines => text::owned("'pipelines' section is empty"),
            PlanError::PipelineWithoutSource(n) => text::join3("pipeline '", n.as_str(), "' has no source section"),
            PlanError::PipelineWithEmptySource(n) => text::join3(
                "pipeline '",
                n.as_str(),
                "' has an empty source section",
            ),
            PlanError::PipelineWithoutSinks(n) => text::join3("pipeline '", n.as_str(), "' has no sinks section"),
            PlanError::NoSource => text::owned("job config has no source section"),
            PlanError::EmptySource => text::owned("job config has an empty source section"),
            PlanError::NoSink => text::owned("job config has no sink section"),
            PlanError::MalformedSinks => text::owned("the sinks are neither a map nor a list of maps"),
        }
    }
}

/// The pipelines behind a list.
pub open spec fn pipelines_view(v: Seq<PipelineSpec>) -> Seq<PipelineV> {
    v.map_values(|p: PipelineSpec| p@)
}

// ---------------------------------------------------------------------------
// Settings of the job
// ---------------------------------------------------------------------------

/// The parallelism that `env.parallelism` or `env.parallelism.default` sets.
pub open spec fn parallelism_setting(config: JsonV) -> Option<u64> {
    match field(config, "env"@) {
        Some(env) => match field(env, "parallelism"@) {
            Some(JsonV::Object(o)) => match json::member(o, "default"@) {
                Some(d) => json::unsigned_of(d),
                None => None,
            },
            Some(p) => json::unsigned_of(p),
            None => None,
        },
        None => None,
    }
}

/// A job's parallelism; one when it is not set.
pub fn env_parallelism(config: &Json) -> (r: usize)
    ensures
        r == match parallelism_setting(config@) {
            Some(v) => v as usize,
            None => 1,
        },
{
    match config.get("env") {
        Some(env) => match env.get("parallelism") {
            Some(p) => {
                proof {
                    json::lemma_json_parts(*p);
                }
                let v: Option<u64> = match p {
                    Json::Object(m) => match json::find(m, "default") {
                        Some(d) => d.as_u64(),
                        None => None,
                    },
                    other => other.as_u64(),
                };
                match v {
                    Some(n) => n as usize,
                    None => 1,
                }
            },
            None => 1,
        },
        None => 1,
    }
}

/// The checkpoint interval that `env.checkpoint`, `env.checkpoint.interval`
/// or the flat key `env."checkpoint.interval"` sets, in this order.
pub open spec fn interval_setting(config: JsonV) -> Option<u64> {
    match field(config, "env"@) {
        Some(env) => {
            let nested = match field(env, "checkpoint"@) {
                Some(JsonV::Object(o)) => match json::member(o, "interval"@) {
                    Some(d) => json::unsigned_of(d),
                    None => None,
                },
                Some(p) => json::unsigned_of(p),
                None => None,
            };
            let flat = match field(env, "checkpoint.interval"@) {
                Some(v) => json::unsigned_of(v),
                None => None,
            };
            if nested is Some { nested } else { flat }
        },
        None => None,
    }
}

/// A job's checkpoint interval in milliseconds; the default when it is not set.
pub fn env_checkpoint_interval(config: &Json) -> (r: u64)
    ensures
        r == match interval_setting(config@) {
            Some(v) => v,
            None => DEFAULT_CHECKPOINT_INTERVAL_MS,
        },
{
    match config.get("env") {
        Some(env) => {
            let nested: Option<u64> = match env.get("checkpoint") {
                Some(p) => {
                    proof {
                        json::lemma_json_parts(*p);
                    }
                    match p {
                        Json::Object(m) => match json::find(m, "interval") {
                            Some(d) => d.as_u64(),
                            None => None,
                        },
                        other => other.as_u64(),
                    }
                },
                None => None,
            };
            let flat: Option<u64> = match env.get("checkpoint.interval") {
                Some(v) => v.as_u64(),
                None => None,
            };
            match nested {
                Some(v) => v,
                None => match flat {
                    Some(v) => v,
                    None => DEFAULT_CHECKPOINT_INTERVAL_MS,
                },
            }
        },
        None => DEFAULT_CHECKPOINT_INTERVAL_MS,
    }
}

// ---------------------------------------------------------------------------
// Pipelines
// ---------------------------------------------------------------------------

/// The first plugin block of a section: of a map, or of the first item of a list.
pub open spec fn first_block_of(section: JsonV) -> Option<BlockV> {
    match section {
        JsonV::Object(o) => if o.len() > 0 { Some(o[0]) } else { None },
        JsonV::Array(a) => if a.len() > 0 {
            match a[0] {
                JsonV::Object(o) => if o.len() > 0 { Some(o[0]) } else { None },
                _ => None,
            }
        } else {
            None
        },
        _ => None,
    }
}

fn first_member(members: &Vec<(String, Json)>) -> (r: Option<(String, Json)>)
    ensures
        match r {
            Some(b) => members@.len() > 0 && (b.0@, b.1@) == json::members_view(members@)[0],
            None => members@.len() == 0,
        },
{
    if members.len() > 0 {
        let key = members[0].0.clone();
        let value = members[0].1.copy();
        Some((key, value))
    } else {
        None
    }
}

/// The first plugin block of a section.
pub fn first_block(section: &Json) -> (r: Option<(String, Json)>)
    ensures
        match r {
            Some(b) => first_block_of(section@) == Some((b.0@, b.1@)),
            None => first_block_of(section@) is None,
        },
{
    proof {
        json::lemma_json_parts(*section);
    }
    match section {
        Json::Object(members) => first_member(members),
        Json::Array(items) => {
            if items.len() > 0 {
                proof {
                    json::lemma_json_parts(items@[0]);
                    assert(json::items_view(items@)[0] == items@[0]@);
                }
                match &items[0] {
                    Json::Object(members) => first_member(members),
                    _ => None,
                }
            } else {
                None
            }
        },
        _ => None,
    }
}

/// The plugin blocks of a list: every member of every item, when all items are
/// maps.
pub open spec fn blocks_of_items(items: Seq<JsonV>) -> Option<Seq<BlockV>>
    decreases items.len(),
{
    if items.len() == 0 {
        Some(Seq::empty())
    } else {
        match (blocks_of_items(items.drop_last()), items.last()) {
            (Some(head), JsonV::Object(o)) => Some(head + o),
            _ => None,
        }
    }
}

/// The plugin blocks of a section: every member of a map, or of the maps of a
/// list.
pub open spec fn blocks_of(section: JsonV) -> Option<Seq<BlockV>> {
    match section {
        JsonV::Object(o) => Some(o),
        JsonV::Array(a) => blocks_of_items(a),
        _ => None,
    }
}

fn push_blocks(out: &mut Vec<SinkDeclaration>, members: &Vec<(String, Json)>)
    ensures
        sinks_view(final(out)@) == sinks_view(old(out)@) + json::members_view(members@),
{
    let ghost before = sinks_view(out@);
    let ghost all = json::members_view(members@);
    let mut i: usize = 0;
    proof {
        assert(before + all.take(0) =~= before);
    }
    while i < members.len()
        invariant
            i <= members@.len(),
            all == json::members_view(members@),
            sinks_view(out@) == before + all.take(i as int),
        decreases members@.len() - i,
    {
        let plugin = members[i].0.clone();
        let config = members[i].1.copy();
        let ghost prev = out@;
        out.push(SinkDeclaration { plugin, config });
        proof {
            assert(sinks_view(out@) =~= sinks_view(prev).push(all[i as int]));
            assert(before + all.take(i + 1) =~= (before + all.take(i as int)).push(all[i as int]));
        }
        i += 1;
    }
    assert(all.take(all.len() as int) =~= all);
}

/// The sinks of a section: every member of a map, or of the maps of a list.
pub fn parse_sink_declarations(section: &Json) -> (r: Result<Vec<SinkDeclaration>, PlanError>)
    ensures
        match r {
            Ok(v) => blocks_of(section@) == Some(sinks_view(v@)),
            Err(e) => blocks_of(section@) is None && e@ == PlanErrorV::MalformedSinks,
        },
{
    proof {
        json::lemma_json_parts(*section);
    }
    let mut out: Vec<SinkDeclaration> = Vec::new();
    match section {
        Json::Object(members) => {
            push_blocks(&mut out, members);
            proof {
                assert(sinks_view(out@) =~= json::members_view(members@));
            }
            Ok(out)
        },
        Json::Array(items) => {
            let ghost all = json::items_view(items@);
            let mut i: usize = 0;
            proof {
                assert(all.take(0) =~= Seq::empty());
                assert(sinks_view(out@) =~= Seq::empty());
            }
            while i < items.len()
                invariant
                    i <= items@.len(),
                    all == json::items_view(items@),
                    section@ == JsonV::Array(all),
                    blocks_of_items(all.take(i as int)) == Some(sinks_view(out@)),
                decreases items@.len() - i,
            {
                proof {
                    json::lemma_json_parts(items@[i as int]);
                    assert(all.take(i + 1).drop_last() =~= all.take(i as int));
                    assert(all.take(i + 1).last() == items@[i as int]@);
                }
                match &items[i] {
                    Json::Object(members) => {
                        push_blocks(&mut out, members);
                    },
                    _ => {
                        proof {
                            lemma_bad_item(all, i as int);
                        }
                        return Err(PlanError::MalformedSinks);
                    },
                }
                i += 1;
            }
            proof {
                assert(all.take(all.len() as int) =~= all);
            }
            Ok(out)
        },
        _ => Err(PlanError::MalformedSinks),
    }
}

proof fn lemma_bad_item(items: Seq<JsonV>, i: int)
    requires
        0 <= i < items.len(),
        !(items[i] is Object),
    ensures
        blocks_of_items(items) is None,
    decreases items.len(),
{
    if i < items.len() - 1 {
        lemma_bad_item(items.drop_last(), i);
    }
}

/// The text of a member, when it is a string.
pub open spec fn text_setting(v: JsonV, key: Seq<char>) -> Option<Seq<char>> {
    match field(v, key) {
        Some(JsonV::Str(s)) => Some(s),
        _ => None,
    }
}

fn text_of(v: &Json, key: &str) -> (r: Option<String>)
    ensures
        match r {
            Some(s) => text_setting(v@, key@) == Some(s@),
            None => text_setting(v@, key@) is None,
        },
{
    match v.get(key) {
        Some(x) => match x.as_str() {
            Some(s) => Some(s.clone()),
            None => None,
        },
        None => None,
    }
}

/// The policy for sink failures that the job sets for all its pipelines.
pub open spec fn default_policy(config: JsonV) -> Seq<char> {
    match field(config, "env"@) {
        Some(env) => match text_setting(env, "on-sink-failure"@) {
            Some(s) => s,
            None => "fail"@,
        },
        None => "fail"@,
    }
}

/// The name of the pipeline at position `index` of the list.
pub open spec fn pipeline_name(entry: JsonV, index: nat) -> Seq<char> {
    match text_setting(entry, "name"@) {
        Some(s) => s,
        None => "p"@ + text::decimal_text(index),
    }
}

/// The parallelism of a listed pipeline, at least one where it sets its own.
pub open spec fn pipeline_parallelism(entry: JsonV, default_parallelism: usize) -> usize {
    match field(entry, "parallelism"@) {
        Some(v) => match json::unsigned_of(v) {
            Some(n) => if n as usize == 0 { 1 } else { n as usize },
            None => default_parallelism,
        },
        None => default_parallelism,
    }
}

/// What one entry of the list of pipelines describes.
pub open spec fn plan_entry(
    entry: JsonV,
    index: nat,
    default_parallelism: usize,
    policy: Seq<char>,
) -> Result<PipelineV, PlanErrorV> {
    let name = pipeline_name(entry, index);
    let sink_section = if field(entry, "sinks"@) is Some {
        field(entry, "sinks"@)
    } else {
        field(entry, "sink"@)
    };
    match field(entry, "source"@) {
        None => Err(PlanErrorV::PipelineWithoutSource(name)),
        Some(source) => match first_block_of(source) {
            None => Err(PlanErrorV::PipelineWithEmptySource(name)),
            Some(block) => match sink_section {
                None => Err(PlanErrorV::PipelineWithoutSinks(name)),
                Some(section) => match blocks_of(section) {
                    None => Err(PlanErrorV::MalformedSinks),
                    Some(sinks) => Ok(
                        PipelineV {
                            name,
                            parallelism: pipeline_parallelism(entry, default_parallelism),
                            source_plugin: block.0,
                            source_config: block.1,
                            sinks,
                            on_sink_failure: match text_setting(entry, "on-sink-failure"@) {
                                Some(s) => s,
                                None => policy,
                            },
                        },
                    ),
                },
            },
        },
    }
}

/// What a list of pipelines describes: the first entry that is wrong decides.
pub open spec fn plan_list(
    list: Seq<JsonV>,
    default_parallelism: usize,
    policy: Seq<char>,
) -> Result<Seq<PipelineV>, PlanErrorV>
    decreases list.len(),
{
    if list.len() == 0 {
        Ok(Seq::empty())
    } else {
        match plan_list(list.drop_last(), default_parallelism, policy) {
            Err(e) => Err(e),
            Ok(head) => match plan_entry(list.last(), (list.len() - 1) as nat, default_parallelism, policy) {
                Err(e) => Err(e),
                Ok(p) => Ok(head.push(p)),
            },
        }
    }
}

/// The pipelines that a job's configuration describes: those that it lists, or
/// the one made of its source and sink.
pub open spec fn plan_of(config: JsonV, default_parallelism: usize) -> Result<Seq<PipelineV>, PlanErrorV> {
    let policy = default_policy(config);
    match field(config, "pipelines"@) {
        Some(JsonV::Array(list)) => if list.len() == 0 {
            Err(PlanErrorV::EmptyPipelines)
        } else {
            plan_list(list, default_parallelism, policy)
        },
        _ => match field(config, "source"@) {
            None => Err(PlanErrorV::NoSource),
            Some(source) => match first_block_of(source) {
                None => Err(PlanErrorV::EmptySource),
                Some(block) => match field(config, "sink"@) {
                    None => Err(PlanErrorV::NoSink),
                    Some(section) => match blocks_of(section) {
                        None => Err(PlanErrorV::MalformedSinks),
                        Some(sinks) => Ok(
                            seq![
                                PipelineV {
                                    name: "pipeline"@,
                                    parallelism: default_parallelism,
                                    source_plugin: block.0,
                                    source_config: block.1,
                                    sinks,
                                    on_sink_failure: policy,
                                },
                            ],
                        ),
                    },
                },
            },
        },
    }
}

fn plan_one(entry: &Json, index: usize, default_parallelism: usize, policy: &String) -> (r: Result<
    PipelineSpec,
    PlanError,
>)
    ensures
        match r {
            Ok(p) => plan_entry(entry@, index as nat, default_parallelism, policy@) == Ok::<PipelineV, PlanErrorV>(p@),
            Err(e) => plan_entry(entry@, index as nat, default_parallelism, policy@) == Err::<PipelineV, PlanErrorV>(e@),
        },
{
    let name = match text_of(entry, "name") {
        Some(s) => s,
        None => {
            let n = text::decimal(index as u64);
            text::join2("p", n.as_str())
        },
    };
    let parallelism: usize = match entry.get("parallelism") {
        Some(v) => match v.as_u64() {
            Some(n) => {
                let k: usize = n as usize;
                if k == 0 { 1 } else { k }
            },
            None => default_parallelism,
        },
        None => default_parallelism,
    };
    let source = match entry.get("source") {
        Some(s) => s,
        None => {
            return Err(PlanError::PipelineWithoutSource(name));
        },
    };
    let (source_plugin, source_config) = match first_block(source) {
        Some(b) => b,
        None => {
            return Err(PlanError::PipelineWithEmptySource(name));
        },
    };
    let section = match entry.get("sinks") {
        Some(s) => s,
        None => match entry.get("sink") {
            Some(s) => s,
            None => {
                return Err(PlanError::PipelineWithoutSinks(name));
            },
        },
    };
    let sinks = match parse_sink_declarations(section) {
        Ok(v) => v,
        Err(e) => {
            return Err(e);
        },
    };
    let on_sink_failure = match text_of(entry, "on-sink-failure") {
        Some(s) => s,
        None => policy.clone(),
    };
    Ok(PipelineSpec { name, parallelism, source_plugin, source_config, sinks, on_sink_failure })
}

/// The pipelines that a job's configuration describes.
pub fn extract_pipelines(config: &Json, default_parallelism: usize) -> (r: Result<Vec<PipelineSpec>, PlanError>)
    ensures
        match r {
            Ok(v) => plan_of(config@, default_parallelism) == Ok::<Seq<PipelineV>, PlanErrorV>(pipelines_view(v@)),
            Err(e) => plan_of(config@, default_parallelism) == Err::<Seq<PipelineV>, PlanErrorV>(e@),
        },
{
    let policy = match config.get("env") {
        Some(env) => match text_of(env, "on-sink-failure") {
            Some(s) => s,
            None => text::owned("fail"),
        },
        None => text::owned("fail"),
    };
    if let Some(pipelines) = config.get("pipelines") {
        proof {
            json::lemma_json_parts(*pipelines);
        }
        if let Json::Array(list) = pipelines {
            if list.len() == 0 {
                return Err(PlanError::EmptyPipelines);
            }
            let ghost all = json::items_view(list@);
            let mut out: Vec<PipelineSpec> = Vec::new();
            let mut i: usize = 0;
            proof {
                assert(all.take(0) =~= Seq::empty());
                assert(pipelines_view(out@) =~= Seq::empty());
            }
            while i < list.len()
                invariant
                    i <= list@.len(),
                    all == json::items_view(list@),
                    all.len() > 0,
                    policy@ == default_policy(config@),
                    field(config@, "pipelines"@) == Some(JsonV::Array(all)),
                    plan_list(all.take(i as int), default_parallelism, policy@) == Ok::<Seq<PipelineV>, PlanErrorV>(
                        pipelines_view(out@),
                    ),
                decreases list@.len() - i,
            {
                proof {
                    assert(all.take(i + 1).drop_last() =~= all.take(i as int));
                    assert(all.take(i + 1).last() == list@[i as int]@);
                }
                match plan_one(&list[i], i, default_parallelism, &policy) {
                    Ok(p) => {
                        let ghost prev = out@;
                        out.push(p);
                        assert(pipelines_view(out@) =~= pipelines_view(prev).push(p@));
                    },
                    Err(e) => {
                        proof {
                            lemma_plan_error(all, default_parallelism, policy@, i + 1);
                        }
                        return Err(e);
                    },
                }
                i += 1;
            }
            proof {
                assert(all.take(all.len() as int) =~= all);
            }
            return Ok(out);
        }
    }
    let source = match config.get("source") {
        Some(s) => s,
        None => {
            return Err(PlanError::NoSource);
        },
    };
    let (source_plugin, source_config) = match first_block(source) {
        Some(b) => b,
        None => {
            return Err(PlanError::EmptySource);
        },
    };
    let section = match config.get("sink") {
        Some(s) => s,
        None => {
            return Err(PlanError::NoSink);
        },
    };
    let sinks = match parse_sink_declarations(section) {
        Ok(v) => v,
        Err(e) => {
            return Err(e);
        },
    };
    let only = PipelineSpec {
        name: text::owned("pipeline"),
        parallelism: default_parallelism,
        source_plugin,
        source_config,
        sinks,
        on_sink_failure: policy,
    };
    let mut out: Vec<PipelineSpec> = Vec::new();
    let ghost p = only@;
    out.push(only);
    assert(pipelines_view(out@) =~= seq![p]);
    Ok(out)
}

proof fn lemma_plan_error(list: Seq<JsonV>, default_parallelism: usize, policy: Seq<char>, i: int)
    requires
        0 <= i <= list.len(),
        plan_list(list.take(i), default_parallelism, policy) is Err,
    ensures
        plan_list(list, default_parallelism, policy) == plan_list(list.take(i), default_parallelism, policy),
    decreases list.len() - i,
{
    if i < list.len() {
        assert(list.take(i + 1).drop_last() =~= list.take(i));
        lemma_plan_error(list, default_parallelism, policy, i + 1);
    } else {
        assert(list.take(i) =~= list);
    }
}

// ---------------------------------------------------------------------------
// Transforms and what is handed to the tasks
// ---------------------------------------------------------------------------

/// The configuration of one transform given as a map member.
pub open spec fn transform_entry(m: BlockV) -> JsonV {
    match m.1 {
        JsonV::Object(inner) => JsonV::Object(json::with_member(inner, "plugin_name"@, JsonV::Str(m.0))),
        other => JsonV::Object(
            json::with_member(
                json::with_member(Seq::empty(), "plugin_name"@, JsonV::Str(m.0)),
                "config"@,
                other,
            ),
        ),
    }
}

/// The job's transforms as a list of configurations.
pub open spec fn transforms_of(config: JsonV) -> Seq<JsonV> {
    match field(config, "transform"@) {
        Some(JsonV::Array(items)) => items,
        Some(JsonV::Object(o)) => o.map_values(|m: BlockV| transform_entry(m)),
        _ => Seq::empty(),
    }
}

fn named_transform(name: &String, config: &Json) -> (r: Json)
    ensures
        r@ == transform_entry((name@, config@)),
{
    proof {
        json::lemma_json_parts(*config);
    }
    match config {
        Json::Object(inner) => {
            let mut full = json::copy_members(inner);
            json::put(&mut full, "plugin_name", Json::Str(name.clone()));
            let r = Json::Object(full);
            proof {
                json::lemma_json_parts(r);
            }
            r
        },
        other => {
            let mut full: Vec<(String, Json)> = Vec::new();
            proof {
                assert(json::members_view(full@) =~= Seq::empty());
            }
            json::put(&mut full, "plugin_name", Json::Str(name.clone()));
            json::put(&mut full, "config", other.copy());
            let r = Json::Object(full);
            proof {
                json::lemma_json_parts(r);
            }
            r
        },
    }
}

/// The job's transforms as a list of configurations.
pub fn extract_transform_list(config: &Json) -> (r: Vec<Json>)
    ensures
        json::items_view(r@) == transforms_of(config@),
{
    let mut out: Vec<Json> = Vec::new();
    if let Some(section) = config.get("transform") {
        proof {
            json::lemma_json_parts(*section);
        }
        match section {
            Json::Array(items) => {
                return json::copy_items(items);
            },
            Json::Object(members) => {
                let ghost all = json::members_view(members@);
                let mut i: usize = 0;
                while i < members.len()
                    invariant
                        i <= members@.len(),
                        all == json::members_view(members@),
                        out@.len() == i,
                        forall|k: int| 0 <= k < i ==> #[trigger] out@[k]@ == transform_entry(all[k]),
                    decreases members@.len() - i,
                {
                    let t = named_transform(&members[i].0, &members[i].1);
                    out.push(t);
                    i += 1;
                }
                assert(json::items_view(out@) =~= all.map_values(|m: BlockV| transform_entry(m)));
                return out;
            },
            _ => {},
        }
    }
    assert(json::items_view(out@) =~= Seq::empty());
    out
}

/// A pipeline's sinks as the list that its tasks are given.
pub open spec fn sink_list(sinks: Seq<BlockV>) -> JsonV {
    JsonV::Array(
        sinks.map_values(
            |s: BlockV|
                JsonV::Object(
                    json::with_member(
                        json::with_member(Seq::empty(), "plugin"@, JsonV::Str(s.0)),
                        "config"@,
                        s.1,
                    ),
                ),
        ),
    )
}

/// A pipeline's sinks as the list that its tasks are given.
pub fn sinks_json(sinks: &Vec<SinkDeclaration>) -> (r: Json)
    ensures
        r@ == sink_list(sinks_view(sinks@)),
{
    let mut out: Vec<Json> = Vec::new();
    let ghost all = sinks_view(sinks@);
    let ghost f = |s: BlockV|
        JsonV::Object(
            json::with_member(json::with_member(Seq::empty(), "plugin"@, JsonV::Str(s.0)), "config"@, s.1),
        );
    let mut i: usize = 0;
    while i < sinks.len()
        invariant
            i <= sinks@.len(),
            all == sinks_view(sinks@),
            f == (|s: BlockV|
                JsonV::Object(
                    json::with_member(json::with_member(Seq::empty(), "plugin"@, JsonV::Str(s.0)), "config"@, s.1),
                )),
            out@.len() == i,
            forall|k: int| 0 <= k < i ==> #[trigger] out@[k]@ == f(all[k]),
        decreases sinks@.len() - i,
    {
        let mut full: Vec<(String, Json)> = Vec::new();
        proof {
            assert(json::members_view(full@) =~= Seq::empty());
        }
        json::put(&mut full, "plugin", Json::Str(sinks[i].plugin.clone()));
        json::put(&mut full, "config", sinks[i].config.copy());
        let item = Json::Object(full);
        proof {
            json::lemma_json_parts(item);
        }
        out.push(item);
        i += 1;
    }
    let r = Json::Array(out);
    proof {
        json::lemma_json_parts(r);
        assert(json::items_view(out@) =~= all.map_values(f));
    }
    r
}

} // verus!
