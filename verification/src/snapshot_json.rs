//! Snapshots of the coordinator as JSON. A section that is malformed is left out and the
//! others are read; what a job does not say of its counters has a default.

use vstd::prelude::*;

use crate::checkpoint_store;
use crate::checkpoint_store::{History, TaskCheckpoints};
use crate::job::opt_view;
use crate::json;
use crate::json::{field, items_view, members_view, signed_of, unsigned_of, Json, JsonV};
use crate::keyed::values;
use crate::props;
use crate::props::{Pairs, Properties};
use crate::replication::{
    DescriptorRecord, DescriptorRecordV, JobRecord, JobRecordV, SnapshotV, StateSnapshot, TaskStatusRecord, TaskStatusV,
};
use crate::text;

verus! {

// ---------------------------------------------------------------------------
// Members
// ---------------------------------------------------------------------------

/// The text of a string.
pub open spec fn text_of(v: JsonV) -> Option<Seq<char>> {
    match v {
        JsonV::Str(s) => Some(s),
        _ => None,
    }
}

/// The text of a member.
pub open spec fn text_in(v: JsonV, key: Seq<char>) -> Option<Seq<char>> {
    match field(v, key) {
        Some(x) => text_of(x),
        None => None,
    }
}

/// The text of a member that may be absent or null.
pub open spec fn opt_text_in(v: JsonV, key: Seq<char>) -> Option<Option<Seq<char>>> {
    match field(v, key) {
        None => Some(None),
        Some(JsonV::Null) => Some(None),
        Some(x) => match text_of(x) {
            Some(s) => Some(Some(s)),
            None => None,
        },
    }
}

/// The signed number of a member.
pub open spec fn signed_in(v: JsonV, key: Seq<char>) -> Option<i64> {
    match field(v, key) {
        Some(x) => signed_of(x),
        None => None,
    }
}

/// The signed number of a member that may be absent or null.
pub open spec fn opt_signed_in(v: JsonV, key: Seq<char>) -> Option<Option<i64>> {
    match field(v, key) {
        None => Some(None),
        Some(JsonV::Null) => Some(None),
        Some(x) => match signed_of(x) {
            Some(n) => Some(Some(n)),
            None => None,
        },
    }
}

/// The unsigned number of a member.
pub open spec fn unsigned_in(v: JsonV, key: Seq<char>) -> Option<u64> {
    match field(v, key) {
        Some(x) => unsigned_of(x),
        None => None,
    }
}

/// The unsigned number of a member, or `default` when it is absent.
pub open spec fn unsigned_or(v: JsonV, key: Seq<char>, default: u64) -> Option<u64> {
    match field(v, key) {
        Some(x) => unsigned_of(x),
        None => Some(default),
    }
}

/// The text of a member, or nothing when it is absent.
pub open spec fn text_or_empty(v: JsonV, key: Seq<char>) -> Option<Seq<char>> {
    match field(v, key) {
        Some(x) => text_of(x),
        None => Some(Seq::empty()),
    }
}

/// The size of a member.
pub open spec fn size_in(v: JsonV, key: Seq<char>) -> Option<usize> {
    match unsigned_in(v, key) {
        Some(n) => if n <= usize::MAX { Some(n as usize) } else { None },
        None => None,
    }
}

/// What every item of a list stands for, if each stands for something.
pub open spec fn each<T>(a: Seq<JsonV>, f: spec_fn(JsonV) -> Option<T>) -> Option<Seq<T>>
    decreases a.len(),
{
    if a.len() == 0 {
        Some(Seq::empty())
    } else {
        match (each(a.drop_last(), f), f(a.last())) {
            (Some(h), Some(x)) => Some(h.push(x)),
            _ => None,
        }
    }
}

/// What every item of a document stands for, if it is a list and each stands for
/// something.
pub open spec fn each_in<T>(v: Option<JsonV>, f: spec_fn(JsonV) -> Option<T>) -> Option<Seq<T>> {
    match v {
        Some(JsonV::Array(a)) => each(a, f),
        _ => None,
    }
}

// ---------------------------------------------------------------------------
// Records
// ---------------------------------------------------------------------------

/// A task of a snapshot's job. Only its error may be absent.
pub open spec fn task_record(v: JsonV) -> Option<TaskStatusV> {
    match (
        text_in(v, "task_id"@),
        text_in(v, "stage_id"@),
        text_in(v, "worker_id"@),
        text_in(v, "state"@),
        unsigned_in(v, "processed_records"@),
        opt_text_in(v, "error"@),
    ) {
        (Some(task_id), Some(stage_id), Some(worker_id), Some(state), Some(processed_records), Some(error)) => Some(
            TaskStatusV { task_id, stage_id, worker_id, state, processed_records, error },
        ),
        _ => None,
    }
}

/// A job of a snapshot. The next checkpoint id is 1 when it is absent, the other
/// counters 0; the end, the error and the configuration may be absent too.
pub open spec fn job_record(v: JsonV) -> Option<JobRecordV> {
    match (
        (text_in(v, "job_id"@), text_in(v, "job_name"@), text_in(v, "state"@)),
        (size_in(v, "parallelism"@), signed_in(v, "start_time"@), opt_signed_in(v, "end_time"@)),
        (
            opt_text_in(v, "error_message"@),
            unsigned_or(v, "checkpoint_interval_ms"@, 0),
            unsigned_or(v, "checkpoints_completed"@, 0),
            unsigned_or(v, "next_checkpoint_id"@, 1),
        ),
        (text_or_empty(v, "raw_config"@), each_in(field(v, "tasks"@), |t: JsonV| task_record(t))),
    ) {
        (
            (Some(job_id), Some(job_name), Some(state)),
            (Some(parallelism), Some(start_time), Some(end_time)),
            (Some(error_message), Some(interval), Some(completed), Some(next)),
            (Some(raw_config), Some(tasks)),
        ) => Some(
            JobRecordV {
                job_id,
                job_name,
                state,
                parallelism,
                start_time,
                end_time,
                error_message,
                checkpoint_interval_ms: interval,
                checkpoints_completed: completed,
                next_checkpoint_id: next,
                raw_config,
                tasks,
            },
        ),
        _ => None,
    }
}

/// The texts of an object's members, by their keys, if all are strings.
pub open spec fn texts_of(o: Seq<(Seq<char>, JsonV)>) -> Option<Pairs>
    decreases o.len(),
{
    if o.len() == 0 {
        Some(Seq::empty())
    } else {
        match (texts_of(o.drop_last()), text_of(o.last().1)) {
            (Some(h), Some(t)) => Some(props::assign(h, o.last().0, t)),
            _ => None,
        }
    }
}

/// The configuration of a descriptor, if it is an object of strings.
pub open spec fn config_in(v: JsonV) -> Option<Pairs> {
    match field(v, "config"@) {
        Some(JsonV::Object(o)) => texts_of(o),
        _ => None,
    }
}

/// A descriptor of a snapshot. What it lacks, or holds malformed, is absent.
pub open spec fn descriptor_record(v: JsonV) -> DescriptorRecordV {
    DescriptorRecordV {
        task_id: text_in(v, "task_id"@),
        job_id: text_in(v, "job_id"@),
        stage_id: text_in(v, "stage_id"@),
        task_name: text_in(v, "task_name"@),
        task_index: signed_in(v, "task_index"@),
        parallelism: signed_in(v, "parallelism"@),
        config: config_in(v),
    }
}

/// A byte.
pub open spec fn byte_of(v: JsonV) -> Option<u8> {
    match v {
        JsonV::Int(i) => if 0 <= i <= 255 { Some(i as u8) } else { None },
        _ => None,
    }
}

/// A checkpoint with what was saved under its id.
pub open spec fn saved_entry(v: JsonV) -> Option<(u64, Seq<u8>)> {
    match v {
        JsonV::Array(a) => if a.len() == 2 {
            match (unsigned_of(a[0]), each_in(Some(a[1]), |b: JsonV| byte_of(b))) {
                (Some(id), Some(bytes)) => Some((id, bytes)),
                _ => None,
            }
        } else {
            None
        },
        _ => None,
    }
}

/// A pair of texts.
pub open spec fn pair_of(v: JsonV) -> Option<(Seq<char>, Seq<char>)> {
    match v {
        JsonV::Array(a) => if a.len() == 2 {
            match (text_of(a[0]), text_of(a[1])) {
                (Some(x), Some(y)) => Some((x, y)),
                _ => None,
            }
        } else {
            None
        },
        _ => None,
    }
}

/// What is retained of one task, behind its job and its id.
pub open spec fn saved_task(v: JsonV) -> Option<((Seq<char>, Seq<char>), History)> {
    match v {
        JsonV::Array(a) => if a.len() == 2 {
            match (pair_of(a[0]), each_in(field(a[1], "entries"@), |e: JsonV| saved_entry(e))) {
                (Some(key), Some(entries)) => Some((key, entries)),
                _ => None,
            }
        } else {
            None
        },
        _ => None,
    }
}

/// The snapshot that a document holds. The jobs and the checkpoints are read as a whole
/// or not at all, the descriptors one by one.
pub open spec fn snapshot_of(v: JsonV) -> SnapshotV {
    SnapshotV {
        term: unsigned_in(v, "term"@),
        jobs: each_in(field(v, "jobs"@), |j: JsonV| job_record(j)),
        tasks: match field(v, "tasks"@) {
            Some(JsonV::Array(a)) => Some(a.map_values(|d: JsonV| descriptor_record(d))),
            _ => None,
        },
        checkpoints: each_in(field(v, "checkpoints"@), |c: JsonV| saved_task(c)),
    }
}

// ---------------------------------------------------------------------------
// Reading
// ---------------------------------------------------------------------------

fn text_at(v: &Json, key: &str) -> (r: Option<String>)
    ensures
        opt_view(r) == text_in(v@, key@),
{
    match v.get(key) {
        Some(x) => match x.as_str() {
            Some(s) => Some(s.clone()),
            None => None,
        },
        None => None,
    }
}

fn opt_text_at(v: &Json, key: &str) -> (r: Option<Option<String>>)
    ensures
        match r {
            Some(t) => opt_text_in(v@, key@) == Some(opt_view(t)),
            None => opt_text_in(v@, key@) is None,
        },
{
    match v.get(key) {
        None => Some(None),
        Some(Json::Null) => Some(None),
        Some(x) => match x.as_str() {
            Some(s) => Some(Some(s.clone())),
            None => None,
        },
    }
}

fn signed_at(v: &Json, key: &str) -> (r: Option<i64>)
    ensures
        r == signed_in(v@, key@),
{
    match v.get(key) {
        Some(x) => x.as_i64(),
        None => None,
    }
}

fn opt_signed_at(v: &Json, key: &str) -> (r: Option<Option<i64>>)
    ensures
        r == opt_signed_in(v@, key@),
{
    match v.get(key) {
        None => Some(None),
        Some(Json::Null) => Some(None),
        Some(x) => match x.as_i64() {
            Some(n) => Some(Some(n)),
            None => None,
        },
    }
}

fn unsigned_at(v: &Json, key: &str) -> (r: Option<u64>)
    ensures
        r == unsigned_in(v@, key@),
{
    match v.get(key) {
        Some(x) => x.as_u64(),
        None => None,
    }
}

fn unsigned_at_or(v: &Json, key: &str, default: u64) -> (r: Option<u64>)
    ensures
        r == unsigned_or(v@, key@, default),
{
    match v.get(key) {
        Some(x) => x.as_u64(),
        None => Some(default),
    }
}

fn text_at_or_empty(v: &Json, key: &str) -> (r: Option<String>)
    ensures
        opt_view(r) == text_or_empty(v@, key@),
{
    match v.get(key) {
        Some(x) => match x.as_str() {
            Some(s) => Some(s.clone()),
            None => None,
        },
        None => {
            let none = String::new();
            assert(none@ =~= Seq::empty());
            Some(none)
        },
    }
}

fn size_at(v: &Json, key: &str) -> (r: Option<usize>)
    ensures
        r == size_in(v@, key@),
{
    match unsigned_at(v, key) {
        Some(n) => if n <= usize::MAX as u64 { Some(n as usize) } else { None },
        None => None,
    }
}

/// What reading every item of a list gives, one item at a time.
proof fn lemma_each_step<T>(a: Seq<JsonV>, i: int, f: spec_fn(JsonV) -> Option<T>)
    requires
        0 <= i < a.len(),
    ensures
        each(a.take(i + 1), f) == match (each(a.take(i), f), f(a[i])) {
            (Some(h), Some(x)) => Some(h.push(x)),
            _ => None,
        },
{
    assert(a.take(i + 1).drop_last() =~= a.take(i));
    assert(a.take(i + 1).last() == a[i]);
}

proof fn lemma_each_fails<T>(a: Seq<JsonV>, i: int, f: spec_fn(JsonV) -> Option<T>)
    requires
        0 <= i <= a.len(),
        each(a.take(i), f) is None,
    ensures
        each(a, f) is None,
    decreases a.len() - i,
{
    if i < a.len() {
        lemma_each_step(a, i, f);
        lemma_each_fails(a, i + 1, f);
    } else {
        assert(a.take(i) =~= a);
    }
}

/// What a document can be read as.
trait FromJson: View + Sized {
    spec fn of(v: JsonV) -> Option<Self::V>;

    fn read(v: &Json) -> (r: Option<Self>)
        ensures
            match r {
                Some(x) => Self::of(v@) == Some(x@),
                None => Self::of(v@) is None,
            },
    ;
}

/// The value of an optional reference to a document.
spec fn doc_of(v: Option<&Json>) -> Option<JsonV> {
    match v {
        Some(d) => Some(d@),
        None => None,
    }
}

/// Reads a list of values, all of them or none.
fn read_list<T: FromJson>(v: Option<&Json>, Ghost(f): Ghost<spec_fn(JsonV) -> Option<T::V>>) -> (r: Option<Vec<T>>)
    requires
        forall|x: JsonV| #[trigger] f(x) == T::of(x),
    ensures
        match r {
            Some(l) => each_in(doc_of(v), f) == Some(values(l@)),
            None => each_in(doc_of(v), f) is None,
        },
{
    match v {
        Some(d) => {
            proof {
                json::lemma_json_parts(*d);
            }
            match d {
                Json::Array(items) => {
                    let ghost a = items_view(items@);
                    let mut out: Vec<T> = Vec::new();
                    let mut i: usize = 0;
                    proof {
                        assert(a.take(0) =~= Seq::empty());
                        assert(values(out@) =~= Seq::empty());
                    }
                    while i < items.len()
                        invariant
                            i <= items@.len(),
                            a == items_view(items@),
                            doc_of(v) == Some(JsonV::Array(a)),
                            forall|x: JsonV| #[trigger] f(x) == T::of(x),
                            each(a.take(i as int), f) == Some(values(out@)),
                        decreases items@.len() - i,
                    {
                        proof {
                            lemma_each_step(a, i as int, f);
                            assert(a[i as int] == items@[i as int]@);
                        }
                        match T::read(&items[i]) {
                            Some(x) => {
                                let ghost before = out@;
                                out.push(x);
                                assert(values(out@) =~= values(before).push(x@));
                            },
                            None => {
                                proof {
                                    lemma_each_fails(a, i + 1, f);
                                }
                                return None;
                            },
                        }
                        i += 1;
                    }
                    assert(a.take(a.len() as int) =~= a);
                    Some(out)
                },
                _ => None,
            }
        },
        None => None,
    }
}

impl FromJson for TaskStatusRecord {
    spec fn of(v: JsonV) -> Option<TaskStatusV> {
        task_record(v)
    }

    fn read(v: &Json) -> (r: Option<Self>) {
        match (
            text_at(v, "task_id"),
            text_at(v, "stage_id"),
            text_at(v, "worker_id"),
            text_at(v, "state"),
            unsigned_at(v, "processed_records"),
            opt_text_at(v, "error"),
        ) {
            (Some(task_id), Some(stage_id), Some(worker_id), Some(state), Some(processed_records), Some(error)) => Some(
                TaskStatusRecord { task_id, stage_id, worker_id, state, processed_records, error },
            ),
            _ => None,
        }
    }
}

impl FromJson for JobRecord {
    spec fn of(v: JsonV) -> Option<JobRecordV> {
        job_record(v)
    }

    fn read(v: &Json) -> (r: Option<Self>) {
        let tasks: Option<Vec<TaskStatusRecord>> = read_list(v.get("tasks"), Ghost(|t: JsonV| task_record(t)));
        match (
            (text_at(v, "job_id"), text_at(v, "job_name"), text_at(v, "state")),
            (size_at(v, "parallelism"), signed_at(v, "start_time"), opt_signed_at(v, "end_time")),
            (
                opt_text_at(v, "error_message"),
                unsigned_at_or(v, "checkpoint_interval_ms", 0),
                unsigned_at_or(v, "checkpoints_completed", 0),
                unsigned_at_or(v, "next_checkpoint_id", 1),
            ),
            (text_at_or_empty(v, "raw_config"), tasks),
        ) {
            (
                (Some(job_id), Some(job_name), Some(state)),
                (Some(parallelism), Some(start_time), Some(end_time)),
                (Some(error_message), Some(interval), Some(completed), Some(next)),
                (Some(raw_config), Some(tasks)),
            ) => Some(
                JobRecord {
                    job_id,
                    job_name,
                    state,
                    parallelism,
                    start_time,
                    end_time,
                    error_message,
                    checkpoint_interval_ms: interval,
                    checkpoints_completed: completed,
                    next_checkpoint_id: next,
                    raw_config,
                    tasks,
                },
            ),
            _ => None,
        }
    }
}

fn read_config(v: &Json) -> (r: Option<Properties>)
    ensures
        match r {
            Some(c) => config_in(v@) == Some(c@),
            None => config_in(v@) is None,
        },
{
    match v.get("config") {
        Some(d) => {
            proof {
                json::lemma_json_parts(*d);
            }
            match d {
                Json::Object(members) => {
                    let ghost o = members_view(members@);
                    let mut out = Properties::new();
                    let mut i: usize = 0;
                    assert(o.take(0) =~= Seq::empty());
                    while i < members.len()
                        invariant
                            i <= members@.len(),
                            o == members_view(members@),
                            field(v@, "config"@) == Some(JsonV::Object(o)),
                            texts_of(o.take(i as int)) == Some(out@),
                        decreases members@.len() - i,
                    {
                        proof {
                            assert(o.take(i + 1).drop_last() =~= o.take(i as int));
                            assert(o.take(i + 1).last() == o[i as int]);
                        }
                        match members[i].1.as_str() {
                            Some(t) => {
                                let key = members[i].0.clone();
                                let value = t.clone();
                                out.insert(key, value);
                            },
                            None => {
                                proof {
                                    lemma_texts_fail(o, i + 1);
                                }
                                return None;
                            },
                        }
                        i += 1;
                    }
                    assert(o.take(o.len() as int) =~= o);
                    Some(out)
                },
                _ => None,
            }
        },
        None => None,
    }
}

proof fn lemma_texts_fail(o: Seq<(Seq<char>, JsonV)>, i: int)
    requires
        0 <= i <= o.len(),
        texts_of(o.take(i)) is None,
    ensures
        texts_of(o) is None,
    decreases o.len() - i,
{
    if i < o.len() {
        assert(o.take(i + 1).drop_last() =~= o.take(i));
        lemma_texts_fail(o, i + 1);
    } else {
        assert(o.take(i) =~= o);
    }
}

fn read_descriptor(v: &Json) -> (r: DescriptorRecord)
    ensures
        r@ == descriptor_record(v@),
{
    DescriptorRecord {
        task_id: text_at(v, "task_id"),
        job_id: text_at(v, "job_id"),
        stage_id: text_at(v, "stage_id"),
        task_name: text_at(v, "task_name"),
        task_index: signed_at(v, "task_index"),
        parallelism: signed_at(v, "parallelism"),
        config: read_config(v),
    }
}

impl FromJson for u8 {
    spec fn of(v: JsonV) -> Option<u8> {
        byte_of(v)
    }

    fn read(v: &Json) -> (r: Option<Self>) {
        match v.as_u64() {
            Some(n) => if n <= 255 {
                let b: u8 = n as u8;
                assert(b@ == b);
                Some(b)
            } else {
                None
            },
            None => None,
        }
    }
}

impl FromJson for (u64, Vec<u8>) {
    spec fn of(v: JsonV) -> Option<(u64, Seq<u8>)> {
        saved_entry(v)
    }

    fn read(v: &Json) -> (r: Option<Self>) {
        proof {
            json::lemma_json_parts(*v);
        }
        match v {
            Json::Array(a) => {
                if a.len() != 2 {
                    return None;
                }
                assert(items_view(a@)[0] == a@[0]@ && items_view(a@)[1] == a@[1]@);
                let bytes: Option<Vec<u8>> = read_list(Some(&a[1]), Ghost(|b: JsonV| byte_of(b)));
                match (a[0].as_u64(), bytes) {
                    (Some(id), Some(b)) => {
                        assert(values(b@) =~= b@);
                        Some((id, b))
                    },
                    _ => None,
                }
            },
            _ => None,
        }
    }
}

fn read_pair(v: &Json) -> (r: Option<(String, String)>)
    ensures
        match r {
            Some(p) => pair_of(v@) == Some((p.0@, p.1@)),
            None => pair_of(v@) is None,
        },
{
    proof {
        json::lemma_json_parts(*v);
    }
    match v {
        Json::Array(a) => {
            if a.len() != 2 {
                return None;
            }
            assert(items_view(a@)[0] == a@[0]@ && items_view(a@)[1] == a@[1]@);
            match (a[0].as_str(), a[1].as_str()) {
                (Some(x), Some(y)) => Some((x.clone(), y.clone())),
                _ => None,
            }
        },
        _ => None,
    }
}

impl FromJson for ((String, String), TaskCheckpoints) {
    spec fn of(v: JsonV) -> Option<((Seq<char>, Seq<char>), History)> {
        saved_task(v)
    }

    fn read(v: &Json) -> (r: Option<Self>) {
        proof {
            json::lemma_json_parts(*v);
        }
        match v {
            Json::Array(a) => {
                if a.len() != 2 {
                    return None;
                }
                assert(items_view(a@)[0] == a@[0]@ && items_view(a@)[1] == a@[1]@);
                let entries: Option<Vec<(u64, Vec<u8>)>> = read_list(
                    a[1].get("entries"),
                    Ghost(|e: JsonV| saved_entry(e)),
                );
                match (read_pair(&a[0]), entries) {
                    (Some(key), Some(e)) => {
                        assert(values(e@) =~= checkpoint_store::history_view(e@));
                        Some((key, TaskCheckpoints { entries: e }))
                    },
                    _ => None,
                }
            },
            _ => None,
        }
    }
}

fn read_descriptors(v: Option<&Json>) -> (r: Option<Vec<DescriptorRecord>>)
    ensures
        match (r, doc_of(v)) {
            (Some(l), Some(JsonV::Array(a))) => values(l@) == a.map_values(|d: JsonV| descriptor_record(d)),
            (None, Some(JsonV::Array(a))) => false,
            (Some(l), _) => false,
            (None, _) => true,
        },
{
    match v {
        Some(d) => {
            proof {
                json::lemma_json_parts(*d);
            }
            match d {
                Json::Array(items) => {
                    let ghost a = items_view(items@);
                    let mut out: Vec<DescriptorRecord> = Vec::new();
                    let mut i: usize = 0;
                    while i < items.len()
                        invariant
                            i <= items@.len(),
                            a == items_view(items@),
                            out@.len() == i,
                            forall|k: int| 0 <= k < i ==> (#[trigger] out@[k])@ == descriptor_record(a[k]),
                        decreases items@.len() - i,
                    {
                        assert(a[i as int] == items@[i as int]@);
                        out.push(read_descriptor(&items[i]));
                        i += 1;
                    }
                    assert(values(out@) =~= a.map_values(|d: JsonV| descriptor_record(d)));
                    Some(out)
                },
                _ => None,
            }
        },
        None => None,
    }
}

impl StateSnapshot {
    /// The snapshot that a document holds, section by section.
    pub fn read(v: &Json) -> (r: StateSnapshot)
        ensures
            r@ == snapshot_of(v@),
    {
        let jobs: Option<Vec<JobRecord>> = read_list(v.get("jobs"), Ghost(|j: JsonV| job_record(j)));
        let checkpoints: Option<Vec<((String, String), TaskCheckpoints)>> = read_list(
            v.get("checkpoints"),
            Ghost(|c: JsonV| saved_task(c)),
        );
        let r = StateSnapshot {
            term: unsigned_at(v, "term"),
            jobs,
            tasks: read_descriptors(v.get("tasks")),
            checkpoints,
        };
        assert(r.checkpoints is Some ==> values(r.checkpoints->0@) =~= checkpoint_store::snapshot_view(r.checkpoints->0@));
        r
    }
}

// ---------------------------------------------------------------------------
// Writing
// ---------------------------------------------------------------------------

/// Some members put into an object, one after the other.
pub open spec fn object(m: Seq<(Seq<char>, JsonV)>) -> Seq<(Seq<char>, JsonV)>
    decreases m.len(),
{
    if m.len() == 0 {
        Seq::empty()
    } else {
        json::with_member(object(m.drop_last()), m.last().0, m.last().1)
    }
}

/// An optional text, null when there is none.
pub open spec fn opt_text_json(t: Option<Seq<char>>) -> JsonV {
    match t {
        Some(s) => JsonV::Str(s),
        None => JsonV::Null,
    }
}

/// An optional number, null when there is none.
pub open spec fn opt_signed_json(n: Option<i64>) -> JsonV {
    match n {
        Some(i) => JsonV::Int(i as int),
        None => JsonV::Null,
    }
}

/// The members of a task of a job.
pub open spec fn task_members(t: TaskStatusV) -> Seq<(Seq<char>, JsonV)> {
    seq![
        ("task_id"@, JsonV::Str(t.task_id)),
        ("stage_id"@, JsonV::Str(t.stage_id)),
        ("worker_id"@, JsonV::Str(t.worker_id)),
        ("state"@, JsonV::Str(t.state)),
        ("processed_records"@, JsonV::Int(t.processed_records as int)),
        ("error"@, opt_text_json(t.error)),
    ]
}

/// A task of a job as JSON.
pub open spec fn task_json(t: TaskStatusV) -> JsonV {
    JsonV::Object(object(task_members(t)))
}

/// The members of a job.
pub open spec fn job_members(j: JobRecordV) -> Seq<(Seq<char>, JsonV)> {
    seq![
        ("job_id"@, JsonV::Str(j.job_id)),
        ("job_name"@, JsonV::Str(j.job_name)),
        ("state"@, JsonV::Str(j.state)),
        ("parallelism"@, JsonV::Int(j.parallelism as int)),
        ("start_time"@, JsonV::Int(j.start_time as int)),
        ("end_time"@, opt_signed_json(j.end_time)),
        ("error_message"@, opt_text_json(j.error_message)),
        ("checkpoint_interval_ms"@, JsonV::Int(j.checkpoint_interval_ms as int)),
        ("checkpoints_completed"@, JsonV::Int(j.checkpoints_completed as int)),
        ("next_checkpoint_id"@, JsonV::Int(j.next_checkpoint_id as int)),
        ("raw_config"@, JsonV::Str(j.raw_config)),
        ("tasks"@, JsonV::Array(j.tasks.map_values(|t: TaskStatusV| task_json(t)))),
    ]
}

/// A job as JSON.
pub open spec fn job_json(j: JobRecordV) -> JsonV {
    JsonV::Object(object(job_members(j)))
}

/// Texts by their keys, as members.
pub open spec fn text_members(p: Pairs) -> Seq<(Seq<char>, JsonV)> {
    p.map_values(|e: (Seq<char>, Seq<char>)| (e.0, JsonV::Str(e.1)))
}

/// The members of a descriptor.
pub open spec fn descriptor_members(d: DescriptorRecordV) -> Seq<(Seq<char>, JsonV)> {
    seq![
        ("task_id"@, opt_text_json(d.task_id)),
        ("job_id"@, opt_text_json(d.job_id)),
        ("stage_id"@, opt_text_json(d.stage_id)),
        ("task_name"@, opt_text_json(d.task_name)),
        ("task_index"@, opt_signed_json(d.task_index)),
        ("parallelism"@, opt_signed_json(d.parallelism)),
        (
            "config"@,
            match d.config {
                Some(c) => JsonV::Object(object(text_members(c))),
                None => JsonV::Null,
            },
        ),
    ]
}

/// A descriptor as JSON.
pub open spec fn descriptor_json(d: DescriptorRecordV) -> JsonV {
    JsonV::Object(object(descriptor_members(d)))
}

/// A checkpoint with what was saved under its id, as JSON.
pub open spec fn entry_json(e: (u64, Seq<u8>)) -> JsonV {
    JsonV::Array(seq![JsonV::Int(e.0 as int), JsonV::Array(e.1.map_values(|b: u8| JsonV::Int(b as int)))])
}

/// What is retained of one task, behind its job and its id, as JSON.
pub open spec fn saved_json(s: ((Seq<char>, Seq<char>), History)) -> JsonV {
    JsonV::Array(
        seq![
            JsonV::Array(seq![JsonV::Str(s.0.0), JsonV::Str(s.0.1)]),
            JsonV::Object(object(seq![("entries"@, JsonV::Array(s.1.map_values(|e: (u64, Seq<u8>)| entry_json(e))))])),
        ],
    )
}

/// The members of a snapshot.
pub open spec fn snapshot_members(s: SnapshotV) -> Seq<(Seq<char>, JsonV)> {
    seq![
        (
            "term"@,
            match s.term {
                Some(t) => JsonV::Int(t as int),
                None => JsonV::Null,
            },
        ),
        (
            "jobs"@,
            match s.jobs {
                Some(l) => JsonV::Array(l.map_values(|j: JobRecordV| job_json(j))),
                None => JsonV::Null,
            },
        ),
        (
            "tasks"@,
            match s.tasks {
                Some(l) => JsonV::Array(l.map_values(|d: DescriptorRecordV| descriptor_json(d))),
                None => JsonV::Null,
            },
        ),
        (
            "checkpoints"@,
            match s.checkpoints {
                Some(l) => JsonV::Array(l.map_values(|c: ((Seq<char>, Seq<char>), History)| saved_json(c))),
                None => JsonV::Null,
            },
        ),
    ]
}

/// A snapshot as JSON.
pub open spec fn snapshot_json(s: SnapshotV) -> JsonV {
    JsonV::Object(object(snapshot_members(s)))
}

fn write_object(members: Vec<(String, Json)>) -> (r: Json)
    ensures
        r@ == JsonV::Object(object(members_view(members@))),
{
    let ghost m = members_view(members@);
    let mut out: Vec<(String, Json)> = Vec::new();
    let mut rest = members;
    let ghost mut n: int = 0;
    proof {
        assert(m.take(0) =~= Seq::empty());
        assert(members_view(out@) =~= Seq::empty());
        assert(m.skip(0) =~= m);
    }
    while rest.len() > 0
        invariant
            0 <= n <= m.len(),
            members_view(rest@) == m.skip(n),
            members_view(out@) == object(m.take(n)),
        decreases rest@.len(),
    {
        let ghost before = rest@;
        let e = rest.remove(0);
        proof {
            assert(members_view(before).len() == before.len());
            assert(n < m.len());
            assert(m.skip(n)[0] == m[n]);
            assert(members_view(before)[0] == (before[0].0@, before[0].1@));
            assert forall|k: int| 0 <= k < rest@.len() implies members_view(rest@)[k] == m.skip(n + 1)[k] by {
                assert(rest@[k] == before[k + 1]);
                assert(members_view(before)[k + 1] == m.skip(n)[k + 1]);
            }
            assert(members_view(rest@) =~= m.skip(n + 1));
            assert(m.take(n + 1).drop_last() =~= m.take(n));
            assert(m.take(n + 1).last() == m[n]);
            n = n + 1;
        }
        json::put(&mut out, e.0.as_str(), e.1);
    }
    assert(members_view(rest@).len() == 0);
    assert(m.take(m.len() as int) =~= m);
    let r = Json::Object(out);
    proof {
        json::lemma_json_parts(r);
    }
    r
}

fn write_unsigned(n: u64) -> (r: Json)
    ensures
        r@ == JsonV::Int(n as int),
{
    if n <= 9223372036854775807u64 {
        Json::Int(n as i64)
    } else {
        Json::UInt(n)
    }
}

fn write_text(s: &String) -> (r: Json)
    ensures
        r@ == JsonV::Str(s@),
{
    Json::Str(s.clone())
}

fn write_opt_text(s: &Option<String>) -> (r: Json)
    ensures
        r@ == opt_text_json(opt_view(*s)),
{
    match s {
        Some(t) => Json::Str(t.clone()),
        None => Json::Null,
    }
}

fn write_opt_signed(n: Option<i64>) -> (r: Json)
    ensures
        r@ == opt_signed_json(n),
{
    match n {
        Some(i) => Json::Int(i),
        None => Json::Null,
    }
}

/// What can be written as a document.
trait ToJson: View {
    spec fn doc(v: Self::V) -> JsonV;

    /// What holds of every such value.
    spec fn valid(v: Self::V) -> bool;

    fn write(&self) -> (r: Json)
        ensures
            r@ == Self::doc(self@),
            Self::valid(self@),
    ;
}

fn write_list<T: ToJson>(l: &Vec<T>, Ghost(f): Ghost<spec_fn(T::V) -> JsonV>) -> (r: Json)
    requires
        forall|x: T::V| #[trigger] f(x) == T::doc(x),
    ensures
        r@ == JsonV::Array(values(l@).map_values(f)),
        forall|i: int| 0 <= i < l@.len() ==> T::valid(#[trigger] values(l@)[i]),
{
    let mut out: Vec<Json> = Vec::new();
    let mut i: usize = 0;
    while i < l.len()
        invariant
            i <= l@.len(),
            out@.len() == i,
            forall|x: T::V| #[trigger] f(x) == T::doc(x),
            forall|k: int| 0 <= k < i ==> (#[trigger] out@[k])@ == f(l@[k]@),
            forall|k: int| 0 <= k < i ==> T::valid((#[trigger] l@[k])@),
        decreases l@.len() - i,
    {
        out.push(l[i].write());
        i += 1;
    }
    let r = Json::Array(out);
    proof {
        json::lemma_json_parts(r);
        assert(items_view(out@) =~= values(l@).map_values(f));
    }
    r
}

impl ToJson for TaskStatusRecord {
    spec fn doc(t: TaskStatusV) -> JsonV {
        task_json(t)
    }

    spec fn valid(t: TaskStatusV) -> bool {
        true
    }

    fn write(&self) -> (r: Json) {
        let members = vec![
            (text::owned("task_id"), write_text(&self.task_id)),
            (text::owned("stage_id"), write_text(&self.stage_id)),
            (text::owned("worker_id"), write_text(&self.worker_id)),
            (text::owned("state"), write_text(&self.state)),
            (text::owned("processed_records"), write_unsigned(self.processed_records)),
            (text::owned("error"), write_opt_text(&self.error)),
        ];
        assert(members_view(members@) =~= task_members(self@));
        write_object(members)
    }
}

impl ToJson for JobRecord {
    spec fn doc(j: JobRecordV) -> JsonV {
        job_json(j)
    }

    spec fn valid(j: JobRecordV) -> bool {
        true
    }

    fn write(&self) -> (r: Json) {
        let tasks = write_list(&self.tasks, Ghost(|t: TaskStatusV| task_json(t)));
        let members = vec![
            (text::owned("job_id"), write_text(&self.job_id)),
            (text::owned("job_name"), write_text(&self.job_name)),
            (text::owned("state"), write_text(&self.state)),
            (text::owned("parallelism"), write_unsigned(self.parallelism as u64)),
            (text::owned("start_time"), Json::Int(self.start_time)),
            (text::owned("end_time"), write_opt_signed(self.end_time)),
            (text::owned("error_message"), write_opt_text(&self.error_message)),
            (text::owned("checkpoint_interval_ms"), write_unsigned(self.checkpoint_interval_ms)),
            (text::owned("checkpoints_completed"), write_unsigned(self.checkpoints_completed)),
            (text::owned("next_checkpoint_id"), write_unsigned(self.next_checkpoint_id)),
            (text::owned("raw_config"), write_text(&self.raw_config)),
            (text::owned("tasks"), tasks),
        ];
        assert(members_view(members@) =~= job_members(self@));
        write_object(members)
    }
}

fn write_config(c: &Properties) -> (r: Json)
    ensures
        r@ == JsonV::Object(object(text_members(c@))),
        props::distinct_keys(c@),
{
    let n: usize = c.len();
    let mut members: Vec<(String, Json)> = Vec::new();
    let mut i: usize = 0;
    while i < n
        invariant
            i <= n,
            n == c@.len(),
            props::distinct_keys(c@),
            members@.len() == i,
            forall|k: int|
                0 <= k < i ==> (#[trigger] members@[k]).0@ == c@[k].0 && members@[k].1@ == JsonV::Str(c@[k].1),
        decreases c@.len() - i,
    {
        let e = c.at(i);
        members.push((e.0.clone(), write_text(&e.1)));
        i += 1;
    }
    assert(members_view(members@) =~= text_members(c@));
    write_object(members)
}

impl ToJson for DescriptorRecord {
    spec fn doc(d: DescriptorRecordV) -> JsonV {
        descriptor_json(d)
    }

    spec fn valid(d: DescriptorRecordV) -> bool {
        d.config is Some ==> props::distinct_keys(d.config->0)
    }

    fn write(&self) -> (r: Json) {
        let config = match &self.config {
            Some(c) => write_config(c),
            None => Json::Null,
        };
        let members = vec![
            (text::owned("task_id"), write_opt_text(&self.task_id)),
            (text::owned("job_id"), write_opt_text(&self.job_id)),
            (text::owned("stage_id"), write_opt_text(&self.stage_id)),
            (text::owned("task_name"), write_opt_text(&self.task_name)),
            (text::owned("task_index"), write_opt_signed(self.task_index)),
            (text::owned("parallelism"), write_opt_signed(self.parallelism)),
            (text::owned("config"), config),
        ];
        assert(members_view(members@) =~= descriptor_members(self@));
        write_object(members)
    }
}

impl ToJson for u8 {
    spec fn doc(b: u8) -> JsonV {
        JsonV::Int(b as int)
    }

    spec fn valid(b: u8) -> bool {
        true
    }

    fn write(&self) -> (r: Json) {
        Json::Int(*self as i64)
    }
}

impl ToJson for (u64, Vec<u8>) {
    spec fn doc(e: (u64, Seq<u8>)) -> JsonV {
        entry_json(e)
    }

    spec fn valid(e: (u64, Seq<u8>)) -> bool {
        true
    }

    fn write(&self) -> (r: Json) {
        let bytes = write_list(&self.1, Ghost(|b: u8| JsonV::Int(b as int)));
        assert(values(self.1@) =~= self.1@);
        let items = vec![write_unsigned(self.0), bytes];
        let r = Json::Array(items);
        proof {
            json::lemma_json_parts(r);
            assert(items_view(items@) =~= seq![
                JsonV::Int(self.0 as int),
                JsonV::Array(self.1@.map_values(|b: u8| JsonV::Int(b as int))),
            ]);
        }
        r
    }
}

impl ToJson for ((String, String), TaskCheckpoints) {
    spec fn doc(s: ((Seq<char>, Seq<char>), History)) -> JsonV {
        saved_json(s)
    }

    spec fn valid(s: ((Seq<char>, Seq<char>), History)) -> bool {
        true
    }

    fn write(&self) -> (r: Json) {
        let entries = write_list(&self.1.entries, Ghost(|e: (u64, Seq<u8>)| entry_json(e)));
        assert(values(self.1.entries@) =~= checkpoint_store::history_view(self.1.entries@));
        let key_items = vec![write_text(&self.0.0), write_text(&self.0.1)];
        let key = Json::Array(key_items);
        let members = vec![(text::owned("entries"), entries)];
        let history = write_object(members);
        proof {
            json::lemma_json_parts(key);
            assert(items_view(key_items@) =~= seq![JsonV::Str(self.0.0@), JsonV::Str(self.0.1@)]);
            assert(members_view(members@) =~= seq![("entries"@, entries@)]);
        }
        let items = vec![key, history];
        let r = Json::Array(items);
        proof {
            json::lemma_json_parts(r);
            assert(items_view(items@) =~= seq![key@, history@]);
        }
        r
    }
}

impl StateSnapshot {
    /// This snapshot as a document.
    pub fn to_json(&self) -> (r: Json)
        ensures
            r@ == snapshot_json(self@),
            configs_are_distinct(self@),
    {
        let term = match self.term {
            Some(t) => write_unsigned(t),
            None => Json::Null,
        };
        let jobs = match &self.jobs {
            Some(l) => write_list(l, Ghost(|j: JobRecordV| job_json(j))),
            None => Json::Null,
        };
        let tasks = match &self.tasks {
            Some(l) => write_list(l, Ghost(|d: DescriptorRecordV| descriptor_json(d))),
            None => Json::Null,
        };
        let checkpoints = match &self.checkpoints {
            Some(l) => {
                assert(values(l@) =~= checkpoint_store::snapshot_view(l@));
                write_list(l, Ghost(|c: ((Seq<char>, Seq<char>), History)| saved_json(c)))
            },
            None => Json::Null,
        };
        let members = vec![
            (text::owned("term"), term),
            (text::owned("jobs"), jobs),
            (text::owned("tasks"), tasks),
            (text::owned("checkpoints"), checkpoints),
        ];
        assert(members_view(members@) =~= snapshot_members(self@));
        write_object(members)
    }
}

// ---------------------------------------------------------------------------
// What is written is read
// ---------------------------------------------------------------------------

/// Whether no two members have one key.
pub open spec fn keys_differ(m: Seq<(Seq<char>, JsonV)>) -> bool {
    forall|i: int, k: int| 0 <= i < k < m.len() ==> (#[trigger] m[i]).0 != (#[trigger] m[k]).0
}

pub(crate) proof fn lemma_object(m: Seq<(Seq<char>, JsonV)>)
    requires
        keys_differ(m),
    ensures
        json::sorted_members(object(m)),
        forall|i: int| 0 <= i < m.len() ==> json::member(object(m), (#[trigger] m[i]).0) == Some(m[i].1),
        forall|i: int| 0 <= i < object(m).len() ==> m.contains(#[trigger] object(m)[i]),
    decreases m.len(),
{
    if m.len() > 0 {
        let d = m.drop_last();
        let last = m.last();
        assert(keys_differ(d)) by {
            assert forall|i: int, k: int| 0 <= i < k < d.len() implies (#[trigger] d[i]).0 != (#[trigger] d[k]).0 by {
                assert(m[i].0 != m[k].0);
            }
        }
        lemma_object(d);
        json::lemma_with_member(object(d), last.0, last.1);
        let o = object(m);
        assert forall|i: int| 0 <= i < m.len() implies json::member(o, (#[trigger] m[i]).0) == Some(m[i].1) by {
            if i < d.len() {
                assert(m[i].0 != m[m.len() - 1].0);
                assert(d[i] == m[i]);
            }
        }
        assert forall|i: int| 0 <= i < o.len() implies m.contains(#[trigger] o[i]) by {
            if o[i] == (last.0, last.1) {
                assert(m[m.len() - 1] == o[i]);
            } else {
                let k = choose|k: int| 0 <= k < object(d).len() && object(d)[k] == o[i];
                assert(d.contains(object(d)[k]));
                let x = choose|x: int| 0 <= x < d.len() && d[x] == o[i];
                assert(m[x] == o[i]);
            }
        }
    }
}

/// Whether a document is read back from its text and nests at most `n` deep.
spec fn plain(v: JsonV, n: nat) -> bool {
    json::exact(v) && json::nesting(v) <= n
}

proof fn lemma_deepest_member(o: Seq<(Seq<char>, JsonV)>, n: nat)
    requires
        forall|i: int| 0 <= i < o.len() ==> json::nesting((#[trigger] o[i]).1) <= n,
    ensures
        json::deepest_member(o) <= n,
    decreases o.len(),
{
    if o.len() > 0 {
        let d = o.drop_last();
        assert forall|i: int| 0 <= i < d.len() implies json::nesting((#[trigger] d[i]).1) <= n by {
            assert(d[i] == o[i]);
        }
        lemma_deepest_member(d, n);
        assert(o[o.len() - 1] == o.last());
    }
}

proof fn lemma_deepest_item(a: Seq<JsonV>, n: nat)
    requires
        forall|i: int| 0 <= i < a.len() ==> json::nesting(#[trigger] a[i]) <= n,
    ensures
        json::deepest_item(a) <= n,
    decreases a.len(),
{
    if a.len() > 0 {
        let d = a.drop_last();
        assert forall|i: int| 0 <= i < d.len() implies json::nesting(#[trigger] d[i]) <= n by {
            assert(d[i] == a[i]);
        }
        lemma_deepest_item(d, n);
        assert(a[a.len() - 1] == a.last());
    }
}

proof fn lemma_plain_object(m: Seq<(Seq<char>, JsonV)>, n: nat)
    requires
        keys_differ(m),
        forall|i: int| 0 <= i < m.len() ==> plain((#[trigger] m[i]).1, n),
    ensures
        plain(JsonV::Object(object(m)), n + 1),
{
    lemma_object(m);
    let o = object(m);
    assert forall|i: int| 0 <= i < o.len() implies plain((#[trigger] o[i]).1, n) by {
        assert(m.contains(o[i]));
        let k = choose|k: int| 0 <= k < m.len() && m[k] == o[i];
        assert(plain(m[k].1, n));
    }
    assert forall|i: int| 0 <= i < o.len() implies json::nesting((#[trigger] o[i]).1) <= n by {
        assert(plain(o[i].1, n));
    }
    lemma_deepest_member(o, n);
}

proof fn lemma_plain_array(a: Seq<JsonV>, n: nat)
    requires
        forall|i: int| 0 <= i < a.len() ==> plain(#[trigger] a[i], n),
    ensures
        plain(JsonV::Array(a), n + 1),
{
    assert forall|i: int| 0 <= i < a.len() implies json::nesting(#[trigger] a[i]) <= n by {
        assert(plain(a[i], n));
    }
    lemma_deepest_item(a, n);
    assert forall|i: int| 0 <= i < a.len() implies json::exact(#[trigger] a[i]) by {
        assert(plain(a[i], n));
    }
}

proof fn lemma_each_written<T>(l: Seq<T>, f: spec_fn(JsonV) -> Option<T>, g: spec_fn(T) -> JsonV)
    requires
        forall|i: int| 0 <= i < l.len() ==> f(g(#[trigger] l[i])) == Some(l[i]),
    ensures
        each(l.map_values(g), f) == Some(l),
    decreases l.len(),
{
    if l.len() > 0 {
        let d = l.drop_last();
        assert forall|i: int| 0 <= i < d.len() implies f(g(#[trigger] d[i])) == Some(d[i]) by {
            assert(d[i] == l[i]);
        }
        lemma_each_written(d, f, g);
        assert(l.map_values(g).drop_last() =~= d.map_values(g));
        assert(l[l.len() - 1] == l.last());
        assert(d.push(l.last()) =~= l);
    } else {
        assert(l.map_values(g) =~= Seq::empty());
        assert(l =~= Seq::empty());
    }
}

proof fn lemma_task_round(t: TaskStatusV)
    ensures
        task_record(task_json(t)) == Some(t),
        plain(task_json(t), 1),
{
    let m = task_members(t);
    reveal_strlit("task_id");
    reveal_strlit("stage_id");
    reveal_strlit("worker_id");
    reveal_strlit("state");
    reveal_strlit("processed_records");
    reveal_strlit("error");
    assert("state"@[0] == 's' && "error"@[0] == 'e');
    assert(m[0].0.len() == 7);
    assert(m[1].0.len() == 8);
    assert(m[2].0.len() == 9);
    assert(m[3].0.len() == 5);
    assert(m[4].0.len() == 17);
    assert(m[5].0.len() == 5);
    assert forall|i: int, k: int| 0 <= i < k < m.len() implies (#[trigger] m[i]).0 != (#[trigger] m[k]).0 by {
        assert(i == 0 || i == 1 || i == 2 || i == 3 || i == 4 || i == 5);
        assert(k == 0 || k == 1 || k == 2 || k == 3 || k == 4 || k == 5);
    }
    lemma_object(m);
    let v = task_json(t);
    assert(field(v, m[0].0) == Some(m[0].1));
    assert(field(v, m[1].0) == Some(m[1].1));
    assert(field(v, m[2].0) == Some(m[2].1));
    assert(field(v, m[3].0) == Some(m[3].1));
    assert(field(v, m[4].0) == Some(m[4].1));
    assert(field(v, m[5].0) == Some(m[5].1));
    lemma_plain_object(m, 0);
}

proof fn lemma_job_round(j: JobRecordV)
    ensures
        job_record(job_json(j)) == Some(j),
        plain(job_json(j), 3),
{
    let m = job_members(j);
    reveal_strlit("job_id");
    reveal_strlit("job_name");
    reveal_strlit("state");
    reveal_strlit("parallelism");
    reveal_strlit("start_time");
    reveal_strlit("end_time");
    reveal_strlit("error_message");
    reveal_strlit("checkpoint_interval_ms");
    reveal_strlit("checkpoints_completed");
    reveal_strlit("next_checkpoint_id");
    reveal_strlit("raw_config");
    reveal_strlit("tasks");
    assert("state"@[0] == 's' && "tasks"@[0] == 't');
    assert("job_name"@[0] == 'j' && "end_time"@[0] == 'e');
    assert("start_time"@[0] == 's' && "raw_config"@[0] == 'r');
    assert(m[0].0.len() == 6);
    assert(m[1].0.len() == 8);
    assert(m[2].0.len() == 5);
    assert(m[3].0.len() == 11);
    assert(m[4].0.len() == 10);
    assert(m[5].0.len() == 8);
    assert(m[6].0.len() == 13);
    assert(m[7].0.len() == 22);
    assert(m[8].0.len() == 21);
    assert(m[9].0.len() == 18);
    assert(m[10].0.len() == 10);
    assert(m[11].0.len() == 5);
    assert forall|i: int, k: int| 0 <= i < k < m.len() implies (#[trigger] m[i]).0 != (#[trigger] m[k]).0 by {
        assert(i == 0 || i == 1 || i == 2 || i == 3 || i == 4 || i == 5 || i == 6 || i == 7 || i == 8 || i == 9 || i == 10 || i == 11);
        assert(k == 0 || k == 1 || k == 2 || k == 3 || k == 4 || k == 5 || k == 6 || k == 7 || k == 8 || k == 9 || k == 10 || k == 11);
    }
    lemma_object(m);
    let v = job_json(j);
    assert(field(v, m[0].0) == Some(m[0].1));
    assert(field(v, m[1].0) == Some(m[1].1));
    assert(field(v, m[2].0) == Some(m[2].1));
    assert(field(v, m[3].0) == Some(m[3].1));
    assert(field(v, m[4].0) == Some(m[4].1));
    assert(field(v, m[5].0) == Some(m[5].1));
    assert(field(v, m[6].0) == Some(m[6].1));
    assert(field(v, m[7].0) == Some(m[7].1));
    assert(field(v, m[8].0) == Some(m[8].1));
    assert(field(v, m[9].0) == Some(m[9].1));
    assert(field(v, m[10].0) == Some(m[10].1));
    assert(field(v, m[11].0) == Some(m[11].1));
    let f = |t: JsonV| task_record(t);
    let g = |t: TaskStatusV| task_json(t);
    assert forall|i: int| 0 <= i < j.tasks.len() implies f(g(#[trigger] j.tasks[i])) == Some(j.tasks[i]) by {
        lemma_task_round(j.tasks[i]);
    }
    lemma_each_written(j.tasks, f, g);
    let a = j.tasks.map_values(g);
    assert forall|i: int| 0 <= i < a.len() implies plain(#[trigger] a[i], 1) by {
        lemma_task_round(j.tasks[i]);
    }
    lemma_plain_array(a, 1);
    assert forall|i: int| 0 <= i < m.len() implies plain((#[trigger] m[i]).1, 2) by {}
    lemma_plain_object(m, 2);
}

/// Whether two descriptors are the same but for the order of their configuration.
pub open spec fn same_descriptor(a: DescriptorRecordV, b: DescriptorRecordV) -> bool {
    &&& a == (DescriptorRecordV { config: a.config, ..b })
    &&& match (a.config, b.config) {
        (Some(p), Some(q)) => forall|key: Seq<char>| #[trigger] props::lookup(p, key) == props::lookup(q, key),
        (None, None) => true,
        _ => false,
    }
}

proof fn lemma_member_last(o: Seq<(Seq<char>, JsonV)>, key: Seq<char>)
    requires
        o.len() > 0,
    ensures
        json::member(o, key) == match json::member(o.drop_last(), key) {
            Some(v) => Some(v),
            None => if o.last().0 == key { Some(o.last().1) } else { None },
        },
    decreases o.len(),
{
    if o.len() == 1 {
        assert(o.drop_last() =~= Seq::empty());
        assert(o.skip(1) =~= Seq::empty());
    } else {
        lemma_member_last(o.skip(1), key);
        assert(o.skip(1).drop_last() =~= o.drop_last().skip(1));
    }
}

/// What a key stands for among the texts of an object.
pub open spec fn text_member(o: Seq<(Seq<char>, JsonV)>, key: Seq<char>) -> Option<Seq<char>> {
    match json::member(o, key) {
        Some(v) => text_of(v),
        None => None,
    }
}

pub(crate) proof fn lemma_texts(o: Seq<(Seq<char>, JsonV)>)
    requires
        json::sorted_members(o),
        forall|i: int| 0 <= i < o.len() ==> (#[trigger] o[i]).1 is Str,
    ensures
        texts_of(o) is Some,
        forall|key: Seq<char>| #[trigger] props::lookup(texts_of(o)->0, key) == text_member(o, key),
    decreases o.len(),
{
    if o.len() > 0 {
        let d = o.drop_last();
        let last = o.last();
        assert forall|i: int, j: int| 0 <= i < j < d.len() implies text::before(#[trigger] d[i].0, #[trigger] d[j].0) by {
            assert(d[i] == o[i] && d[j] == o[j]);
        }
        assert forall|i: int| 0 <= i < d.len() implies (#[trigger] d[i]).1 is Str by {
            assert(d[i] == o[i]);
        }
        lemma_texts(d);
        assert(o[o.len() - 1].1 is Str);
        let h = texts_of(d)->0;
        let t = text_of(last.1)->0;
        props::lemma_assign(h, last.0, t);
        assert forall|key: Seq<char>| #[trigger] props::lookup(texts_of(o)->0, key) == text_member(o, key) by {
            lemma_member_last(o, key);
            assert(props::lookup(h, key) == text_member(d, key));
            if key == last.0 {
                assert(json::member(d, key) is None) by {
                    lemma_member_found(d, key);
                    if json::member(d, key) is Some {
                        let i = choose|i: int| 0 <= i < d.len() && (#[trigger] d[i]).0 == key;
                        assert(text::before(o[i].0, o[o.len() - 1].0));
                        text::lemma_before_total(key, key);
                    }
                }
            } else {
                lemma_member_found(d, key);
                if json::member(d, key) is Some {
                    assert(json::member(o, key) == json::member(d, key));
                }
            }
        }
    }
}

proof fn lemma_member_found(o: Seq<(Seq<char>, JsonV)>, key: Seq<char>)
    ensures
        json::member(o, key) is Some ==> exists|i: int| 0 <= i < o.len() && (#[trigger] o[i]).0 == key,
    decreases o.len(),
{
    if o.len() > 0 {
        if o[0].0 != key {
            lemma_member_found(o.skip(1), key);
            if json::member(o, key) is Some {
                let i = choose|i: int| 0 <= i < o.skip(1).len() && (#[trigger] o.skip(1)[i]).0 == key;
                assert(o[i + 1].0 == key);
            }
        } else {
            assert(o[0].0 == key);
        }
    }
}

proof fn lemma_config_round(c: Pairs)
    requires
        props::distinct_keys(c),
    ensures
        ({
            let o = object(text_members(c));
            &&& texts_of(o) is Some
            &&& forall|key: Seq<char>| #[trigger] props::lookup(texts_of(o)->0, key) == props::lookup(c, key)
            &&& plain(JsonV::Object(o), 1)
        }),
{
    let m = text_members(c);
    assert(keys_differ(m)) by {
        assert forall|i: int, k: int| 0 <= i < k < m.len() implies (#[trigger] m[i]).0 != (#[trigger] m[k]).0 by {
            assert(c[i].0 != c[k].0);
        }
    }
    lemma_object(m);
    lemma_plain_object(m, 0);
    let o = object(m);
    assert forall|i: int| 0 <= i < o.len() implies (#[trigger] o[i]).1 is Str by {
        assert(m.contains(o[i]));
    }
    lemma_texts(o);
    assert forall|key: Seq<char>| #[trigger] props::lookup(texts_of(o)->0, key) == props::lookup(c, key) by {
        props::lemma_lookup(c, key);
        lemma_member_found(o, key);
        if props::lookup(c, key) is Some {
            lemma_looked_up(c, key);
            let i = choose|i: int| 0 <= i < c.len() && (#[trigger] c[i]) == (key, props::lookup(c, key)->0);
            assert(m[i] == (key, JsonV::Str(c[i].1)));
            assert(json::member(o, m[i].0) == Some(m[i].1));
        } else if json::member(o, key) is Some {
            let i = choose|i: int| 0 <= i < o.len() && (#[trigger] o[i]).0 == key;
            assert(m.contains(o[i]));
            let k = choose|k: int| 0 <= k < m.len() && m[k] == o[i];
            assert(c[k].0 == key);
        }
    }
}

proof fn lemma_looked_up(p: Pairs, key: Seq<char>)
    requires
        props::lookup(p, key) is Some,
    ensures
        exists|i: int| 0 <= i < p.len() && (#[trigger] p[i]) == (key, props::lookup(p, key)->0),
    decreases p.len(),
{
    if p[0].0 != key {
        lemma_looked_up(p.skip(1), key);
        let i = choose|i: int| 0 <= i < p.skip(1).len() && (#[trigger] p.skip(1)[i]) == (key, props::lookup(p, key)->0);
        assert(p[i + 1] == p.skip(1)[i]);
    } else {
        assert(p[0] == (key, p[0].1));
    }
}

proof fn lemma_descriptor_round(d: DescriptorRecordV)
    requires
        d.config is Some ==> props::distinct_keys(d.config->0),
    ensures
        same_descriptor(descriptor_record(descriptor_json(d)), d),
        plain(descriptor_json(d), 2),
{
    let m = descriptor_members(d);
    reveal_strlit("task_id");
    reveal_strlit("job_id");
    reveal_strlit("stage_id");
    reveal_strlit("task_name");
    reveal_strlit("task_index");
    reveal_strlit("parallelism");
    reveal_strlit("config");
    assert("job_id"@[0] == 'j' && "config"@[0] == 'c');
    assert(m[0].0.len() == 7);
    assert(m[1].0.len() == 6);
    assert(m[2].0.len() == 8);
    assert(m[3].0.len() == 9);
    assert(m[4].0.len() == 10);
    assert(m[5].0.len() == 11);
    assert(m[6].0.len() == 6);
    assert forall|i: int, k: int| 0 <= i < k < m.len() implies (#[trigger] m[i]).0 != (#[trigger] m[k]).0 by {
        assert(i == 0 || i == 1 || i == 2 || i == 3 || i == 4 || i == 5 || i == 6);
        assert(k == 0 || k == 1 || k == 2 || k == 3 || k == 4 || k == 5 || k == 6);
    }
    lemma_object(m);
    let v = descriptor_json(d);
    assert(field(v, m[0].0) == Some(m[0].1));
    assert(field(v, m[1].0) == Some(m[1].1));
    assert(field(v, m[2].0) == Some(m[2].1));
    assert(field(v, m[3].0) == Some(m[3].1));
    assert(field(v, m[4].0) == Some(m[4].1));
    assert(field(v, m[5].0) == Some(m[5].1));
    assert(field(v, m[6].0) == Some(m[6].1));
    if let Some(c) = d.config {
        lemma_config_round(c);
    }
    assert forall|i: int| 0 <= i < m.len() implies plain((#[trigger] m[i]).1, 1) by {}
    lemma_plain_object(m, 1);
}

proof fn lemma_entry_round(e: (u64, Seq<u8>))
    ensures
        saved_entry(entry_json(e)) == Some(e),
        plain(entry_json(e), 2),
{
    let f = |b: JsonV| byte_of(b);
    let g = |b: u8| JsonV::Int(b as int);
    assert forall|i: int| 0 <= i < e.1.len() implies f(g(#[trigger] e.1[i])) == Some(e.1[i]) by {}
    lemma_each_written(e.1, f, g);
    let bytes = e.1.map_values(g);
    assert forall|i: int| 0 <= i < bytes.len() implies plain(#[trigger] bytes[i], 0) by {}
    lemma_plain_array(bytes, 0);
    let a = seq![JsonV::Int(e.0 as int), JsonV::Array(bytes)];
    assert forall|i: int| 0 <= i < a.len() implies plain(#[trigger] a[i], 1) by {}
    lemma_plain_array(a, 1);
}

proof fn lemma_saved_round(s: ((Seq<char>, Seq<char>), History))
    ensures
        saved_task(saved_json(s)) == Some(s),
        plain(saved_json(s), 5),
{
    let f = |e: JsonV| saved_entry(e);
    let g = |e: (u64, Seq<u8>)| entry_json(e);
    assert forall|i: int| 0 <= i < s.1.len() implies f(g(#[trigger] s.1[i])) == Some(s.1[i]) by {
        lemma_entry_round(s.1[i]);
    }
    lemma_each_written(s.1, f, g);
    let entries = s.1.map_values(g);
    assert forall|i: int| 0 <= i < entries.len() implies plain(#[trigger] entries[i], 2) by {
        lemma_entry_round(s.1[i]);
    }
    lemma_plain_array(entries, 2);
    let m = seq![("entries"@, JsonV::Array(entries))];
    lemma_object(m);
    lemma_plain_object(m, 3);
    assert(field(JsonV::Object(object(m)), m[0].0) == Some(m[0].1));
    let key = seq![JsonV::Str(s.0.0), JsonV::Str(s.0.1)];
    assert forall|i: int| 0 <= i < key.len() implies plain(#[trigger] key[i], 0) by {}
    lemma_plain_array(key, 0);
    let a = seq![JsonV::Array(key), JsonV::Object(object(m))];
    assert forall|i: int| 0 <= i < a.len() implies plain(#[trigger] a[i], 4) by {}
    lemma_plain_array(a, 4);
}

/// Whether the configurations of a snapshot's descriptors have each key once.
pub open spec fn configs_are_distinct(s: SnapshotV) -> bool {
    s.tasks is Some ==> forall|i: int|
        0 <= i < s.tasks->0.len() ==> ((#[trigger] s.tasks->0[i]).config is Some ==> props::distinct_keys(
            s.tasks->0[i].config->0,
        ))
}

/// Whether two snapshots are the same but for the order of the descriptors'
/// configurations.
pub open spec fn same_snapshot(a: SnapshotV, b: SnapshotV) -> bool {
    &&& a.term == b.term
    &&& a.jobs == b.jobs
    &&& a.checkpoints == b.checkpoints
    &&& match (a.tasks, b.tasks) {
        (Some(x), Some(y)) => x.len() == y.len() && forall|i: int|
            0 <= i < y.len() ==> same_descriptor(#[trigger] x[i], y[i]),
        (None, None) => true,
        _ => false,
    }
}

/// A snapshot that was written as a document is read from it as it was, also when the
/// document went through its text.
pub proof fn law_snapshot_is_read_back(s: SnapshotV)
    requires
        configs_are_distinct(s),
    ensures
        same_snapshot(snapshot_of(snapshot_json(s)), s),
        json::readable(snapshot_json(s)),
{
    let m = snapshot_members(s);
    reveal_strlit("term");
    reveal_strlit("jobs");
    reveal_strlit("tasks");
    reveal_strlit("checkpoints");
    assert("term"@[0] == 't' && "jobs"@[0] == 'j');
    assert(m[0].0.len() == 4);
    assert(m[1].0.len() == 4);
    assert(m[2].0.len() == 5);
    assert(m[3].0.len() == 11);
    assert forall|i: int, k: int| 0 <= i < k < m.len() implies (#[trigger] m[i]).0 != (#[trigger] m[k]).0 by {
        assert(i == 0 || i == 1 || i == 2 || i == 3);
        assert(k == 0 || k == 1 || k == 2 || k == 3);
    }
    lemma_object(m);
    let v = snapshot_json(s);
    assert(field(v, m[0].0) == Some(m[0].1));
    assert(field(v, m[1].0) == Some(m[1].1));
    assert(field(v, m[2].0) == Some(m[2].1));
    assert(field(v, m[3].0) == Some(m[3].1));
    if let Some(l) = s.jobs {
        let f = |j: JsonV| job_record(j);
        let g = |j: JobRecordV| job_json(j);
        assert forall|i: int| 0 <= i < l.len() implies f(g(#[trigger] l[i])) == Some(l[i]) by {
            lemma_job_round(l[i]);
        }
        lemma_each_written(l, f, g);
        let a = l.map_values(g);
        assert forall|i: int| 0 <= i < a.len() implies plain(#[trigger] a[i], 3) by {
            lemma_job_round(l[i]);
        }
        lemma_plain_array(a, 3);
    }
    if let Some(l) = s.tasks {
        let a = l.map_values(|d: DescriptorRecordV| descriptor_json(d));
        assert forall|i: int| 0 <= i < a.len() implies plain(#[trigger] a[i], 2) by {
            lemma_descriptor_round(l[i]);
        }
        lemma_plain_array(a, 2);
        let r = snapshot_of(v).tasks->0;
        assert forall|i: int| 0 <= i < l.len() implies same_descriptor(#[trigger] r[i], l[i]) by {
            lemma_descriptor_round(l[i]);
            assert(r[i] == descriptor_record(a[i]));
        }
    }
    if let Some(l) = s.checkpoints {
        let f = |c: JsonV| saved_task(c);
        let g = |c: ((Seq<char>, Seq<char>), History)| saved_json(c);
        assert forall|i: int| 0 <= i < l.len() implies f(g(#[trigger] l[i])) == Some(l[i]) by {
            lemma_saved_round(l[i]);
        }
        lemma_each_written(l, f, g);
        let a = l.map_values(g);
        assert forall|i: int| 0 <= i < a.len() implies plain(#[trigger] a[i], 5) by {
            lemma_saved_round(l[i]);
        }
        lemma_plain_array(a, 5);
    }
    assert forall|i: int| 0 <= i < m.len() implies plain((#[trigger] m[i]).1, 6) by {
        assert(i == 0 || i == 1 || i == 2 || i == 3);
    }
    lemma_plain_object(m, 6);
}

impl StateSnapshot {
    /// The snapshot that bytes hold, section by section; what is no JSON is refused.
    pub fn parse(bytes: &[u8]) -> (r: Result<StateSnapshot, serde_json::Error>)
        ensures
            match (r, json::parsed_json(bytes@)) {
                (Ok(s), Some(v)) => s@ == snapshot_of(v),
                (Err(_), None) => true,
                _ => false,
            },
    {
        match Json::parse(bytes) {
            Ok(v) => Ok(StateSnapshot::read(&v)),
            Err(e) => Err(e),
        }
    }

    /// The text of this snapshot, from which it is read back as it is.
    pub fn to_text(&self) -> (r: String)
        ensures
            r@ == json::json_text(snapshot_json(self@)),
            json::parsed_text(r@) == Some(snapshot_json(self@)),
            same_snapshot(snapshot_of(snapshot_json(self@)), self@),
    {
        let v = self.to_json();
        proof {
            law_snapshot_is_read_back(self@);
        }
        json::json_string(&v)
    }
}

} // verus!
