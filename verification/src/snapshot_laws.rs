//! How a snapshot is written down: under which names its parts stand, and what is read
//! where a part is missing or is of another type.

use vstd::prelude::*;

use crate::checkpoint_store::History;
use crate::json;
use crate::json::{field, member, JsonV};
use crate::props;
use crate::replication::{DescriptorRecordV, JobRecordV, SnapshotV, TaskStatusV};
use crate::snapshot_json::{
    byte_of, config_in, descriptor_json, descriptor_members, descriptor_record, each, entry_json, job_json, job_members,
    job_record, lemma_object, lemma_texts, object, saved_entry, saved_json, saved_task, snapshot_json, snapshot_members,
    snapshot_of, task_json, task_members, task_record, text_members, texts_of,
};

verus! {

/// Whether a member is a text, or null where there is none.
pub open spec fn is_text(v: Option<JsonV>, t: Option<Seq<char>>) -> bool {
    match t {
        Some(s) => v == Some(JsonV::Str(s)),
        None => v == Some(JsonV::Null),
    }
}

/// Whether a member is a number, or null where there is none.
pub open spec fn is_number(v: Option<JsonV>, n: Option<i64>) -> bool {
    match n {
        Some(i) => v == Some(JsonV::Int(i as int)),
        None => v == Some(JsonV::Null),
    }
}

/// How a task is written.
pub proof fn law_written_tasks(t: TaskStatusV)
    ensures
        ({
            let v = task_json(t);
            &&& field(v, "task_id"@) == Some(JsonV::Str(t.task_id))
            &&& field(v, "stage_id"@) == Some(JsonV::Str(t.stage_id))
            &&& field(v, "worker_id"@) == Some(JsonV::Str(t.worker_id))
            &&& field(v, "state"@) == Some(JsonV::Str(t.state))
            &&& field(v, "processed_records"@) == Some(JsonV::Int(t.processed_records as int))
            &&& is_text(field(v, "error"@), t.error)
        }),
{
    let v = task_json(t);
    let m = task_members(t);
    reveal_strlit("task_id");
    reveal_strlit("stage_id");
    reveal_strlit("worker_id");
    reveal_strlit("state");
    reveal_strlit("processed_records");
    reveal_strlit("error");
    assert("state"@[0] != "error"@[0]);
    assert(m[0].0 == "task_id"@ && m[0].0.len() == 7);
    assert(m[1].0 == "stage_id"@ && m[1].0.len() == 8);
    assert(m[2].0 == "worker_id"@ && m[2].0.len() == 9);
    assert(m[3].0 == "state"@ && m[3].0.len() == 5);
    assert(m[4].0 == "processed_records"@ && m[4].0.len() == 17);
    assert(m[5].0 == "error"@ && m[5].0.len() == 5);
    assert forall|i: int, k: int| 0 <= i < k < m.len() implies (#[trigger] m[i]).0 != (#[trigger] m[k]).0 by {
        assert(i == 0 || i == 1 || i == 2 || i == 3 || i == 4 || i == 5);
        assert(k == 0 || k == 1 || k == 2 || k == 3 || k == 4 || k == 5);
    }
    lemma_object(m);
    assert(field(v, m[0].0) == Some(m[0].1));
    assert(field(v, m[1].0) == Some(m[1].1));
    assert(field(v, m[2].0) == Some(m[2].1));
    assert(field(v, m[3].0) == Some(m[3].1));
    assert(field(v, m[4].0) == Some(m[4].1));
    assert(field(v, m[5].0) == Some(m[5].1));
}

/// How a job is written.
pub proof fn law_written_jobs(j: JobRecordV)
    ensures
        ({
            let v = job_json(j);
            &&& field(v, "job_id"@) == Some(JsonV::Str(j.job_id))
            &&& field(v, "job_name"@) == Some(JsonV::Str(j.job_name))
            &&& field(v, "state"@) == Some(JsonV::Str(j.state))
            &&& field(v, "parallelism"@) == Some(JsonV::Int(j.parallelism as int))
            &&& field(v, "start_time"@) == Some(JsonV::Int(j.start_time as int))
            &&& is_number(field(v, "end_time"@), j.end_time)
            &&& is_text(field(v, "error_message"@), j.error_message)
            &&& field(v, "checkpoint_interval_ms"@) == Some(JsonV::Int(j.checkpoint_interval_ms as int))
            &&& field(v, "checkpoints_completed"@) == Some(JsonV::Int(j.checkpoints_completed as int))
            &&& field(v, "next_checkpoint_id"@) == Some(JsonV::Int(j.next_checkpoint_id as int))
            &&& field(v, "raw_config"@) == Some(JsonV::Str(j.raw_config))
            &&& field(v, "tasks"@) matches Some(JsonV::Array(a)) && a.len() == j.tasks.len() && forall|i: int|
                0 <= i < a.len() ==> (#[trigger] a[i]) == task_json(j.tasks[i])
        }),
{
    let v = job_json(j);
    let m = job_members(j);
    reveal_strlit("job_id");
    reveal_strlit("job_name");
    reveal_strlit("state");
    reveal_strlit("parallelism");
    reveal_strlit("start_time");
    reveal_strlit("end_time");
    reveal_strlit("error_message");
    reveal_strlit("checkpoint_interval_ms");
    reveal_strlit("checkpoints_completed");
    reveal_strlit("next_checkpoint_id");
    reveal_strlit("raw_config");
    reveal_strlit("tasks");
    assert("job_name"@[0] != "end_time"@[0]);
    assert("state"@[0] != "tasks"@[0]);
    assert("start_time"@[0] != "raw_config"@[0]);
    assert(m[0].0 == "job_id"@ && m[0].0.len() == 6);
    assert(m[1].0 == "job_name"@ && m[1].0.len() == 8);
    assert(m[2].0 == "state"@ && m[2].0.len() == 5);
    assert(m[3].0 == "parallelism"@ && m[3].0.len() == 11);
    assert(m[4].0 == "start_time"@ && m[4].0.len() == 10);
    assert(m[5].0 == "end_time"@ && m[5].0.len() == 8);
    assert(m[6].0 == "error_message"@ && m[6].0.len() == 13);
    assert(m[7].0 == "checkpoint_interval_ms"@ && m[7].0.len() == 22);
    assert(m[8].0 == "checkpoints_completed"@ && m[8].0.len() == 21);
    assert(m[9].0 == "next_checkpoint_id"@ && m[9].0.len() == 18);
    assert(m[10].0 == "raw_config"@ && m[10].0.len() == 10);
    assert(m[11].0 == "tasks"@ && m[11].0.len() == 5);
    assert forall|i: int, k: int| 0 <= i < k < m.len() implies (#[trigger] m[i]).0 != (#[trigger] m[k]).0 by {
        assert(i == 0 || i == 1 || i == 2 || i == 3 || i == 4 || i == 5 || i == 6 || i == 7 || i == 8 || i == 9 || i == 10 || i == 11);
        assert(k == 0 || k == 1 || k == 2 || k == 3 || k == 4 || k == 5 || k == 6 || k == 7 || k == 8 || k == 9 || k == 10 || k == 11);
    }
    lemma_object(m);
    assert(field(v, m[0].0) == Some(m[0].1));
    assert(field(v, m[1].0) == Some(m[1].1));
    assert(field(v, m[2].0) == Some(m[2].1));
    assert(field(v, m[3].0) == Some(m[3].1));
    assert(field(v, m[4].0) == Some(m[4].1));
    assert(field(v, m[5].0) == Some(m[5].1));
    assert(field(v, m[6].0) == Some(m[6].1));
    assert(field(v, m[7].0) == Some(m[7].1));
    assert(field(v, m[8].0) == Some(m[8].1));
    assert(field(v, m[9].0) == Some(m[9].1));
    assert(field(v, m[10].0) == Some(m[10].1));
    assert(field(v, m[11].0) == Some(m[11].1));
}

/// How a part of the plan is written.
pub proof fn law_written_plans(d: DescriptorRecordV)
    ensures
        ({
            let v = descriptor_json(d);
            &&& is_text(field(v, "task_id"@), d.task_id)
            &&& is_text(field(v, "job_id"@), d.job_id)
            &&& is_text(field(v, "stage_id"@), d.stage_id)
            &&& is_text(field(v, "task_name"@), d.task_name)
            &&& is_number(field(v, "task_index"@), d.task_index)
            &&& is_number(field(v, "parallelism"@), d.parallelism)
            &&& d.config is None ==> field(v, "config"@) == Some(JsonV::Null)
            &&& d.config matches Some(c) ==> props::distinct_keys(c) ==> (field(v, "config"@) matches Some(JsonV::Object(o))
                && forall|i: int| 0 <= i < c.len() ==> member(o, (#[trigger] c[i]).0) == Some(JsonV::Str(c[i].1)))
        }),
{
    let v = descriptor_json(d);
    let m = descriptor_members(d);
    reveal_strlit("task_id");
    reveal_strlit("job_id");
    reveal_strlit("stage_id");
    reveal_strlit("task_name");
    reveal_strlit("task_index");
    reveal_strlit("parallelism");
    reveal_strlit("config");
    assert("job_id"@[0] != "config"@[0]);
    assert(m[0].0 == "task_id"@ && m[0].0.len() == 7);
    assert(m[1].0 == "job_id"@ && m[1].0.len() == 6);
    assert(m[2].0 == "stage_id"@ && m[2].0.len() == 8);
    assert(m[3].0 == "task_name"@ && m[3].0.len() == 9);
    assert(m[4].0 == "task_index"@ && m[4].0.len() == 10);
    assert(m[5].0 == "parallelism"@ && m[5].0.len() == 11);
    assert(m[6].0 == "config"@ && m[6].0.len() == 6);
    assert forall|i: int, k: int| 0 <= i < k < m.len() implies (#[trigger] m[i]).0 != (#[trigger] m[k]).0 by {
        assert(i == 0 || i == 1 || i == 2 || i == 3 || i == 4 || i == 5 || i == 6);
        assert(k == 0 || k == 1 || k == 2 || k == 3 || k == 4 || k == 5 || k == 6);
    }
    lemma_object(m);
    assert(field(v, m[0].0) == Some(m[0].1));
    assert(field(v, m[1].0) == Some(m[1].1));
    assert(field(v, m[2].0) == Some(m[2].1));
    assert(field(v, m[3].0) == Some(m[3].1));
    assert(field(v, m[4].0) == Some(m[4].1));
    assert(field(v, m[5].0) == Some(m[5].1));
    assert(field(v, m[6].0) == Some(m[6].1));
    if let Some(c) = d.config {
        if props::distinct_keys(c) {
            let t = text_members(c);
            assert forall|i: int, k: int| 0 <= i < k < t.len() implies (#[trigger] t[i]).0 != (#[trigger] t[k]).0 by {
                assert(c[i].0 != c[k].0);
            }
            lemma_object(t);
            assert forall|i: int| 0 <= i < c.len() implies member(object(t), (#[trigger] c[i]).0) == Some(
                JsonV::Str(c[i].1),
            ) by {
                assert(t[i] == (c[i].0, JsonV::Str(c[i].1)));
            }
        }
    }
}

/// How the checkpoints of a task are written: its job and its name, and its entries, each
/// with its id and its bytes.
pub proof fn law_written_checkpoints(job: Seq<char>, task: Seq<char>, h: History, i: int, b: int)
    requires
        0 <= i < h.len(),
        0 <= b < h[i].1.len(),
    ensures
        saved_json(((job, task), h)) matches JsonV::Array(a) && a.len() == 2 && a[0] == JsonV::Array(
            seq![JsonV::Str(job), JsonV::Str(task)],
        ) && (field(a[1], "entries"@) matches Some(JsonV::Array(e)) && e.len() == h.len() && (e[i] matches JsonV::Array(p)
            && p.len() == 2 && p[0] == JsonV::Int(h[i].0 as int) && (p[1] matches JsonV::Array(bytes) && bytes.len()
            == h[i].1.len() && bytes[b] == JsonV::Int(h[i].1[b] as int)))),
{
    let m = seq![("entries"@, JsonV::Array(h.map_values(|e: (u64, Seq<u8>)| entry_json(e))))];
    lemma_object(m);
    assert(member(object(m), m[0].0) == Some(m[0].1));
}

/// How a snapshot is written: its term, its jobs, its plan and its checkpoints, each null
/// where it is not known.
pub proof fn law_written_snapshots(s: SnapshotV)
    ensures
        ({
            let v = snapshot_json(s);
            &&& s.term is None ==> field(v, "term"@) == Some(JsonV::Null)
            &&& s.term matches Some(t) ==> field(v, "term"@) == Some(JsonV::Int(t as int))
            &&& s.jobs is None ==> field(v, "jobs"@) == Some(JsonV::Null)
            &&& s.jobs matches Some(l) ==> (field(v, "jobs"@) matches Some(JsonV::Array(a)) && a.len() == l.len() && forall|
                i: int,
            |
                0 <= i < l.len() ==> (#[trigger] a[i]) == job_json(l[i]))
            &&& s.tasks is None ==> field(v, "tasks"@) == Some(JsonV::Null)
            &&& s.tasks matches Some(l) ==> (field(v, "tasks"@) matches Some(JsonV::Array(a)) && a.len() == l.len()
                && forall|i: int| 0 <= i < l.len() ==> (#[trigger] a[i]) == descriptor_json(l[i]))
            &&& s.checkpoints is None ==> field(v, "checkpoints"@) == Some(JsonV::Null)
            &&& s.checkpoints matches Some(l) ==> (field(v, "checkpoints"@) matches Some(JsonV::Array(a)) && a.len()
                == l.len() && forall|i: int| 0 <= i < l.len() ==> (#[trigger] a[i]) == saved_json(l[i]))
        }),
{
    let v = snapshot_json(s);
    let m = snapshot_members(s);
    reveal_strlit("term");
    reveal_strlit("jobs");
    reveal_strlit("tasks");
    reveal_strlit("checkpoints");
    assert("term"@[0] != "jobs"@[0]);
    assert(m[0].0 == "term"@ && m[0].0.len() == 4);
    assert(m[1].0 == "jobs"@ && m[1].0.len() == 4);
    assert(m[2].0 == "tasks"@ && m[2].0.len() == 5);
    assert(m[3].0 == "checkpoints"@ && m[3].0.len() == 11);
    assert forall|i: int, k: int| 0 <= i < k < m.len() implies (#[trigger] m[i]).0 != (#[trigger] m[k]).0 by {
        assert(i == 0 || i == 1 || i == 2 || i == 3);
        assert(k == 0 || k == 1 || k == 2 || k == 3);
    }
    lemma_object(m);
    assert(field(v, m[0].0) == Some(m[0].1));
    assert(field(v, m[1].0) == Some(m[1].1));
    assert(field(v, m[2].0) == Some(m[2].1));
    assert(field(v, m[3].0) == Some(m[3].1));
}

/// Whether a member is a text.
pub open spec fn holds_text(v: JsonV, key: Seq<char>, t: Seq<char>) -> bool {
    field(v, key) == Some(JsonV::Str(t))
}

/// Whether a member is a text, or is missing or null for none.
pub open spec fn may_hold_text(v: JsonV, key: Seq<char>, t: Option<Seq<char>>) -> bool {
    match t {
        Some(s) => field(v, key) == Some(JsonV::Str(s)),
        None => field(v, key) is None || field(v, key) == Some(JsonV::Null),
    }
}

/// Whether a member is a number, or is missing or null for none.
pub open spec fn may_hold_number(v: JsonV, key: Seq<char>, n: Option<i64>) -> bool {
    match n {
        Some(i) => field(v, key) == Some(JsonV::Int(i as int)),
        None => field(v, key) is None || field(v, key) == Some(JsonV::Null),
    }
}

/// Whether a member is a number, or is missing for the default.
pub open spec fn holds_or(v: JsonV, key: Seq<char>, default: u64, n: u64) -> bool {
    field(v, key) == Some(JsonV::Int(n as int)) || (field(v, key) is None && n == default)
}

/// How a task is read: each of its parts has to be there, but for an error.
pub proof fn law_read_tasks(v: JsonV, t: TaskStatusV)
    ensures
        task_record(v) == Some(t) <==> {
            &&& holds_text(v, "task_id"@, t.task_id)
            &&& holds_text(v, "stage_id"@, t.stage_id)
            &&& holds_text(v, "worker_id"@, t.worker_id)
            &&& holds_text(v, "state"@, t.state)
            &&& field(v, "processed_records"@) == Some(JsonV::Int(t.processed_records as int))
            &&& may_hold_text(v, "error"@, t.error)
        },
{
}

/// How a job is read: the counters of checkpoints may be missing, for none and for a first
/// id of one, and so may the configuration, for an empty one.
pub proof fn law_read_jobs(v: JsonV, j: JobRecordV)
    ensures
        job_record(v) == Some(j) <==> {
            &&& holds_text(v, "job_id"@, j.job_id)
            &&& holds_text(v, "job_name"@, j.job_name)
            &&& holds_text(v, "state"@, j.state)
            &&& field(v, "parallelism"@) == Some(JsonV::Int(j.parallelism as int))
            &&& j.parallelism <= u64::MAX
            &&& field(v, "start_time"@) == Some(JsonV::Int(j.start_time as int))
            &&& may_hold_number(v, "end_time"@, j.end_time)
            &&& may_hold_text(v, "error_message"@, j.error_message)
            &&& holds_or(v, "checkpoint_interval_ms"@, 0, j.checkpoint_interval_ms)
            &&& holds_or(v, "checkpoints_completed"@, 0, j.checkpoints_completed)
            &&& holds_or(v, "next_checkpoint_id"@, 1, j.next_checkpoint_id)
            &&& holds_text(v, "raw_config"@, j.raw_config) || (field(v, "raw_config"@) is None && j.raw_config.len() == 0)
            &&& field(v, "tasks"@) matches Some(JsonV::Array(a)) && a.len() == j.tasks.len() && forall|i: int|
                0 <= i < a.len() ==> task_record(#[trigger] a[i]) == Some(j.tasks[i])
        },
{
    if j.raw_config.len() == 0 {
        assert(j.raw_config =~= Seq::empty());
    }
    match field(v, "tasks"@) {
        Some(JsonV::Array(a)) => {
            let f = |t: JsonV| task_record(t);
            lemma_each(a, f, j.tasks);
            if forall|i: int| 0 <= i < a.len() ==> task_record(#[trigger] a[i]) == Some(j.tasks[i]) {
                assert forall|i: int| 0 <= i < a.len() implies f(#[trigger] a[i]) == Some(j.tasks[i]) by {
                }
            }
            if each(a, f) == Some(j.tasks) {
                assert forall|i: int| 0 <= i < a.len() implies task_record(#[trigger] a[i]) == Some(j.tasks[i]) by {
                    assert(f(a[i]) == Some(j.tasks[i]));
                }
            }
        },
        _ => {},
    }
}

proof fn lemma_each<T>(a: Seq<JsonV>, f: spec_fn(JsonV) -> Option<T>, l: Seq<T>)
    ensures
        each(a, f) == Some(l) <==> a.len() == l.len() && forall|i: int| 0 <= i < a.len() ==> f(#[trigger] a[i]) == Some(l[i]),
    decreases a.len(),
{
    if a.len() == 0 {
        if l.len() == 0 {
            assert(l =~= Seq::empty());
        }
    } else {
        let d = a.drop_last();
        if l.len() == a.len() {
            lemma_each(d, f, l.drop_last());
            assert(l.drop_last().push(l.last()) =~= l);
            if forall|i: int| 0 <= i < a.len() ==> f(#[trigger] a[i]) == Some(l[i]) {
                assert forall|i: int| 0 <= i < d.len() implies f(#[trigger] d[i]) == Some(l.drop_last()[i]) by {
                    assert(f(a[i]) == Some(l[i]));
                }
                assert(f(a[a.len() - 1]) == Some(l[a.len() - 1]));
            }
        }
        if each(a, f) == Some(l) {
            let h = each(d, f)->0;
            lemma_each(d, f, h);
            assert(l == h.push(f(a.last())->0));
            assert forall|i: int| 0 <= i < a.len() implies f(#[trigger] a[i]) == Some(l[i]) by {
                if i < d.len() {
                    assert(f(d[i]) == Some(h[i]));
                }
            }
        }
    }
}

/// How a part of the plan is read: whatever is missing, or of another type, is none. Its
/// settings are texts under their keys.
pub proof fn law_read_plans(v: JsonV, key: Seq<char>)
    ensures
        ({
            let d = descriptor_record(v);
            &&& read_text(v, "task_id"@, d.task_id) && read_text(v, "job_id"@, d.job_id)
            &&& read_text(v, "stage_id"@, d.stage_id) && read_text(v, "task_name"@, d.task_name)
            &&& read_number(v, "task_index"@, d.task_index) && read_number(v, "parallelism"@, d.parallelism)
            &&& !(field(v, "config"@) matches Some(JsonV::Object(_))) ==> d.config is None
            &&& field(v, "config"@) matches Some(JsonV::Object(o)) ==> json::sorted_members(o) && (forall|i: int|
                0 <= i < o.len() ==> (#[trigger] o[i]).1 is Str) ==> d.config is Some && read_text(
                JsonV::Object(o),
                key,
                props::lookup(d.config->0, key),
            )
        }),
{
    match field(v, "config"@) {
        Some(JsonV::Object(o)) => {
            if json::sorted_members(o) && forall|i: int| 0 <= i < o.len() ==> (#[trigger] o[i]).1 is Str {
                lemma_texts(o);
                assert(props::lookup(texts_of(o)->0, key) == props::lookup(config_in(v)->0, key));
            }
        },
        _ => {},
    }
}

/// Whether what was read of a member is its text, and none where it has none.
pub open spec fn read_text(v: JsonV, key: Seq<char>, t: Option<Seq<char>>) -> bool {
    match field(v, key) {
        Some(JsonV::Str(s)) => t == Some(s),
        _ => t is None,
    }
}

/// Whether what was read of a member is its number, and none where it has none that fits.
pub open spec fn read_number(v: JsonV, key: Seq<char>, n: Option<i64>) -> bool {
    match field(v, key) {
        Some(JsonV::Int(i)) => if i64::MIN <= i <= i64::MAX { n matches Some(k) && k == i } else { n is None },
        _ => n is None,
    }
}

/// How a snapshot is read: what is missing is not known, and neither is a list with an
/// entry that cannot be read. A plan is read part by part.
pub proof fn law_read_snapshots(v: JsonV, jobs: Seq<JobRecordV>)
    ensures
        ({
            let s = snapshot_of(v);
            &&& field(v, "term"@) matches Some(JsonV::Int(n)) ==> 0 <= n <= u64::MAX ==> (s.term matches Some(t) && t == n)
            &&& !(field(v, "term"@) matches Some(JsonV::Int(_))) ==> s.term is None
            &&& s.jobs == Some(jobs) <==> (field(v, "jobs"@) matches Some(JsonV::Array(a)) && a.len() == jobs.len()
                && forall|i: int| 0 <= i < a.len() ==> job_record(#[trigger] a[i]) == Some(jobs[i]))
            &&& !(field(v, "tasks"@) matches Some(JsonV::Array(_))) ==> s.tasks is None
            &&& field(v, "tasks"@) matches Some(JsonV::Array(a)) ==> (s.tasks matches Some(l) && l.len() == a.len()
                && forall|i: int| 0 <= i < a.len() ==> (#[trigger] l[i]) == descriptor_record(a[i]))
            &&& !(field(v, "checkpoints"@) matches Some(JsonV::Array(_))) ==> s.checkpoints is None
        }),
{
    match field(v, "jobs"@) {
        Some(JsonV::Array(a)) => {
            let f = |j: JsonV| job_record(j);
            lemma_each(a, f, jobs);
            if forall|i: int| 0 <= i < a.len() ==> job_record(#[trigger] a[i]) == Some(jobs[i]) {
                assert forall|i: int| 0 <= i < a.len() implies f(#[trigger] a[i]) == Some(jobs[i]) by {
                }
            }
            if each(a, f) == Some(jobs) {
                assert forall|i: int| 0 <= i < a.len() implies job_record(#[trigger] a[i]) == Some(jobs[i]) by {
                    assert(f(a[i]) == Some(jobs[i]));
                }
            }
        },
        _ => {},
    }
}

/// How the checkpoints of a task are read: a pair of its job and its name, and its entries,
/// each an id and the bytes of a checkpoint.
pub proof fn law_read_checkpoints(v: JsonV, job: Seq<char>, task: Seq<char>, h: History)
    ensures
        saved_task(v) == Some(((job, task), h)) <==> (v matches JsonV::Array(a) && a.len() == 2 && (a[0] matches
            JsonV::Array(p) && p.len() == 2 && p[0] == JsonV::Str(job) && p[1] == JsonV::Str(task)) && (field(
            a[1],
            "entries"@,
        ) matches Some(JsonV::Array(l)) && l.len() == h.len() && forall|i: int|
            0 <= i < l.len() ==> saved_entry(#[trigger] l[i]) == Some(h[i]))),
{
    match v {
        JsonV::Array(a) => {
            if a.len() == 2 {
                match field(a[1], "entries"@) {
                    Some(JsonV::Array(l)) => {
                        let f = |e: JsonV| saved_entry(e);
                        lemma_each(l, f, h);
                        if forall|i: int| 0 <= i < l.len() ==> saved_entry(#[trigger] l[i]) == Some(h[i]) {
                            assert forall|i: int| 0 <= i < l.len() implies f(#[trigger] l[i]) == Some(h[i]) by {
                            }
                        }
                        if each(l, f) == Some(h) {
                            assert forall|i: int| 0 <= i < l.len() implies saved_entry(#[trigger] l[i]) == Some(h[i]) by {
                                assert(f(l[i]) == Some(h[i]));
                            }
                        }
                    },
                    _ => {},
                }
            }
        },
        _ => {},
    }
}

/// How one checkpoint is read: its id, and bytes that are numbers up to two hundred and
/// fifty-five.
pub proof fn law_read_entries(v: JsonV, id: u64, bytes: Seq<u8>)
    ensures
        saved_entry(v) == Some((id, bytes)) <==> (v matches JsonV::Array(a) && a.len() == 2 && a[0] == JsonV::Int(id as int)
            && (a[1] matches JsonV::Array(l) && l.len() == bytes.len() && forall|i: int|
            0 <= i < l.len() ==> (#[trigger] l[i]) == JsonV::Int(bytes[i] as int))),
{
    match v {
        JsonV::Array(a) => {
            if a.len() == 2 {
                match a[1] {
                    JsonV::Array(l) => {
                        let f = |b: JsonV| byte_of(b);
                        lemma_each(l, f, bytes);
                        if forall|i: int| 0 <= i < l.len() ==> (#[trigger] l[i]) == JsonV::Int(bytes[i] as int) {
                            if l.len() == bytes.len() {
                                assert forall|i: int| 0 <= i < l.len() implies f(#[trigger] l[i]) == Some(bytes[i]) by {
                                    assert(l[i] == JsonV::Int(bytes[i] as int));
                                }
                            }
                        }
                        if each(l, f) == Some(bytes) {
                            assert forall|i: int| 0 <= i < l.len() implies (#[trigger] l[i]) == JsonV::Int(
                                bytes[i] as int,
                            ) by {
                                assert(f(l[i]) == Some(bytes[i]));
                            }
                        }
                    },
                    _ => {},
                }
            }
        },
        _ => {},
    }
}

} // verus!
