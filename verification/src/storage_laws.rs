//! What is kept: the checkpoints of each task, the files and objects that hold them, how
//! long they stay, and what masters tell each other of it all.

use vstd::prelude::*;

use crate::checkpoint_store;
use crate::checkpoint_store::{
    first_segments, history_of, history_saved, insert_by_name, job_listing, meta_of, relative_to, store_merged,
    store_without_job, under, without_id, History, Store,
};
use crate::coordination_laws::lemma_push_contains;
use crate::job::{logs_appended, state_of_wire, DescriptorV, JobV, TaskV, TASK_LOG_RETAIN};
use crate::job_coordinator::{CoordinatorV, MASTER_RETAINED};
use crate::keyed;
use crate::keyed::{index_of, named, put_all, Named};
use crate::replication::{
    exported, imported_job, imported_task, merge_descriptor, merge_descriptors, merge_job, merge_jobs, merged,
    DescriptorRecordV, JobRecordV, SnapshotV, TaskStatusV,
};
use crate::retention;
use crate::retention::{
    checkpoint_name, highest, idle, latest, listed, named_checkpoint, newest, sort_by_id, surplus,
};
use crate::state_store;
use crate::state_store::{
    entry_time, expired, inside, newest_of, sanitized, top_time, JobTree, TreeEntry, DEFAULT_RETAINED_SNAPSHOTS,
};
use crate::text;

verus! {

// ---------------------------------------------------------------------------
// Retention
// ---------------------------------------------------------------------------

/// How much is kept: three checkpoints of a task, and five hundred lines of its log.
pub proof fn law_how_much_is_kept(logs: Seq<Seq<char>>, lines: Seq<Seq<char>>)
    ensures
        MASTER_RETAINED == 3 && DEFAULT_RETAINED_SNAPSHOTS == 3 && TASK_LOG_RETAIN == 500,
        logs.len() + lines.len() <= 500 ==> logs_appended(logs, lines) == logs + lines,
        logs.len() + lines.len() > 500 ==> logs_appended(logs, lines).len() == 500 && logs_appended(
            logs,
            lines,
        ).is_suffix_of(logs + lines),
{
    if logs.len() + lines.len() > 500 {
        assert(logs_appended(logs, lines).is_suffix_of(logs + lines));
    }
}

/// Of a list the last ones are kept, as many as asked for, and those in front of them are
/// the surplus.
pub proof fn law_newest<A>(s: Seq<A>, keep: nat)
    ensures
        s == surplus(s, keep) + newest(s, keep),
        s.len() <= keep ==> newest(s, keep) == s && surplus(s, keep).len() == 0,
        s.len() > keep ==> newest(s, keep).len() == keep,
{
    assert(s =~= surplus(s, keep) + newest(s, keep));
}

/// Checkpoints are sorted by their ids, lowest first, with none lost and none added.
pub proof fn law_sorting<T>(s: Seq<(u64, T)>)
    ensures
        sort_by_id(s).to_multiset() == s.to_multiset(),
        forall|i: int, j: int| 0 <= i < j < sort_by_id(s).len() ==> (#[trigger] sort_by_id(s)[i]).0 <= (#[trigger] sort_by_id(
            s,
        )[j]).0,
{
    retention::lemma_sort_by_id(s);
}

/// The highest id and the latest time: one of them, with none above it.
pub proof fn law_extremes<T>(s: Seq<(u64, T)>, times: Seq<u128>)
    ensures
        highest(s) is None <==> s.len() == 0,
        highest(s) matches Some(h) ==> s.contains(h) && forall|i: int| 0 <= i < s.len() ==> (#[trigger] s[i]).0 <= h.0,
        latest(times) is None <==> times.len() == 0,
        latest(times) matches Some(t) ==> times.contains(t) && forall|i: int| 0 <= i < times.len() ==> #[trigger] times[i]
            <= t,
{
    retention::lemma_highest(s);
    retention::lemma_latest(times);
}

/// What was last touched at least the given time ago is idle.
pub proof fn law_idle(newest: u128, now: u128, ttl: u128)
    ensures
        now >= newest ==> (idle(newest, now, ttl) <==> now - newest >= ttl),
        now < newest ==> (idle(newest, now, ttl) <==> ttl == 0),
{
}

/// A checkpoint's file is called by its id, and files of other names are no checkpoints.
pub proof fn law_checkpoint_files(name: Seq<char>, id: nat)
    ensures
        checkpoint_name(id) == "cp-"@ + text::decimal_text(id) + ".state"@,
        id <= u64::MAX ==> named_checkpoint(checkpoint_name(id)) == Some(id),
        named_checkpoint(name) matches Some(n) ==> exists|digits: Seq<char>|
            name == "cp-"@ + digits + ".state"@ && #[trigger] text::unsigned_number(digits, u64::MAX as nat) == Some(n),
{
    let digits = text::decimal_text(id);
    crate::value_laws::law_parts_of_a_text("cp-"@, digits, ".state"@, name);
    if id <= u64::MAX {
        text::law_decimal_round_trip(id, u64::MAX as nat);
    }
    if named_checkpoint(name) is Some {
        let d = text::between(name, "cp-"@, ".state"@)->0;
        assert(text::unsigned_number(d, u64::MAX as nat) == named_checkpoint(name));
    }
}

/// The checkpoints among some files: each with its id and its place in the list.
pub proof fn law_listed_files(names: Seq<Seq<char>>, e: (u64, usize))
    requires
        names.len() <= usize::MAX,
    ensures
        listed(names).contains(e) <==> e.1 < names.len() && named_checkpoint(names[e.1 as int]) == Some(e.0 as nat),
    decreases names.len(),
{
    let r = listed(names);
    if names.len() == 0 {
        assert(!r.contains(e));
    } else {
        let d = names.drop_last();
        law_listed_files(d, e);
        match named_checkpoint(names.last()) {
            Some(id) => {
                assert(id <= u64::MAX) by {
                    let t = text::between(names.last(), "cp-"@, ".state"@)->0;
                    assert(text::unsigned_number(t, u64::MAX as nat) == Some(id));
                }
                lemma_push_contains(listed(d), (id as u64, (names.len() - 1) as usize), e);
            },
            None => {},
        }
        if e.1 < d.len() {
            assert(d[e.1 as int] == names[e.1 as int]);
        } else if e.1 == d.len() {
            assert(names[e.1 as int] == names.last());
        }
    }
}

// ---------------------------------------------------------------------------
// Checkpoints of tasks
// ---------------------------------------------------------------------------

/// Everything but the checkpoint of one id.
pub proof fn law_without_id<T>(h: Seq<(u64, T)>, id: u64)
    ensures
        without_id(h, id) == h.filter(|e: (u64, T)| e.0 != id),
    decreases h.len(),
{
    reveal(Seq::filter);
    if h.len() > 0 {
        law_without_id(h.drop_last(), id);
    }
}

/// What a history holds after a save: the new checkpoint, in the place of an earlier one
/// of its id, and the others; where that is more than is kept, the oldest ones go.
pub proof fn law_saving(h: History, id: u64, data: Seq<u8>, keep: nat, e: (u64, Seq<u8>))
    ensures
        ({
            let r = history_saved(h, id, data, keep);
            let others = h.filter(|x: (u64, Seq<u8>)| x.0 != id);
            &&& r.contains(e) ==> e == (id, data) || (h.contains(e) && e.0 != id)
            &&& others.len() < keep ==> r.len() == others.len() + 1 && r.contains((id, data)) && (h.contains(e) && e.0 != id
                ==> r.contains(e))
            &&& others.len() >= keep ==> r.len() == keep
            &&& (e == (id, data) || (h.contains(e) && e.0 != id)) && !r.contains(e) ==> forall|k: int|
                0 <= k < r.len() ==> (#[trigger] r[k]).0 >= e.0
            &&& forall|i: int, j: int| 0 <= i < j < r.len() ==> (#[trigger] r[i]).0 <= (#[trigger] r[j]).0
        }),
{
    broadcast use vstd::seq_lib::group_to_multiset_ensures;
    broadcast use vstd::seq_lib::group_filter_ensures;

    law_without_id(h, id);
    let keeps = |x: (u64, Seq<u8>)| x.0 != id;
    let w = h.filter(keeps);
    let p = w.push((id, data));
    let o = sort_by_id(p);
    let r = history_saved(h, id, data, keep);
    law_sorting(p);
    law_newest(o, keep);
    retention::lemma_sort_by_id(p);
    let s = surplus(o, keep);
    assert(r == newest(o, keep));
    assert forall|x: (u64, Seq<u8>)| #[trigger] o.contains(x) <==> x == (id, data) || (h.contains(x) && x.0 != id) by {
        lemma_push_contains(w, (id, data), x);
        lemma_filtered(h, keeps, x);
        assert(o.contains(x) <==> o.to_multiset().count(x) > 0);
        assert(p.contains(x) <==> p.to_multiset().count(x) > 0);
    }
    assert(r.contains(e) ==> o.contains(e)) by {
        if r.contains(e) {
            let k = choose|k: int| 0 <= k < r.len() && r[k] == e;
            assert(o[s.len() + k] == e);
        }
    }
    if o.len() <= keep {
        assert(r == o);
        assert(o.contains((id, data)));
    }
    if o.contains(e) && !r.contains(e) {
        let x = choose|x: int| 0 <= x < o.len() && o[x] == e;
        if x >= s.len() {
            assert(r[x - s.len()] == e);
        }
        assert forall|k: int| 0 <= k < r.len() implies (#[trigger] r[k]).0 >= e.0 by {
            assert(r[k] == o[s.len() + k]);
        }
    }
    assert forall|i: int, j: int| 0 <= i < j < r.len() implies (#[trigger] r[i]).0 <= (#[trigger] r[j]).0 by {
        assert(r[i] == o[s.len() + i]);
        assert(r[j] == o[s.len() + j]);
    }
}

proof fn lemma_filtered<A>(s: Seq<A>, f: spec_fn(A) -> bool, x: A)
    ensures
        s.filter(f).contains(x) <==> s.contains(x) && f(x),
    decreases s.len(),
{
    reveal(Seq::filter);
    if s.len() > 0 {
        let d = s.drop_last();
        lemma_filtered(d, f, x);
        lemma_push_contains(d.filter(f), s.last(), x);
        lemma_push_contains(d, s.last(), x);
        assert(d.push(s.last()) =~= s);
    }
}

/// The history of a task is that of the first row with its job and its name.
pub proof fn law_histories(s: Store, i: int, job: Seq<char>, task: Seq<char>)
    requires
        0 <= i < s.len(),
        s[i].0 == (job, task),
        forall|k: int| 0 <= k < i ==> (#[trigger] s[k]).0 != (job, task),
    ensures
        history_of(s, job, task) == Some(s[i].1),
{
    checkpoint_store::lemma_position_is(s, job, task, i);
}

/// Dropping a job drops its rows, and no others.
pub proof fn law_dropped_rows(s: Store, job: Seq<char>)
    ensures
        store_without_job(s, job) == s.filter(|e: ((Seq<char>, Seq<char>), History)| e.0.0 != job),
    decreases s.len(),
{
    reveal(Seq::filter);
    if s.len() > 0 {
        law_dropped_rows(s.drop_last(), job);
    }
}

/// Whether a row of a store is a job's, with the task and what is listed of it.
pub open spec fn is_row(s: Store, k: int, job: Seq<char>, e: (Seq<char>, Seq<(u64, u64)>)) -> bool {
    &&& 0 <= k < s.len()
    &&& s[k].0 == (job, e.0)
    &&& e.1.len() == s[k].1.len()
    &&& forall|i: int|
        0 <= i < e.1.len() ==> (#[trigger] e.1[i]).0 == s[k].1[i].0 && e.1[i].1 == s[k].1[i].1.len() as u64
}

/// What is listed of a job: the tasks that have a history, in the order of their names,
/// each with the ids of its checkpoints and their sizes.
pub proof fn law_job_listing(s: Store, job: Seq<char>, e: (Seq<char>, Seq<(u64, u64)>))
    ensures
        job_listing(s, job).contains(e) <==> exists|k: int| is_row(s, k, job, e),
        forall|i: int, j: int|
            0 <= i < j < job_listing(s, job).len() ==> !text::before(
                (#[trigger] job_listing(s, job)[j]).0,
                (#[trigger] job_listing(s, job)[i]).0,
            ),
    decreases s.len(),
{
    let r = job_listing(s, job);
    if s.len() == 0 {
        assert(!r.contains(e));
        assert forall|k: int| !is_row(s, k, job, e) by {
        }
    } else {
        let d = s.drop_last();
        law_job_listing(d, job, e);
        let l = s.last();
        let m = (l.0.1, meta_of(l.1));
        if l.0.0 == job {
            lemma_insert_by_name(job_listing(d, job), m, e);
        }
        if exists|k: int| is_row(s, k, job, e) {
            let k = choose|k: int| is_row(s, k, job, e);
            if k < d.len() {
                assert(is_row(d, k, job, e));
            } else {
                assert(s[k] == l);
                assert(e.1 =~= meta_of(l.1));
            }
        }
        if exists|k: int| is_row(d, k, job, e) {
            let k = choose|k: int| is_row(d, k, job, e);
            assert(is_row(s, k, job, e));
        }
        if l.0.0 == job && e == m {
            assert(is_row(s, s.len() - 1, job, e));
        }
    }
}

proof fn lemma_insert_by_name<T>(s: Seq<(Seq<char>, T)>, e: (Seq<char>, T), x: (Seq<char>, T))
    requires
        forall|i: int, j: int| 0 <= i < j < s.len() ==> !text::before((#[trigger] s[j]).0, (#[trigger] s[i]).0),
    ensures
        insert_by_name(s, e).contains(x) <==> x == e || s.contains(x),
        forall|i: int, j: int|
            0 <= i < j < insert_by_name(s, e).len() ==> !text::before(
                (#[trigger] insert_by_name(s, e)[j]).0,
                (#[trigger] insert_by_name(s, e)[i]).0,
            ),
    decreases s.len(),
{
    let r = insert_by_name(s, e);
    if s.len() == 0 {
        assert(r =~= s.push(e));
        lemma_push_contains(s, e, x);
    } else if !text::before(e.0, s.last().0) {
        lemma_push_contains(s, e, x);
        assert forall|i: int, j: int| 0 <= i < j < r.len() implies !text::before((#[trigger] r[j]).0, (#[trigger] r[i]).0) by {
            if j == s.len() {
                if i < s.len() - 1 {
                    assert(!text::before(s[s.len() - 1].0, s[i].0));
                    text::lemma_not_before_transitive(s[i].0, s.last().0, e.0);
                }
            } else {
                assert(!text::before(s[j].0, s[i].0));
            }
        }
    } else {
        let d = s.drop_last();
        assert forall|i: int, j: int| 0 <= i < j < d.len() implies !text::before((#[trigger] d[j]).0, (#[trigger] d[i]).0) by {
            assert(!text::before(s[j].0, s[i].0));
        }
        lemma_insert_by_name(d, e, x);
        let q = insert_by_name(d, e);
        lemma_push_contains(q, s.last(), x);
        lemma_push_contains(d, s.last(), x);
        assert(d.push(s.last()) =~= s);
        assert forall|i: int, j: int| 0 <= i < j < r.len() implies !text::before((#[trigger] r[j]).0, (#[trigger] r[i]).0) by {
            if j == q.len() {
                lemma_insert_by_name(d, e, q[i]);
                assert(q.contains(q[i]));
                if q[i] == e {
                    text::lemma_before_total(e.0, s.last().0);
                } else {
                    let k = choose|k: int| 0 <= k < d.len() && d[k] == q[i];
                    assert(!text::before(s[s.len() - 1].0, s[k].0));
                }
            } else {
                assert(!text::before(q[j].0, q[i].0));
            }
        }
    }
}

// ---------------------------------------------------------------------------
// Files and objects
// ---------------------------------------------------------------------------

/// A name is made fit for a file: letters, digits, dashes, underscores and dots stay, and
/// every other character is written as an underscore.
pub proof fn law_file_names(s: Seq<char>, i: int)
    requires
        0 <= i < s.len(),
    ensures
        sanitized(s).len() == s.len(),
        ({
            let c = s[i];
            let stays = 'a' as u32 <= c as u32 <= 'z' as u32 || 'A' as u32 <= c as u32 <= 'Z' as u32 || '0' as u32 <= c as u32
                <= '9' as u32 || c == '-' || c == '_' || c == '.';
            &&& stays ==> sanitized(s)[i] == c
            &&& !stays ==> sanitized(s)[i] == '_'
        }),
{
}

/// A name inside a directory: behind a slash, which is written once.
pub proof fn law_inside(dir: Seq<char>, name: Seq<char>)
    ensures
        dir.len() == 0 ==> inside(dir, name) == name,
        dir.len() > 0 && dir.last() == '/' ==> inside(dir, name) == dir + name,
        dir.len() > 0 && dir.last() != '/' ==> inside(dir, name) == dir + "/"@ + name,
        under(dir, name) == dir + "/"@ + name,
        relative_to(dir, dir + "/"@ + name) == name,
        !(dir + "/"@).is_prefix_of(name) ==> relative_to(dir, name) == name,
{
    let p = dir + "/"@;
    crate::value_laws::law_parts_of_a_text(p, name, Seq::empty(), name);
    assert((p + name).skip(p.len() as int) =~= name);
    assert(text::has_prefix(p + name, p));
    if text::has_prefix(name, p) {
        assert(p.is_prefix_of(name));
    }
}

/// The directories of a local store: one for each job below its root, and one for each of
/// the job's tasks below that.
pub proof fn law_directories(store: state_store::LocalStateStore, job: Seq<char>, task: Seq<char>)
    ensures
        store.job_path(job) == inside(store.root_path(), sanitized(job)),
        store.task_path(job, task) == inside(inside(store.root_path(), sanitized(job)), sanitized(task)),
{
}

/// The jobs of an object store are the first segments of what lies below its root, each
/// once and none of them empty.
pub proof fn law_jobs_of_a_store(root: Seq<char>, locations: Seq<Seq<char>>, job: Seq<char>)
    ensures
        first_segments(root, locations).no_duplicates(),
        first_segments(root, locations).contains(job) <==> job.len() > 0 && exists|k: int|
            0 <= k < locations.len() && text::split_text(relative_to(root, #[trigger] locations[k]), '/')[0] == job,
    decreases locations.len(),
{
    let r = first_segments(root, locations);
    if locations.len() == 0 {
        assert(!r.contains(job));
    } else {
        let d = locations.drop_last();
        let j = text::split_text(relative_to(root, locations.last()), '/')[0];
        law_jobs_of_a_store(root, d, job);
        law_jobs_of_a_store(root, d, j);
        let h = first_segments(root, d);
        lemma_push_contains(h, j, job);
        if r != h {
            assert(r == h.push(j));
            assert forall|a: int, b: int| 0 <= a < r.len() && 0 <= b < r.len() && a != b implies r[a] != r[b] by {
                if a < h.len() && b < h.len() {
                    assert(h[a] != h[b]);
                } else if a < h.len() {
                    assert(h.contains(h[a]));
                } else {
                    assert(h.contains(h[b]));
                }
            }
        }
        if job.len() > 0 && exists|k: int|
            0 <= k < d.len() && text::split_text(relative_to(root, #[trigger] d[k]), '/')[0] == job {
            let k = choose|k: int|
                0 <= k < d.len() && text::split_text(relative_to(root, #[trigger] d[k]), '/')[0] == job;
            assert(locations[k] == d[k]);
        }
        if job.len() > 0 && exists|k: int|
            0 <= k < locations.len() && text::split_text(relative_to(root, #[trigger] locations[k]), '/')[0] == job {
            let k = choose|k: int|
                0 <= k < locations.len() && text::split_text(relative_to(root, #[trigger] locations[k]), '/')[0] == job;
            if k < d.len() {
                assert(d[k] == locations[k]);
            } else {
                assert(locations[k] == locations.last());
            }
        }
        assert(locations[locations.len() - 1] == locations.last());
    }
}

/// The time of a file is its own, and that of a directory the latest below it.
pub proof fn law_times_of_files(v: Seq<TreeEntry>, t: u128, dir: Vec<TreeEntry>)
    ensures
        entry_time(TreeEntry::File(t)) == t,
        entry_time(TreeEntry::Dir(dir)) == top_time(dir@),
        forall|k: int| 0 <= k < v.len() ==> entry_time(#[trigger] v[k]) <= top_time(v),
        top_time(v) > 0 ==> exists|k: int| 0 <= k < v.len() && entry_time(#[trigger] v[k]) == top_time(v),
        newest_of(v) is None <==> top_time(v) == 0,
        newest_of(v) matches Some(n) ==> n == top_time(v),
    decreases v.len(),
{
    if v.len() > 0 {
        let d = v.drop_last();
        law_times_of_files(d, t, dir);
        assert forall|k: int| 0 <= k < v.len() implies entry_time(#[trigger] v[k]) <= top_time(v) by {
            if k < d.len() {
                assert(d[k] == v[k]);
            }
        }
        if top_time(v) > 0 {
            if entry_time(v.last()) == top_time(v) {
                assert(v[v.len() - 1] == v.last());
            } else {
                let k = choose|k: int| 0 <= k < d.len() && entry_time(#[trigger] d[k]) == top_time(d);
                assert(v[k] == d[k]);
            }
        }
    }
}

/// A job's directory has expired when no file in it was touched within the time to live,
/// or when there is none. An object store's job without objects has not expired.
pub proof fn law_expiry(entries: Seq<TreeEntry>, modified: Seq<u128>, now: u128, ttl: u128)
    ensures
        newest_of(entries) is None ==> expired(entries, now, ttl),
        newest_of(entries) matches Some(t) ==> (now >= t ==> (expired(entries, now, ttl) <==> now - t >= ttl)),
        modified.len() == 0 ==> !checkpoint_store::job_expired(modified, now, ttl),
        latest(modified) matches Some(t) ==> (now >= t ==> (checkpoint_store::job_expired(modified, now, ttl) <==> now - t
            >= ttl)),
{
    retention::lemma_latest(modified);
}

/// The expired jobs, in their order.
pub proof fn law_expired_jobs(jobs: Seq<JobTree>, stored: Seq<(String, Vec<u128>)>, now: u128, ttl: u128)
    ensures
        state_store::expired_jobs(jobs, now, ttl) == jobs.filter(
            |j: JobTree| expired(j.entries@, now, ttl),
        ).map_values(|j: JobTree| j.name@),
        checkpoint_store::expired_jobs(stored, now, ttl) == stored.filter(
            |j: (String, Vec<u128>)| checkpoint_store::job_expired(j.1@, now, ttl),
        ).map_values(|j: (String, Vec<u128>)| j.0@),
    decreases jobs.len() + stored.len(),
{
    reveal(Seq::filter);
    if jobs.len() > 0 {
        law_expired_jobs(jobs.drop_last(), stored, now, ttl);
    }
    if stored.len() > 0 {
        law_expired_jobs(jobs, stored.drop_last(), now, ttl);
    }
    assert(state_store::expired_jobs(jobs, now, ttl) =~= jobs.filter(
        |j: JobTree| expired(j.entries@, now, ttl),
    ).map_values(|j: JobTree| j.name@));
    assert(checkpoint_store::expired_jobs(stored, now, ttl) =~= stored.filter(
        |j: (String, Vec<u128>)| checkpoint_store::job_expired(j.1@, now, ttl),
    ).map_values(|j: (String, Vec<u128>)| j.0@));
}

// ---------------------------------------------------------------------------
// Snapshots
// ---------------------------------------------------------------------------

/// A snapshot holds what a master knows of its jobs, its plan and its checkpoints.
pub proof fn law_snapshots(c: CoordinatorV, k: int, x: int, d: int)
    requires
        0 <= k < c.jobs.len(),
        0 <= x < c.jobs[k].tasks.len(),
        0 <= d < c.tasks.len(),
    ensures
        ({
            let s = exported(c);
            let j = c.jobs[k];
            let r = s.jobs->0[k];
            let t = r.tasks[x];
            let p = s.tasks->0[d];
            &&& s.term == Some(c.term) && s.checkpoints == Some(c.store)
            &&& s.jobs is Some && s.jobs->0.len() == c.jobs.len()
            &&& s.tasks is Some && s.tasks->0.len() == c.tasks.len()
            &&& r.job_id == j.job_id && r.job_name == j.job_name && r.state == j.state.wire()
            &&& r.parallelism == j.parallelism && r.start_time == j.start_time && r.end_time == j.end_time
            &&& r.error_message == j.error_message && r.checkpoint_interval_ms == j.checkpoint_interval_ms
            &&& r.checkpoints_completed == j.checkpoints_completed && r.next_checkpoint_id == j.next_checkpoint_id
            &&& r.raw_config == j.raw_config && r.tasks.len() == j.tasks.len()
            &&& t.task_id == j.tasks[x].task_id && t.stage_id == j.tasks[x].stage_id
            &&& t.worker_id == j.tasks[x].worker_id && t.state == j.tasks[x].state.wire()
            &&& t.processed_records == j.tasks[x].processed_records && t.error == j.tasks[x].error
            &&& p.task_id == Some(c.tasks[d].task_id) && p.job_id == Some(c.tasks[d].job_id)
            &&& p.stage_id == Some(c.tasks[d].stage_id) && p.task_name == Some(c.tasks[d].task_name)
            &&& p.task_index matches Some(n) && n == c.tasks[d].task_index
            &&& p.parallelism matches Some(n) && n == c.tasks[d].parallelism
            &&& p.config == Some(c.tasks[d].config)
        }),
{
}

/// A job that a master learns of by a snapshot is as the snapshot says; its checkpoints
/// have not been triggered here yet. One that it knows keeps everything but the next id of
/// a checkpoint, which is the higher one.
pub proof fn law_learnt_jobs(jobs: Seq<JobV>, r: JobRecordV)
    ensures
        ({
            let m = merge_job(jobs, r);
            &&& index_of(jobs, r.job_id) is None ==> {
                let j = m.last();
                &&& m.len() == jobs.len() + 1 && jobs.is_prefix_of(m)
                &&& j.job_id == r.job_id && j.job_name == r.job_name && j.state == state_of_wire(r.state)
                &&& j.parallelism == r.parallelism && j.start_time == r.start_time && j.end_time == r.end_time
                &&& j.error_message == r.error_message && j.checkpoint_interval_ms == r.checkpoint_interval_ms
                &&& j.checkpoints_completed == r.checkpoints_completed && j.next_checkpoint_id == r.next_checkpoint_id
                &&& j.raw_config == r.raw_config && j.last_checkpoint_trigger_ms == 0
            }
            &&& index_of(jobs, r.job_id) matches Some(i) ==> {
                let j = m[i];
                &&& m == jobs.update(i, j)
                &&& j == (JobV { next_checkpoint_id: j.next_checkpoint_id, ..jobs[i] })
                &&& j.next_checkpoint_id >= jobs[i].next_checkpoint_id && j.next_checkpoint_id >= r.next_checkpoint_id
                &&& j.next_checkpoint_id == jobs[i].next_checkpoint_id || j.next_checkpoint_id == r.next_checkpoint_id
            }
        }),
{
    keyed::lemma_index_of(jobs, r.job_id);
    if index_of(jobs, r.job_id) is None {
        assert(jobs.is_prefix_of(merge_job(jobs, r)));
    }
}

/// A task that a master learns of: what the snapshot says of it, and nothing else yet.
pub proof fn law_learnt_tasks(r: JobRecordV, x: int)
    requires
        0 <= x < r.tasks.len(),
        forall|a: int, b: int| 0 <= a < b < r.tasks.len() ==> (#[trigger] r.tasks[a]).task_id != (#[trigger] r.tasks[b]).task_id,
    ensures
        ({
            let j = imported_job(r);
            let t = j.tasks[x];
            &&& j.tasks.len() == r.tasks.len()
            &&& t.task_id == r.tasks[x].task_id && t.stage_id == r.tasks[x].stage_id && t.worker_id == r.tasks[x].worker_id
            &&& t.state == state_of_wire(r.tasks[x].state) && t.processed_records == r.tasks[x].processed_records
            &&& t.error == r.tasks[x].error
            &&& t.last_record_at == 0 && t.last_checkpoint_id == 0 && t.last_checkpoint_size == 0 && t.logs.len() == 0
            &&& t.sink_metrics is None
        }),
{
    let m = r.tasks.map_values(|t: TaskStatusV| imported_task(t));
    assert forall|a: int, b: int| 0 <= a < b < m.len() implies (#[trigger] m[a]).name() != (#[trigger] m[b]).name() by {
        assert(r.tasks[a].task_id != r.tasks[b].task_id);
    }
    lemma_put_apart(m);
}

proof fn lemma_put_apart(m: Seq<TaskV>)
    requires
        forall|a: int, b: int| 0 <= a < b < m.len() ==> (#[trigger] m[a]).name() != (#[trigger] m[b]).name(),
    ensures
        put_all(Seq::empty(), m) == m,
    decreases m.len(),
{
    if m.len() > 0 {
        let d = m.drop_last();
        assert forall|a: int, b: int| 0 <= a < b < d.len() implies (#[trigger] d[a]).name() != (#[trigger] d[b]).name() by {
            assert(m[a].name() != m[b].name());
        }
        lemma_put_apart(d);
        keyed::lemma_index_of(d, m.last().name());
        match index_of(d, m.last().name()) {
            Some(i) => {
                assert(m[i].name() != m[m.len() - 1].name());
            },
            None => {},
        }
        assert(d.push(m.last()) =~= m);
    }
}

/// A part of the plan that a snapshot holds is taken when its task is named, its settings
/// are there, and it is not known yet. What the snapshot leaves out is empty, its index is
/// zero and its parallelism one.
pub proof fn law_learnt_plan(tasks: Seq<DescriptorV>, r: DescriptorRecordV)
    requires
        r.task_index matches Some(i) ==> i32::MIN <= i <= i32::MAX,
        r.parallelism matches Some(i) ==> i32::MIN <= i <= i32::MAX,
    ensures
        ({
            let m = merge_descriptor(tasks, r);
            &&& r.task_id is None || r.config is None ==> m == tasks
            &&& r.task_id matches Some(id) ==> index_of(tasks, id) is Some ==> m == tasks
            &&& r.task_id is Some && r.config is Some && index_of(tasks, r.task_id->0) is None ==> {
                let d = m.last();
                &&& m.len() == tasks.len() + 1 && tasks.is_prefix_of(m)
                &&& d.task_id == r.task_id->0 && d.config == r.config->0
                &&& r.job_id is None ==> d.job_id.len() == 0
                &&& r.job_id is Some ==> d.job_id == r.job_id->0
                &&& r.stage_id is None ==> d.stage_id.len() == 0
                &&& r.stage_id is Some ==> d.stage_id == r.stage_id->0
                &&& r.task_name is None ==> d.task_name.len() == 0
                &&& r.task_name is Some ==> d.task_name == r.task_name->0
                &&& r.task_index is None ==> d.task_index == 0
                &&& r.task_index is Some ==> d.task_index == r.task_index->0
                &&& r.parallelism is None ==> d.parallelism == 1
                &&& r.parallelism is Some ==> d.parallelism == r.parallelism->0
                &&& d.source_config_json.len() == 0 && d.sink_config_json.len() == 0
            }
        }),
{
    let m = merge_descriptor(tasks, r);
    if m != tasks {
        assert(tasks.is_prefix_of(m));
    }
}

/// Lists are learnt of one entry after the other, and a snapshot without jobs tells only
/// of a term.
pub proof fn law_learning(
    c: CoordinatorV,
    s: SnapshotV,
    jobs: Seq<JobV>,
    rs: Seq<JobRecordV>,
    r: JobRecordV,
    tasks: Seq<DescriptorV>,
    ds: Seq<DescriptorRecordV>,
    d: DescriptorRecordV,
)
    ensures
        merge_jobs(jobs, Seq::empty()) == jobs,
        merge_jobs(jobs, rs.push(r)) == merge_job(merge_jobs(jobs, rs), r),
        merge_descriptors(tasks, Seq::empty()) == tasks,
        merge_descriptors(tasks, ds.push(d)) == merge_descriptor(merge_descriptors(tasks, ds), d),
        ({
            let m = merged(c, s);
            &&& s.term is None ==> m.term == c.term
            &&& s.term matches Some(t) ==> (t > c.term ==> m.term == t) && (t <= c.term ==> m.term == c.term)
            &&& s.jobs is None ==> m.jobs == c.jobs && m.tasks == c.tasks && m.store == c.store
            &&& s.jobs is Some ==> m.jobs == merge_jobs(c.jobs, s.jobs->0)
            &&& s.jobs is Some && s.tasks is None ==> m.tasks == c.tasks
            &&& s.jobs is Some && s.tasks is Some ==> m.tasks == merge_descriptors(c.tasks, s.tasks->0)
            &&& s.jobs is Some && s.checkpoints is None ==> m.store == c.store
            &&& s.jobs is Some && s.checkpoints is Some ==> m.store == store_merged(c.store, s.checkpoints->0)
            &&& m.pending == c.pending && m.outbox == c.outbox && m.keep == c.keep
        }),
{
    assert(rs.push(r).drop_last() =~= rs);
    assert(ds.push(d).drop_last() =~= ds);
}

} // verus!
