//! Shared checkpoint stores: the master's in-memory store with bounded
//! retention, and the layout and clean-up rules of the object store.
//!
//! Layout of both: `<root>/<job_id>/<task_id>/cp-<id>.state`.

use vstd::prelude::*;

use crate::retention;
use crate::retention::{insert_by_id, newest, sort_by_id};
use crate::state_store::is_plain;
use crate::text;

verus! {

// ---------------------------------------------------------------------------
// The master's store
// ---------------------------------------------------------------------------

/// One task's checkpoint history (newest last).
#[derive(Debug)]
pub struct TaskCheckpoints {
    pub entries: Vec<(u64, Vec<u8>)>,
}

/// Metadata of a single retained checkpoint (id and size, no payload).
#[derive(Debug, Clone, Copy)]
pub struct CheckpointMetaEntry {
    pub checkpoint_id: u64,
    pub size_bytes: u64,
}

/// Checkpoint metadata of one task, for read-only listings.
#[derive(Debug)]
pub struct TaskCheckpointMeta {
    pub task_id: String,
    pub entries: Vec<CheckpointMetaEntry>,
}

/// Checkpoint ids with what was saved under them.
pub type History = Seq<(u64, Seq<u8>)>;

/// Histories by job and task.
pub type Store = Seq<((Seq<char>, Seq<char>), History)>;

/// A history entry with its payload as bytes.
pub open spec fn entry_view(e: (u64, Vec<u8>)) -> (u64, Seq<u8>) {
    (e.0, e.1@)
}

/// The bytes behind a list of history entries.
pub open spec fn history_view(v: Seq<(u64, Vec<u8>)>) -> History {
    v.map_values(|e: (u64, Vec<u8>)| entry_view(e))
}

impl View for TaskCheckpoints {
    type V = History;

    open spec fn view(&self) -> History {
        history_view(self.entries@)
    }
}

/// `h` without the entries of checkpoint `id`.
pub open spec fn without_id<T>(h: Seq<(u64, T)>, id: u64) -> Seq<(u64, T)>
    decreases h.len(),
{
    if h.len() == 0 {
        h
    } else {
        let head = without_id(h.drop_last(), id);
        if h.last().0 == id {
            head
        } else {
            head.push(h.last())
        }
    }
}

/// A history after `data` was saved as checkpoint `id` and the oldest entries
/// beyond `keep` were dropped.
pub open spec fn history_saved(h: History, id: u64, data: Seq<u8>, keep: nat) -> History {
    newest(sort_by_id(without_id(h, id).push((id, data))), keep)
}

/// The position of a task's history.
pub open spec fn position(s: Store, job: Seq<char>, task: Seq<char>) -> Option<int>
    decreases s.len(),
{
    if s.len() == 0 {
        None
    } else {
        match position(s.drop_last(), job, task) {
            Some(i) => Some(i),
            None => if s.last().0 == (job, task) { Some(s.len() - 1) } else { None },
        }
    }
}

/// A task's history.
pub open spec fn history_of(s: Store, job: Seq<char>, task: Seq<char>) -> Option<History> {
    match position(s, job, task) {
        Some(i) => Some(s[i].1),
        None => None,
    }
}

/// A store after one save.
pub open spec fn store_saved(
    s: Store,
    job: Seq<char>,
    task: Seq<char>,
    id: u64,
    data: Seq<u8>,
    keep: nat,
) -> Store {
    match position(s, job, task) {
        Some(i) => s.update(i, (s[i].0, history_saved(s[i].1, id, data, keep))),
        None => s.push(((job, task), history_saved(Seq::empty(), id, data, keep))),
    }
}

/// A store without the histories of one job.
pub open spec fn store_without_job(s: Store, job: Seq<char>) -> Store
    decreases s.len(),
{
    if s.len() == 0 {
        s
    } else {
        let head = store_without_job(s.drop_last(), job);
        if s.last().0.0 == job {
            head
        } else {
            head.push(s.last())
        }
    }
}

/// A store after a snapshot filled its gaps.
pub open spec fn store_merged(s: Store, snapshot: Store) -> Store
    decreases snapshot.len(),
{
    if snapshot.len() == 0 {
        s
    } else {
        let head = store_merged(s, snapshot.drop_last());
        let e = snapshot.last();
        if position(head, e.0.0, e.0.1) is Some {
            head
        } else {
            head.push(e)
        }
    }
}

/// Where `position` points.
pub proof fn lemma_position(s: Store, job: Seq<char>, task: Seq<char>)
    ensures
        match position(s, job, task) {
            Some(i) => 0 <= i < s.len() && s[i].0 == (job, task) && (forall|k: int|
                0 <= k < i ==> (#[trigger] s[k]).0 != (job, task)),
            None => forall|k: int| 0 <= k < s.len() ==> (#[trigger] s[k]).0 != (job, task),
        },
    decreases s.len(),
{
    if s.len() > 0 {
        lemma_position(s.drop_last(), job, task);
        match position(s.drop_last(), job, task) {
            Some(i) => {
                assert forall|k: int| 0 <= k < i implies (#[trigger] s[k]).0 != (job, task) by {
                    assert(s.drop_last()[k] == s[k]);
                }
            },
            None => {
                assert forall|k: int| 0 <= k < s.len() - 1 implies (#[trigger] s[k]).0 != (job, task) by {
                    assert(s.drop_last()[k] == s[k]);
                }
            },
        }
    }
}

/// The first position with a given key is where `position` points.
pub proof fn lemma_position_is(s: Store, job: Seq<char>, task: Seq<char>, i: int)
    requires
        0 <= i < s.len(),
        s[i].0 == (job, task),
        forall|k: int| 0 <= k < i ==> (#[trigger] s[k]).0 != (job, task),
    ensures
        position(s, job, task) == Some(i),
{
    lemma_position(s, job, task);
}

/// One task's row in the store.
#[derive(Debug)]
struct StoreRow {
    job_id: String,
    task_id: String,
    entries: Vec<(u64, Vec<u8>)>,
}

/// The master's in-memory store with bounded retention per task.
#[derive(Debug)]
pub struct MasterCheckpointStore {
    rows: Vec<StoreRow>,
    retained: usize,
}

spec fn row_view(r: StoreRow) -> ((Seq<char>, Seq<char>), History) {
    ((r.job_id@, r.task_id@), history_view(r.entries@))
}

spec fn rows_view(v: Seq<StoreRow>) -> Store {
    v.map_values(|r: StoreRow| row_view(r))
}

/// The key and history of one snapshot entry.
pub open spec fn exported_view(e: ((String, String), TaskCheckpoints)) -> ((Seq<char>, Seq<char>), History) {
    ((e.0.0@, e.0.1@), e.1@)
}

/// The store that a snapshot describes.
pub open spec fn snapshot_view(v: Seq<((String, String), TaskCheckpoints)>) -> Store {
    v.map_values(|e: ((String, String), TaskCheckpoints)| exported_view(e))
}

impl View for MasterCheckpointStore {
    type V = Store;

    closed spec fn view(&self) -> Store {
        rows_view(self.rows@)
    }
}

fn drop_id(entries: Vec<(u64, Vec<u8>)>, id: u64) -> (r: Vec<(u64, Vec<u8>)>)
    ensures
        r@ == without_id(entries@, id),
{
    let ghost all = entries@;
    let mut entries = entries;
    let mut out: Vec<(u64, Vec<u8>)> = Vec::new();
    proof {
        assert(all.take(0) =~= Seq::empty());
        assert(out@ =~= without_id(all.take(0), id));
    }
    while entries.len() > 0
        invariant
            entries@.len() <= all.len(),
            entries@ == all.skip(all.len() - entries@.len()),
            out@ == without_id(all.take(all.len() - entries@.len()), id),
        decreases entries@.len(),
    {
        let ghost done = all.len() - entries@.len();
        let e = entries.remove(0);
        proof {
            assert(e == all[done]);
            assert(all.take(done + 1).drop_last() =~= all.take(done));
            assert(all.take(done + 1).last() == e);
            assert(entries@ =~= all.skip(done + 1));
        }
        if e.0 != id {
            out.push(e);
        }
    }
    proof {
        assert(all.take(all.len() as int) =~= all);
    }
    out
}

proof fn lemma_without_id_view(v: Seq<(u64, Vec<u8>)>, id: u64)
    ensures
        history_view(without_id(v, id)) == without_id(history_view(v), id),
    decreases v.len(),
{
    if v.len() == 0 {
        assert(history_view(v) =~= Seq::empty());
        assert(history_view(without_id(v, id)) =~= without_id(history_view(v), id));
    } else {
        lemma_without_id_view(v.drop_last(), id);
        assert(history_view(v).drop_last() =~= history_view(v.drop_last()));
        if v.last().0 != id {
            assert(history_view(without_id(v, id)) =~= history_view(without_id(v.drop_last(), id)).push(
                entry_view(v.last()),
            ));
        }
    }
}

fn saved_entries(entries: Vec<(u64, Vec<u8>)>, id: u64, data: Vec<u8>, keep: usize) -> (r: Vec<(u64, Vec<u8>)>)
    ensures
        history_view(r@) == history_saved(history_view(entries@), id, data@, keep as nat),
{
    let ghost h = entries@;
    let ghost payload = data@;
    let mut rest = drop_id(entries, id);
    let ghost kept = rest@;
    rest.push((id, data));
    let ghost pushed = rest@;
    let sorted = retention::sorted_by_id(rest);
    let (_gone, out) = retention::split_newest(sorted, keep);
    proof {
        let f = |e: (u64, Vec<u8>)| entry_view(e);
        lemma_without_id_view(h, id);
        assert(history_view(pushed) =~= history_view(kept).push((id, payload)));
        retention::lemma_sort_map(pushed, f);
        assert(history_view(sorted@) == sort_by_id(history_view(pushed)));
        assert(history_view(out@) =~= newest(history_view(sorted@), keep as nat));
    }
    out
}

fn copy_bytes(data: &Vec<u8>) -> (r: Vec<u8>)
    ensures
        r@ == data@,
{
    let mut out: Vec<u8> = Vec::new();
    let mut i: usize = 0;
    while i < data.len()
        invariant
            i <= data@.len(),
            out@ == data@.take(i as int),
        decreases data@.len() - i,
    {
        out.push(data[i]);
        proof {
            assert(data@.take(i + 1) =~= data@.take(i as int).push(data@[i as int]));
        }
        i += 1;
    }
    assert(data@.take(data@.len() as int) =~= data@);
    out
}

/// The bytes of a slice.
pub fn bytes_of(data: &[u8]) -> (r: Vec<u8>)
    ensures
        r@ == data@,
{
    let mut out: Vec<u8> = Vec::new();
    let mut i: usize = 0;
    while i < data.len()
        invariant
            i <= data@.len(),
            out@ == data@.take(i as int),
        decreases data@.len() - i,
    {
        out.push(data[i]);
        proof {
            assert(data@.take(i + 1) =~= data@.take(i as int).push(data@[i as int]));
        }
        i += 1;
    }
    assert(data@.take(data@.len() as int) =~= data@);
    out
}

fn copy_entries(entries: &Vec<(u64, Vec<u8>)>) -> (r: Vec<(u64, Vec<u8>)>)
    ensures
        history_view(r@) == history_view(entries@),
{
    let mut out: Vec<(u64, Vec<u8>)> = Vec::new();
    let mut i: usize = 0;
    while i < entries.len()
        invariant
            i <= entries@.len(),
            out@.len() == i,
            forall|k: int| 0 <= k < i ==> entry_view(#[trigger] out@[k]) == entry_view(entries@[k]),
        decreases entries@.len() - i,
    {
        let id: u64 = entries[i].0;
        let data = copy_bytes(&entries[i].1);
        out.push((id, data));
        i += 1;
    }
    assert(history_view(out@) =~= history_view(entries@));
    out
}

impl TaskCheckpoints {
    /// A copy.
    pub fn copy(&self) -> (r: Self)
        ensures
            r@ == self@,
    {
        TaskCheckpoints { entries: copy_entries(&self.entries) }
    }
}

/// Id and size of each entry of a history.
pub open spec fn meta_of(h: History) -> Seq<(u64, u64)> {
    h.map_values(|e: (u64, Seq<u8>)| (e.0, e.1.len() as u64))
}

/// The ids and sizes behind a list of metadata entries.
pub open spec fn meta_view(v: Seq<CheckpointMetaEntry>) -> Seq<(u64, u64)> {
    v.map_values(|e: CheckpointMetaEntry| (e.checkpoint_id, e.size_bytes))
}

/// The tasks and metadata behind a listing.
pub open spec fn listing_view(v: Seq<TaskCheckpointMeta>) -> Seq<(Seq<char>, Seq<(u64, u64)>)> {
    v.map_values(|m: TaskCheckpointMeta| (m.task_id@, meta_view(m.entries@)))
}

/// `s` with `e` inserted behind the last item whose name does not come after its own.
pub open spec fn insert_by_name<T>(s: Seq<(Seq<char>, T)>, e: (Seq<char>, T)) -> Seq<(Seq<char>, T)>
    decreases s.len(),
{
    if s.len() == 0 {
        seq![e]
    } else if !text::before(e.0, s.last().0) {
        s.push(e)
    } else {
        insert_by_name(s.drop_last(), e).push(s.last())
    }
}

/// The metadata of a job's tasks in the order of the task ids.
pub open spec fn job_listing(s: Store, job: Seq<char>) -> Seq<(Seq<char>, Seq<(u64, u64)>)>
    decreases s.len(),
{
    if s.len() == 0 {
        Seq::empty()
    } else {
        let head = job_listing(s.drop_last(), job);
        if s.last().0.0 == job {
            insert_by_name(head, (s.last().0.1, meta_of(s.last().1)))
        } else {
            head
        }
    }
}

fn entry_meta(entries: &Vec<(u64, Vec<u8>)>) -> (r: Vec<CheckpointMetaEntry>)
    ensures
        meta_view(r@) == meta_of(history_view(entries@)),
{
    let mut out: Vec<CheckpointMetaEntry> = Vec::new();
    let mut i: usize = 0;
    while i < entries.len()
        invariant
            i <= entries@.len(),
            out@.len() == i,
            forall|k: int|
                0 <= k < i ==> (#[trigger] out@[k]).checkpoint_id == entries@[k].0 && out@[k].size_bytes
                    == entries@[k].1@.len(),
        decreases entries@.len() - i,
    {
        let n: usize = entries[i].1.len();
        out.push(CheckpointMetaEntry { checkpoint_id: entries[i].0, size_bytes: n as u64 });
        i += 1;
    }
    assert(meta_view(out@) =~= meta_of(history_view(entries@)));
    out
}

fn insert_listing(out: &mut Vec<TaskCheckpointMeta>, e: TaskCheckpointMeta)
    ensures
        listing_view(final(out)@) == insert_by_name(listing_view(old(out)@), (e.task_id@, meta_view(e.entries@))),
{
    let ghost o = listing_view(out@);
    let ghost x = (e.task_id@, meta_view(e.entries@));
    let mut pos: usize = out.len();
    proof {
        assert(o.take(o.len() as int) =~= o);
        assert(insert_by_name(o, x) + o.skip(o.len() as int) =~= insert_by_name(o, x));
    }
    while pos > 0 && text::is_before(e.task_id.as_str(), out[pos - 1].task_id.as_str())
        invariant
            pos <= out@.len(),
            o == listing_view(out@),
            x == (e.task_id@, meta_view(e.entries@)),
            insert_by_name(o, x) == insert_by_name(o.take(pos as int), x) + o.skip(pos as int),
        decreases pos,
    {
        proof {
            let t = o.take(pos as int);
            assert(t.drop_last() =~= o.take(pos - 1));
            assert(t.last() == o[pos - 1]);
            assert(insert_by_name(t.drop_last(), x).push(t.last()) + o.skip(pos as int) =~= insert_by_name(
                o.take(pos - 1),
                x,
            ) + o.skip(pos - 1));
        }
        pos -= 1;
    }
    proof {
        let t = o.take(pos as int);
        if pos > 0 {
            assert(t.last() == o[pos - 1]);
            assert(insert_by_name(t, x) == t.push(x));
        } else {
            assert(insert_by_name(t, x) =~= t.push(x));
        }
    }
    out.insert(pos, e);
    proof {
        assert(listing_view(out@) =~= o.take(pos as int).push(x) + o.skip(pos as int));
    }
}

impl MasterCheckpointStore {
    /// How many checkpoints of one task are kept.
    pub closed spec fn keep(&self) -> nat {
        self.retained as nat
    }

    /// An empty store that keeps `retained` checkpoints per task, at least one.
    pub fn new(retained: usize) -> (r: Self)
        ensures
            r@ == Seq::<((Seq<char>, Seq<char>), History)>::empty(),
            r.keep() == if retained == 0 { 1 } else { retained as nat },
    {
        let keep: usize = if retained == 0 { 1 } else { retained };
        let r = MasterCheckpointStore { rows: Vec::new(), retained: keep };
        assert(r@ =~= Seq::<((Seq<char>, Seq<char>), History)>::empty());
        r
    }

    fn find(&self, job_id: &str, task_id: &str) -> (r: Option<usize>)
        ensures
            match r {
                Some(i) => position(self@, job_id@, task_id@) == Some(i as int) && i < self.rows@.len(),
                None => position(self@, job_id@, task_id@) is None,
            },
    {
        let ghost s = self@;
        let mut i: usize = 0;
        while i < self.rows.len()
            invariant
                i <= self.rows@.len(),
                s == rows_view(self.rows@),
                forall|k: int| 0 <= k < i ==> (#[trigger] s[k]).0 != (job_id@, task_id@),
            decreases self.rows@.len() - i,
        {
            assert(s[i as int].0 == (self.rows@[i as int].job_id@, self.rows@[i as int].task_id@));
            if text::same(self.rows[i].job_id.as_str(), job_id) && text::same(self.rows[i].task_id.as_str(), task_id) {
                proof {
                    lemma_position_is(s, job_id@, task_id@, i as int);
                }
                return Some(i);
            }
            i += 1;
        }
        proof {
            lemma_position(s, job_id@, task_id@);
        }
        None
    }

    /// Saves a checkpoint: it replaces an earlier one with its id, the history
    /// stays in the order of the ids, and the oldest entries beyond the
    /// retention are dropped.
    pub fn save(&mut self, job_id: &str, task_id: &str, checkpoint_id: u64, data: &[u8])
        ensures
            final(self)@ == store_saved(old(self)@, job_id@, task_id@, checkpoint_id, data@, old(self).keep()),
            final(self).keep() == old(self).keep(),
    {
        let ghost s = self@;
        let payload = bytes_of(data);
        match self.find(job_id, task_id) {
            Some(i) => {
                let row = self.rows.remove(i);
                let ghost before = row_view(row);
                let entries = saved_entries(row.entries, checkpoint_id, payload, self.retained);
                let row2 = StoreRow { job_id: row.job_id, task_id: row.task_id, entries };
                self.rows.insert(i, row2);
                proof {
                    assert(before == s[i as int]);
                    assert(self@ =~= store_saved(s, job_id@, task_id@, checkpoint_id, data@, self.keep()));
                }
            },
            None => {
                let entries = saved_entries(Vec::new(), checkpoint_id, payload, self.retained);
                self.rows.push(StoreRow { job_id: text::owned(job_id), task_id: text::owned(task_id), entries });
                proof {
                    assert(history_view(Seq::<(u64, Vec<u8>)>::empty()) =~= Seq::<(u64, Seq<u8>)>::empty());
                    assert(self@ =~= store_saved(s, job_id@, task_id@, checkpoint_id, data@, self.keep()));
                }
            },
        }
    }

    /// The newest checkpoint of a task.
    pub fn load_latest(&self, job_id: &str, task_id: &str) -> (r: Option<(u64, Vec<u8>)>)
        ensures
            match (r, history_of(self@, job_id@, task_id@)) {
                (Some(e), Some(h)) => h.len() > 0 && h.last() == (e.0, e.1@),
                (None, Some(h)) => h.len() == 0,
                (Some(_), None) => false,
                (None, None) => true,
            },
    {
        match self.find(job_id, task_id) {
            Some(i) => {
                assert(self@[i as int] == row_view(self.rows@[i as int]));
                let n: usize = self.rows[i].entries.len();
                if n == 0 {
                    None
                } else {
                    let id: u64 = self.rows[i].entries[n - 1].0;
                    let data = copy_bytes(&self.rows[i].entries[n - 1].1);
                    Some((id, data))
                }
            },
            None => None,
        }
    }

    /// The retained checkpoints of every task of a job, in the order of the
    /// task ids.
    pub fn list_job_meta(&self, job_id: &str) -> (r: Vec<TaskCheckpointMeta>)
        ensures
            listing_view(r@) == job_listing(self@, job_id@),
    {
        let ghost s = self@;
        let mut out: Vec<TaskCheckpointMeta> = Vec::new();
        let mut i: usize = 0;
        proof {
            assert(s.take(0) =~= Seq::empty());
            assert(listing_view(out@) =~= Seq::empty());
        }
        while i < self.rows.len()
            invariant
                i <= self.rows@.len(),
                s == rows_view(self.rows@),
                listing_view(out@) == job_listing(s.take(i as int), job_id@),
            decreases self.rows@.len() - i,
        {
            proof {
                assert(s.take(i + 1).drop_last() =~= s.take(i as int));
                assert(s.take(i + 1).last() == row_view(self.rows@[i as int]));
            }
            if text::same(self.rows[i].job_id.as_str(), job_id) {
                let entries = entry_meta(&self.rows[i].entries);
                insert_listing(&mut out, TaskCheckpointMeta { task_id: self.rows[i].task_id.clone(), entries });
            }
            i += 1;
        }
        proof {
            assert(s.take(s.len() as int) =~= s);
        }
        out
    }

    /// Forgets every checkpoint of a job.
    pub fn drop_job(&mut self, job_id: &str)
        ensures
            final(self)@ == store_without_job(old(self)@, job_id@),
            final(self).keep() == old(self).keep(),
    {
        let ghost s = self@;
        let mut kept: Vec<StoreRow> = Vec::new();
        proof {
            assert(s.take(0) =~= Seq::empty());
            assert(rows_view(kept@) =~= store_without_job(s.take(0), job_id@));
            assert(s.skip(0) =~= s);
        }
        while self.rows.len() > 0
            invariant
                self.rows@.len() <= s.len(),
                self.retained == old(self).retained,
                rows_view(self.rows@) == s.skip(s.len() - self.rows@.len()),
                rows_view(kept@) == store_without_job(s.take(s.len() - self.rows@.len()), job_id@),
            decreases self.rows@.len(),
        {
            let ghost done = s.len() - self.rows@.len();
            let ghost prev_rows = self.rows@;
            assert(rows_view(self.rows@)[0] == s[done]);
            let row = self.rows.remove(0);
            proof {
                assert(row_view(row) == s[done]);
                assert(s.take(done + 1).drop_last() =~= s.take(done));
                assert(s.take(done + 1).last() == s[done]);
                assert(rows_view(self.rows@) =~= rows_view(prev_rows).skip(1));
                assert(s.skip(done).skip(1) =~= s.skip(done + 1));
            }
            if !text::same(row.job_id.as_str(), job_id) {
                let ghost prev = kept@;
                kept.push(row);
                assert(rows_view(kept@) =~= rows_view(prev).push(row_view(row)));
            }
        }
        self.rows = kept;
        proof {
            assert(s.take(s.len() as int) =~= s);
        }
    }

    /// The whole store, for replication.
    pub fn export(&self) -> (r: Vec<((String, String), TaskCheckpoints)>)
        ensures
            snapshot_view(r@) == self@,
    {
        let mut out: Vec<((String, String), TaskCheckpoints)> = Vec::new();
        let mut i: usize = 0;
        while i < self.rows.len()
            invariant
                i <= self.rows@.len(),
                out@.len() == i,
                forall|k: int| 0 <= k < i ==> exported_view(#[trigger] out@[k]) == row_view(self.rows@[k]),
            decreases self.rows@.len() - i,
        {
            let key = (self.rows[i].job_id.clone(), self.rows[i].task_id.clone());
            let entries = copy_entries(&self.rows[i].entries);
            out.push((key, TaskCheckpoints { entries }));
            i += 1;
        }
        assert(snapshot_view(out@) =~= self@);
        out
    }

    /// Merges a replication snapshot: it only fills gaps, what is here wins.
    pub fn import(&mut self, snapshot: &Vec<((String, String), TaskCheckpoints)>)
        ensures
            final(self)@ == store_merged(old(self)@, snapshot_view(snapshot@)),
            final(self).keep() == old(self).keep(),
    {
        let ghost s = self@;
        let ghost snap = snapshot_view(snapshot@);
        let mut i: usize = 0;
        proof {
            assert(snap.take(0) =~= Seq::empty());
        }
        while i < snapshot.len()
            invariant
                i <= snapshot@.len(),
                snap == snapshot_view(snapshot@),
                self.retained == old(self).retained,
                self@ == store_merged(s, snap.take(i as int)),
            decreases snapshot@.len() - i,
        {
            let ghost prev = self@;
            proof {
                assert(snap.take(i + 1).drop_last() =~= snap.take(i as int));
                assert(snap.take(i + 1).last() == exported_view(snapshot@[i as int]));
            }
            let item = &snapshot[i];
            if self.find(item.0.0.as_str(), item.0.1.as_str()).is_none() {
                let entries = copy_entries(&item.1.entries);
                self.rows.push(StoreRow { job_id: item.0.0.clone(), task_id: item.0.1.clone(), entries });
                assert(self@ =~= prev.push(exported_view(snapshot@[i as int])));
            }
            i += 1;
        }
        proof {
            assert(snap.take(snap.len() as int) =~= snap);
        }
    }
}


// ---------------------------------------------------------------------------
// What a store promises
// ---------------------------------------------------------------------------

/// Whether every history is in strictly increasing order of the ids.
pub open spec fn ordered(h: History) -> bool {
    forall|i: int, j: int| 0 <= i < j < h.len() ==> (#[trigger] h[i]).0 < (#[trigger] h[j]).0
}

proof fn lemma_without_id(h: History, id: u64)
    requires
        ordered(h),
    ensures
        ordered(without_id(h, id)),
        forall|i: int|
            0 <= i < without_id(h, id).len() ==> (#[trigger] without_id(h, id)[i]).0 != id && h.contains(
                without_id(h, id)[i],
            ),
    decreases h.len(),
{
    if h.len() > 0 {
        let d = h.drop_last();
        lemma_without_id(d, id);
        let w = without_id(d, id);
        let r = without_id(h, id);
        assert forall|i: int| 0 <= i < r.len() implies (#[trigger] r[i]).0 != id && h.contains(r[i]) by {
            if i < w.len() {
                assert(r[i] == w[i]);
                let k = choose|k: int| 0 <= k < d.len() && d[k] == w[i];
                assert(h[k] == r[i]);
            } else {
                assert(h[h.len() - 1] == r[i]);
            }
        }
        assert forall|i: int, j: int| 0 <= i < j < r.len() implies (#[trigger] r[i]).0 < (#[trigger] r[j]).0 by {
            assert(r[i] == w[i]);
            if j == w.len() {
                let k = choose|k: int| 0 <= k < d.len() && d[k] == w[i];
                assert(h[k] == w[i]);
                assert(h[k].0 < h[h.len() - 1].0);
            } else {
                assert(r[j] == w[j]);
            }
        }
    }
}

proof fn lemma_insert_ordered(s: History, e: (u64, Seq<u8>))
    requires
        ordered(s),
        forall|i: int| 0 <= i < s.len() ==> (#[trigger] s[i]).0 != e.0,
    ensures
        ordered(insert_by_id(s, e)),
        insert_by_id(s, e).len() == s.len() + 1,
        (forall|i: int| 0 <= i < s.len() ==> (#[trigger] s[i]).0 < e.0) ==> insert_by_id(s, e) == s.push(e),
        forall|i: int|
            0 <= i < insert_by_id(s, e).len() ==> #[trigger] insert_by_id(s, e)[i] == e || s.contains(
                insert_by_id(s, e)[i],
            ),
    decreases s.len(),
{
    if s.len() == 0 {
        assert(insert_by_id(s, e) =~= s.push(e));
    } else if s.last().0 <= e.0 {
        let r = s.push(e);
        assert forall|i: int, j: int| 0 <= i < j < r.len() implies (#[trigger] r[i]).0 < (#[trigger] r[j]).0 by {
            if j == s.len() && i < s.len() - 1 {
                assert(s[i].0 < s[s.len() - 1].0);
            }
            assert(s[s.len() - 1].0 != e.0);
        }
        assert forall|i: int| 0 <= i < r.len() implies #[trigger] r[i] == e || s.contains(r[i]) by {
            if i < s.len() {
                assert(s[i] == r[i]);
            }
        }
    } else {
        let d = s.drop_last();
        lemma_insert_ordered(d, e);
        let q = insert_by_id(d, e);
        let r = insert_by_id(s, e);
        assert(!(s[s.len() - 1].0 < e.0));
        assert forall|i: int| 0 <= i < r.len() implies #[trigger] r[i] == e || s.contains(r[i]) by {
            if i < q.len() {
                assert(r[i] == q[i]);
                if q[i] != e {
                    let k = choose|k: int| 0 <= k < d.len() && d[k] == q[i];
                    assert(s[k] == q[i]);
                }
            } else {
                assert(s[s.len() - 1] == r[i]);
            }
        }
        assert forall|i: int, j: int| 0 <= i < j < r.len() implies (#[trigger] r[i]).0 < (#[trigger] r[j]).0 by {
            assert(r[i] == q[i]);
            if j < q.len() {
                assert(r[j] == q[j]);
            } else if q[i] != e {
                let k = choose|k: int| 0 <= k < d.len() && d[k] == q[i];
                assert(s[k] == q[i]);
                assert(s[k].0 < s[s.len() - 1].0);
            }
        }
    }
}

/// Saving keeps a history in order, holds no more than the retention, and what
/// was saved with the highest id is what is read back as the newest.
pub proof fn law_saved_history(h: History, id: u64, data: Seq<u8>, keep: nat)
    requires
        ordered(h),
        keep >= 1,
    ensures
        ordered(history_saved(h, id, data, keep)),
        0 < history_saved(h, id, data, keep).len() <= keep,
        (forall|i: int| 0 <= i < h.len() ==> (#[trigger] h[i]).0 <= id) ==> history_saved(h, id, data, keep).last() == (
            id,
            data,
        ),
{
    lemma_without_id(h, id);
    let w = without_id(h, id);
    let e = (id, data);
    assert(retention::by_id(w));
    retention::lemma_sort_of_sorted(w);
    retention::lemma_sort_push(w, e);
    lemma_insert_ordered(w, e);
    let o = sort_by_id(w.push(e));
    assert(o == insert_by_id(w, e));
    let r = history_saved(h, id, data, keep);
    assert forall|i: int, j: int| 0 <= i < j < r.len() implies (#[trigger] r[i]).0 < (#[trigger] r[j]).0 by {
        let off = if o.len() <= keep { 0 } else { o.len() - keep };
        assert(r[i] == o[off + i]);
        assert(r[j] == o[off + j]);
    }
    if forall|i: int| 0 <= i < h.len() ==> (#[trigger] h[i]).0 <= id {
        assert forall|i: int| 0 <= i < w.len() implies (#[trigger] w[i]).0 < e.0 by {
            let k = choose|k: int| 0 <= k < h.len() && h[k] == w[i];
            assert(h[k].0 <= id);
        }
        assert(o == w.push(e));
    }
}

/// A save is read back: under the task it was made for, and nowhere else.
pub proof fn law_save_reaches_its_task(
    s: Store,
    job: Seq<char>,
    task: Seq<char>,
    id: u64,
    data: Seq<u8>,
    keep: nat,
    other: (Seq<char>, Seq<char>),
)
    ensures
        history_of(store_saved(s, job, task, id, data, keep), job, task) == Some(
            history_saved(
                match history_of(s, job, task) {
                    Some(h) => h,
                    None => Seq::empty(),
                },
                id,
                data,
                keep,
            ),
        ),
        other != (job, task) ==> history_of(store_saved(s, job, task, id, data, keep), other.0, other.1)
            == history_of(s, other.0, other.1),
{
    let t = store_saved(s, job, task, id, data, keep);
    lemma_position(s, job, task);
    lemma_position(t, job, task);
    lemma_position(s, other.0, other.1);
    lemma_position(t, other.0, other.1);
    match position(s, job, task) {
        Some(i) => {
            assert forall|k: int| 0 <= k < i implies (#[trigger] t[k]).0 != (job, task) by {
                assert(t[k] == s[k]);
            }
            lemma_position_is(t, job, task, i);
            if other != (job, task) {
                match position(s, other.0, other.1) {
                    Some(j) => {
                        assert forall|k: int| 0 <= k < j implies (#[trigger] t[k]).0 != (other.0, other.1) by {
                            assert(t[k].0 == s[k].0);
                        }
                        lemma_position_is(t, other.0, other.1, j);
                    },
                    None => {
                        assert forall|k: int| 0 <= k < t.len() implies (#[trigger] t[k]).0 != (other.0, other.1) by {
                            assert(t[k].0 == s[k].0);
                        }
                    },
                }
            }
        },
        None => {
            assert forall|k: int| 0 <= k < s.len() implies (#[trigger] t[k]).0 != (job, task) by {
                assert(t[k] == s[k]);
            }
            lemma_position_is(t, job, task, s.len() as int);
            if other != (job, task) {
                match position(s, other.0, other.1) {
                    Some(j) => {
                        assert forall|k: int| 0 <= k < j implies (#[trigger] t[k]).0 != (other.0, other.1) by {
                            assert(t[k] == s[k]);
                        }
                        lemma_position_is(t, other.0, other.1, j);
                    },
                    None => {
                        assert forall|k: int| 0 <= k < t.len() implies (#[trigger] t[k]).0 != (other.0, other.1) by {
                            if k < s.len() {
                                assert(t[k] == s[k]);
                            }
                        }
                    },
                }
            }
        },
    }
}

/// A job that was dropped has no checkpoints, and the others keep theirs.
pub proof fn law_dropped_job(s: Store, job: Seq<char>, other: Seq<char>, task: Seq<char>)
    ensures
        history_of(store_without_job(s, job), job, task) is None,
        other != job ==> history_of(store_without_job(s, job), other, task) == history_of(s, other, task),
    decreases s.len(),
{
    if s.len() > 0 {
        let d = s.drop_last();
        law_dropped_job(d, job, other, task);
        let w = store_without_job(d, job);
        let r = store_without_job(s, job);
        lemma_position(d, other, task);
        lemma_position(w, other, task);
        lemma_position(w, job, task);
        if s.last().0.0 != job {
            assert(r.drop_last() =~= w);
            assert(r.last() == s.last());
        }
    }
}

/// Merging a snapshot leaves what is here and fills what is missing.
pub proof fn law_merge_fills_gaps(s: Store, snapshot: Store, job: Seq<char>, task: Seq<char>)
    ensures
        history_of(store_merged(s, snapshot), job, task) == match history_of(s, job, task) {
            Some(h) => Some(h),
            None => history_of(snapshot, job, task),
        },
        s.is_prefix_of(store_merged(s, snapshot)),
    decreases snapshot.len(),
{
    if snapshot.len() > 0 {
        let e = snapshot.last();
        let d = snapshot.drop_last();
        law_merge_fills_gaps(s, d, job, task);
        law_merge_fills_gaps(s, d, e.0.0, e.0.1);
        let head = store_merged(s, d);
        let r = store_merged(s, snapshot);
        lemma_position(head, job, task);
        lemma_position(head, e.0.0, e.0.1);
        lemma_position(d, job, task);
        lemma_position(d, e.0.0, e.0.1);
        lemma_position(s, job, task);
        if position(head, e.0.0, e.0.1) is None {
            assert(r.drop_last() =~= head);
        }
        assert(s.is_prefix_of(r));
    }
}


proof fn lemma_merge_of_known(s: Store, snapshot: Store)
    requires
        forall|k: int|
            0 <= k < snapshot.len() ==> position(s, (#[trigger] snapshot[k]).0.0, snapshot[k].0.1) is Some,
    ensures
        store_merged(s, snapshot) == s,
    decreases snapshot.len(),
{
    if snapshot.len() > 0 {
        let d = snapshot.drop_last();
        assert forall|k: int| 0 <= k < d.len() implies position(s, (#[trigger] d[k]).0.0, d[k].0.1) is Some by {
            assert(d[k] == snapshot[k]);
        }
        lemma_merge_of_known(s, d);
        assert(snapshot[snapshot.len() - 1] == snapshot.last());
    }
}

/// Merging the same snapshot a second time changes nothing.
pub proof fn law_merge_is_idempotent(s: Store, snapshot: Store)
    ensures
        store_merged(store_merged(s, snapshot), snapshot) == store_merged(s, snapshot),
{
    let m = store_merged(s, snapshot);
    assert forall|k: int| 0 <= k < snapshot.len() implies position(m, (#[trigger] snapshot[k]).0.0, snapshot[k].0.1) is Some by {
        let e = snapshot[k];
        law_merge_fills_gaps(s, snapshot, e.0.0, e.0.1);
        lemma_position(snapshot, e.0.0, e.0.1);
        assert(history_of(m, e.0.0, e.0.1) is Some);
    }
    lemma_merge_of_known(m, snapshot);
}

// ---------------------------------------------------------------------------
// The object store
// ---------------------------------------------------------------------------

/// Where the objects of the external store lie and how many are kept. The
/// objects themselves are read and written by the caller.
#[derive(Debug)]
pub struct S3CheckpointStore {
    prefix: String,
    retained: usize,
}

/// `path` followed by a separator and `segment`.
pub open spec fn under(path: Seq<char>, segment: Seq<char>) -> Seq<char> {
    path + "/"@ + segment
}

/// The path that `object_store` has for a text: the segments between the separators,
/// without the empty ones, with what object names should not hold escaped.
pub uninterp spec fn store_path(path: Seq<char>) -> Seq<char>;

/// Whether a text is a path as it stands: its segments are not empty, hold ASCII letters,
/// digits, `-`, `_` and `.` only, and are neither `.` nor `..`.
pub open spec fn is_plain_path(path: Seq<char>) -> bool {
    forall|i: int|
        0 <= i < text::split_text(path, '/').len() ==> {
            let segment = #[trigger] text::split_text(path, '/')[i];
            &&& segment.len() > 0 && segment != "."@ && segment != ".."@
            &&& forall|k: int| 0 <= k < segment.len() ==> is_plain(#[trigger] segment[k])
        }
}

/// Calls the `From<&str>` of `object_store::path::Path` and gives the path's text, which
/// is a function of the text alone. A plain path stays as it is; how other characters
/// are escaped is not stated.
#[verifier::external_body]
fn to_store_path(path: &str) -> (r: String)
    ensures
        r@ == store_path(path@),
        is_plain_path(path@) ==> r@ == path@,
{
    object_store::path::Path::from(path).to_string()
}

/// What follows `root` and a separator in `location`; all of it when it does
/// not start so.
pub open spec fn relative_to(root: Seq<char>, location: Seq<char>) -> Seq<char> {
    let p = root + "/"@;
    if text::has_prefix(location, p) {
        location.skip(p.len() as int)
    } else {
        location
    }
}

/// The distinct, non-empty first path segments below `root`, in the order in
/// which they first occur.
pub open spec fn first_segments(root: Seq<char>, locations: Seq<Seq<char>>) -> Seq<Seq<char>>
    decreases locations.len(),
{
    if locations.len() == 0 {
        Seq::empty()
    } else {
        let head = first_segments(root, locations.drop_last());
        let job = text::split_text(relative_to(root, locations.last()), '/')[0];
        if job.len() > 0 && !head.contains(job) {
            head.push(job)
        } else {
            head
        }
    }
}

/// Whether a job's objects have all been idle for `ttl`. A job without objects has
/// not expired.
pub open spec fn job_expired(modified: Seq<u128>, now: u128, ttl: u128) -> bool {
    match retention::latest(modified) {
        Some(t) => retention::idle(t, now, ttl),
        None => false,
    }
}

/// The jobs whose objects have all been idle for `ttl`, in order.
pub open spec fn expired_jobs(jobs: Seq<(String, Vec<u128>)>, now: u128, ttl: u128) -> Seq<Seq<char>>
    decreases jobs.len(),
{
    if jobs.len() == 0 {
        Seq::empty()
    } else {
        let h = expired_jobs(jobs.drop_last(), now, ttl);
        if job_expired(jobs.last().1@, now, ttl) { h.push(jobs.last().0@) } else { h }
    }
}

impl S3CheckpointStore {
    /// The prefix that was configured, without separators at its ends.
    pub closed spec fn root(&self) -> Seq<char> {
        self.prefix@
    }

    /// How many checkpoints of one task are kept.
    pub closed spec fn keep(&self) -> nat {
        self.retained as nat
    }

    /// A store below `prefix` that keeps `retained` checkpoints per task, at
    /// least one.
    pub fn new(prefix: &str, retained: usize) -> (r: Self)
        ensures
            r.root() == text::trimmed_of(prefix@, '/'),
            r.keep() == if retained == 0 { 1 } else { retained as nat },
    {
        let keep: usize = if retained == 0 { 1 } else { retained };
        S3CheckpointStore { prefix: text::trim_of(prefix, '/'), retained: keep }
    }

    /// The path of everything that is stored.
    pub fn root_prefix(&self) -> (r: String)
        ensures
            r@ == store_path(self.root()),
            is_plain_path(self.root()) ==> r@ == self.root(),
    {
        to_store_path(self.prefix.as_str())
    }

    /// The path of a job's objects.
    pub fn job_prefix(&self, job_id: &str) -> (r: String)
        ensures
            r@ == store_path(under(self.root(), job_id@)),
            is_plain_path(under(self.root(), job_id@)) ==> r@ == under(self.root(), job_id@),
    {
        let path = text::join3(self.prefix.as_str(), "/", job_id);
        to_store_path(path.as_str())
    }

    fn task_text(&self, job_id: &str, task_id: &str) -> (r: String)
        ensures
            r@ == under(under(self.root(), job_id@), task_id@),
    {
        let job = text::join3(self.prefix.as_str(), "/", job_id);
        text::join3(job.as_str(), "/", task_id)
    }

    /// The path of a task's objects.
    pub fn task_prefix(&self, job_id: &str, task_id: &str) -> (r: String)
        ensures
            r@ == store_path(under(under(self.root(), job_id@), task_id@)),
            is_plain_path(under(under(self.root(), job_id@), task_id@)) ==> r@ == under(
                under(self.root(), job_id@),
                task_id@,
            ),
    {
        let path = self.task_text(job_id, task_id);
        to_store_path(path.as_str())
    }

    /// The path of one checkpoint.
    pub fn object_path(&self, job_id: &str, task_id: &str, checkpoint_id: u64) -> (r: String)
        ensures
            ({
                let path = under(
                    under(under(self.root(), job_id@), task_id@),
                    retention::checkpoint_name(checkpoint_id as nat),
                );
                r@ == store_path(path) && (is_plain_path(path) ==> r@ == path)
            }),
    {
        let task = self.task_text(job_id, task_id);
        let name = retention::checkpoint_file_name(checkpoint_id);
        let path = text::join3(task.as_str(), "/", name.as_str());
        to_store_path(path.as_str())
    }

    /// The newest checkpoint among the object names of a task: its id and its
    /// position in the listing.
    pub fn latest_object(&self, names: &Vec<String>) -> (r: Option<(u64, usize)>)
        ensures
            r == retention::highest(retention::listed(text::views(names@))),
    {
        retention::newest_listed(names)
    }

    /// The objects of a task that are beyond the retention, as ids and positions
    /// in the listing, oldest first.
    pub fn prune_task(&self, names: &Vec<String>) -> (r: Vec<(u64, usize)>)
        ensures
            r@ == retention::surplus(sort_by_id(retention::listed(text::views(names@))), self.keep()),
    {
        retention::listed_surplus(names, self.retained)
    }

    /// The jobs that have objects: the distinct first segments of the listed paths below
    /// the path of everything that is stored.
    pub fn list_distinct_first_segments(&self, locations: &Vec<String>) -> (r: Vec<String>)
        ensures
            text::views(r@) == first_segments(store_path(self.root()), text::views(locations@)),
    {
        let ghost all = text::views(locations@);
        let ghost root = store_path(self.root());
        let path = self.root_prefix();
        let start = text::join2(path.as_str(), "/");
        let mut jobs: Vec<String> = Vec::new();
        let mut i: usize = 0;
        proof {
            assert(all.take(0) =~= Seq::empty());
            assert(text::views(jobs@) =~= Seq::empty());
        }
        while i < locations.len()
            invariant
                i <= locations@.len(),
                all == text::views(locations@),
                start@ == root + "/"@,
                text::views(jobs@) == first_segments(root, all.take(i as int)),
            decreases locations@.len() - i,
        {
            let location = locations[i].as_str();
            proof {
                assert(all.take(i + 1).drop_last() =~= all.take(i as int));
                assert(all.take(i + 1).last() == location@);
            }
            let chars = text::chars_of(location);
            let prefix_len: usize = text::chars_of(start.as_str()).len();
            let from: usize = if text::starts_with(location, start.as_str()) { prefix_len } else { 0 };
            let rel = text::text_between(&chars, from, chars.len());
            proof {
                assert(rel@ =~= relative_to(root, location@));
                text::lemma_split_nonempty(rel@, '/');
            }
            let parts = text::split(rel.as_str(), '/');
            assert(text::views(parts@).len() == parts@.len());
            let job = parts[0].clone();
            assert(job@ == text::views(parts@)[0]);
            if text::chars_of(job.as_str()).len() > 0 && !text::holds(&jobs, job.as_str()) {
                let ghost prev = jobs@;
                jobs.push(job);
                assert(text::views(jobs@) =~= text::views(prev).push(job@));
            }
            i += 1;
        }
        proof {
            assert(all.take(all.len() as int) =~= all);
        }
        jobs
    }

    /// Whether a job's objects, last modified at these times, have all been idle
    /// for `ttl` and are to be removed. A job without objects is left alone.
    pub fn is_expired(&self, modified: &Vec<u128>, now: u128, ttl: u128) -> (r: bool)
        ensures
            r == job_expired(modified@, now, ttl),
    {
        match retention::latest_of(modified) {
            Some(t) => retention::is_idle(t, now, ttl),
            None => false,
        }
    }

    /// The jobs whose objects are to be removed, in order; each job comes with the
    /// times at which its objects were last modified.
    pub fn sweep_expired(&self, jobs: &Vec<(String, Vec<u128>)>, now: u128, ttl: u128) -> (r: Vec<String>)
        ensures
            text::views(r@) == expired_jobs(jobs@, now, ttl),
    {
        let mut out: Vec<String> = Vec::new();
        let mut i: usize = 0;
        proof {
            assert(jobs@.take(0) =~= Seq::empty());
            assert(text::views(out@) =~= Seq::empty());
        }
        while i < jobs.len()
            invariant
                i <= jobs@.len(),
                text::views(out@) == expired_jobs(jobs@.take(i as int), now, ttl),
            decreases jobs@.len() - i,
        {
            proof {
                assert(jobs@.take(i + 1).drop_last() =~= jobs@.take(i as int));
                assert(jobs@.take(i + 1).last() == jobs@[i as int]);
            }
            if self.is_expired(&jobs[i].1, now, ttl) {
                let ghost prev = out@;
                let name = jobs[i].0.clone();
                out.push(name);
                assert(text::views(out@) =~= text::views(prev).push(name@));
            }
            i += 1;
        }
        assert(jobs@.take(jobs@.len() as int) =~= jobs@);
        out
    }
}

} // verus!
