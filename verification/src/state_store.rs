//! The worker's local checkpoint files: where they lie, which one is the newest,
//! which ones are surplus, and which jobs have expired. Reading and writing the
//! files is the caller's.
//!
//! Layout: `<root>/<job_id>/<task_id>/cp-<id>.state`, each written under a
//! temporary name and renamed.

use vstd::prelude::*;

use crate::retention;
use crate::text;

verus! {

/// Snapshots kept of one task by default.
pub const DEFAULT_RETAINED_SNAPSHOTS: usize = 3;

/// Whether a character stays in a path component.
pub open spec fn is_plain(c: char) -> bool {
    let v = c as u32;
    48 <= v <= 57 || 65 <= v <= 90 || 97 <= v <= 122 || c == '-' || c == '_' || c == '.'
}

/// A text as a path component: everything but ASCII letters, digits, `-`, `_` and
/// `.` becomes `_`.
pub open spec fn sanitized(s: Seq<char>) -> Seq<char> {
    Seq::new(s.len(), |i: int| if is_plain(s[i]) { s[i] } else { '_' })
}

/// A text as a path component.
pub fn sanitize(component: &str) -> (r: String)
    ensures
        r@ == sanitized(component@),
{
    let chars = text::chars_of(component);
    let mut out = String::new();
    let mut i: usize = 0;
    assert(out@ =~= sanitized(chars@).take(0));
    while i < chars.len()
        invariant
            i <= chars@.len(),
            out@ == sanitized(chars@).take(i as int),
        decreases chars@.len() - i,
    {
        let c = chars[i];
        let v: u32 = c as u32;
        let plain: bool = (48 <= v && v <= 57) || (65 <= v && v <= 90) || (97 <= v && v <= 122) || c == '-' || c == '_'
            || c == '.';
        out.push(if plain { c } else { '_' });
        assert(sanitized(chars@).take(i + 1) =~= sanitized(chars@).take(i as int).push(sanitized(chars@)[i as int]));
        i += 1;
    }
    assert(sanitized(chars@).take(chars@.len() as int) =~= sanitized(chars@));
    out
}

/// A path component holds no separator, and sanitizing it again changes nothing.
pub proof fn law_sanitized(s: Seq<char>)
    ensures
        sanitized(s).len() == s.len(),
        forall|i: int| 0 <= i < s.len() ==> is_plain(#[trigger] sanitized(s)[i]) && sanitized(s)[i] != '/',
        sanitized(sanitized(s)) == sanitized(s),
{
    assert forall|i: int| 0 <= i < s.len() implies is_plain(#[trigger] sanitized(s)[i]) && sanitized(s)[i] != '/' by {
        let c = sanitized(s)[i];
        assert(is_plain(c));
        assert(!is_plain('/'));
    }
    assert(sanitized(sanitized(s)) =~= sanitized(s));
}

/// A file or a directory, with the time of its last change.
#[derive(Debug)]
pub enum TreeEntry {
    File(u128),
    Dir(Vec<TreeEntry>),
}

/// The time of an entry: a file's own, a directory's newest, 0 when it has none.
pub open spec fn entry_time(e: TreeEntry) -> u128
    decreases e,
{
    match e {
        TreeEntry::File(t) => t,
        TreeEntry::Dir(v) => top_time(v@),
    }
}

/// The highest time among some entries, 0 when there are none.
pub open spec fn top_time(v: Seq<TreeEntry>) -> u128
    decreases v,
{
    if v.len() == 0 {
        0
    } else {
        let h = top_time(v.drop_last());
        let t = entry_time(v.last());
        if t > h { t } else { h }
    }
}

/// The time of the newest entry, unless that is 0.
pub open spec fn newest_of(v: Seq<TreeEntry>) -> Option<u128> {
    if top_time(v) == 0 { None } else { Some(top_time(v)) }
}

/// The time of the newest file below a directory. A directory without files has
/// none.
pub fn newest_mtime(entries: &Vec<TreeEntry>) -> (r: Option<u128>)
    ensures
        r == newest_of(entries@),
    decreases entries,
{
    let mut top: u128 = 0;
    let mut i: usize = 0;
    assert(entries@.take(0) =~= Seq::empty());
    while i < entries.len()
        invariant
            i <= entries@.len(),
            top == top_time(entries@.take(i as int)),
        decreases entries@.len() - i,
    {
        proof {
            assert(entries@.take(i + 1).drop_last() =~= entries@.take(i as int));
            assert(entries@.take(i + 1).last() == entries@[i as int]);
        }
        let t: u128 = match &entries[i] {
            TreeEntry::File(t) => *t,
            TreeEntry::Dir(v) => match newest_mtime(v) {
                Some(t) => t,
                None => 0,
            },
        };
        assert(t == entry_time(entries@[i as int]));
        assert(top_time(entries@.take(i + 1)) == if t > top { t } else { top });
        if t > top {
            top = t;
        }
        i += 1;
    }
    assert(entries@.take(entries@.len() as int) =~= entries@);
    if top == 0 {
        None
    } else {
        Some(top)
    }
}

/// The directory of a job with what it holds.
#[derive(Debug)]
pub struct JobTree {
    pub name: String,
    pub entries: Vec<TreeEntry>,
}

/// Whether a job's directory is to be removed: it holds no files, or its newest one
/// has been idle for `ttl`.
pub open spec fn expired(entries: Seq<TreeEntry>, now: u128, ttl: u128) -> bool {
    match newest_of(entries) {
        Some(t) => retention::idle(t, now, ttl),
        None => true,
    }
}

/// The jobs whose directories are to be removed, in order.
pub open spec fn expired_jobs(jobs: Seq<JobTree>, now: u128, ttl: u128) -> Seq<Seq<char>>
    decreases jobs.len(),
{
    if jobs.len() == 0 {
        Seq::empty()
    } else {
        let h = expired_jobs(jobs.drop_last(), now, ttl);
        if expired(jobs.last().entries@, now, ttl) { h.push(jobs.last().name@) } else { h }
    }
}

/// Where one checkpoint is written.
#[derive(Debug)]
pub struct WritePlan {
    pub dir: String,
    pub tmp_path: String,
    pub final_path: String,
}

/// The path of an entry of a directory. The empty path is the working directory.
pub open spec fn inside(dir: Seq<char>, name: Seq<char>) -> Seq<char> {
    if dir.len() == 0 {
        name
    } else if dir.last() == '/' {
        dir + name
    } else {
        dir + "/"@ + name
    }
}

/// The path of an entry of a directory.
pub fn join_path(dir: &str, name: &str) -> (r: String)
    ensures
        r@ == inside(dir@, name@),
{
    let chars = text::chars_of(dir);
    let n: usize = chars.len();
    if n == 0 {
        text::owned(name)
    } else if chars[n - 1] == '/' {
        text::join2(dir, name)
    } else {
        text::join3(dir, "/", name)
    }
}

/// The worker's local checkpoint files.
#[derive(Debug)]
pub struct LocalStateStore {
    root: String,
    retained_snapshots: usize,
}

impl LocalStateStore {
    /// The root directory.
    pub closed spec fn root_path(&self) -> Seq<char> {
        self.root@
    }

    /// How many snapshots of one task are kept.
    pub closed spec fn keep(&self) -> nat {
        self.retained_snapshots as nat
    }

    /// The directory of a job.
    pub open spec fn job_path(&self, job_id: Seq<char>) -> Seq<char> {
        inside(self.root_path(), sanitized(job_id))
    }

    /// The directory of a task.
    pub open spec fn task_path(&self, job_id: Seq<char>, task_id: Seq<char>) -> Seq<char> {
        inside(self.job_path(job_id), sanitized(task_id))
    }

    /// A store with the default retention.
    pub fn new(root: &str) -> (r: Self)
        ensures
            r.root_path() == root@,
            r.keep() == DEFAULT_RETAINED_SNAPSHOTS,
    {
        LocalStateStore::with_retention(root, DEFAULT_RETAINED_SNAPSHOTS)
    }

    /// A store that keeps `retained_snapshots` of each task, at least one.
    pub fn with_retention(root: &str, retained_snapshots: usize) -> (r: Self)
        ensures
            r.root_path() == root@,
            r.keep() == if retained_snapshots == 0 { 1 } else { retained_snapshots as nat },
    {
        LocalStateStore {
            root: text::owned(root),
            retained_snapshots: if retained_snapshots == 0 { 1 } else { retained_snapshots },
        }
    }

    /// How many snapshots of one task are kept.
    pub fn retained_snapshots(&self) -> (r: usize)
        ensures
            r == self.keep(),
    {
        self.retained_snapshots
    }

    /// A store at the directory that the environment gives, else at the default.
    pub fn from_env_or_default(env: Option<&str>) -> (r: Self)
        ensures
            r.root_path() == match env {
                Some(d) => d@,
                None => ".seatunnel-state"@,
            },
            r.keep() == DEFAULT_RETAINED_SNAPSHOTS,
    {
        match env {
            Some(d) => LocalStateStore::new(d),
            None => LocalStateStore::new(".seatunnel-state"),
        }
    }

    /// The root directory.
    pub fn root(&self) -> (r: &str)
        ensures
            r@ == self.root_path(),
    {
        self.root.as_str()
    }

    /// The directory of a job.
    pub fn job_dir(&self, job_id: &str) -> (r: String)
        ensures
            r@ == self.job_path(job_id@),
    {
        let job = sanitize(job_id);
        join_path(self.root.as_str(), job.as_str())
    }

    /// The directory of a task.
    pub fn task_dir(&self, job_id: &str, task_id: &str) -> (r: String)
        ensures
            r@ == self.task_path(job_id@, task_id@),
    {
        let job = self.job_dir(job_id);
        let task = sanitize(task_id);
        join_path(job.as_str(), task.as_str())
    }

    /// Where a checkpoint is written: first to the temporary path, which is then
    /// renamed.
    pub fn save_checkpoint(&self, job_id: &str, task_id: &str, checkpoint_id: u64) -> (r: WritePlan)
        ensures
            r.dir@ == self.task_path(job_id@, task_id@),
            r.final_path@ == inside(
                self.task_path(job_id@, task_id@),
                retention::checkpoint_name(checkpoint_id as nat),
            ),
            r.tmp_path@ == inside(
                self.task_path(job_id@, task_id@),
                "."@ + retention::checkpoint_name(checkpoint_id as nat) + ".tmp"@,
            ),
    {
        let dir = self.task_dir(job_id, task_id);
        let name = retention::checkpoint_file_name(checkpoint_id);
        let tmp = text::join3(".", name.as_str(), ".tmp");
        let final_path = join_path(dir.as_str(), name.as_str());
        let tmp_path = join_path(dir.as_str(), tmp.as_str());
        WritePlan { dir, tmp_path, final_path }
    }

    /// The newest checkpoint among the file names of a task's directory: its id
    /// and its position in the listing.
    pub fn load_latest_checkpoint(&self, names: &Vec<String>) -> (r: Option<(u64, usize)>)
        ensures
            r == retention::highest(retention::listed(text::views(names@))),
    {
        retention::newest_listed(names)
    }

    /// The files of a task's directory that are beyond the retention, as ids and
    /// positions in the listing, oldest first.
    pub fn prune(&self, names: &Vec<String>) -> (r: Vec<(u64, usize)>)
        ensures
            r@ == retention::surplus(
                retention::sort_by_id(retention::listed(text::views(names@))),
                self.keep(),
            ),
    {
        retention::listed_surplus(names, self.retained_snapshots)
    }

    /// Whether a job's directory is to be removed: it holds no files, or its
    /// newest one has been idle for `ttl`.
    pub fn is_expired(&self, entries: &Vec<TreeEntry>, now: u128, ttl: u128) -> (r: bool)
        ensures
            r == expired(entries@, now, ttl),
    {
        match newest_mtime(entries) {
            Some(t) => retention::is_idle(t, now, ttl),
            None => true,
        }
    }

    /// The jobs whose directories are to be removed, in order.
    pub fn sweep_expired(&self, jobs: &Vec<JobTree>, now: u128, ttl: u128) -> (r: Vec<String>)
        ensures
            text::views(r@) == expired_jobs(jobs@, now, ttl),
    {
        let mut out: Vec<String> = Vec::new();
        let mut i: usize = 0;
        proof {
            assert(jobs@.take(0) =~= Seq::empty());
            assert(text::views(out@) =~= Seq::empty());
        }
        while i < jobs.len()
            invariant
                i <= jobs@.len(),
                text::views(out@) == expired_jobs(jobs@.take(i as int), now, ttl),
            decreases jobs@.len() - i,
        {
            proof {
                assert(jobs@.take(i + 1).drop_last() =~= jobs@.take(i as int));
                assert(jobs@.take(i + 1).last() == jobs@[i as int]);
            }
            if self.is_expired(&jobs[i].entries, now, ttl) {
                let ghost prev = out@;
                let name = jobs[i].name.clone();
                out.push(name);
                assert(text::views(out@) =~= text::views(prev).push(name@));
            }
            i += 1;
        }
        assert(jobs@.take(jobs@.len() as int) =~= jobs@);
        out
    }
}

/// A temporary file is never taken for a checkpoint.
pub proof fn law_temporary_is_no_checkpoint(id: nat)
    ensures
        retention::named_checkpoint("."@ + retention::checkpoint_name(id) + ".tmp"@) is None,
{
    reveal_strlit(".");
    reveal_strlit("cp-");
    let n = "."@ + retention::checkpoint_name(id) + ".tmp"@;
    assert(n[0] == '.');
    assert("cp-"@[0] == 'c');
    assert(n.take(3)[0] == n[0]);
}

/// What a worker does with a checkpoint of its own: it writes it to the store.
#[derive(Debug)]
pub struct PersistAndReportListener {
    pub store: LocalStateStore,
}

impl PersistAndReportListener {
    /// Where a checkpoint is written.
    pub fn on_checkpoint(&self, job_id: &str, task_id: &str, checkpoint_id: u64) -> (r: WritePlan)
        ensures
            r.dir@ == self.store.task_path(job_id@, task_id@),
            r.final_path@ == inside(
                self.store.task_path(job_id@, task_id@),
                retention::checkpoint_name(checkpoint_id as nat),
            ),
            r.tmp_path@ == inside(
                self.store.task_path(job_id@, task_id@),
                "."@ + retention::checkpoint_name(checkpoint_id as nat) + ".tmp"@,
            ),
    {
        self.store.save_checkpoint(job_id, task_id, checkpoint_id)
    }
}

} // verus!
