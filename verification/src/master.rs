//! The master's service: the registry of workers, status and checkpoint reports,
//! and recovery of the tasks that a worker lost. What a heartbeat is answered is
//! in [`crate::heartbeat`].

use vstd::prelude::*;

use crate::job::JobV;
use crate::dispatch::WorkerState;
use crate::job_coordinator::{CoordinatorV, JobCoordinator};
use crate::keyed;
use crate::keyed::{index_of, named, put, values, Keyed, Named};
use crate::props;
use crate::props::Pairs;
use crate::recovery::{lost_of_jobs, stuck_ids, StuckTask, StuckV};
use crate::text;

verus! {

// ---------------------------------------------------------------------------
// The registry of workers
// ---------------------------------------------------------------------------

/// What is known of a registered worker.
#[derive(Debug)]
pub struct WorkerEntry {
    pub address: String,
    pub last_heartbeat_ms: i64,
    /// Measured pressure from 0 to 1000.
    pub load_score: u32,
    /// Lag of the event loop in milliseconds as last reported.
    pub lag_ms: u32,
    /// Share of the usable memory per mille as last reported.
    pub mem_permille: u32,
    /// Use of the host's processors per mille as last reported.
    pub cpu_permille: u32,
    /// False while the worker is over a pressure watermark.
    pub can_accept: bool,
}

/// A worker with its id.
#[derive(Debug)]
pub struct RegisteredWorker {
    pub worker_id: String,
    pub entry: WorkerEntry,
}

/// The mathematical value of a registered worker.
#[verifier::ext_equal]
pub struct EntryV {
    pub worker_id: Seq<char>,
    pub address: Seq<char>,
    pub last_heartbeat_ms: i64,
    pub load_score: u32,
    pub lag_ms: u32,
    pub mem_permille: u32,
    pub cpu_permille: u32,
    pub can_accept: bool,
}

/// The value of a worker under an id.
pub open spec fn entry_as(worker_id: Seq<char>, e: WorkerEntry) -> EntryV {
    EntryV {
        worker_id,
        address: e.address@,
        last_heartbeat_ms: e.last_heartbeat_ms,
        load_score: e.load_score,
        lag_ms: e.lag_ms,
        mem_permille: e.mem_permille,
        cpu_permille: e.cpu_permille,
        can_accept: e.can_accept,
    }
}

impl View for RegisteredWorker {
    type V = EntryV;

    open spec fn view(&self) -> EntryV {
        entry_as(self.worker_id@, self.entry)
    }
}

impl Named for EntryV {
    open spec fn name(self) -> Seq<char> {
        self.worker_id
    }
}

impl Keyed for RegisteredWorker {
    fn is_named(&self, name: &str) -> (r: bool) {
        text::same(self.worker_id.as_str(), name)
    }
}

/// A worker that just registered: nothing measured yet, accepting.
pub open spec fn fresh_entry(worker_id: Seq<char>, address: Seq<char>, now: i64) -> EntryV {
    EntryV {
        worker_id,
        address,
        last_heartbeat_ms: now,
        load_score: 0,
        lag_ms: 0,
        mem_permille: 0,
        cpu_permille: 0,
        can_accept: true,
    }
}

/// How a worker stands, given the registry.
pub open spec fn standing(workers: Seq<EntryV>, worker: Seq<char>) -> WorkerState {
    match named(workers, worker) {
        Some(e) => if e.can_accept { WorkerState::Healthy } else { WorkerState::Overloaded },
        None => WorkerState::Dead,
    }
}

/// How every worker stands, given the registry.
pub open spec fn standings(workers: Seq<EntryV>) -> spec_fn(Seq<char>) -> WorkerState {
    |w: Seq<char>| standing(workers, w)
}

impl WorkerEntry {
    /// A worker that just registered: nothing measured yet, accepting.
    pub fn new(address: String, now: i64) -> (r: Self)
        ensures
            forall|id: Seq<char>| #[trigger] entry_as(id, r) == fresh_entry(id, address@, now),
    {
        WorkerEntry {
            address,
            last_heartbeat_ms: now,
            load_score: 0,
            lag_ms: 0,
            mem_permille: 0,
            cpu_permille: 0,
            can_accept: true,
        }
    }

    /// Whether the worker accepts new tasks.
    pub fn state(&self) -> (r: WorkerState)
        ensures
            r == if self.can_accept { WorkerState::Healthy } else { WorkerState::Overloaded },
    {
        if self.can_accept {
            WorkerState::Healthy
        } else {
            WorkerState::Overloaded
        }
    }
}

/// The registered workers in the order of their first registration.
#[derive(Debug)]
pub struct WorkerRegistry {
    pub workers: Vec<RegisteredWorker>,
}

impl View for WorkerRegistry {
    type V = Seq<EntryV>;

    open spec fn view(&self) -> Seq<EntryV> {
        values(self.workers@)
    }
}

/// A registry without workers.
pub fn new_worker_registry() -> (r: WorkerRegistry)
    ensures
        r@ == Seq::<EntryV>::empty(),
{
    let r = WorkerRegistry { workers: Vec::new() };
    assert(r@ =~= Seq::empty());
    r
}

/// The registered workers as ids and addresses.
pub fn registry_snapshot(registry: &WorkerRegistry) -> (r: Vec<(String, String)>)
    ensures
        props::pairs_view(r@) == registry@.map_values(|e: EntryV| (e.worker_id, e.address)),
{
    let mut out: Vec<(String, String)> = Vec::new();
    let mut i: usize = 0;
    while i < registry.workers.len()
        invariant
            i <= registry.workers@.len(),
            out@.len() == i,
            forall|k: int|
                0 <= k < i ==> (#[trigger] out@[k]).0@ == registry.workers@[k].worker_id@ && out@[k].1@
                    == registry.workers@[k].entry.address@,
        decreases registry.workers@.len() - i,
    {
        let w = &registry.workers[i];
        out.push((w.worker_id.clone(), w.entry.address.clone()));
        i += 1;
    }
    assert(props::pairs_view(out@) =~= registry@.map_values(|e: EntryV| (e.worker_id, e.address)));
    out
}

/// Ids, addresses, load scores and admission behind a snapshot.
pub open spec fn admission_view(v: Seq<(String, String, u32, bool)>) -> Seq<(Seq<char>, Seq<char>, u32, bool)> {
    v.map_values(|e: (String, String, u32, bool)| (e.0@, e.1@, e.2, e.3))
}

/// The registered workers as ids, addresses, load scores and whether they accept.
pub fn registry_snapshot_admission(registry: &WorkerRegistry) -> (r: Vec<(String, String, u32, bool)>)
    ensures
        admission_view(r@) == registry@.map_values(
            |e: EntryV| (e.worker_id, e.address, e.load_score, e.can_accept),
        ),
{
    let mut out: Vec<(String, String, u32, bool)> = Vec::new();
    let mut i: usize = 0;
    while i < registry.workers.len()
        invariant
            i <= registry.workers@.len(),
            out@.len() == i,
            forall|k: int|
                0 <= k < i ==> {
                    &&& (#[trigger] out@[k]).0@ == registry.workers@[k].worker_id@
                    &&& out@[k].1@ == registry.workers@[k].entry.address@
                    &&& out@[k].2 == registry.workers@[k].entry.load_score
                    &&& out@[k].3 == registry.workers@[k].entry.can_accept
                },
        decreases registry.workers@.len() - i,
    {
        let w = &registry.workers[i];
        out.push((w.worker_id.clone(), w.entry.address.clone(), w.entry.load_score, w.entry.can_accept));
        i += 1;
    }
    assert(admission_view(out@) =~= registry@.map_values(
        |e: EntryV| (e.worker_id, e.address, e.load_score, e.can_accept),
    ));
    out
}

impl WorkerRegistry {
    /// Registers a worker, in place of an earlier one with its id.
    pub fn insert(&mut self, worker_id: String, entry: WorkerEntry)
        ensures
            final(self)@ == put(old(self)@, entry_as(worker_id@, entry)),
    {
        let name = worker_id.clone();
        keyed::put_item(&mut self.workers, name.as_str(), RegisteredWorker { worker_id, entry });
    }

    /// Removes a worker.
    pub fn remove(&mut self, worker_id: &str)
        ensures
            final(self)@ == match index_of(old(self)@, worker_id@) {
                Some(i) => old(self)@.remove(i),
                None => old(self)@,
            },
    {
        let ghost w = self@;
        if let Some(i) = keyed::find(&self.workers, worker_id) {
            self.workers.remove(i);
            assert(self@ =~= w.remove(i as int));
        }
    }

    /// Whether a worker is registered.
    pub fn contains(&self, worker_id: &str) -> (r: bool)
        ensures
            r == (index_of(self@, worker_id@) is Some),
    {
        keyed::find(&self.workers, worker_id).is_some()
    }

    /// How a worker stands.
    pub fn classify(&self, worker_id: &str) -> (r: WorkerState)
        ensures
            r == standing(self@, worker_id@),
    {
        match keyed::find(&self.workers, worker_id) {
            Some(i) => {
                assert(self@[i as int] == self.workers@[i as int]@);
                self.workers[i].entry.state()
            },
            None => WorkerState::Dead,
        }
    }

    /// The ids of the workers whose last heartbeat is more than `timeout_ms` ago.
    pub fn silent_workers(&self, timeout_ms: i64, now: i64) -> (r: Vec<String>)
        ensures
            text::views(r@) == silent(self@, timeout_ms, now),
    {
        let ghost w = self@;
        let mut out: Vec<String> = Vec::new();
        let mut i: usize = 0;
        proof {
            assert(w.take(0) =~= Seq::empty());
            assert(text::views(out@) =~= Seq::empty());
        }
        while i < self.workers.len()
            invariant
                i <= self.workers@.len(),
                w == values(self.workers@),
                text::views(out@) == silent(w.take(i as int), timeout_ms, now),
            decreases self.workers@.len() - i,
        {
            proof {
                assert(w.take(i + 1).drop_last() =~= w.take(i as int));
                assert(w.take(i + 1).last() == self.workers@[i as int]@);
            }
            let quiet: i128 = now as i128 - self.workers[i].entry.last_heartbeat_ms as i128;
            if quiet > timeout_ms as i128 {
                let ghost prev = out@;
                let id = self.workers[i].worker_id.clone();
                out.push(id);
                assert(text::views(out@) =~= text::views(prev).push(id@));
            }
            i += 1;
        }
        assert(w.take(w.len() as int) =~= w);
        out
    }
}

/// The workers whose last heartbeat is more than `timeout` ago.
pub open spec fn silent(w: Seq<EntryV>, timeout: i64, now: i64) -> Seq<Seq<char>>
    decreases w.len(),
{
    if w.len() == 0 {
        Seq::empty()
    } else {
        let h = silent(w.drop_last(), timeout, now);
        if now - w.last().last_heartbeat_ms > timeout {
            h.push(w.last().worker_id)
        } else {
            h
        }
    }
}

// ---------------------------------------------------------------------------
// The handler
// ---------------------------------------------------------------------------

/// Who this master is.
#[derive(Debug)]
pub struct MasterInfo {
    /// The address under which other nodes reach this master.
    pub advertise_addr: String,
    /// `master` or `hybrid`.
    pub role: String,
}

/// The tasks that were assigned, each with its worker.
#[derive(Debug)]
pub struct MasterState {
    pub task_assignments: Vec<(String, String)>,
}

impl Default for MasterState {
    fn default() -> (r: Self)
        ensures
            r.task_assignments@.len() == 0,
    {
        MasterState { task_assignments: Vec::new() }
    }
}

/// `p` without the entries of `key`.
pub open spec fn pairs_without(p: Pairs, key: Seq<char>) -> Pairs
    decreases p.len(),
{
    if p.len() == 0 {
        p
    } else {
        let h = pairs_without(p.drop_last(), key);
        if p.last().0 == key { h } else { h.push(p.last()) }
    }
}

/// What `key` stands for in `p`, in order.
pub open spec fn pairs_of(p: Pairs, key: Seq<char>) -> Seq<Seq<char>>
    decreases p.len(),
{
    if p.len() == 0 {
        Seq::empty()
    } else {
        let h = pairs_of(p.drop_last(), key);
        if p.last().0 == key { h.push(p.last().1) } else { h }
    }
}

/// Takes out the entries of `key` and returns what they stand for.
pub(crate) fn take_pairs(list: &mut Vec<(String, String)>, key: &str) -> (r: Vec<String>)
    ensures
        props::pairs_view(final(list)@) == pairs_without(props::pairs_view(old(list)@), key@),
        text::views(r@) == pairs_of(props::pairs_view(old(list)@), key@),
{
    let ghost p = props::pairs_view(list@);
    let mut kept: Vec<(String, String)> = Vec::new();
    let mut out: Vec<String> = Vec::new();
    let mut i: usize = 0;
    proof {
        assert(p.take(0) =~= Seq::empty());
        assert(text::views(out@) =~= Seq::empty());
        assert(props::pairs_view(kept@) =~= Seq::empty());
    }
    while i < list.len()
        invariant
            i <= list@.len(),
            list@ == old(list)@,
            p == props::pairs_view(list@),
            props::pairs_view(kept@) == pairs_without(p.take(i as int), key@),
            text::views(out@) == pairs_of(p.take(i as int), key@),
        decreases list@.len() - i,
    {
        proof {
            assert(p.take(i + 1).drop_last() =~= p.take(i as int));
            assert(p.take(i + 1).last() == (list@[i as int].0@, list@[i as int].1@));
        }
        let a = list[i].0.clone();
        let b = list[i].1.clone();
        if text::same(a.as_str(), key) {
            let ghost prev = out@;
            out.push(b);
            assert(text::views(out@) =~= text::views(prev).push(b@));
        } else {
            let ghost prev = kept@;
            kept.push((a, b));
            assert(props::pairs_view(kept@) =~= props::pairs_view(prev).push((a@, b@)));
        }
        i += 1;
    }
    assert(p.take(p.len() as int) =~= p);
    *list = kept;
    out
}

/// Tasks that are missing from their worker's heartbeats, each with its worker and
/// the time of the first heartbeat that lacked it.
pub type Since = Seq<((Seq<char>, Seq<char>), i64)>;

/// The tasks, workers and times behind a list.
pub open spec fn since_view(v: Seq<((String, String), i64)>) -> Since {
    v.map_values(|e: ((String, String), i64)| ((e.0.0@, e.0.1@), e.1))
}

/// The master's service.
#[derive(Debug)]
pub struct MasterHandler {
    pub coordinator: JobCoordinator,
    pub workers: WorkerRegistry,
    pub state: MasterState,
    pub info: MasterInfo,
    /// Tasks that workers are to stop, each behind its worker.
    pub preemptions: Vec<(String, String)>,
    /// When each active task was first missing from its worker's reports, by the
    /// task and that worker.
    pub lost_since: Vec<((String, String), i64)>,
    pub heartbeat_interval_ms: u64,
    pub worker_soft_timeout_ms: u64,
    pub dispatch_batch_limit: u32,
    pub cancel_force_timeout_ms: u64,
    pub lost_grace_ms: i64,
}

/// The mathematical value of the master's service.
#[verifier::ext_equal]
pub struct MasterV {
    pub coordinator: CoordinatorV,
    pub workers: Seq<EntryV>,
    pub assignments: Pairs,
    pub advertise: Seq<char>,
    pub role: Seq<char>,
    pub preemptions: Pairs,
    pub lost_since: Since,
    pub heartbeat: u64,
    pub soft_timeout: u64,
    pub batch_limit: u32,
    pub force_timeout: u64,
    pub grace: i64,
}

impl View for MasterHandler {
    type V = MasterV;

    open spec fn view(&self) -> MasterV {
        MasterV {
            coordinator: self.coordinator@,
            workers: self.workers@,
            assignments: props::pairs_view(self.state.task_assignments@),
            advertise: self.info.advertise_addr@,
            role: self.info.role@,
            preemptions: props::pairs_view(self.preemptions@),
            lost_since: since_view(self.lost_since@),
            heartbeat: self.heartbeat_interval_ms,
            soft_timeout: self.worker_soft_timeout_ms,
            batch_limit: self.dispatch_batch_limit,
            force_timeout: self.cancel_force_timeout_ms,
            grace: self.lost_grace_ms,
        }
    }
}

/// `n` held between two bounds.
pub open spec fn clamped(n: int, low: int, high: int) -> int {
    if n < low { low } else if n > high { high } else { n }
}

/// How long a task may be missing from its worker's heartbeats: six periods, at
/// least half a minute.
pub open spec fn grace_of(heartbeat: u64) -> int {
    if heartbeat * 6 > 30_000 { heartbeat * 6 } else { 30_000 }
}

/// Whether the master's times are within their bounds.
pub open spec fn well_timed(m: MasterV) -> bool {
    &&& 250 <= m.heartbeat <= 60_000
    &&& m.soft_timeout >= 1_000
    &&& m.force_timeout >= 30_000
    &&& m.grace == grace_of(m.heartbeat)
}

/// The time for which something has lasted, as far as it can be told.
pub open spec fn elapsed(now: i64, since: i64) -> int {
    clamped(now - since, i64::MIN as int, i64::MAX as int)
}

/// Since when a task is missing at a worker.
pub open spec fn missing_since(l: Since, task: (Seq<char>, Seq<char>)) -> Option<i64>
    decreases l.len(),
{
    if l.len() == 0 {
        None
    } else {
        match missing_since(l.drop_last(), task) {
            Some(t) => Some(t),
            None => if l.last().0 == task { Some(l.last().1) } else { None },
        }
    }
}

/// `l` without a task of a worker.
pub open spec fn since_without(l: Since, task: (Seq<char>, Seq<char>)) -> Since
    decreases l.len(),
{
    if l.len() == 0 {
        l
    } else {
        let h = since_without(l.drop_last(), task);
        if l.last().0 == task { h } else { h.push(l.last()) }
    }
}

/// A stuck task and the worker that has it.
pub open spec fn place_of(m: StuckV) -> (Seq<char>, Seq<char>) {
    (m.task_id, m.worker_id)
}

/// Whether a task is pinned on a worker: it is with the worker, and its job is not
/// over.
pub open spec fn is_pinned(jobs: Seq<JobV>, task: Seq<char>, worker: Seq<char>) -> bool {
    stuck_ids(lost_of_jobs(jobs, worker, Seq::empty(), false)).contains(task)
}

/// Whether a note of a missing task outlives a heartbeat. One of the worker's own
/// tasks does while the task is expected and not reported; one of another worker's
/// does while the task is pinned there.
pub open spec fn stays_noted(
    place: (Seq<char>, Seq<char>),
    jobs: Seq<JobV>,
    worker: Seq<char>,
    reported: Seq<Seq<char>>,
) -> bool {
    if place.1 == worker {
        !reported.contains(place.0) && stuck_ids(lost_of_jobs(jobs, worker, reported, false)).contains(place.0)
    } else {
        is_pinned(jobs, place.0, place.1)
    }
}

/// The tasks that are still missing after a worker's heartbeat.
pub open spec fn still_missing(l: Since, jobs: Seq<JobV>, worker: Seq<char>, reported: Seq<Seq<char>>) -> Since
    decreases l.len(),
{
    if l.len() == 0 {
        l
    } else {
        let h = still_missing(l.drop_last(), jobs, worker, reported);
        if stays_noted(l.last().0, jobs, worker, reported) { h.push(l.last()) } else { h }
    }
}

/// Missing tasks one after the other: a new one is noted, and one that has been
/// missing for the grace period is due.
pub open spec fn watched(l: Since, missing: Seq<StuckV>, now: i64, grace: i64) -> (Since, Seq<StuckV>)
    decreases missing.len(),
{
    if missing.len() == 0 {
        (l, Seq::empty())
    } else {
        let h = watched(l, missing.drop_last(), now, grace);
        let m = missing.last();
        let noted = match missing_since(h.0, place_of(m)) {
            Some(_) => h.0,
            None => h.0.push((place_of(m), now)),
        };
        let since = match missing_since(h.0, place_of(m)) {
            Some(t) => t,
            None => now,
        };
        if elapsed(now, since) >= grace {
            (since_without(noted, place_of(m)), h.1.push(m))
        } else {
            (noted, h.1)
        }
    }
}

/// What a worker's heartbeat that reports `reported` makes of the missing tasks:
/// those that stay noted, and those that are due. Other workers' tasks are left as
/// they are.
pub open spec fn graced(
    l: Since,
    jobs: Seq<JobV>,
    worker: Seq<char>,
    reported: Seq<Seq<char>>,
    now: i64,
    grace: i64,
) -> (Since, Seq<StuckV>) {
    watched(
        still_missing(l, jobs, worker, reported),
        lost_of_jobs(jobs, worker, reported, false),
        now,
        grace,
    )
}

fn retain_missing(
    list: &Vec<((String, String), i64)>,
    coordinator: &JobCoordinator,
    worker_id: &str,
    reported: &Vec<String>,
    missing: &Vec<StuckTask>,
) -> (r: Vec<((String, String), i64)>)
    requires
        values(missing@) == lost_of_jobs(coordinator@.jobs, worker_id@, text::views(reported@), false),
    ensures
        since_view(r@) == still_missing(
            since_view(list@),
            coordinator@.jobs,
            worker_id@,
            text::views(reported@),
        ),
{
    let ghost l = since_view(list@);
    let ghost rep = text::views(reported@);
    let ghost jobs = coordinator@.jobs;
    let none: Vec<String> = Vec::new();
    let mut out: Vec<((String, String), i64)> = Vec::new();
    let mut i: usize = 0;
    proof {
        assert(l.take(0) =~= Seq::empty());
        assert(since_view(out@) =~= Seq::empty());
        assert(text::views(none@) =~= Seq::empty());
    }
    while i < list.len()
        invariant
            i <= list@.len(),
            l == since_view(list@),
            rep == text::views(reported@),
            jobs == coordinator@.jobs,
            text::views(none@) == Seq::<Seq<char>>::empty(),
            values(missing@) == lost_of_jobs(jobs, worker_id@, rep, false),
            since_view(out@) == still_missing(l.take(i as int), jobs, worker_id@, rep),
        decreases list@.len() - i,
    {
        proof {
            assert(l.take(i + 1).drop_last() =~= l.take(i as int));
            assert(l.take(i + 1).last() == ((list@[i as int].0.0@, list@[i as int].0.1@), list@[i as int].1));
        }
        let task = list[i].0.0.as_str();
        let stays: bool = if text::same(list[i].0.1.as_str(), worker_id) {
            !text::holds(reported, task) && is_stuck(missing, task)
        } else {
            let pinned = coordinator.reconcile_lost_active_tasks(list[i].0.1.as_str(), &none);
            is_stuck(&pinned, task)
        };
        if stays {
            let ghost prev = out@;
            let e = copy_since(&list[i]);
            out.push(e);
            assert(since_view(out@) =~= since_view(prev).push(((e.0.0@, e.0.1@), e.1)));
        }
        i += 1;
    }
    assert(l.take(l.len() as int) =~= l);
    out
}

fn is_stuck(missing: &Vec<StuckTask>, task_id: &str) -> (r: bool)
    ensures
        r == stuck_ids(values(missing@)).contains(task_id@),
{
    let ghost ids = stuck_ids(values(missing@));
    let mut i: usize = 0;
    while i < missing.len()
        invariant
            i <= missing@.len(),
            ids == stuck_ids(values(missing@)),
            forall|k: int| 0 <= k < i ==> #[trigger] ids[k] != task_id@,
        decreases missing@.len() - i,
    {
        assert(ids[i as int] == missing@[i as int].task_id@);
        if text::same(missing[i].task_id.as_str(), task_id) {
            return true;
        }
        i += 1;
    }
    false
}

fn find_since(list: &Vec<((String, String), i64)>, task_id: &str, worker_id: &str) -> (r: Option<i64>)
    ensures
        r == missing_since(since_view(list@), (task_id@, worker_id@)),
{
    let ghost l = since_view(list@);
    let mut i: usize = 0;
    assert(l.take(0) =~= Seq::empty());
    while i < list.len()
        invariant
            i <= list@.len(),
            l == since_view(list@),
            missing_since(l.take(i as int), (task_id@, worker_id@)) is None,
        decreases list@.len() - i,
    {
        proof {
            assert(l.take(i + 1).drop_last() =~= l.take(i as int));
            assert(l.take(i + 1).last() == ((list@[i as int].0.0@, list@[i as int].0.1@), list@[i as int].1));
        }
        if text::same(list[i].0.0.as_str(), task_id) && text::same(list[i].0.1.as_str(), worker_id) {
            proof {
                lemma_missing_since_stays(l, i + 1, (task_id@, worker_id@));
            }
            return Some(list[i].1);
        }
        i += 1;
    }
    assert(l.take(l.len() as int) =~= l);
    None
}

proof fn lemma_missing_since_stays(l: Since, n: int, task: (Seq<char>, Seq<char>))
    requires
        0 <= n <= l.len(),
        missing_since(l.take(n), task) is Some,
    ensures
        missing_since(l, task) == missing_since(l.take(n), task),
    decreases l.len() - n,
{
    if n < l.len() {
        assert(l.take(n + 1).drop_last() =~= l.take(n));
        lemma_missing_since_stays(l, n + 1, task);
    } else {
        assert(l.take(n) =~= l);
    }
}

fn copy_since(e: &((String, String), i64)) -> (r: ((String, String), i64))
    ensures
        r.0.0@ == e.0.0@,
        r.0.1@ == e.0.1@,
        r.1 == e.1,
{
    ((e.0.0.clone(), e.0.1.clone()), e.1)
}

fn drop_since(list: &Vec<((String, String), i64)>, task_id: &str, worker_id: &str) -> (r: Vec<((String, String), i64)>)
    ensures
        since_view(r@) == since_without(since_view(list@), (task_id@, worker_id@)),
{
    let ghost l = since_view(list@);
    let mut out: Vec<((String, String), i64)> = Vec::new();
    let mut i: usize = 0;
    proof {
        assert(l.take(0) =~= Seq::empty());
        assert(since_view(out@) =~= Seq::empty());
    }
    while i < list.len()
        invariant
            i <= list@.len(),
            l == since_view(list@),
            since_view(out@) == since_without(l.take(i as int), (task_id@, worker_id@)),
        decreases list@.len() - i,
    {
        proof {
            assert(l.take(i + 1).drop_last() =~= l.take(i as int));
            assert(l.take(i + 1).last() == ((list@[i as int].0.0@, list@[i as int].0.1@), list@[i as int].1));
        }
        if !(text::same(list[i].0.0.as_str(), task_id) && text::same(list[i].0.1.as_str(), worker_id)) {
            let ghost prev = out@;
            let e = copy_since(&list[i]);
            out.push(e);
            assert(since_view(out@) =~= since_view(prev).push(((e.0.0@, e.0.1@), e.1)));
        }
        i += 1;
    }
    assert(l.take(l.len() as int) =~= l);
    out
}

fn copy_stuck(s: &StuckTask) -> (r: StuckTask)
    ensures
        r@ == s@,
{
    StuckTask {
        job_id: s.job_id.clone(),
        task_id: s.task_id.clone(),
        worker_id: s.worker_id.clone(),
        processed_records: s.processed_records,
    }
}

impl MasterHandler {
    /// A master over a coordinator and a registry. The heartbeat period is held
    /// between a quarter of a second and a minute, the soft timeout is at least a
    /// second.
    pub fn new(
        coordinator: JobCoordinator,
        workers: WorkerRegistry,
        info: MasterInfo,
        heartbeat_interval_ms: u64,
        worker_soft_timeout_ms: u64,
    ) -> (r: Self)
        ensures
            well_timed(r@),
            ({
                let hb = clamped(heartbeat_interval_ms as int, 250, 60_000) as u64;
                r@ == (MasterV {
                    coordinator: coordinator@,
                    workers: workers@,
                    assignments: Seq::empty(),
                    advertise: info.advertise_addr@,
                    role: info.role@,
                    preemptions: Seq::empty(),
                    lost_since: Seq::empty(),
                    heartbeat: hb,
                    soft_timeout: if worker_soft_timeout_ms < 1_000 { 1_000 } else { worker_soft_timeout_ms },
                    batch_limit: 16,
                    force_timeout: 300_000,
                    grace: grace_of(hb) as i64,
                })
            }),
    {
        let hb: u64 = if heartbeat_interval_ms < 250 {
            250
        } else if heartbeat_interval_ms > 60_000 {
            60_000
        } else {
            heartbeat_interval_ms
        };
        let six: u64 = hb * 6;
        let r = MasterHandler {
            coordinator,
            workers,
            state: MasterState { task_assignments: Vec::new() },
            info,
            preemptions: Vec::new(),
            lost_since: Vec::new(),
            heartbeat_interval_ms: hb,
            worker_soft_timeout_ms: if worker_soft_timeout_ms < 1_000 { 1_000 } else { worker_soft_timeout_ms },
            dispatch_batch_limit: 16,
            cancel_force_timeout_ms: 300_000,
            lost_grace_ms: if six > 30_000 { six as i64 } else { 30_000 },
        };
        assert(r@.assignments =~= Seq::empty());
        assert(r@.preemptions =~= Seq::empty());
        assert(r@.lost_since =~= Seq::empty());
        r
    }

    /// A master that applies its changes itself.
    pub fn new_direct(
        coordinator: JobCoordinator,
        workers: WorkerRegistry,
        info: MasterInfo,
        heartbeat_interval_ms: u64,
        worker_soft_timeout_ms: u64,
    ) -> (r: Self)
        ensures
            well_timed(r@),
            ({
                let hb = clamped(heartbeat_interval_ms as int, 250, 60_000) as u64;
                r@ == (MasterV {
                    coordinator: coordinator@,
                    workers: workers@,
                    assignments: Seq::empty(),
                    advertise: info.advertise_addr@,
                    role: info.role@,
                    preemptions: Seq::empty(),
                    lost_since: Seq::empty(),
                    heartbeat: hb,
                    soft_timeout: if worker_soft_timeout_ms < 1_000 { 1_000 } else { worker_soft_timeout_ms },
                    batch_limit: 16,
                    force_timeout: 300_000,
                    grace: grace_of(hb) as i64,
                })
            }),
    {
        MasterHandler::new(coordinator, workers, info, heartbeat_interval_ms, worker_soft_timeout_ms)
    }

    /// Sets how many tasks one heartbeat hands out at most; 0 sets no bound.
    pub fn with_dispatch_batch_limit(self, limit: u32) -> (r: Self)
        ensures
            r@ == (MasterV { batch_limit: limit, ..self@ }),
    {
        let mut r = self;
        r.dispatch_batch_limit = limit;
        r
    }

    /// Sets how long a cancelled job's tasks may take to end, at least half a
    /// minute.
    pub fn with_cancel_force_timeout(self, ms: u64) -> (r: Self)
        ensures
            r@ == (MasterV { force_timeout: if ms < 30_000 { 30_000 } else { ms }, ..self@ }),
    {
        let mut r = self;
        r.cancel_force_timeout_ms = if ms < 30_000 { 30_000 } else { ms };
        r
    }

    /// How long a cancelled job's tasks may take to end.
    pub fn cancel_force_timeout_ms(&self) -> (r: u64)
        ensures
            r == self@.force_timeout,
    {
        self.cancel_force_timeout_ms
    }

    /// The heartbeat period that workers are told.
    pub fn heartbeat_interval_ms(&self) -> (r: u64)
        ensures
            r == self@.heartbeat,
    {
        self.heartbeat_interval_ms
    }

    /// How long a worker may be silent and still be handed tasks.
    pub fn worker_soft_timeout_ms(&self) -> (r: u64)
        ensures
            r == self@.soft_timeout,
    {
        self.worker_soft_timeout_ms
    }

    /// How many tasks one heartbeat hands out at most; 0 sets no bound.
    pub fn dispatch_batch_limit(&self) -> (r: u32)
        ensures
            r == self@.batch_limit,
    {
        self.dispatch_batch_limit
    }

    /// The coordinator.
    pub fn coordinator(&self) -> (r: &JobCoordinator)
        ensures
            r@ == self@.coordinator,
    {
        &self.coordinator
    }

    /// The registry of workers.
    pub fn worker_registry(&self) -> (r: &WorkerRegistry)
        ensures
            r@ == self@.workers,
    {
        &self.workers
    }

    /// Who this master is.
    pub fn info(&self) -> (r: &MasterInfo)
        ensures
            r.advertise_addr@ == self@.advertise,
    {
        &self.info
    }

    /// How a worker stands.
    pub fn classify(&self, worker_id: &str) -> (r: WorkerState)
        ensures
            r == standing(self@.workers, worker_id@),
    {
        self.workers.classify(worker_id)
    }

    /// The tasks that are with a worker and that have been missing from its
    /// heartbeats for the grace period: lost work of an earlier process. A task
    /// that is reported again, or that is no longer expected, starts anew. The
    /// heartbeats of other workers do not count.
    pub fn reconcile_heartbeat_lost_tasks(
        &mut self,
        worker_id: &str,
        reported: &Vec<String>,
        now_ms: i64,
    ) -> (r: Vec<StuckTask>)
        ensures
            ({
                let g = graced(
                    old(self)@.lost_since,
                    old(self)@.coordinator.jobs,
                    worker_id@,
                    text::views(reported@),
                    now_ms,
                    old(self)@.grace,
                );
                values(r@) == g.1 && final(self)@ == (MasterV { lost_since: g.0, ..old(self)@ })
            }),
    {
        let missing = self.coordinator.reconcile_lost_active_tasks(worker_id, reported);
        let ghost mv = values(missing@);
        let grace: i64 = self.lost_grace_ms;
        let mut seen = retain_missing(&self.lost_since, &self.coordinator, worker_id, reported, &missing);
        let ghost l = since_view(seen@);
        let mut due: Vec<StuckTask> = Vec::new();
        let mut i: usize = 0;
        proof {
            assert(mv.take(0) =~= Seq::empty());
            assert(values(due@) =~= Seq::empty());
        }
        while i < missing.len()
            invariant
                i <= missing@.len(),
                mv == values(missing@),
                (since_view(seen@), values(due@)) == watched(l, mv.take(i as int), now_ms, grace),
            decreases missing@.len() - i,
        {
            proof {
                assert(mv.take(i + 1).drop_last() =~= mv.take(i as int));
                assert(mv.take(i + 1).last() == missing@[i as int]@);
            }
            let id = missing[i].task_id.clone();
            let owner = missing[i].worker_id.clone();
            let since: i64 = match find_since(&seen, id.as_str(), owner.as_str()) {
                Some(t) => t,
                None => {
                    let ghost prev = seen@;
                    let place = (id.clone(), owner.clone());
                    seen.push((place, now_ms));
                    assert(since_view(seen@) =~= since_view(prev).push(((id@, owner@), now_ms)));
                    now_ms
                },
            };
            if at_least(now_ms, since, grace) {
                seen = drop_since(&seen, id.as_str(), owner.as_str());
                let ghost prev = due@;
                let m = copy_stuck(&missing[i]);
                due.push(m);
                assert(values(due@) =~= values(prev).push(m@));
            }
            i += 1;
        }
        assert(mv.take(mv.len() as int) =~= mv);
        self.lost_since = seen;
        due
    }
}

fn at_least(now: i64, since: i64, span: i64) -> (r: bool)
    ensures
        r == (elapsed(now, since) >= span),
{
    let d: i128 = now as i128 - since as i128;
    let c: i128 = if d < i64::MIN as i128 {
        i64::MIN as i128
    } else if d > i64::MAX as i128 {
        i64::MAX as i128
    } else {
        d
    };
    c >= span as i128
}

} // verus!
