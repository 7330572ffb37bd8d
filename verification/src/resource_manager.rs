//! Registered workers and their load.

use vstd::prelude::*;

use crate::keyed;
use crate::keyed::{index_of, named, put, values, Keyed, Named};
use crate::text;

verus! {

/// A worker and its capacity.
#[derive(Debug)]
pub struct WorkerInfo {
    pub worker_id: String,
    pub address: String,
    pub cpu_cores: u32,
    pub memory_bytes: u64,
    pub running_tasks: u32,
    pub last_heartbeat: i64,
}

/// The mathematical value of a worker.
#[verifier::ext_equal]
pub struct WorkerV {
    pub worker_id: Seq<char>,
    pub address: Seq<char>,
    pub cpu_cores: u32,
    pub memory_bytes: u64,
    pub running_tasks: u32,
    pub last_heartbeat: i64,
}

impl View for WorkerInfo {
    type V = WorkerV;

    open spec fn view(&self) -> WorkerV {
        WorkerV {
            worker_id: self.worker_id@,
            address: self.address@,
            cpu_cores: self.cpu_cores,
            memory_bytes: self.memory_bytes,
            running_tasks: self.running_tasks,
            last_heartbeat: self.last_heartbeat,
        }
    }
}

impl Named for WorkerV {
    open spec fn name(self) -> Seq<char> {
        self.worker_id
    }
}

impl Keyed for WorkerInfo {
    fn is_named(&self, name: &str) -> (r: bool) {
        text::same(self.worker_id.as_str(), name)
    }
}

/// The position of the first worker with the fewest running tasks.
pub open spec fn least_loaded(w: Seq<WorkerV>) -> Option<int>
    decreases w.len(),
{
    if w.len() == 0 {
        None
    } else {
        match least_loaded(w.drop_last()) {
            Some(i) => if w.last().running_tasks < w[i].running_tasks { Some(w.len() - 1) } else { Some(i) },
            None => Some(0),
        }
    }
}

/// No worker has fewer running tasks than the one that is chosen.
pub proof fn law_least_loaded(w: Seq<WorkerV>)
    requires
        w.len() > 0,
    ensures
        least_loaded(w) matches Some(i) && 0 <= i < w.len() && (forall|k: int|
            0 <= k < w.len() ==> w[i].running_tasks <= (#[trigger] w[k]).running_tasks),
    decreases w.len(),
{
    let d = w.drop_last();
    assert(least_loaded(Seq::<WorkerV>::empty()) is None);
    if d.len() == 0 {
        assert(d =~= Seq::empty());
    } else {
        law_least_loaded(d);
        let i = least_loaded(w)->0;
        assert forall|k: int| 0 <= k < w.len() implies w[i].running_tasks <= (#[trigger] w[k]).running_tasks by {
            if k < d.len() {
                assert(d[k] == w[k]);
            }
        }
    }
}

/// Tracks the registered workers.
#[derive(Debug)]
pub struct ResourceManager {
    workers: Vec<WorkerInfo>,
}

impl View for ResourceManager {
    type V = Seq<WorkerV>;

    closed spec fn view(&self) -> Seq<WorkerV> {
        values(self.workers@)
    }
}

impl ResourceManager {
    /// No workers.
    pub fn new() -> (r: Self)
        ensures
            r@ == Seq::<WorkerV>::empty(),
    {
        let r = ResourceManager { workers: Vec::new() };
        assert(r@ =~= Seq::empty());
        r
    }

    /// Registers a worker, in place of an earlier one with its id.
    pub fn register_worker(&mut self, worker_id: String, address: String, cpu_cores: u32, memory_bytes: u64)
        ensures
            final(self)@ == put(
                old(self)@,
                (WorkerV {
                    worker_id: worker_id@,
                    address: address@,
                    cpu_cores,
                    memory_bytes,
                    running_tasks: 0,
                    last_heartbeat: 0,
                }),
            ),
    {
        let name = worker_id.clone();
        keyed::put_item(
            &mut self.workers,
            name.as_str(),
            WorkerInfo { worker_id, address, cpu_cores, memory_bytes, running_tasks: 0, last_heartbeat: 0 },
        );
    }

    /// Removes a worker.
    pub fn remove_worker(&mut self, worker_id: &str)
        ensures
            final(self)@ == match index_of(old(self)@, worker_id@) {
                Some(i) => old(self)@.remove(i),
                None => old(self)@,
            },
    {
        let ghost w = self@;
        if let Some(i) = keyed::find(&self.workers, worker_id) {
            self.workers.remove(i);
            assert(self@ =~= w.remove(i as int));
        }
    }

    /// Notes the time of a worker's heartbeat.
    pub fn update_heartbeat(&mut self, worker_id: &str, timestamp: i64)
        ensures
            final(self)@ == match index_of(old(self)@, worker_id@) {
                Some(i) => old(self)@.update(i, WorkerV { last_heartbeat: timestamp, ..old(self)@[i] }),
                None => old(self)@,
            },
    {
        let ghost w = self@;
        if let Some(i) = keyed::find(&self.workers, worker_id) {
            assert(w[i as int] == self.workers@[i as int]@);
            self.workers[i].last_heartbeat = timestamp;
            assert(self@ =~= w.update(i as int, WorkerV { last_heartbeat: timestamp, ..w[i as int] }));
        }
    }

    /// Assigns a task to the worker with the fewest running tasks.
    pub fn assign_task(&mut self) -> (r: Option<(String, String)>)
        requires
            least_loaded(old(self)@) matches Some(i) ==> old(self)@[i].running_tasks < u32::MAX,
        ensures
            match (r, least_loaded(old(self)@)) {
                (Some(p), Some(i)) => {
                    let w = old(self)@[i];
                    &&& p.0@ == w.worker_id
                    &&& p.1@ == w.address
                    &&& final(self)@ == old(self)@.update(i, WorkerV { running_tasks: (w.running_tasks + 1) as u32, ..w })
                },
                (None, None) => final(self)@ == old(self)@,
                _ => false,
            },
    {
        let ghost w = self@;
        if self.workers.len() == 0 {
            return None;
        }
        let mut best: usize = 0;
        let mut i: usize = 1;
        proof {
            let empty = Seq::<WorkerV>::empty();
            assert(least_loaded(empty) is None);
            assert(w.take(1).drop_last() =~= empty);
            assert(least_loaded(w.take(1)) == Some(0int));
        }
        while i < self.workers.len()
            invariant
                1 <= i <= self.workers@.len(),
                best < i,
                w == values(self.workers@),
                least_loaded(w.take(i as int)) == Some(best as int),
            decreases self.workers@.len() - i,
        {
            proof {
                assert(w.take(i + 1).drop_last() =~= w.take(i as int));
                assert(w[i as int] == self.workers@[i as int]@);
                assert(w[best as int] == self.workers@[best as int]@);
            }
            if self.workers[i].running_tasks < self.workers[best].running_tasks {
                best = i;
            }
            i += 1;
        }
        proof {
            assert(w.take(w.len() as int) =~= w);
            assert(w[best as int] == self.workers@[best as int]@);
        }
        let id = self.workers[best].worker_id.clone();
        let address = self.workers[best].address.clone();
        let n: u32 = self.workers[best].running_tasks + 1;
        self.workers[best].running_tasks = n;
        assert(self@ =~= w.update(best as int, WorkerV { running_tasks: n, ..w[best as int] }));
        Some((id, address))
    }

    /// Ids and addresses of all workers.
    pub fn get_workers(&self) -> (r: Vec<(String, String)>)
        ensures
            crate::props::pairs_view(r@) == self@.map_values(|w: WorkerV| (w.worker_id, w.address)),
    {
        let mut out: Vec<(String, String)> = Vec::new();
        let mut i: usize = 0;
        while i < self.workers.len()
            invariant
                i <= self.workers@.len(),
                out@.len() == i,
                forall|k: int|
                    0 <= k < i ==> (#[trigger] out@[k]).0@ == self.workers@[k].worker_id@ && out@[k].1@
                        == self.workers@[k].address@,
            decreases self.workers@.len() - i,
        {
            let id = self.workers[i].worker_id.clone();
            let address = self.workers[i].address.clone();
            out.push((id, address));
            i += 1;
        }
        assert(crate::props::pairs_view(out@) =~= self@.map_values(|w: WorkerV| (w.worker_id, w.address)));
        out
    }

    /// The number of workers.
    pub fn worker_count(&self) -> (r: usize)
        ensures
            r == self@.len(),
    {
        self.workers.len()
    }

    /// Whether a worker has ever sent a heartbeat.
    pub fn is_worker_alive(&self, worker_id: &str, _timeout_ms: i64) -> (r: bool)
        ensures
            r == match named(self@, worker_id@) {
                Some(w) => w.last_heartbeat > 0,
                None => false,
            },
    {
        match keyed::find(&self.workers, worker_id) {
            Some(i) => {
                assert(self@[i as int] == self.workers@[i as int]@);
                self.workers[i].last_heartbeat > 0
            },
            None => false,
        }
    }
}

} // verus!
