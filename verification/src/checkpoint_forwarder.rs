//! What a worker does with what its tasks report of checkpoints: the state is
//! persisted first, and then the master is told.

use vstd::prelude::*;

use crate::keyed;
use crate::keyed::{index_of, named, values};
use crate::master_service::CheckpointReport;
use crate::text;
use crate::worker::{GateV, WorkerNode, WorkerV};

verus! {

/// What a task reports.
#[derive(Debug)]
pub enum TaskToDriver {
    /// It took a checkpoint.
    Checkpoint { task_id: String, checkpoint_id: u64, reader_state: Vec<u8> },
    /// It could not take one.
    CheckpointFailed { task_id: String, checkpoint_id: u64 },
    /// Its sinks committed one.
    CommitDone { task_id: String, checkpoint_id: u64 },
    /// It has ended.
    Done { task_id: String },
}

/// The mathematical value of a task's report.
pub enum MessageV {
    Checkpoint(Seq<char>, u64, Seq<u8>),
    CheckpointFailed(Seq<char>, u64),
    CommitDone(Seq<char>, u64),
    Done(Seq<char>),
}

impl View for TaskToDriver {
    type V = MessageV;

    open spec fn view(&self) -> MessageV {
        match self {
            TaskToDriver::Checkpoint { task_id, checkpoint_id, reader_state } => MessageV::Checkpoint(
                task_id@,
                *checkpoint_id,
                reader_state@,
            ),
            TaskToDriver::CheckpointFailed { task_id, checkpoint_id } => MessageV::CheckpointFailed(
                task_id@,
                *checkpoint_id,
            ),
            TaskToDriver::CommitDone { task_id, checkpoint_id } => MessageV::CommitDone(task_id@, *checkpoint_id),
            TaskToDriver::Done { task_id } => MessageV::Done(task_id@),
        }
    }
}

/// What is to be done about a report.
#[derive(Debug)]
pub enum ForwardAction {
    /// Write the state to the worker's disk.
    Persist { job_id: String, task_id: String, checkpoint_id: u64, data: Vec<u8> },
    /// Write the state to the shared object store.
    Share { job_id: String, task_id: String, checkpoint_id: u64, data: Vec<u8> },
    /// Tell the master, under the highest term seen.
    Report { report: CheckpointReport, term: u64 },
}

/// The mathematical value of what is to be done.
#[verifier::ext_equal]
pub enum ForwardV {
    Persist(Seq<char>, Seq<char>, u64, Seq<u8>),
    Share(Seq<char>, Seq<char>, u64, Seq<u8>),
    Report { job_id: Seq<char>, task_id: Seq<char>, checkpoint_id: i64, success: bool, prepare: bool, data: Seq<u8>, term: u64 },
}

impl View for ForwardAction {
    type V = ForwardV;

    open spec fn view(&self) -> ForwardV {
        match self {
            ForwardAction::Persist { job_id, task_id, checkpoint_id, data } => ForwardV::Persist(
                job_id@,
                task_id@,
                *checkpoint_id,
                data@,
            ),
            ForwardAction::Share { job_id, task_id, checkpoint_id, data } => ForwardV::Share(
                job_id@,
                task_id@,
                *checkpoint_id,
                data@,
            ),
            ForwardAction::Report { report, term } => ForwardV::Report {
                job_id: report.job_id@,
                task_id: report.task_id@,
                checkpoint_id: report.checkpoint_id,
                success: report.success,
                prepare: report.prepare,
                data: report.checkpoint_data@,
                term: *term,
            },
        }
    }
}

/// Where checkpoints are shared.
#[derive(Debug, Clone, Copy, PartialEq, Eq, Structural)]
pub struct CheckpointForwarder {
    /// With the master: the bytes go along with the report.
    pub upload_to_master: bool,
    /// With the shared object store.
    pub write_to_s3: bool,
}

/// The job of a task that can be told of checkpoints.
pub open spec fn job_of(gates: Seq<GateV>, task: Seq<char>) -> Option<Seq<char>> {
    match named(gates, task) {
        Some(g) => Some(g.job_id),
        None => None,
    }
}

/// What is to be done about a checkpoint that was taken: persist it, share it, and
/// then tell the master.
pub open spec fn taken(
    f: CheckpointForwarder,
    job: Seq<char>,
    task: Seq<char>,
    id: u64,
    data: Seq<u8>,
    term: u64,
) -> Seq<ForwardV> {
    let report = ForwardV::Report {
        job_id: job,
        task_id: task,
        checkpoint_id: id as i64,
        success: true,
        prepare: true,
        data: if f.upload_to_master { data } else { Seq::empty() },
        term,
    };
    if f.write_to_s3 {
        seq![ForwardV::Persist(job, task, id, data), ForwardV::Share(job, task, id, data), report]
    } else {
        seq![ForwardV::Persist(job, task, id, data), report]
    }
}

/// What a report makes of a worker, and what is to be done about it. A task that
/// has ended is not heard any more.
pub open spec fn forwarded(f: CheckpointForwarder, w: WorkerV, m: MessageV) -> (WorkerV, Seq<ForwardV>) {
    match m {
        MessageV::Checkpoint(task, id, data) => match job_of(w.gates, task) {
            Some(job) => (w, taken(f, job, task, id, data, w.term)),
            None => (w, Seq::empty()),
        },
        MessageV::CheckpointFailed(task, id) => match job_of(w.gates, task) {
            Some(job) => if job.len() > 0 {
                (
                    w,
                    seq![
                        ForwardV::Report {
                            job_id: job,
                            task_id: task,
                            checkpoint_id: id as i64,
                            success: false,
                            prepare: true,
                            data: Seq::empty(),
                            term: w.term,
                        },
                    ],
                )
            } else {
                (w, Seq::empty())
            },
            None => (w, Seq::empty()),
        },
        MessageV::CommitDone(_, _) => (w, Seq::empty()),
        MessageV::Done(task) => (
            WorkerV {
                gates: match index_of(w.gates, task) {
                    Some(i) => w.gates.remove(i),
                    None => w.gates,
                },
                ..w
            },
            Seq::empty(),
        ),
    }
}

/// The same for some reports, in order.
pub open spec fn forwarded_all(f: CheckpointForwarder, w: WorkerV, ms: Seq<MessageV>) -> (WorkerV, Seq<ForwardV>)
    decreases ms.len(),
{
    if ms.len() == 0 {
        (w, Seq::empty())
    } else {
        let h = forwarded_all(f, w, ms.drop_last());
        let r = forwarded(f, h.0, ms.last());
        (r.0, h.1 + r.1)
    }
}

fn job_behind(worker: &WorkerNode, task_id: &str) -> (r: Option<String>)
    ensures
        match r {
            Some(j) => job_of(worker@.gates, task_id@) == Some(j@),
            None => job_of(worker@.gates, task_id@) is None,
        },
{
    match keyed::find(&worker.checkpoint_gates, task_id) {
        Some(i) => {
            assert(worker@.gates[i as int] == worker.checkpoint_gates@[i as int]@);
            Some(worker.checkpoint_gates[i].job_id.clone())
        },
        None => None,
    }
}

impl CheckpointForwarder {
    /// A forwarder for a storage type; the object store is there when it could be
    /// set up.
    pub fn new(storage_type: &str, has_s3: bool) -> (r: Self)
        ensures
            r.upload_to_master == (storage_type@ == "master"@),
            r.write_to_s3 == has_s3,
    {
        CheckpointForwarder { upload_to_master: text::same(storage_type, "master"), write_to_s3: has_s3 }
    }

    /// Takes a report, and returns what is to be done about it, in order.
    pub fn forward(&self, worker: &mut WorkerNode, message: &TaskToDriver) -> (r: Vec<ForwardAction>)
        ensures
            (final(worker)@, values(r@)) == forwarded(*self, old(worker)@, message@),
    {
        let mut out: Vec<ForwardAction> = Vec::new();
        let ghost w = worker@;
        assert(values(out@) =~= Seq::<ForwardV>::empty());
        match message {
            TaskToDriver::Checkpoint { task_id, checkpoint_id, reader_state } => {
                match job_behind(worker, task_id.as_str()) {
                    Some(job) => {
                        let id: u64 = *checkpoint_id;
                        let state = reader_state.as_slice();
                        out.push(
                            ForwardAction::Persist {
                                job_id: job.clone(),
                                task_id: task_id.clone(),
                                checkpoint_id: id,
                                data: crate::checkpoint_store::bytes_of(state),
                            },
                        );
                        if self.write_to_s3 {
                            out.push(
                                ForwardAction::Share {
                                    job_id: job.clone(),
                                    task_id: task_id.clone(),
                                    checkpoint_id: id,
                                    data: crate::checkpoint_store::bytes_of(state),
                                },
                            );
                        }
                        let data = if self.upload_to_master {
                            crate::checkpoint_store::bytes_of(state)
                        } else {
                            Vec::new()
                        };
                        let ghost jv = job@;
                        let ghost dv = data@;
                        out.push(
                            ForwardAction::Report {
                                report: CheckpointReport {
                                    job_id: job,
                                    task_id: task_id.clone(),
                                    checkpoint_id: id as i64,
                                    success: true,
                                    prepare: true,
                                    checkpoint_data: data,
                                },
                                term: worker.term,
                            },
                        );
                        proof {
                            assert(!self.upload_to_master ==> dv =~= Seq::<u8>::empty());
                            assert(values(out@) =~= taken(*self, jv, task_id@, id, reader_state@, w.term));
                        }
                    },
                    None => {},
                }
            },
            TaskToDriver::CheckpointFailed { task_id, checkpoint_id } => {
                match job_behind(worker, task_id.as_str()) {
                    Some(job) => {
                        if !job.as_str().is_empty() {
                            let none: Vec<u8> = Vec::new();
                            let ghost jv = job@;
                            out.push(
                                ForwardAction::Report {
                                    report: CheckpointReport {
                                        job_id: job,
                                        task_id: task_id.clone(),
                                        checkpoint_id: *checkpoint_id as i64,
                                        success: false,
                                        prepare: true,
                                        checkpoint_data: none,
                                    },
                                    term: worker.term,
                                },
                            );
                            assert(none@ =~= Seq::<u8>::empty());
                            assert(values(out@) =~= forwarded(*self, w, message@).1);
                        }
                    },
                    None => {},
                }
            },
            TaskToDriver::CommitDone { .. } => {},
            TaskToDriver::Done { task_id } => {
                worker.remove_checkpoint_gate(task_id.as_str());
            },
        }
        out
    }

    /// Takes some reports, one after the other.
    pub fn run(&self, worker: &mut WorkerNode, messages: &Vec<TaskToDriver>) -> (r: Vec<ForwardAction>)
        ensures
            (final(worker)@, values(r@)) == forwarded_all(*self, old(worker)@, values(messages@)),
    {
        let ghost w = worker@;
        let ghost mv = values(messages@);
        let mut out: Vec<ForwardAction> = Vec::new();
        let mut i: usize = 0;
        proof {
            assert(mv.take(0) =~= Seq::empty());
            assert(values(out@) =~= Seq::<ForwardV>::empty());
        }
        while i < messages.len()
            invariant
                i <= messages@.len(),
                mv == values(messages@),
                (worker@, values(out@)) == forwarded_all(*self, w, mv.take(i as int)),
            decreases messages@.len() - i,
        {
            proof {
                assert(mv.take(i + 1).drop_last() =~= mv.take(i as int));
                assert(mv.take(i + 1).last() == messages@[i as int]@);
            }
            let ghost before = out@;
            let mut more = self.forward(worker, &messages[i]);
            let ghost added = more@;
            out.append(&mut more);
            assert(values(out@) =~= values(before) + values(added));
            i += 1;
        }
        assert(mv.take(mv.len() as int) =~= mv);
        out
    }
}

/// The master is told of a checkpoint only after its state was written to the
/// worker's disk.
pub proof fn law_persisted_before_reported(
    f: CheckpointForwarder,
    job: Seq<char>,
    task: Seq<char>,
    id: u64,
    data: Seq<u8>,
    term: u64,
)
    ensures
        ({
            let a = taken(f, job, task, id, data, term);
            &&& a.len() >= 2
            &&& a[0] == ForwardV::Persist(job, task, id, data)
            &&& a.last() is Report
            &&& forall|i: int| 0 <= i < a.len() - 1 ==> !(#[trigger] a[i] is Report)
        }),
{
}

/// A task that has ended is not heard any more: a report that comes after its
/// farewell asks for nothing.
pub proof fn law_nothing_after_the_farewell(f: CheckpointForwarder, w: WorkerV, task: Seq<char>, id: u64, data: Seq<u8>)
    requires
        keyed::distinct(w.gates),
    ensures
        ({
            let gone = forwarded(f, w, MessageV::Done(task)).0;
            &&& forwarded(f, gone, MessageV::Checkpoint(task, id, data)).1 == Seq::<ForwardV>::empty()
            &&& forwarded(f, gone, MessageV::CheckpointFailed(task, id)).1 == Seq::<ForwardV>::empty()
        }),
{
    let gone = forwarded(f, w, MessageV::Done(task)).0;
    keyed::lemma_index_of(w.gates, task);
    keyed::lemma_index_of(gone.gates, task);
    match index_of(w.gates, task) {
        Some(i) => {
            match index_of(gone.gates, task) {
                Some(k) => {
                    let m = if k < i { k } else { k + 1 };
                    assert(gone.gates[k] == w.gates[m]);
                    if m < i {
                        assert(crate::keyed::Named::name(w.gates[m]) != crate::keyed::Named::name(w.gates[i]));
                    } else {
                        assert(crate::keyed::Named::name(w.gates[i]) != crate::keyed::Named::name(w.gates[m]));
                    }
                },
                None => {},
            }
        },
        None => {},
    }
}

} // verus!
