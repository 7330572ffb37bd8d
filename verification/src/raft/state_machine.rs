//! The coordinator behind the replicated log: entries are applied in order, and
//! snapshots carry the whole state.

use vstd::prelude::*;

use crate::command::{applied, Command, CommandResult, CommandV};
use crate::job_coordinator::{CoordinatorV, JobCoordinator, MASTER_RETAINED};
use crate::keyed::values;
use crate::raft::log_store::LogId;
use crate::replication::{exported, merged, StateSnapshot};
use crate::text;

verus! {

/// What an entry of the log carries.
#[derive(Debug)]
pub enum Payload {
    /// Nothing: a new leader marks its term with it.
    Blank,
    /// The voters from here on.
    Membership(Vec<u64>),
    /// A change of the coordinator.
    Normal(Command),
}

/// An entry of the log.
#[derive(Debug)]
pub struct Entry {
    pub log_id: LogId,
    pub payload: Payload,
}

/// The mathematical value of a payload.
#[verifier::ext_equal]
pub enum PayloadV {
    Blank,
    Membership(Seq<u64>),
    Normal(CommandV),
}

impl View for Payload {
    type V = PayloadV;

    open spec fn view(&self) -> PayloadV {
        match self {
            Payload::Blank => PayloadV::Blank,
            Payload::Membership(v) => PayloadV::Membership(v@),
            Payload::Normal(c) => PayloadV::Normal(c@),
        }
    }
}

/// The mathematical value of an entry.
pub type LoggedV = (LogId, PayloadV);

impl View for Entry {
    type V = LoggedV;

    open spec fn view(&self) -> LoggedV {
        (self.log_id, self.payload@)
    }
}

/// The coordinator with the place in the log that it has reached.
#[derive(Debug)]
pub struct CoordinatorStateMachine {
    pub coordinator: JobCoordinator,
    pub last_applied: Option<LogId>,
    /// The voters, and the entry that set them.
    pub membership: Vec<u64>,
    pub membership_log_id: Option<LogId>,
}

/// The mathematical value of the state machine.
#[verifier::ext_equal]
pub struct MachineV {
    pub coordinator: CoordinatorV,
    pub last_applied: Option<LogId>,
    pub membership: Seq<u64>,
    pub membership_log_id: Option<LogId>,
}

impl View for CoordinatorStateMachine {
    type V = MachineV;

    open spec fn view(&self) -> MachineV {
        MachineV {
            coordinator: self.coordinator@,
            last_applied: self.last_applied,
            membership: self.membership@,
            membership_log_id: self.membership_log_id,
        }
    }
}

/// The state machine after an entry.
pub open spec fn stepped(m: MachineV, e: LoggedV, now: i64) -> MachineV {
    match e.1 {
        PayloadV::Blank => MachineV { last_applied: Some(e.0), ..m },
        PayloadV::Membership(v) => MachineV {
            membership: v,
            membership_log_id: Some(e.0),
            last_applied: Some(e.0),
            ..m
        },
        PayloadV::Normal(c) => MachineV {
            coordinator: applied(m.coordinator, c, now),
            last_applied: Some(e.0),
            ..m
        },
    }
}

/// The state machine after some entries.
pub open spec fn stepped_all(m: MachineV, es: Seq<LoggedV>, now: i64) -> MachineV
    decreases es.len(),
{
    if es.len() == 0 {
        m
    } else {
        stepped(stepped_all(m, es.drop_last(), now), es.last(), now)
    }
}

/// A snapshot of the state machine.
#[derive(Debug)]
pub struct MachineSnapshot {
    pub state: StateSnapshot,
    pub snapshot_id: String,
    pub last_log_id: Option<LogId>,
    pub membership: Vec<u64>,
    pub membership_log_id: Option<LogId>,
}

/// The id of a snapshot that reaches to an entry.
pub open spec fn snapshot_id_of(last: Option<LogId>) -> Seq<char> {
    "snapshot-"@ + text::decimal_text(
        match last {
            Some(id) => id.index as nat,
            None => 0,
        },
    )
}

fn copy_ids(v: &Vec<u64>) -> (r: Vec<u64>)
    ensures
        r@ == v@,
{
    let mut out: Vec<u64> = Vec::new();
    let mut i: usize = 0;
    while i < v.len()
        invariant
            i <= v@.len(),
            out@ == v@.take(i as int),
        decreases v@.len() - i,
    {
        out.push(v[i]);
        assert(v@.take(i + 1) =~= v@.take(i as int).push(v@[i as int]));
        i += 1;
    }
    assert(v@.take(v@.len() as int) =~= v@);
    out
}

impl CoordinatorStateMachine {
    /// A state machine that has applied nothing.
    pub fn new(coordinator: JobCoordinator) -> (r: Self)
        ensures
            r@ == (MachineV {
                coordinator: coordinator@,
                last_applied: None,
                membership: Seq::empty(),
                membership_log_id: None,
            }),
    {
        CoordinatorStateMachine { coordinator, last_applied: None, membership: Vec::new(), membership_log_id: None }
    }

    /// The last entry that was applied, and the entry that set the voters.
    pub fn applied_state(&self) -> (r: (Option<LogId>, Option<LogId>))
        ensures
            r == (self@.last_applied, self@.membership_log_id),
    {
        (self.last_applied, self.membership_log_id)
    }

    /// Applies entries in order and returns a result for each.
    pub fn apply(&mut self, entries: &Vec<Entry>, now: i64) -> (r: Vec<CommandResult>)
        ensures
            final(self)@ == stepped_all(old(self)@, values(entries@), now),
            r@.len() == entries@.len(),
            forall|i: int| 0 <= i < r@.len() ==> #[trigger] r@[i] == CommandResult::Done,
    {
        let ghost m = self@;
        let ghost ev = values(entries@);
        let mut out: Vec<CommandResult> = Vec::new();
        let mut i: usize = 0;
        assert(ev.take(0) =~= Seq::empty());
        while i < entries.len()
            invariant
                i <= entries@.len(),
                ev == values(entries@),
                self@ == stepped_all(m, ev.take(i as int), now),
                out@.len() == i,
                forall|k: int| 0 <= k < out@.len() ==> #[trigger] out@[k] == CommandResult::Done,
            decreases entries@.len() - i,
        {
            let e = &entries[i];
            proof {
                assert(ev.take(i + 1).drop_last() =~= ev.take(i as int));
                assert(ev.take(i + 1).last() == e@);
            }
            let result = match &e.payload {
                Payload::Blank => CommandResult::Done,
                Payload::Membership(v) => {
                    self.membership = copy_ids(v);
                    self.membership_log_id = Some(e.log_id);
                    CommandResult::Done
                },
                Payload::Normal(cmd) => self.coordinator.apply_command(cmd, now),
            };
            self.last_applied = Some(e.log_id);
            out.push(result);
            i += 1;
        }
        assert(ev.take(ev.len() as int) =~= ev);
        out
    }

    /// A snapshot of the whole state.
    pub fn build_snapshot(&self) -> (r: MachineSnapshot)
        ensures
            r.state@ == exported(self@.coordinator),
            r.snapshot_id@ == snapshot_id_of(self@.last_applied),
            r.last_log_id == self@.last_applied,
            r.membership@ == self@.membership,
            r.membership_log_id == self@.membership_log_id,
    {
        let index: u64 = match self.last_applied {
            Some(id) => id.index,
            None => 0,
        };
        let number = text::decimal(index);
        MachineSnapshot {
            state: self.coordinator.export_state(),
            snapshot_id: text::join2("snapshot-", number.as_str()),
            last_log_id: self.last_applied,
            membership: copy_ids(&self.membership),
            membership_log_id: self.membership_log_id,
        }
    }

    /// Takes a snapshot in place of the whole state, as a member does that has
    /// fallen behind or was started again. The fencing term never falls.
    pub fn install_snapshot(&mut self, snapshot: &MachineSnapshot)
        ensures
            final(self)@ == (MachineV {
                coordinator: merged(
                    (CoordinatorV {
                        jobs: Seq::empty(),
                        tasks: Seq::empty(),
                        store: Seq::empty(),
                        term: old(self)@.coordinator.term,
                        pending: Seq::empty(),
                        outbox: Seq::empty(),
                        keep: MASTER_RETAINED as nat,
                    }),
                    snapshot.state@,
                ),
                last_applied: snapshot.last_log_id,
                membership: snapshot.membership@,
                membership_log_id: snapshot.last_log_id,
            }),
    {
        self.coordinator.replace_state(&snapshot.state);
        self.membership = copy_ids(&snapshot.membership);
        self.membership_log_id = snapshot.last_log_id;
        self.last_applied = snapshot.last_log_id;
    }
}

/// A member that applies the log in two parts comes to the state of one that
/// applies it at once.
pub proof fn law_log_replay(m: MachineV, first: Seq<LoggedV>, second: Seq<LoggedV>, now: i64)
    ensures
        stepped_all(stepped_all(m, first, now), second, now) == stepped_all(m, first + second, now),
    decreases second.len(),
{
    if second.len() == 0 {
        assert(first + second =~= first);
    } else {
        law_log_replay(m, first, second.drop_last(), now);
        assert((first + second).drop_last() =~= first + second.drop_last());
    }
}

/// What was applied last is the last entry.
pub proof fn law_last_applied(m: MachineV, es: Seq<LoggedV>, now: i64)
    ensures
        stepped_all(m, es, now).last_applied == if es.len() == 0 { m.last_applied } else { Some(es.last().0) },
{
}

} // verus!
