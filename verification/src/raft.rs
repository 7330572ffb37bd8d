//! High availability by consensus: the coordinator's durable state is the state
//! machine behind a replicated log of commands. Agreement itself, elections and
//! the network are the consensus engine's; what is here is what surrounds it.

use vstd::prelude::*;

use crate::command::{applied, Command, CommandResult};
use crate::job_coordinator::{CoordinatorV, JobCoordinator};
use crate::text;

pub mod log_store;
pub mod network;
pub mod state_machine;

verus! {

/// Bounds of the election timeout, the heartbeat period and the time for a
/// snapshot in milliseconds.
pub const ELECTION_TIMEOUT_MIN_MS: u64 = 800;

pub const ELECTION_TIMEOUT_MAX_MS: u64 = 1_600;

pub const HEARTBEAT_INTERVAL_MS: u64 = 150;

pub const INSTALL_SNAPSHOT_TIMEOUT_MS: u64 = 5_000;

/// Entries in one message.
pub const MAX_PAYLOAD_ENTRIES: u64 = 256;

/// Entries between two snapshots.
pub const SNAPSHOT_EVERY_N_LOGS: u64 = 4_096;

/// Seconds after which a member other than the first sets the cluster up.
pub const BOOTSTRAP_DELAY_SECS: u64 = 5;

// ---------------------------------------------------------------------------
// Members
// ---------------------------------------------------------------------------

/// Why a list of members cannot vote.
#[derive(Debug, Clone, Copy, PartialEq, Eq, Structural)]
pub enum VoterError {
    /// There is none.
    Empty,
    /// An even number of voters has no majority once half of them are gone.
    Even(usize),
}

/// What a voter error says.
pub open spec fn voter_message(e: VoterError) -> Seq<char> {
    match e {
        VoterError::Empty => "empty member list: at least one master/hybrid node is required"@,
        VoterError::Even(n) => text::decimal_text(n as nat)
            + " masters configured: voter counts must be odd (1, 3, 5, ...) — two voters cannot reach a majority after either node fails, which would reintroduce the dual-master risk this design eliminates"@,
    }
}

impl VoterError {
    /// What the error says.
    pub fn message(&self) -> (r: String)
        ensures
            r@ == voter_message(*self),
    {
        match self {
            VoterError::Empty => text::owned("empty member list: at least one master/hybrid node is required"),
            VoterError::Even(n) => {
                let number = text::decimal(*n as u64);
                text::join2(
                    number.as_str(),
                    " masters configured: voter counts must be odd (1, 3, 5, ...) — two voters cannot reach a majority after either node fails, which would reintroduce the dual-master risk this design eliminates",
                )
            },
        }
    }
}

/// Accepts a number of voters: one, or an odd number.
pub fn validate_voters(count: usize) -> (r: Result<(), VoterError>)
    ensures
        r == if count == 0 {
            Err(VoterError::Empty)
        } else if count % 2 == 0 {
            Err(VoterError::Even(count))
        } else {
            Ok(())
        },
{
    if count == 0 {
        return Err(VoterError::Empty);
    }
    if count > 1 && count % 2 == 0 {
        return Err(VoterError::Even(count));
    }
    Ok(())
}

/// With an accepted number of voters, a majority survives the failure of any
/// minority: what is left after fewer than half have failed is more than half.
pub proof fn law_accepted_voters(count: nat, failed: nat)
    requires
        count % 2 == 1,
        failed <= count,
    ensures
        failed <= (count - 1) / 2 <==> count - failed > count / 2,
{
}

/// The voters by their ids, which count from 1 in the order of the addresses.
#[derive(Debug)]
pub struct Members {
    pub nodes: Vec<String>,
}

impl View for Members {
    type V = Seq<Seq<char>>;

    open spec fn view(&self) -> Seq<Seq<char>> {
        text::views(self.nodes@)
    }
}

/// The address of a member.
pub open spec fn address_of(members: Seq<Seq<char>>, id: u64) -> Option<Seq<char>> {
    if 1 <= id <= members.len() { Some(members[id - 1]) } else { None }
}

/// The voters at some addresses.
pub fn members_from_addresses(addresses: &Vec<String>) -> (r: Members)
    ensures
        r@ == text::views(addresses@),
{
    Members { nodes: text::copy_list(addresses) }
}

impl Members {
    /// The number of voters.
    pub fn len(&self) -> (r: usize)
        ensures
            r == self@.len(),
    {
        self.nodes.len()
    }

    /// The address of a member.
    pub fn get(&self, id: u64) -> (r: Option<&String>)
        ensures
            match r {
                Some(a) => address_of(self@, id) == Some(a@),
                None => address_of(self@, id) is None,
            },
    {
        if id >= 1 && id - 1 < self.nodes.len() as u64 {
            Some(&self.nodes[(id - 1) as usize])
        } else {
            None
        }
    }
}

/// How a member joins the cluster.
#[derive(Debug, Clone, Copy, PartialEq, Eq, Structural)]
pub enum Bootstrap {
    /// The cluster is set up already.
    Nothing,
    /// Set the cluster up now.
    Initialize,
    /// Wait this many seconds, and set the cluster up if nobody has.
    InitializeAfter(u64),
}

/// How a member joins: the first one sets the cluster up, the others wait for it,
/// and take over when it does not appear.
pub fn bootstrap(node_id: u64, initialized: bool) -> (r: Bootstrap)
    ensures
        r == if initialized {
            Bootstrap::Nothing
        } else if node_id == 1 {
            Bootstrap::Initialize
        } else {
            Bootstrap::InitializeAfter(BOOTSTRAP_DELAY_SECS)
        },
{
    if initialized {
        Bootstrap::Nothing
    } else if node_id == 1 {
        Bootstrap::Initialize
    } else {
        Bootstrap::InitializeAfter(BOOTSTRAP_DELAY_SECS)
    }
}

// ---------------------------------------------------------------------------
// Who leads
// ---------------------------------------------------------------------------

/// What a node knows of the leader.
#[derive(Debug, Clone, Copy, PartialEq, Eq, Structural)]
pub struct LeaderState {
    pub term: u64,
    /// The leader's id; none during an election.
    pub leader_id: Option<u64>,
}

impl Default for LeaderState {
    fn default() -> (r: Self)
        ensures
            r == (LeaderState { term: 0, leader_id: None }),
    {
        LeaderState { term: 0, leader_id: None }
    }
}

impl LeaderState {
    /// Takes what the consensus engine knows, and raises the coordinator's fencing
    /// term to the engine's: workers then refuse a master of a lower term.
    pub fn observe(&mut self, term: u64, leader_id: Option<u64>, coordinator: &mut JobCoordinator)
        ensures
            *final(self) == (LeaderState { term, leader_id }),
            final(coordinator)@ == (CoordinatorV {
                term: if term > old(coordinator)@.term { term } else { old(coordinator)@.term },
                ..old(coordinator)@
            }),
            final(coordinator).checkpoint_store == old(coordinator).checkpoint_store,
    {
        self.term = term;
        self.leader_id = leader_id;
        coordinator.observe_term(term);
    }
}

/// Whether a node may take changes and hand out tasks, and where the one is that
/// may.
pub trait WritePath {
    spec fn leads(&self) -> bool;

    spec fn hint(&self) -> Seq<char>;

    /// Whether this node leads.
    fn is_leader(&self) -> (r: bool)
        ensures
            r == self.leads(),
    ;

    /// The leader's address; empty when this node leads or nobody is known to.
    fn leader_hint(&self) -> (r: String)
        ensures
            r@ == self.hint(),
    ;
}

/// Changes of a single master: they are applied at once, and it always leads.
#[derive(Debug)]
pub struct DirectWrite {
    pub coordinator: JobCoordinator,
}

impl DirectWrite {
    /// A write path over a coordinator.
    pub fn new(coordinator: JobCoordinator) -> (r: Self)
        ensures
            r.coordinator == coordinator,
    {
        DirectWrite { coordinator }
    }

    /// Applies a change.
    pub fn propose(&mut self, cmd: &Command, now: i64) -> (r: CommandResult)
        ensures
            r == CommandResult::Done,
            final(self).coordinator@ == applied(old(self).coordinator@, cmd@, now),
            final(self).coordinator.checkpoint_store == old(self).coordinator.checkpoint_store,
    {
        self.coordinator.apply_command(cmd, now)
    }
}

impl WritePath for DirectWrite {
    open spec fn leads(&self) -> bool {
        true
    }

    open spec fn hint(&self) -> Seq<char> {
        Seq::empty()
    }

    fn is_leader(&self) -> (r: bool) {
        true
    }

    fn leader_hint(&self) -> (r: String) {
        String::new()
    }
}

/// Changes of a member of a cluster: they go through the log, at the leader only.
#[derive(Debug)]
pub struct RaftWrite {
    pub my_id: u64,
    pub members: Members,
    pub leader: LeaderState,
}

impl RaftWrite {
    /// The write path of a member.
    pub fn new(my_id: u64, members: Members, leader: LeaderState) -> (r: Self)
        ensures
            r.my_id == my_id,
            r.members == members,
            r.leader == leader,
    {
        RaftWrite { my_id, members, leader }
    }
}

impl WritePath for RaftWrite {
    open spec fn leads(&self) -> bool {
        self.leader.leader_id == Some(self.my_id)
    }

    open spec fn hint(&self) -> Seq<char> {
        match self.leader.leader_id {
            Some(id) => if id == self.my_id {
                Seq::empty()
            } else {
                match address_of(self.members@, id) {
                    Some(a) => a,
                    None => Seq::empty(),
                }
            },
            None => Seq::empty(),
        }
    }

    fn is_leader(&self) -> (r: bool) {
        match self.leader.leader_id {
            Some(l) => l == self.my_id,
            None => false,
        }
    }

    fn leader_hint(&self) -> (r: String) {
        match self.leader.leader_id {
            Some(id) => if id == self.my_id {
                String::new()
            } else {
                match self.members.get(id) {
                    Some(a) => a.clone(),
                    None => String::new(),
                }
            },
            None => String::new(),
        }
    }
}

/// Of members that know the same leader at most one leads, and the others send
/// their clients to its address.
pub proof fn law_one_leader(a: RaftWrite, b: RaftWrite)
    requires
        a.leader.leader_id == b.leader.leader_id,
        a.members@ == b.members@,
        a.my_id != b.my_id,
    ensures
        !(a.leads() && b.leads()),
        a.leads() && 1 <= a.my_id <= a.members@.len() ==> b.hint() == a.members@[a.my_id - 1],
{
}

} // verus!
