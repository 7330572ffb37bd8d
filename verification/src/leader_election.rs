//! Timeout-based leader election and cluster membership. Times are milliseconds
//! of a monotonic clock that the caller reads.

use vstd::prelude::*;

use crate::job::opt_view;
use crate::text;

verus! {

/// Role of a node in the cluster.
#[derive(Debug, Clone, Copy, PartialEq, Eq, Structural)]
pub enum Role {
    Leader,
    Follower,
    Candidate,
}

/// Leader election state of one node.
#[derive(Debug)]
pub struct LeaderElection {
    my_id: String,
    role: Role,
    term: u64,
    voted_for: Option<String>,
    heartbeat_interval: u64,
    election_timeout: u64,
    last_heartbeat: u64,
    peers: Vec<String>,
}

/// The mathematical value of the election state.
#[verifier::ext_equal]
pub struct ElectionV {
    pub my_id: Seq<char>,
    pub role: Role,
    pub term: u64,
    pub voted_for: Option<Seq<char>>,
    pub heartbeat_interval: u64,
    pub election_timeout: u64,
    pub last_heartbeat: u64,
    pub peers: Seq<Seq<char>>,
}

impl View for LeaderElection {
    type V = ElectionV;

    closed spec fn view(&self) -> ElectionV {
        ElectionV {
            my_id: self.my_id@,
            role: self.role,
            term: self.term,
            voted_for: opt_view(self.voted_for),
            heartbeat_interval: self.heartbeat_interval,
            election_timeout: self.election_timeout,
            last_heartbeat: self.last_heartbeat,
            peers: text::views(self.peers@),
        }
    }
}

/// Whether a node grants its vote: the term is new, and the node has not voted
/// for anybody else.
pub open spec fn grants(e: ElectionV, candidate: Seq<char>, term: u64) -> bool {
    term > e.term && (e.voted_for is None || e.voted_for == Some(candidate))
}

/// A node after a vote request.
pub open spec fn after_vote(e: ElectionV, candidate: Seq<char>, term: u64) -> ElectionV {
    if grants(e, candidate, term) {
        ElectionV { term, voted_for: Some(candidate), ..e }
    } else {
        e
    }
}

/// A node after a leader's heartbeat.
pub open spec fn after_heartbeat(e: ElectionV, leader: Seq<char>, now: u64) -> ElectionV {
    if e.role is Leader {
        e
    } else {
        ElectionV { last_heartbeat: now, role: Role::Follower, voted_for: Some(leader), ..e }
    }
}

impl LeaderElection {
    /// A follower of term 0 that has voted for nobody.
    pub fn new(
        my_id: String,
        peers: Vec<String>,
        heartbeat_interval_ms: u64,
        election_timeout_ms: u64,
        now: u64,
    ) -> (r: Self)
        ensures
            r@ == (ElectionV {
                my_id: my_id@,
                role: Role::Follower,
                term: 0,
                voted_for: None,
                heartbeat_interval: heartbeat_interval_ms,
                election_timeout: election_timeout_ms,
                last_heartbeat: now,
                peers: text::views(peers@),
            }),
    {
        LeaderElection {
            my_id,
            role: Role::Follower,
            term: 0,
            voted_for: None,
            heartbeat_interval: heartbeat_interval_ms,
            election_timeout: election_timeout_ms,
            last_heartbeat: now,
            peers,
        }
    }

    /// The current role.
    pub fn role(&self) -> (r: Role)
        ensures
            r == self@.role,
    {
        self.role
    }

    /// The id of the leader, as far as the node knows it: its own when it leads.
    pub fn leader_id(&self) -> (r: Option<String>)
        ensures
            opt_view(r) == if self@.role is Leader {
                Some(self@.my_id)
            } else {
                None
            },
    {
        match self.role {
            Role::Leader => Some(self.my_id.clone()),
            _ => None,
        }
    }

    /// The current term.
    pub fn term(&self) -> (r: u64)
        ensures
            r == self@.term,
    {
        self.term
    }

    /// Takes a heartbeat of a leader; a leader itself takes none.
    pub fn receive_heartbeat(&mut self, from_leader: String, now: u64) -> (r: bool)
        ensures
            r == !(old(self)@.role is Leader),
            final(self)@ == after_heartbeat(old(self)@, from_leader@, now),
    {
        match self.role {
            Role::Leader => false,
            _ => {
                self.last_heartbeat = now;
                self.role = Role::Follower;
                self.voted_for = Some(from_leader);
                true
            },
        }
    }

    /// Answers a candidate's vote request.
    pub fn request_vote(&mut self, candidate_id: String, candidate_term: u64) -> (r: bool)
        ensures
            r == grants(old(self)@, candidate_id@, candidate_term),
            final(self)@ == after_vote(old(self)@, candidate_id@, candidate_term),
    {
        if candidate_term <= self.term {
            return false;
        }
        let other: bool = match &self.voted_for {
            Some(voted) => !text::same(voted.as_str(), candidate_id.as_str()),
            None => false,
        };
        if other {
            return false;
        }
        self.term = candidate_term;
        self.voted_for = Some(candidate_id);
        true
    }

    /// Whether the leader has been silent for longer than the election timeout.
    pub fn should_start_election(&self, now: u64) -> (r: bool)
        ensures
            r == (!(self@.role is Leader) && now - self@.last_heartbeat > self@.election_timeout),
    {
        match self.role {
            Role::Leader => false,
            _ => {
                let elapsed: u64 = if now > self.last_heartbeat { now - self.last_heartbeat } else { 0 };
                elapsed > self.election_timeout
            },
        }
    }

    /// Becomes the leader of a new term.
    pub fn become_leader(&mut self, now: u64)
        requires
            old(self)@.term < u64::MAX,
        ensures
            final(self)@ == (ElectionV {
                term: (old(self)@.term + 1) as u64,
                role: Role::Leader,
                voted_for: Some(old(self)@.my_id),
                last_heartbeat: now,
                ..old(self)@
            }),
    {
        self.term = self.term + 1;
        self.role = Role::Leader;
        self.voted_for = Some(self.my_id.clone());
        self.last_heartbeat = now;
    }

    /// Becomes a candidate of a new term.
    pub fn become_candidate(&mut self)
        requires
            old(self)@.term < u64::MAX,
        ensures
            final(self)@ == (ElectionV {
                term: (old(self)@.term + 1) as u64,
                role: Role::Candidate,
                voted_for: Some(old(self)@.my_id),
                ..old(self)@
            }),
    {
        self.term = self.term + 1;
        self.role = Role::Candidate;
        self.voted_for = Some(self.my_id.clone());
    }
}

/// A node that granted its vote refuses every other candidate, whatever its term,
/// and grants the same one only for a higher term; its term never falls.
pub proof fn law_one_vote(e: ElectionV, candidate: Seq<char>, term: u64, other: Seq<char>, later: u64)
    requires
        grants(e, candidate, term),
    ensures
        other != candidate ==> !grants(after_vote(e, candidate, term), other, later),
        grants(after_vote(e, candidate, term), candidate, later) <==> later > term,
        after_vote(e, candidate, term).term == term,
        after_vote(e, candidate, term).term > e.term,
{
}

/// Cluster members and the size of a majority.
#[derive(Debug)]
pub struct Membership {
    members: Vec<String>,
    quorum_size: usize,
}

/// The number of votes that is a majority of `n` members.
pub open spec fn majority(n: nat) -> nat {
    n / 2 + 1
}

impl Membership {
    /// The members.
    pub closed spec fn list(&self) -> Seq<Seq<char>> {
        text::views(self.members@)
    }

    #[verifier::type_invariant]
    closed spec fn quorum_is_a_majority(self) -> bool {
        self.quorum_size == majority(self.members@.len())
    }

    /// A cluster of these members.
    pub fn new(members: Vec<String>) -> (r: Self)
        ensures
            r.list() == text::views(members@),
    {
        let n: usize = members.len();
        let quorum_size: usize = n / 2 + 1;
        Membership { members, quorum_size }
    }

    /// The number of votes that a decision takes.
    pub fn quorum_size(&self) -> (r: usize)
        ensures
            r == majority(self.list().len()),
    {
        proof {
            use_type_invariant(self);
        }
        self.quorum_size
    }

    /// The number of members.
    pub fn member_count(&self) -> (r: usize)
        ensures
            r == self.list().len(),
    {
        self.members.len()
    }

    /// Whether so many votes carry a decision.
    pub fn is_quorum(&self, votes: usize) -> (r: bool)
        ensures
            r == (votes >= majority(self.list().len())),
    {
        proof {
            use_type_invariant(self);
        }
        votes >= self.quorum_size
    }
}

/// Two majorities of one membership share a member.
pub proof fn law_majorities_intersect(members: Set<int>, a: Set<int>, b: Set<int>)
    requires
        members.finite(),
        a.subset_of(members),
        b.subset_of(members),
        a.len() >= majority(members.len()),
        b.len() >= majority(members.len()),
    ensures
        exists|m: int| a.contains(m) && b.contains(m),
{
    vstd::set_lib::lemma_len_subset(a, members);
    vstd::set_lib::lemma_len_subset(b, members);
    if forall|m: int| !(a.contains(m) && b.contains(m)) {
        assert(a.disjoint(b));
        vstd::set_lib::lemma_set_disjoint_lens(a, b);
        vstd::set_lib::lemma_len_subset(a + b, members);
        assert(false);
    }
}

} // verus!
