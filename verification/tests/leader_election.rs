use seatunnel::leader_election::{LeaderElection, Membership, Role};

#[test]
fn test_leader_election() {
    let mut election = LeaderElection::new("node1".to_string(), vec!["node2".to_string()], 1000, 3000, 0);
    assert_eq!(election.role(), Role::Follower);

    election.receive_heartbeat("node1".to_string(), 0);
    assert_eq!(election.role(), Role::Follower);

    election.become_candidate();
    assert_eq!(election.role(), Role::Candidate);

    election.become_leader(0);
    assert_eq!(election.role(), Role::Leader);
    assert_eq!(election.leader_id(), Some("node1".to_string()));
}

#[test]
fn test_membership_quorum() {
    let membership = Membership::new(vec!["a".to_string(), "b".to_string(), "c".to_string()]);
    assert_eq!(membership.quorum_size(), 2);
    assert!(!membership.is_quorum(1));
    assert!(membership.is_quorum(2));
    assert!(membership.is_quorum(3));
}

#[test]
fn test_vote_request() {
    let mut election = LeaderElection::new("node1".to_string(), vec![], 1000, 3000, 0);
    assert!(election.request_vote("candidate".to_string(), 1));
    assert!(!election.request_vote("other".to_string(), 2)); // already voted
}

#[test]
fn test_election_timeout() {
    let election = LeaderElection::new("node1".to_string(), vec![], 1000, 1, 0);
    // With 1ms timeout and no heartbeat, election should be due
    assert!(election.should_start_election(5));
    assert!(!election.should_start_election(0));
}
