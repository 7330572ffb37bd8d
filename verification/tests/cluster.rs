use std::sync::{Arc, Mutex};

use seatunnel::command::Command;
use seatunnel::job::JobState;
use seatunnel::job_coordinator::JobCoordinator;
use seatunnel::json::Json;
use seatunnel::raft::log_store::{render_lines, split_lines, LogEntry, LogId, LogStore, Vote};
use seatunnel::raft::network::{ChannelCache, RaftServiceHandler};
use seatunnel::raft::state_machine::{CoordinatorStateMachine, Entry, Payload};
use seatunnel::raft::{
    bootstrap, members_from_addresses, validate_voters, Bootstrap, DirectWrite, LeaderState, RaftWrite, VoterError,
    WritePath,
};

#[test]
fn channel_cache_invalidation_drops_only_the_failed_target() {
    let mut cache: ChannelCache<&str> = ChannelCache::new();
    cache.insert(1, "one");
    cache.insert(2, "two");
    cache.invalidate(1);
    assert!(cache.get(1).is_none(), "failed target dropped");
    assert!(cache.get(2).is_some(), "other target kept");
}

/// A client of one peer, with the cache that its factory hands to every client.
struct Network {
    target: u64,
    channels: Arc<Mutex<ChannelCache<&'static str>>>,
}

fn network(target: u64, cache: &Arc<Mutex<ChannelCache<&'static str>>>) -> Network {
    Network { target, channels: Arc::clone(cache) }
}

#[test]
fn channel_cache_is_shared_between_networks() {
    let cache = Arc::new(Mutex::new(ChannelCache::new()));
    let a = network(1, &cache);
    let b = network(1, &cache);
    a.channels.lock().unwrap().insert(a.target, "one");
    assert!(b.channels.lock().unwrap().get(1).is_some(), "factory hands every client the same cache");
    assert_eq!(b.channels.lock().unwrap().get(b.target), Some(&"one"));
    b.channels.lock().unwrap().invalidate(b.target);
    assert!(a.channels.lock().unwrap().get(a.target).is_none(), "and so is what one of them drops");
}

#[test]
fn voters_are_an_odd_number() {
    assert!(matches!(validate_voters(0), Err(VoterError::Empty)));
    assert!(matches!(validate_voters(4), Err(VoterError::Even(4))));
    assert!(validate_voters(3).is_ok());
    assert!(validate_voters(1).is_ok());
    assert!(VoterError::Even(4).message().contains('4'));
}

#[test]
fn members_are_numbered_from_one() {
    let m = members_from_addresses(&vec!["a:1".to_string(), "b:2".to_string()]);
    assert_eq!(m.len(), 2);
    assert_eq!(m.get(0), None);
    assert_eq!(m.get(1), Some(&"a:1".to_string()));
    assert_eq!(m.get(2), Some(&"b:2".to_string()));
    assert_eq!(m.get(3), None);
}

#[test]
fn the_first_node_starts_the_cluster() {
    assert!(matches!(bootstrap(1, true), Bootstrap::Nothing));
    assert!(matches!(bootstrap(1, false), Bootstrap::Initialize));
    assert!(matches!(bootstrap(2, false), Bootstrap::InitializeAfter(_)));
}

#[test]
fn one_node_leads() {
    let members = || members_from_addresses(&vec!["a:1".to_string(), "b:2".to_string(), "c:3".to_string()]);
    let mut coordinator = JobCoordinator::new();
    let mut state = LeaderState { term: 0, leader_id: None };
    let before = RaftWrite::new(1, members(), LeaderState { term: 0, leader_id: None });
    assert!(!before.is_leader());
    assert_eq!(before.leader_hint(), "");
    state.observe(7, Some(2), &mut coordinator);
    assert_eq!(coordinator.term(), 7);
    let a = RaftWrite::new(1, members(), LeaderState { term: 7, leader_id: Some(2) });
    let b = RaftWrite::new(2, members(), LeaderState { term: 7, leader_id: Some(2) });
    assert!(!a.is_leader());
    assert!(b.is_leader());
    assert_eq!(a.leader_hint(), "b:2");
    let direct = DirectWrite::new(JobCoordinator::new());
    assert!(direct.is_leader());
}

fn line(index: u64, text: &str) -> LogEntry {
    LogEntry { log_id: LogId { term: 1, node_id: 1, index }, line: text.as_bytes().to_vec() }
}

#[test]
fn the_log_is_kept_by_index() {
    let mut log = LogStore::new();
    for i in 1..=5 {
        log.append(line(i, "x"));
    }
    let (purged, last) = log.get_log_state();
    assert!(purged.is_none());
    assert_eq!(last.unwrap().index, 5);
    log.truncate(LogId { term: 1, node_id: 1, index: 4 });
    assert_eq!(log.get_log_state().1.unwrap().index, 3);
    log.purge(LogId { term: 1, node_id: 1, index: 2 });
    let left: Vec<u64> = log.try_get_log_entries(0, Some(100)).iter().map(|e| e.log_id.index).collect();
    assert_eq!(left, vec![3]);
    assert_eq!(log.get_log_state().0.unwrap().index, 2);
    assert!(log.read_vote().is_none());
    log.save_vote(Vote { term: 3, node_id: 2, committed: true });
    assert_eq!(log.read_vote().unwrap().term, 3);
}

#[test]
fn a_file_of_lines_is_read_back() {
    let lines = vec![b"one".to_vec(), b"two".to_vec()];
    let bytes = render_lines(&lines);
    assert_eq!(bytes, b"one\ntwo\n".to_vec());
    assert_eq!(split_lines(&bytes), lines);
    assert_eq!(split_lines(b"one\n\n"), vec![b"one".to_vec()]);
    assert_eq!(split_lines(b""), Vec::<Vec<u8>>::new());
}

#[test]
fn snapshots_come_whole() {
    let h = RaftServiceHandler { node_id: 1 };
    assert!(h.accept_snapshot(true, 0).is_ok());
    assert!(h.accept_snapshot(false, 0).is_err());
    assert!(h.accept_snapshot(true, 5).is_err());
}

fn submit(job: &str) -> Command {
    let config = Json::parse(br#"{"source": {"Fake": {}}, "sink": {"Console": {}}}"#).unwrap();
    let workers = [("w".to_string(), "a".to_string())];
    let (job, descriptors) = JobCoordinator::plan_job(job, "n", &config, None, &workers, 3).unwrap();
    Command::SubmitJob { job, descriptors }
}

fn entry(index: u64, payload: Payload) -> Entry {
    Entry { log_id: LogId { term: 1, node_id: 1, index }, payload }
}

#[test]
fn the_state_machine_applies_its_log() {
    let mut machine = CoordinatorStateMachine::new(JobCoordinator::new());
    assert!(machine.applied_state().0.is_none());
    let results = machine.apply(
        &vec![
            entry(1, Payload::Membership(vec![1, 2, 3])),
            entry(2, Payload::Blank),
            entry(3, Payload::Normal(submit("j"))),
            entry(4, Payload::Normal(Command::CancelJob { job_id: "j".to_string(), at_ms: 9 })),
        ],
        5,
    );
    assert_eq!(results.len(), 4);
    assert_eq!(machine.applied_state().0.unwrap().index, 4);
    assert_eq!(machine.membership, vec![1, 2, 3]);
    let job = machine.coordinator.get_job("j").unwrap();
    assert_eq!(job.state, JobState::Cancelled);
    assert_eq!(job.end_time, Some(9));

    // Another node takes the snapshot over.
    let snapshot = machine.build_snapshot();
    let mut other = CoordinatorStateMachine::new(JobCoordinator::new());
    other.apply(&vec![entry(1, Payload::Normal(submit("stale")))], 5);
    other.install_snapshot(&snapshot);
    assert_eq!(other.applied_state().0.unwrap().index, 4);
    assert!(other.coordinator.get_job("stale").is_none());
    assert_eq!(other.coordinator.get_job("j").unwrap().state, JobState::Cancelled);
}

#[test]
fn commands_change_the_coordinator() {
    let mut c = JobCoordinator::new();
    let cmd = submit("j");
    c.apply_command(&cmd, 1);
    let id = c.get_job("j").unwrap().tasks[0].task_id.clone();
    let ids = vec![id.clone()];
    c.apply_command(&Command::MarkDispatched { task_ids: ids.clone(), worker_id: "w".to_string() }, 1);
    assert_eq!(c.get_job("j").unwrap().task(&id).unwrap().state, JobState::Deploying);
    c.apply_command(&Command::AdoptTasks { worker_id: "w".to_string(), task_ids: ids.clone() }, 1);
    assert_eq!(c.get_job("j").unwrap().task(&id).unwrap().state, JobState::Running);
    assert!(c.task_owned_by(&id, "w"));
    let (_, foreign) = c.classify_running_tasks("x", &ids);
    assert_eq!(foreign, ids);
    let lost = c.reconcile_lost_active_tasks("w", &Vec::new());
    assert_eq!(lost.len(), 1);
    assert!(c.reconcile_lost_active_tasks("w", &ids).is_empty());
    assert!(c.reconcile_lost_cancelled_tasks("w", &Vec::new()).is_empty());
    c.apply_command(&Command::ReleaseLostTasks { worker_id: "w".to_string(), task_ids: ids.clone() }, 1);
    assert_eq!(c.get_pending_tasks_for_worker("w").len(), 1);
    assert!(c.claim_tasks_for_worker("y", "b", &|_: &str| true).is_empty());
    assert_eq!(c.claim_tasks_for_worker("y", "b", &|w: &str| w != "w").len(), 1);
    c.apply_command(&Command::MarkDispatched { task_ids: ids.clone(), worker_id: "y".to_string() }, 1);
    c.apply_command(&Command::EvictWorker { worker_id: "y".to_string() }, 1);
    c.apply_command(
        &Command::TaskStatus {
            job_id: "j".to_string(),
            task_id: id.clone(),
            worker_id: "y".to_string(),
            state: "FAILED".to_string(),
            records: 4,
            error: Some("e".to_string()),
        },
        8,
    );
    assert_eq!(c.get_job("j").unwrap().error_message, Some("e".to_string()));
}

#[test]
fn the_last_index_can_be_read() {
    let mut log = LogStore::new();
    for index in [1, u64::MAX] {
        log.append(LogEntry { log_id: LogId { term: 1, node_id: 1, index }, line: vec![index as u8] });
    }
    let read = |from, to| log.try_get_log_entries(from, to).iter().map(|e| e.log_id.index).collect::<Vec<u64>>();
    assert_eq!(read(0, None), vec![1, u64::MAX]);
    assert_eq!(read(2, None), vec![u64::MAX]);
    assert_eq!(read(0, Some(u64::MAX)), vec![1]);
    assert_eq!(read(1, Some(1)), Vec::<u64>::new());
}
