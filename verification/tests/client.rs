use seatunnel::client_handler::{
    write_failed, ClientError, ClientHandler, RestartStep, Submission, SubmitJobRequest, RESTART_POLL_MS,
    RESTART_SETTLE_MS,
};
use seatunnel::client_queries::task_state_number;
use seatunnel::command::Command;
use seatunnel::job::JobState;
use seatunnel::job_coordinator::JobCoordinator;
use seatunnel::json::Json;
use seatunnel::master::{new_worker_registry, MasterInfo, WorkerEntry, WorkerRegistry};
use seatunnel::node::{
    advertise_address, bind_address, explicit_state_dir, my_voter_id, node_role, plan_master, plan_worker,
    resolve_master_list, HeartbeatLoop, MasterError, NodeRole, SharedStorage,
};
use seatunnel::placement::placement_order;
use seatunnel::raft::VoterError;
use seatunnel::server_config::EngineServerConfig;

const CONFIG: &[u8] = br#"{"source": {"Fake": {}}, "sink": {"Console": {}}}"#;

fn registry() -> WorkerRegistry {
    let mut r = new_worker_registry();
    r.insert("w".to_string(), WorkerEntry::new("127.0.0.1:1".to_string(), 0));
    r
}

fn request(config: &[u8]) -> SubmitJobRequest {
    SubmitJobRequest { job_id: "j".to_string(), job_name: "name".to_string(), job_config: config.to_vec(), parallelism: 2 }
}

fn info() -> MasterInfo {
    MasterInfo { advertise_addr: "m:1".to_string(), role: "master".to_string() }
}

/// What a leading master without jobs makes of a submission.
fn submit(req: &SubmitJobRequest, workers: &WorkerRegistry, now: i64) -> Result<Submission, ClientError> {
    let (c, info) = (JobCoordinator::new(), info());
    ClientHandler::new_direct(&c, workers, &info).submit_job(req, now)
}

fn submitted() -> JobCoordinator {
    let mut c = JobCoordinator::new();
    let s = submit(&request(CONFIG), &registry(), 4).unwrap();
    assert!(s.response.success);
    assert_eq!(s.response.job_id, "j");
    c.apply_command(&s.command, 4);
    c
}

#[test]
fn submit_without_workers_is_rejected() {
    let e = submit(&request(CONFIG), &new_worker_registry(), 0).unwrap_err();
    match e {
        ClientError::FailedPrecondition(m) => assert!(m.contains("no worker registered")),
        _ => panic!("unexpected error"),
    }
}

#[test]
fn a_job_is_submitted_and_looked_up() {
    let (c, r, info) = (submitted(), registry(), info());
    let client = ClientHandler::new_direct(&c, &r, &info);
    assert_eq!(client.coordinator().jobs.len(), 1);
    let status = client.get_job_status("j").unwrap();
    assert_eq!(status.job_name, "name");
    assert_eq!(status.tasks.len(), 2);
    assert_eq!(status.start_time, 4);
    assert_eq!(status.end_time, 0);
    assert_eq!(status.job_config, r#"{"sink":{"Console":{}},"source":{"Fake":{}}}"#);
    assert_eq!(client.list_jobs().len(), 1);
    assert_eq!(client.get_job_logs("j").unwrap().tasks.len(), 2);
    let history = client.get_job_checkpoints("j").unwrap();
    assert_eq!(history.job_id, "j");
    assert!(matches!(client.get_job_status("x"), Err(ClientError::NotFound(_))));
    assert!(matches!(client.get_job_logs("x"), Err(ClientError::NotFound(_))));
    assert!(matches!(client.get_job_checkpoints("x"), Err(ClientError::NotFound(_))));
}

#[test]
fn the_least_loaded_workers_come_first() {
    let mut r = new_worker_registry();
    for (id, score, accepts) in [("full", 10, false), ("busy", 800, true), ("calm", 100, true)] {
        let mut e = WorkerEntry::new(format!("{}:1", id), 0);
        e.load_score = score;
        e.can_accept = accepts;
        r.insert(id.to_string(), e);
    }
    let order: Vec<String> = placement_order(&r).into_iter().map(|w| w.0).collect();
    assert_eq!(order, vec!["calm", "busy", "full"]);
    let s = submit(&request(CONFIG), &r, 4).unwrap();
    match s.command {
        Command::SubmitJob { descriptors, .. } => {
            assert_eq!(descriptors[0].config.get("worker_id").unwrap(), "calm");
            assert_eq!(descriptors[1].config.get("worker_id").unwrap(), "busy");
        }
        _ => panic!("no submission"),
    }
}

#[test]
fn only_a_leader_takes_requests() {
    let (c, r, info) = (submitted(), registry(), info());
    assert!(ClientHandler::new_direct(&c, &r, &info).require_leader().is_ok());
    let follower = ClientHandler::new(&c, &r, &info, false, "10.0.0.1:7");
    match follower.require_leader().unwrap_err() {
        ClientError::FailedPrecondition(m) => assert_eq!(m, "not the leader; retry at 10.0.0.1:7"),
        _ => panic!("unexpected error"),
    }
    match ClientHandler::new(&c, &r, &info, false, "").require_leader().unwrap_err() {
        ClientError::FailedPrecondition(m) => assert_eq!(m, "not the leader; retry at another master"),
        _ => panic!("unexpected error"),
    }
    assert!(follower.submit_job(&request(CONFIG), 0).is_err());
    assert!(follower.cancel_job("j", 0).is_err());
    assert!(matches!(write_failed("full"), ClientError::FailedPrecondition(m) if m.contains("full")));
}

#[test]
fn a_bad_config_is_refused() {
    assert!(matches!(submit(&request(b"{"), &registry(), 0), Err(ClientError::InvalidConfig(_))));
    assert!(matches!(submit(&request(b"{}"), &registry(), 0), Err(ClientError::FailedPrecondition(_))));
}

#[test]
fn a_job_is_cancelled_by_a_command() {
    let (mut c, r, info) = (submitted(), registry(), info());
    let client = ClientHandler::new_direct(&c, &r, &info);
    assert!(matches!(client.cancel_job("x", 0), Err(ClientError::NotFound(_))));
    let cmd = client.cancel_job("j", 30).unwrap();
    c.apply_command(&cmd, 31);
    assert_eq!(c.get_job("j").unwrap().state, JobState::Cancelled);
    assert_eq!(c.get_job("j").unwrap().end_time, Some(30));
}

#[test]
fn a_job_is_restarted_once_it_has_ended() {
    let (mut c, r, info) = (submitted(), registry(), info());
    let client = ClientHandler::new_direct(&c, &r, &info);
    assert!(matches!(client.begin_restart("x", 0), Err(ClientError::NotFound(_))));
    let restart = client.begin_restart("j", 10).unwrap();
    assert_eq!(restart.job_name, "name");
    assert_eq!(restart.config, Json::parse(CONFIG).unwrap());
    let cancel = restart.cancel.as_ref().unwrap();
    assert!(matches!(client.await_restart("j", 0), RestartStep::Wait(RESTART_POLL_MS)));
    assert!(matches!(client.await_restart("j", 60_000), RestartStep::Abort(_)));
    c.apply_command(cancel, 10);
    let tasks: Vec<String> = c.get_job("j").unwrap().tasks.iter().map(|t| t.task_id.clone()).collect();
    for t in &tasks {
        c.report_task_status("j", t, "CANCELLED", 0, None, 11);
    }
    let client = ClientHandler::new_direct(&c, &r, &info);
    assert!(matches!(client.await_restart("j", 500), RestartStep::Resubmit(RESTART_SETTLE_MS)));
    let again = client.finish_restart(&restart, 20).unwrap();
    assert!(again.response.message.starts_with("job 'name' restarted with "));
    c.apply_command(&again.command, 20);
    assert_eq!(c.get_job("j").unwrap().start_time, 20);
    assert!(!c.get_job("j").unwrap().state.is_terminal());
}

#[test]
fn a_job_without_a_readable_config_is_not_restarted() {
    let (mut c, r, info) = (submitted(), registry(), info());
    c.jobs[0].raw_config = String::new();
    match ClientHandler::new_direct(&c, &r, &info).begin_restart("j", 0).unwrap_err() {
        ClientError::FailedPrecondition(m) => assert_eq!(m, "job j has no retained config to restart from"),
        _ => panic!("unexpected error"),
    }
    c.jobs[0].raw_config = "[".to_string();
    let e = ClientHandler::new_direct(&c, &r, &info).begin_restart("j", 0).unwrap_err();
    assert!(matches!(e, ClientError::UnreadableConfig(_)));
}

#[test]
fn the_cluster_is_described() {
    let mut c = submitted();
    let ids: Vec<String> = c.get_job("j").unwrap().tasks.iter().map(|t| t.task_id.clone()).collect();
    c.mark_tasks_dispatched(&ids, "w");
    c.report_task_status("j", &ids[0], "RUNNING", 0, None, 0);
    let (r, master) = (registry(), info());
    let client = ClientHandler::new_direct(&c, &r, &master);
    let infos = client.worker_infos();
    assert_eq!(infos.len(), 1);
    assert_eq!(infos[0].running_tasks, 1);
    let info = client.get_cluster_info();
    assert_eq!((info.available_workers, info.total_tasks, info.running_tasks), (1, 2, 1));
    assert_eq!(info.leader_address, "m:1");
    assert_eq!(info.term, 1);
    assert_eq!(info.role, "master");
    assert_eq!(task_state_number(&JobState::Running), 2);
    assert_eq!(task_state_number(&JobState::Completed), 3);
}

#[test]
fn a_node_knows_its_role() {
    assert!(matches!(node_role("master"), Ok(NodeRole::Master)));
    assert!(matches!(node_role("worker"), Ok(NodeRole::Worker)));
    assert!(matches!(node_role("hybrid"), Ok(NodeRole::Hybrid)));
    assert!(node_role("other").is_err());
}

#[test]
fn addresses_are_resolved() {
    let members = vec!["a:1".to_string(), "b:2".to_string()];
    assert_eq!(resolve_master_list(Some("x:1, y:2"), &members).unwrap(), vec!["x:1".to_string(), "y:2".to_string()]);
    assert_eq!(resolve_master_list(None, &members).unwrap(), members);
    assert!(resolve_master_list(None, &Vec::new()).is_err());
    assert_eq!(advertise_address(Some("z:9"), "h", 5), "z:9");
    assert_eq!(advertise_address(None, "h", 5), "h:5");
    assert_eq!(my_voter_id("b:2", &members), Some(2));
    assert_eq!(my_voter_id("c:3", &members), None);
    assert_eq!(explicit_state_dir("/x"), Some("/x".to_string()));
    assert_eq!(bind_address("0.0.0.0:5800", Some(7000)), "0.0.0.0:7000");
    assert_eq!(bind_address("1.2.3.4:5", Some(7000)), "1.2.3.4:5");
}

#[test]
fn a_master_is_planned_from_its_configuration() {
    let mut config = EngineServerConfig::default();
    config.member_list = vec!["a:1".to_string(), "b:2".to_string()];
    assert!(matches!(plan_master(&config, "a:1"), Err(MasterError::Voters(VoterError::Even(2)))));
    config.member_list.push("c:3".to_string());
    assert!(matches!(plan_master(&config, "z:1"), Err(MasterError::NotAMember(_))));
    let plan = plan_master(&config, "b:2").unwrap();
    assert_eq!(plan.node_id, 2);
    assert_eq!(plan.voters.len(), 3);
    assert_eq!(plan.eviction_timeout_ms, 60_000);
    assert_eq!(plan.raft_dir, ".seatunnel-state/raft");
    config.state_dir = String::new();
    assert_eq!(plan_master(&config, "b:2").unwrap().raft_dir, "raft");
}

#[test]
fn a_worker_is_planned_from_its_configuration() {
    let config = EngineServerConfig::default();
    assert!(plan_worker(&config, "0.0.0.0:1", &Vec::new()).is_err());
    let plan = plan_worker(&config, "0.0.0.0:1", &vec!["m:1".to_string()]).unwrap();
    assert_eq!(plan.master, "m:1");
    assert_eq!(plan.retained, 3);
    assert!(plan.clean.is_some());
    assert!(matches!(plan.storage, SharedStorage::Local));
}

#[test]
fn a_worker_that_is_given_no_address_takes_the_configured_one() {
    let mut config = EngineServerConfig::default();
    config.worker_address = "10.0.0.7:5801".to_string();
    let masters = vec!["m:1".to_string()];
    assert_eq!(plan_worker(&config, "0.0.0.0:5800", &masters).unwrap().address, "10.0.0.7:5801");
    assert_eq!(plan_worker(&config, "0.0.0.0:5900", &masters).unwrap().address, "0.0.0.0:5900");
    assert_eq!(plan_worker(&config, "10.1.1.1:5800", &masters).unwrap().address, "10.1.1.1:5800");
    let config = EngineServerConfig::default();
    assert_eq!(plan_worker(&config, "0.0.0.0:5800", &masters).unwrap().address, "127.0.0.1:5001");
}

#[test]
fn nobody_leads_while_there_is_no_leader() {
    let c = JobCoordinator::new();
    let (r, master) = (registry(), info());
    let mut client = ClientHandler::new_direct(&c, &r, &master);
    client.leads = false;
    assert_eq!(client.get_cluster_info().leader_address, "-");
    client.hint = "n:2";
    assert_eq!(client.get_cluster_info().leader_address, "n:2");
}

#[test]
fn a_worker_tries_every_master() {
    let mut l = HeartbeatLoop::new(vec!["a".to_string(), "b".to_string()], 2_000);
    assert_eq!(l.on_failure(), None);
    assert_eq!(l.on_failure(), None);
    assert_eq!(l.on_failure(), Some("b".to_string()));
    for _ in 0..2 {
        assert_eq!(l.on_failure(), None);
    }
    assert_eq!(l.on_failure(), Some("a".to_string()));
    for (told, kept) in [(500, 500), (30, 250), (100_000, 60_000), (0, 2_000)] {
        l.on_answer(told);
        assert_eq!(l.interval_ms, kept);
        assert_eq!(l.pause_ms(), 100);
    }
}
