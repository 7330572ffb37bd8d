use seatunnel::client_handler::ClientHandler;
use seatunnel::command::Command;
use seatunnel::dispatch::WorkerState;
use seatunnel::heartbeat::{response_has_nothing, wait_budget, HeartbeatRequest, TaskReport};
use seatunnel::job::JobState;
use seatunnel::job_coordinator::JobCoordinator;
use seatunnel::json::Json;
use seatunnel::master::{
    new_worker_registry, registry_snapshot, registry_snapshot_admission, MasterHandler, MasterInfo, WorkerEntry,
};
use seatunnel::master_service::{
    leader_address, status_name, CheckpointReport, TaskStatusReport, WorkerRegistration, FINAL_CHECKPOINT_ID,
};

fn json(text: &str) -> Json {
    Json::parse(text.as_bytes()).unwrap()
}

fn info() -> MasterInfo {
    MasterInfo { advertise_addr: "127.0.0.1:5800".to_string(), role: "hybrid".to_string() }
}

fn one_task(job: &str) -> (JobCoordinator, String) {
    let mut coordinator = JobCoordinator::new();
    let config = json(r#"{"env": {"parallelism": 1}, "source": {"Fake": {}}, "sink": {"Console": {}}}"#);
    let workers = [("worker-0".to_string(), "127.0.0.1:5001".to_string())];
    let (_, tasks) = coordinator.compile_and_schedule(job, "job", &config, None, &workers, 0).unwrap();
    let task_id = tasks[0].task_id.clone();
    (coordinator, task_id)
}

fn beat(worker: &str, term: u64, running: &[&str]) -> HeartbeatRequest {
    HeartbeatRequest {
        worker_id: worker.to_string(),
        address: "127.0.0.1:5001".to_string(),
        term,
        tasks: running
            .iter()
            .map(|t| TaskReport {
                task_id: t.to_string(),
                processed_records: 5,
                last_record_at: 77,
                logs: vec!["hello".to_string()],
                last_checkpoint_id: 0,
                last_checkpoint_size_bytes: 0,
                sink_metrics: Some(Json::Object(vec![("written".to_string(), Json::Int(5))])),
            })
            .collect(),
        load_score: 10,
        lag_ms: 20,
        mem_permille: 30,
        cpu_permille: 40,
        can_accept: true,
        wait_ms: 0,
    }
}

#[test]
fn test_registry_roundtrip() {
    let mut registry = new_worker_registry();
    assert!(registry_snapshot(&registry).is_empty());
    registry.insert("w1".into(), {
        let mut e = WorkerEntry::new("127.0.0.1:5001".into(), 9);
        e.last_heartbeat_ms = 0;
        e
    });
    assert_eq!(
        registry_snapshot(&registry),
        vec![("w1".to_string(), "127.0.0.1:5001".to_string())]
    );
}

#[test]
fn heartbeat_grace_releases_absent_running_tasks_only_after_window() {
    let (mut coordinator, task_id) = one_task("jgrace");
    coordinator.mark_tasks_dispatched(&vec![task_id.clone()], "worker-0");
    coordinator.report_task_status("jgrace", &task_id, "RUNNING", 0, None, 0);

    let mut handler = MasterHandler::new_direct(coordinator, new_worker_registry(), info(), 1000, 60_000);

    // Restart simulation: the worker reports nothing. The task is
    // missing from the first heartbeat but is only released once the
    // grace window (30s floor) has fully elapsed.
    let absent: Vec<String> = Vec::new();
    assert!(handler.reconcile_heartbeat_lost_tasks("worker-0", &absent, 0).is_empty());
    assert!(handler.reconcile_heartbeat_lost_tasks("worker-0", &absent, 29_999).is_empty());
    let due = handler.reconcile_heartbeat_lost_tasks("worker-0", &absent, 30_000);
    assert_eq!(due.len(), 1, "missing past the grace window must be due");
    assert_eq!(due[0].task_id, task_id);

    // Presence resets tracking: after the task is reported running
    // again, a fresh absence starts a new grace window instead of
    // firing immediately: it elapses again 30s after the report.
    let reported = vec![task_id.clone()];
    assert!(handler.reconcile_heartbeat_lost_tasks("worker-0", &reported, 60_000).is_empty());
    assert!(handler.reconcile_heartbeat_lost_tasks("worker-0", &absent, 60_001).is_empty());
    assert!(handler.reconcile_heartbeat_lost_tasks("worker-0", &absent, 90_000).is_empty());
    assert_eq!(handler.reconcile_heartbeat_lost_tasks("worker-0", &absent, 90_001).len(), 1);
}

#[test]
fn registry_classifies_its_workers() {
    let mut registry = new_worker_registry();
    assert_eq!(registry.classify("w"), WorkerState::Dead);
    let mut e = WorkerEntry::new("a".into(), 1000);
    e.load_score = 300;
    registry.insert("w".into(), e);
    assert_eq!(registry.classify("w"), WorkerState::Healthy);
    assert_eq!(registry_snapshot_admission(&registry), vec![("w".to_string(), "a".to_string(), 300, true)]);
    let mut busy = WorkerEntry::new("b".into(), 1000);
    busy.can_accept = false;
    assert_eq!(busy.state(), WorkerState::Overloaded);
    registry.insert("w".into(), busy);
    assert_eq!(registry.classify("w"), WorkerState::Overloaded);
    assert!(registry.silent_workers(500, 1500).is_empty());
    assert_eq!(registry.silent_workers(500, 1501), vec!["w".to_string()]);
    registry.remove("w");
    assert!(!registry.contains("w"));
}

#[test]
fn a_heartbeat_hands_out_tasks_once() {
    let (coordinator, task_id) = one_task("j");
    let mut handler = MasterHandler::new_direct(coordinator, new_worker_registry(), info(), 1000, 60_000);
    let first = handler.compute_heartbeat(&beat("worker-0", 1, &[]), true, "", 10);
    assert_eq!(first.pending_tasks.len(), 1);
    assert_eq!(first.pending_tasks[0].task_id, task_id);
    assert_eq!(first.term, 1);
    assert_eq!(first.next_interval_ms, 1000);
    assert!(handler.worker_registry().contains("worker-0"));
    let second = handler.compute_heartbeat(&beat("worker-0", 1, &[&task_id]), true, "", 20);
    assert!(second.pending_tasks.is_empty());
    let job = handler.coordinator().get_job("j").unwrap();
    let task = job.task(&task_id).unwrap();
    assert_eq!(task.processed_records, 5);
    assert_eq!(task.last_record_at, 77);
    assert_eq!(task.logs, vec!["hello".to_string()]);
}

#[test]
fn only_a_leader_of_the_term_instructs() {
    let (coordinator, _) = one_task("j");
    let mut handler = MasterHandler::new_direct(coordinator, new_worker_registry(), info(), 1000, 60_000);
    let follower = handler.compute_heartbeat(&beat("worker-0", 1, &[]), false, "10.0.0.9:1", 10);
    assert!(response_has_nothing(&follower));
    assert_eq!(follower.leader_hint, "10.0.0.9:1");
    let stale = handler.compute_heartbeat(&beat("worker-0", 9, &[]), true, "", 10);
    assert!(response_has_nothing(&stale));
    assert!(!handler.worker_registry().contains("worker-0"));
}

#[test]
fn a_busy_worker_is_handed_nothing() {
    let (coordinator, _) = one_task("j");
    let mut handler = MasterHandler::new_direct(coordinator, new_worker_registry(), info(), 1000, 60_000);
    let mut hb = beat("worker-0", 1, &[]);
    hb.can_accept = false;
    assert!(handler.compute_heartbeat(&hb, true, "", 10).pending_tasks.is_empty());
}

#[test]
fn a_cancelled_job_is_told_to_its_worker() {
    let (mut coordinator, task_id) = one_task("j");
    coordinator.mark_tasks_dispatched(&vec![task_id.clone()], "worker-0");
    coordinator.cancel_job("j", 5);
    let mut handler = MasterHandler::new_direct(coordinator, new_worker_registry(), info(), 1000, 60_000);
    let r = handler.compute_heartbeat(&beat("worker-0", 1, &[&task_id]), true, "", 10);
    assert_eq!(r.cancel_jobs, vec!["j".to_string()]);
}

#[test]
fn tasks_beyond_the_limit_wait() {
    let mut coordinator = JobCoordinator::new();
    let config = json(r#"{"env": {"parallelism": 5}, "source": {"Fake": {}}, "sink": {"Console": {}}}"#);
    let workers = [("worker-0".to_string(), "127.0.0.1:5001".to_string())];
    coordinator.compile_and_schedule("j", "job", &config, None, &workers, 0).unwrap();
    let mut handler =
        MasterHandler::new_direct(coordinator, new_worker_registry(), info(), 1000, 60_000).with_dispatch_batch_limit(2);
    assert_eq!(handler.dispatch_batch_limit(), 2);
    assert_eq!(handler.compute_heartbeat(&beat("worker-0", 1, &[]), true, "", 1).pending_tasks.len(), 2);
}

#[test]
fn a_heartbeat_that_waited_is_handed_new_tasks() {
    let mut m = MasterHandler::new_direct(JobCoordinator::new(), new_worker_registry(), info(), 1000, 60_000);
    assert!(response_has_nothing(&m.compute_heartbeat(&beat("worker-0", 1, &[]), true, "", 10)));
    let config = json(r#"{"env": {"parallelism": 1}, "source": {"Fake": {}}, "sink": {"Console": {}}}"#);
    let workers = [("worker-0".to_string(), "127.0.0.1:5001".to_string())];
    let (_, tasks) = m.coordinator.compile_and_schedule("j", "job", &config, None, &workers, 11).unwrap();
    let answer = m.recompute_heartbeat("worker-0", 12);
    assert_eq!(answer.worker_id, "worker-0");
    assert_eq!(answer.pending_tasks.len(), 1);
    assert_eq!(answer.pending_tasks[0].task_id, tasks[0].task_id);
    assert!(m.coordinator.task_owned_by(&tasks[0].task_id, "worker-0"));
    assert!(m.recompute_heartbeat("worker-0", 13).pending_tasks.is_empty());
}

#[test]
fn a_heartbeat_whose_dispatch_was_refused_is_handed_nothing() {
    let (coordinator, _) = one_task("j");
    let mut m = MasterHandler::new_direct(coordinator, new_worker_registry(), info(), 1000, 60_000);
    let offered = m.reoffer_tasks("worker-0");
    assert_eq!(offered.len(), 1);
    assert!(m.finish_heartbeat("worker-0", false, offered, false).pending_tasks.is_empty());
    // Not applied, so it is offered again.
    assert_eq!(m.reoffer_tasks("worker-0").len(), 1);
}

#[test]
fn waiting_is_bounded() {
    assert_eq!(wait_budget(-5), 0);
    assert_eq!(wait_budget(0), 0);
    assert_eq!(wait_budget(1_000), 1_000);
    assert_eq!(wait_budget(i64::MAX), 10_000);
}

#[test]
fn a_worker_registers_with_the_leader() {
    let (coordinator, task_id) = one_task("j");
    let mut handler = MasterHandler::new(coordinator, new_worker_registry(), info(), 1000, 60_000)
        .with_cancel_force_timeout(40_000);
    assert_eq!(handler.cancel_force_timeout_ms(), 40_000);
    let reg = WorkerRegistration {
        worker_id: "worker-0".to_string(),
        address: "127.0.0.1:5001".to_string(),
        running_task_ids: vec![task_id.clone()],
    };
    // A follower points to the leader it knows of, else to itself.
    let follower = handler.register_worker(&reg, false, "10.0.0.9:1", 3);
    assert_eq!(follower.leader_address, "10.0.0.9:1");
    assert_eq!(handler.register_worker(&reg, false, "", 3).leader_address, "127.0.0.1:5800");
    let accepted = handler.register_worker(&reg, true, "", 3);
    assert!(accepted.success);
    assert_eq!(accepted.term, 1);
    assert!(handler.worker_registry().contains("worker-0"));
    let gone = handler.unregister_worker("worker-0");
    assert!(matches!(gone, Command::EvictWorker { ref worker_id } if worker_id == "worker-0"));
    assert!(!handler.worker_registry().contains("worker-0"));
}

#[test]
fn addresses_and_status_names() {
    assert_eq!(leader_address(true, "hint", "me"), "me");
    assert_eq!(leader_address(false, "hint", "me"), "hint");
    assert_eq!(leader_address(false, "", "me"), "me");
    let names: Vec<&str> = (0..7).map(status_name).collect();
    assert_eq!(names, vec!["CREATED", "CREATED", "RUNNING", "COMPLETED", "FAILED", "CANCELLED", "UNKNOWN"]);
}

#[test]
fn a_checkpoint_is_kept_by_the_master() {
    let (coordinator, task_id) = one_task("j");
    let mut handler = MasterHandler::new(coordinator, new_worker_registry(), info(), 1000, 60_000);
    let report = |id: i64, data: &[u8]| CheckpointReport {
        job_id: "j".to_string(),
        task_id: task_id.clone(),
        checkpoint_id: id,
        success: true,
        prepare: false,
        checkpoint_data: data.to_vec(),
    };
    assert!(handler.report_checkpoint(&report(3, b"three")).is_none());
    let fetched = handler.fetch_checkpoint("j", &task_id);
    assert_eq!((fetched.checkpoint_id, fetched.checkpoint_data), (3, b"three".to_vec()));
    assert_eq!(handler.fetch_checkpoint("j", "none").checkpoint_id, 0);
    assert_eq!(FINAL_CHECKPOINT_ID, u64::MAX);
    assert_eq!(handler.get_job_status("j").unwrap().job_name, "job");
    assert!(handler.get_job_status("x").is_err());
}

#[test]
fn a_status_report_becomes_a_command() {
    let (coordinator, task_id) = one_task("j");
    let mut handler = MasterHandler::new(coordinator, new_worker_registry(), info(), 1000, 60_000);
    let report = TaskStatusReport {
        job_id: "j".to_string(),
        task_id: task_id.clone(),
        worker_id: "worker-0".to_string(),
        state: 3,
        processed_records: 12,
        error_message: String::new(),
    };
    let cmd = handler.report_task_status(&report);
    handler.coordinator.apply_command(&cmd, 50);
    let job = handler.coordinator().get_job("j").unwrap();
    assert_eq!(job.state, JobState::Completed);
    assert_eq!(job.end_time, Some(50));
    assert_eq!(job.task(&task_id).unwrap().processed_records, 12);
}

#[test]
fn a_checkpoint_goes_through_commands() {
    let mut coordinator = JobCoordinator::new();
    let config = json(r#"{"env": {"parallelism": 2}, "source": {"Fake": {}}, "sink": {"Console": {}}}"#);
    let workers =
        [("worker-0".to_string(), "a".to_string()), ("worker-1".to_string(), "b".to_string())];
    let (job, tasks) = coordinator.compile_and_schedule("j", "job", &config, None, &workers, 0).unwrap();
    for (i, t) in tasks.iter().enumerate() {
        coordinator.mark_tasks_dispatched(&vec![t.task_id.clone()], &workers[i].0);
        coordinator.report_task_status(&job, &t.task_id, "RUNNING", 0, None, 0);
    }
    let stages = coordinator.due_checkpoint_stages(1_000);
    assert_eq!(stages.len(), 1);
    assert_eq!(stages[0].0, "j");
    coordinator.apply_command(
        &Command::CheckpointTriggered { job_id: "j".to_string(), stage_id: stages[0].1.clone(), at_ms: 1_000 },
        1_000,
    );
    assert!(coordinator.due_checkpoint_stages(1_000).is_empty());
    let first = coordinator.deliver_checkpoint_triggers("worker-0");
    assert_eq!(first.len(), 1);
    assert!(coordinator.deliver_checkpoint_triggers("worker-0").is_empty());
    let id = first[0].checkpoint_id;

    let mut handler = MasterHandler::new(coordinator, new_worker_registry(), info(), 1000, 60_000);
    let prepare = |task: &str| CheckpointReport {
        job_id: "j".to_string(),
        task_id: task.to_string(),
        checkpoint_id: id as i64,
        success: true,
        prepare: true,
        checkpoint_data: Vec::new(),
    };
    assert!(handler.report_checkpoint(&prepare(&tasks[0].task_id)).is_none());
    let end = handler.report_checkpoint(&prepare(&tasks[1].task_id)).unwrap();
    assert!(matches!(&end, Command::CheckpointResolved { completed: true, participants, .. } if participants.len() == 2));
    handler.coordinator.apply_command(&end, 1_001);
    let job = handler.coordinator().get_job("j").unwrap();
    assert_eq!(job.checkpoints_completed, 1);
    assert_eq!(job.next_checkpoint_id, id + 1);
    assert_eq!(job.task(&tasks[0].task_id).unwrap().last_checkpoint_id, id);
    let told = handler.coordinator.drain_checkpoint_resolutions("worker-1");
    assert_eq!(told.len(), 1);
    assert!(told[0].completed);
}

#[test]
fn a_failed_prepare_aborts_by_command() {
    let (mut coordinator, task_id) = one_task("j");
    coordinator.mark_tasks_dispatched(&vec![task_id.clone()], "worker-0");
    coordinator.report_task_status("j", &task_id, "RUNNING", 0, None, 0);
    let mut handler = MasterHandler::new(coordinator, new_worker_registry(), info(), 1000, 60_000);
    let cmds = handler.checkpoint_commands(false, 5);
    assert_eq!(cmds.len(), 1);
    assert!(handler.checkpoint_commands(true, 5).is_empty());
    handler.apply_all(&cmds, 5);
    let id = handler.coordinator.deliver_checkpoint_triggers("worker-0")[0].checkpoint_id;
    let end = handler
        .report_checkpoint(&CheckpointReport {
            job_id: "j".to_string(),
            task_id: task_id.clone(),
            checkpoint_id: id as i64,
            success: false,
            prepare: true,
            checkpoint_data: Vec::new(),
        })
        .unwrap();
    handler.apply_all(&vec![end], 6);
    let told = handler.coordinator.drain_checkpoint_resolutions("worker-0");
    assert!(!told[0].completed);
    assert_eq!(handler.coordinator().get_job("j").unwrap().checkpoints_completed, 0);
}

#[test]
fn running_tasks_are_not_stolen() {
    let (mut coordinator, task_id) = one_task("j");
    let ids = vec![task_id.clone()];
    coordinator.mark_tasks_dispatched(&ids, "worker-0");
    coordinator.report_task_status("j", &task_id, "RUNNING", 0, None, 0);
    // The master has lost its registry: nobody but the asking worker is known.
    let mut handler = MasterHandler::new_direct(coordinator, new_worker_registry(), info(), 1000, 60_000);
    let answer = handler.compute_heartbeat(&beat("worker-1", 1, &[]), true, "", 10);
    assert!(answer.pending_tasks.is_empty());
    assert_eq!(handler.coordinator().get_job("j").unwrap().task(&task_id).unwrap().worker_id, "worker-0");
    // Once its worker was found dead the task is handed over.
    handler.coordinator.evict_worker("worker-0");
    let answer = handler.compute_heartbeat(&beat("worker-1", 1, &[]), true, "", 20);
    assert_eq!(answer.pending_tasks.len(), 1);
    assert_eq!(handler.coordinator().get_job("j").unwrap().task(&task_id).unwrap().worker_id, "worker-1");
}

#[test]
fn a_cancelled_job_is_told_until_its_tasks_have_ended() {
    let (mut coordinator, task_id) = one_task("j");
    coordinator.mark_tasks_dispatched(&vec![task_id.clone()], "worker-0");
    coordinator.cancel_job("j", 1_000);
    assert_eq!(coordinator.cancelled_job_ids(), vec!["j".to_string()]);
    coordinator.report_task_status("j", &task_id, "CANCELLED", 0, None, 2_000);
    assert!(coordinator.cancelled_job_ids().is_empty());
    assert_eq!(coordinator.get_job("j").unwrap().end_time, Some(1_000));
}

#[test]
fn a_cancellation_does_not_wait_forever() {
    let (mut coordinator, task_id) = one_task("j");
    coordinator.mark_tasks_dispatched(&vec![task_id.clone()], "worker-0");
    coordinator.cancel_job("j", 1_000);
    let mut handler = MasterHandler::new_direct(coordinator, new_worker_registry(), info(), 1000, 60_000)
        .with_cancel_force_timeout(30_000);
    assert!(handler.look_after(60_000, 60_000, 31_000).is_empty());
    let cmds = handler.look_after(60_000, 60_000, 31_001);
    assert_eq!(cmds.len(), 1);
    handler.apply_all(&cmds, 31_001);
    assert!(handler.coordinator().cancelled_job_ids().is_empty());
    assert_eq!(handler.coordinator().get_job("j").unwrap().task(&task_id).unwrap().state, JobState::Cancelled);
}

#[test]
fn silent_workers_are_given_up() {
    let (mut coordinator, task_id) = one_task("j");
    coordinator.mark_tasks_dispatched(&vec![task_id.clone()], "worker-0");
    let mut registry = new_worker_registry();
    registry.insert("worker-0".to_string(), WorkerEntry::new("a".to_string(), 0));
    let mut handler = MasterHandler::new_direct(coordinator, registry, info(), 1000, 60_000);
    assert!(handler.look_after(60_000, 60_000, 60_000).is_empty());
    let cmds = handler.look_after(60_000, 60_000, 60_001);
    assert!(matches!(&cmds[0], Command::EvictWorker { worker_id } if worker_id == "worker-0"));
    assert!(!handler.worker_registry().contains("worker-0"));
}

#[test]
fn another_worker_does_not_end_the_grace() {
    let (mut coordinator, task_id) = one_task("jgrace2");
    coordinator.mark_tasks_dispatched(&vec![task_id.clone()], "worker-0");
    coordinator.report_task_status("jgrace2", &task_id, "RUNNING", 0, None, 0);
    let mut handler = MasterHandler::new_direct(coordinator, new_worker_registry(), info(), 1000, 60_000);
    let absent: Vec<String> = Vec::new();
    assert!(handler.reconcile_heartbeat_lost_tasks("worker-0", &absent, 0).is_empty());
    // Other workers' heartbeats come in between.
    for now in [5_000, 10_000, 15_000, 20_000, 25_000, 29_000] {
        assert!(handler.reconcile_heartbeat_lost_tasks("worker-1", &absent, now).is_empty());
    }
    let due = handler.reconcile_heartbeat_lost_tasks("worker-0", &absent, 30_000);
    assert_eq!(due.len(), 1);
    assert_eq!(due[0].task_id, task_id);
}

#[test]
fn sink_metrics_reach_the_clients() {
    let (coordinator, task_id) = one_task("jsink");
    let mut handler = MasterHandler::new_direct(coordinator, new_worker_registry(), info(), 1000, 60_000);
    handler.compute_heartbeat(&beat("worker-0", 1, &[]), true, "", 10);
    let before = ClientHandler::new_direct(&handler.coordinator, &handler.workers, &handler.info);
    assert_eq!(before.get_job_status("jsink").unwrap().tasks[0].sink_metrics, None);
    handler.compute_heartbeat(&beat("worker-0", 1, &[&task_id]), true, "", 20);
    // A heartbeat that carries none leaves what is known.
    let mut quiet = beat("worker-0", 1, &[&task_id]);
    quiet.tasks[0].sink_metrics = None;
    handler.compute_heartbeat(&quiet, true, "", 30);
    let client = ClientHandler::new_direct(&handler.coordinator, &handler.workers, &handler.info);
    let status = client.get_job_status("jsink").unwrap();
    assert_eq!(
        status.tasks[0].sink_metrics,
        Some(Json::Object(vec![("written".to_string(), Json::Int(5))]))
    );
}
