use seatunnel::job::JobState;
use seatunnel::job_config::{
    env_checkpoint_interval, env_parallelism, PlanError, DEFAULT_CHECKPOINT_INTERVAL_MS,
};
use seatunnel::job_coordinator::JobCoordinator;
use seatunnel::json::Json;

fn workers(n: usize) -> Vec<(String, String)> {
    (0..n).map(|i| (format!("worker-{}", i), format!("127.0.0.1:{}", 5001 + i))).collect()
}

fn json(text: &str) -> Json {
    Json::parse(text.as_bytes()).unwrap()
}

#[test]
fn test_claim_orphan_reassigns_dead_worker_tasks() {
    let mut coordinator = JobCoordinator::new();
    let config = json(
        r#"{"env": {"job.name": "j", "parallelism": 2}, "source": {"Fake": {}}, "sink": {"Console": {}}}"#,
    );
    let (_job, tasks) = coordinator.compile_and_schedule("j1", "j", &config, None, &workers(2), 0).unwrap();
    // Dispatch both tasks to their assigned workers.
    let ids: Vec<String> = tasks.iter().map(|t| t.task_id.clone()).collect();
    coordinator.mark_tasks_dispatched(&ids, "worker-0");
    coordinator.mark_tasks_dispatched(&ids[1..].to_vec(), "worker-1");

    // worker-1 dies: its task becomes claimable by worker-0.
    let dead = "worker-1";
    let claimed = coordinator.claim_tasks_for_worker("worker-0", "127.0.0.1:9999", &|w: &str| w != dead);
    assert!(claimed.iter().any(|t| t.config.get("worker_id").map(String::as_str) == Some("worker-0")));
    // The task descriptor was reassigned.
    let reassigned = claimed.iter().find(|t| t.task_id == ids[1]).expect("orphan task claimed");
    assert_eq!(reassigned.config.get("worker_id").map(String::as_str), Some("worker-0"));
}

#[test]
fn test_evict_worker_releases_running_tasks() {
    let mut coordinator = JobCoordinator::new();
    let config = json(r#"{"env": {"parallelism": 1}, "source": {"Fake": {}}, "sink": {"Console": {}}}"#);
    let (_, tasks) = coordinator.compile_and_schedule("j2", "j", &config, None, &workers(1), 0).unwrap();
    let ids: Vec<String> = tasks.iter().map(|t| t.task_id.clone()).collect();
    coordinator.mark_tasks_dispatched(&ids, "worker-0");
    // Simulate RUNNING.
    coordinator.report_task_status("j2", &ids[0], "RUNNING", 5, None, 0);

    let affected = coordinator.evict_worker("worker-0");
    assert_eq!(affected, vec![ids[0].clone()]);
    // Now claimable by a replacement worker.
    let claimed = coordinator.claim_tasks_for_worker("worker-1", "a", &|w: &str| w != "worker-0");
    assert!(claimed.iter().any(|t| t.task_id == ids[0]));
}

#[test]
fn test_fence_preempts_reassigned_tasks() {
    let mut coordinator = JobCoordinator::new();
    let config = json(r#"{"env": {"parallelism": 1}, "source": {"Fake": {}}, "sink": {"Console": {}}}"#);
    let (_, tasks) = coordinator.compile_and_schedule("j3", "j", &config, None, &workers(1), 0).unwrap();
    let task_id = tasks[0].task_id.clone();
    let one = vec![task_id.clone()];
    coordinator.mark_tasks_dispatched(&one, "worker-0");
    // Failover: reassigned to worker-1.
    coordinator.evict_worker("worker-0");
    let _ = coordinator.claim_tasks_for_worker("worker-1", "a", &|w: &str| w != "worker-0");
    coordinator.mark_tasks_dispatched(&one, "worker-1");

    // worker-0 comes back still running the task → must be fenced.
    let preempted = coordinator.register_running_tasks("worker-0", &one);
    assert_eq!(preempted, vec![task_id.clone()]);
    // worker-1's own report is not fenced.
    assert!(coordinator.register_running_tasks("worker-1", &one).is_empty());
}

#[test]
fn test_export_import_state_roundtrip() {
    let mut source = JobCoordinator::new();
    let config = json(r#"{"env": {"parallelism": 1}, "source": {"Fake": {}}, "sink": {"Console": {}}}"#);
    source.compile_and_schedule("jx", "j", &config, None, &workers(1), 0).unwrap();
    source.checkpoint_store.save("jx", "jx-p0-0", 7, b"cp-seven");
    let snapshot = source.export_state();

    // Empty standby imports it.
    let mut standby = JobCoordinator::new();
    standby.import_state(&snapshot);
    let (id, data) = standby.checkpoint_store.load_latest("jx", "jx-p0-0").unwrap();
    assert_eq!((id, data.as_slice()), (7, b"cp-seven".as_slice()));
    // Imported job schedules tasks.
    let claimed = standby.claim_tasks_for_worker("worker-0", "a", &|_: &str| true);
    assert!(!claimed.is_empty());

    // Local state wins: importing again does not duplicate.
    standby.import_state(&snapshot);
    let count = standby.export_state().jobs.map(|j| j.len()).unwrap_or(0);
    assert_eq!(count, 1);
}

#[test]
fn test_term_never_regresses() {
    let mut coordinator = JobCoordinator::new();
    assert_eq!(coordinator.term(), 1);
    assert_eq!(coordinator.observe_term(5), 5);
    assert_eq!(coordinator.term(), 5);
    // A lower observed term (stale master snapshot) is ignored.
    assert_eq!(coordinator.observe_term(3), 5);
    assert_eq!(coordinator.term(), 5);
}

#[test]
fn test_term_travels_with_state_snapshot() {
    let mut primary = JobCoordinator::new();
    primary.observe_term(9);
    let snapshot = primary.export_state();
    assert_eq!(snapshot.term, Some(9));

    let mut standby = JobCoordinator::new();
    standby.import_state(&snapshot);
    assert_eq!(standby.term(), 9);
}

#[test]
fn test_register_running_tasks_adopts_own_tasks() {
    let mut coordinator = JobCoordinator::new();
    let config = json(r#"{"env": {"parallelism": 1}, "source": {"Fake": {}}, "sink": {"Console": {}}}"#);
    let (_, tasks) = coordinator.compile_and_schedule("ja", "a", &config, None, &workers(1), 0).unwrap();
    let task_id = tasks[0].task_id.clone();
    let one = vec![task_id.clone()];
    coordinator.mark_tasks_dispatched(&one, "worker-0");

    // Reconnect of the owning worker: adopt, never preempt.
    let preempted = coordinator.register_running_tasks("worker-0", &one);
    assert!(preempted.is_empty());
    // The task is Running for worker-0 and NOT claimable by a live peer.
    let job = coordinator.get_job("ja").unwrap();
    assert_eq!(job.task(&task_id).unwrap().state, JobState::Running);
    let claimed = coordinator.claim_tasks_for_worker("worker-1", "a", &|_: &str| true);
    assert!(claimed.iter().all(|t| t.task_id != task_id));
}

#[test]
fn test_coordinated_checkpoint_lifecycle() {
    let mut coordinator = JobCoordinator::new();
    let config = json(
        r#"{"env": {"parallelism": 2, "checkpoint": {"interval": 300000}}, "source": {"Fake": {}}, "sink": {"Console": {}}}"#,
    );
    let (job_id, tasks) = coordinator.compile_and_schedule("jcc", "cc", &config, None, &workers(2), 0).unwrap();
    // Both tasks Running on their assigned workers.
    for (i, t) in tasks.iter().enumerate() {
        let owner = format!("worker-{}", i);
        coordinator.mark_tasks_dispatched(&vec![t.task_id.clone()], &owner);
        coordinator.report_task_status(&job_id, &t.task_id, "RUNNING", 0, None, 0);
    }
    let t0 = &tasks[0].task_id;
    let t1 = &tasks[1].task_id;
    // Heartbeat of worker-0 triggers the pipeline: it sees its own
    // task's trigger; worker-1 gets its own on its heartbeat, with
    // the SAME coordinated checkpoint id.
    let tr0 = coordinator.due_checkpoint_triggers("worker-0", 1_000);
    let tr1 = coordinator.due_checkpoint_triggers("worker-1", 1_001);
    assert_eq!(tr0.len(), 1);
    assert_eq!(tr1.len(), 1);
    assert_eq!(tr0[0].task_id, *t0);
    assert_eq!(tr1[0].task_id, *t1);
    let cp_id = tr0[0].checkpoint_id;
    assert_eq!(tr1[0].checkpoint_id, cp_id);

    // Interval gating: no further triggers until the interval elapses.
    assert!(coordinator.due_checkpoint_triggers("worker-0", 1_002).is_empty());

    // First prepare: not resolved yet, no resolutions delivered.
    assert_eq!(coordinator.handle_checkpoint_prepare(&job_id, t0, cp_id, true), None);
    assert!(coordinator.drain_checkpoint_resolutions("worker-0").is_empty());
    assert!(coordinator.drain_checkpoint_resolutions("worker-1").is_empty());

    // Second prepare resolves: completed events for both workers.
    assert_eq!(coordinator.handle_checkpoint_prepare(&job_id, t1, cp_id, true), Some(cp_id));
    for w in ["worker-0", "worker-1"] {
        let rs = coordinator.drain_checkpoint_resolutions(w);
        assert_eq!(rs.len(), 1);
        assert!(rs[0].completed);
        assert_eq!(rs[0].checkpoint_id, cp_id);
    }
    let job = coordinator.get_job(&job_id).unwrap();
    assert_eq!(job.checkpoints_completed, 1);
    // Id counter advanced past the resolved checkpoint.
    assert!(job.next_checkpoint_id > cp_id);
}

#[test]
fn test_coordinated_checkpoint_failure_and_timeout_abort() {
    // Failure path: one task's barrier fails → abort for everyone.
    let mut coordinator = JobCoordinator::new();
    let config = json(
        r#"{"env": {"parallelism": 2, "checkpoint": {"interval": 300000}}, "source": {"Fake": {}}, "sink": {"Console": {}}}"#,
    );
    let (job_id, tasks) = coordinator.compile_and_schedule("jcf", "f", &config, None, &workers(2), 0).unwrap();
    for t in &tasks {
        coordinator.report_task_status(&job_id, &t.task_id, "RUNNING", 0, None, 0);
    }
    let tr = coordinator.due_checkpoint_triggers("worker-0", 1_000);
    assert_eq!(tr.len(), 1);
    let cp_id = tr[0].checkpoint_id;
    assert_eq!(
        coordinator.handle_checkpoint_prepare(&job_id, &tasks[0].task_id, cp_id, false),
        Some(cp_id)
    );
    for w in ["worker-0", "worker-1"] {
        let rs = coordinator.drain_checkpoint_resolutions(w);
        assert_eq!(rs.len(), 1);
        assert!(!rs[0].completed, "failure must abort, not complete");
    }

    // Timeout path: prepares never arrive → sweep aborts.
    // Rewind the volatile interval gate so the next round fires.
    coordinator.jobs[0].last_checkpoint_trigger_ms = 0;
    let tr2 = coordinator.due_checkpoint_triggers("worker-0", 2_000);
    assert_eq!(tr2.len(), 1);
    // The strict deadline comparison needs the trigger to age at
    // least one millisecond (production timeouts are 30s+).
    let aborted = coordinator.abort_timed_out_checkpoints(0, 2_003);
    assert_eq!(aborted, 1);
    let rs = coordinator.drain_checkpoint_resolutions("worker-0");
    assert_eq!(rs.len(), 1);
    assert!(!rs[0].completed);
}

#[test]
fn test_checkpoint_ids_never_rewind_across_ha_snapshot() {
    let mut primary = JobCoordinator::new();
    let config = json(
        r#"{"env": {"parallelism": 1, "checkpoint": {"interval": 300000}}, "source": {"Fake": {}}, "sink": {"Console": {}}}"#,
    );
    let (job_id, tasks) = primary.compile_and_schedule("jha", "ha", &config, None, &workers(1), 0).unwrap();
    primary.report_task_status(&job_id, &tasks[0].task_id, "RUNNING", 0, None, 0);
    // Consume two coordinated checkpoint ids on the primary. The
    // interval gate must be rewound between rounds (volatile field).
    for _ in 0..2 {
        primary.jobs[0].last_checkpoint_trigger_ms = 0;
        let tr = primary.due_checkpoint_triggers("worker-0", 1_000);
        assert_eq!(tr.len(), 1);
        let cp = tr[0].checkpoint_id;
        primary.handle_checkpoint_prepare(&job_id, &tasks[0].task_id, cp, true);
    }
    let snapshot = primary.export_state();

    // A standby that already holds the job with a LOWER counter must
    // never rewind below the primary's allocation.
    let mut standby = JobCoordinator::new();
    standby.compile_and_schedule("jha", "ha", &config, None, &workers(1), 0).unwrap();
    standby.import_state(&snapshot);
    let imported_next = standby.get_job("jha").unwrap().next_checkpoint_id;
    let primary_next = primary.get_job("jha").unwrap().next_checkpoint_id;
    assert!(imported_next >= primary_next);
}

#[test]
fn test_compile_multi_pipeline_with_fanout() {
    let mut coordinator = JobCoordinator::new();
    let config = json(
        r#"{
        "env": { "job.name": "multi", "parallelism": 2, "on-sink-failure": "isolate" },
        "pipelines": [
            {
                "name": "cdc-fanout",
                "parallelism": 1,
                "source": { "MySQL-CDC": { "database-name": "s", "table-name": "t" } },
                "sinks": [
                    { "Kafka": { "topic": "a" } },
                    { "JDBC": { "url": "jdbc:mysql://x" } }
                ]
            },
            {
                "source": { "JDBC": { "url": "jdbc:mysql://y" } },
                "sink": { "Console": {} }
            }
        ]
    }"#,
    );

    let (_job, tasks) = coordinator.compile_and_schedule("j2", "multi", &config, None, &workers(2), 0).unwrap();
    // pipeline 0: 1 subtask; pipeline 1: 2 subtasks.
    assert_eq!(tasks.len(), 3);
    let t = &tasks[0];
    assert_eq!(t.task_id, "j2-p0-0");
    assert_eq!(t.config.get("pipeline.name").unwrap(), "cdc-fanout");
    assert_eq!(t.config.get("pipeline.source.plugin").unwrap(), "MySQL-CDC");
    assert_eq!(t.config.get("pipeline.on-sink-failure").unwrap(), "isolate");
    let sinks: serde_json::Value = serde_json::from_str(t.config.get("pipeline.sinks").unwrap()).unwrap();
    assert_eq!(sinks.as_array().unwrap().len(), 2);
    assert_eq!(sinks[0]["plugin"], "Kafka");
    assert_eq!(sinks[1]["plugin"], "JDBC");

    let t1 = &tasks[1];
    assert_eq!(t1.task_id, "j2-p1-0");
    assert_eq!(t1.parallelism, 2);
    assert_eq!(t1.task_index, 0);
    let t2 = &tasks[2];
    assert_eq!(t2.task_index, 1);
    // Default policy inherited from env.
    assert_eq!(t2.config.get("pipeline.on-sink-failure").unwrap(), "isolate");
}

#[test]
fn test_compile_legacy_sink_list() {
    let mut coordinator = JobCoordinator::new();
    let config = json(
        r#"{"env": {"job.name": "legacy", "parallelism": 1}, "source": {"Fake": {"row.num": 1}},
            "sink": [{"Console": {}}, {"Console": {"prefix": "x"}}]}"#,
    );
    let (_job, tasks) = coordinator.compile_and_schedule("j3", "legacy", &config, None, &workers(1), 0).unwrap();
    let sinks: serde_json::Value =
        serde_json::from_str(tasks[0].config.get("pipeline.sinks").unwrap()).unwrap();
    assert_eq!(sinks.as_array().unwrap().len(), 2);
}

#[test]
fn test_compile_chained_tasks() {
    let mut coordinator = JobCoordinator::new();
    let config = json(
        r#"{
        "env": { "job.name": "cdc-job", "parallelism": 2, "checkpoint": { "interval": 10000 } },
        "source": { "MySQL-CDC": { "hostname": "db", "port": 3306, "database-name": "s", "table-name": "t" } },
        "sink": { "Kafka": { "bootstrap.servers": "k:9092", "topic": "out" } }
    }"#,
    );

    let (job_id, tasks) = coordinator.compile_and_schedule("j1", "cdc-job", &config, None, &workers(3), 0).unwrap();
    assert_eq!(job_id, "j1");
    assert_eq!(tasks.len(), 2);

    let t0 = &tasks[0];
    assert_eq!(t0.task_id, "j1-p0-0");
    assert_eq!(t0.config.get("pipeline.source.plugin").unwrap(), "MySQL-CDC");
    assert_eq!(t0.config.get("checkpoint.interval").unwrap(), "10000");
    let src: serde_json::Value =
        serde_json::from_str(t0.config.get("pipeline.source.config").unwrap()).unwrap();
    assert_eq!(src["hostname"], "db");
    let sinks: serde_json::Value = serde_json::from_str(t0.config.get("pipeline.sinks").unwrap()).unwrap();
    assert_eq!(sinks[0]["plugin"], "Kafka");
    assert_eq!(sinks[0]["config"]["topic"], "out");

    // Round-robin placement across three workers.
    assert_eq!(tasks[0].config.get("worker_id").unwrap(), "worker-0");
    assert_eq!(tasks[1].config.get("worker_id").unwrap(), "worker-1");

    // Dispatch dedup: pending once, gone after marking dispatched.
    let pending = coordinator.get_pending_tasks_for_worker("worker-0");
    assert_eq!(pending.len(), 1);
    coordinator.mark_tasks_dispatched(
        &pending.iter().map(|t| t.task_id.clone()).collect::<Vec<_>>(),
        "worker-0",
    );
    assert!(coordinator.get_pending_tasks_for_worker("worker-0").is_empty());
}

#[test]
fn test_no_workers_is_error() {
    let mut coordinator = JobCoordinator::new();
    let config = json(r#"{"source": {"Fake": {"row.num": 10}}, "sink": {"Console": {}}}"#);
    let result = coordinator.compile_and_schedule("jx", "x", &config, None, &[], 0);
    assert!(result.is_err());
}

#[test]
fn test_status_rollup_running_and_completed() {
    let mut coordinator = JobCoordinator::new();
    let config = json(r#"{"source": {"Fake": {}}, "sink": {"Console": {}}}"#);
    let (job_id, tasks) = coordinator.compile_and_schedule("jr", "r", &config, Some(2), &workers(1), 0).unwrap();
    for t in &tasks {
        coordinator.mark_tasks_dispatched(&vec![t.task_id.clone()], "worker-0");
    }
    let job = coordinator.get_job(&job_id).unwrap();
    assert_eq!(job.state, JobState::Deploying);

    for t in &tasks {
        coordinator.report_task_status(&job_id, &t.task_id, "RUNNING", 5, None, 0);
    }
    assert_eq!(coordinator.get_job(&job_id).unwrap().state, JobState::Running);

    for t in &tasks {
        coordinator.report_task_status(&job_id, &t.task_id, "COMPLETED", 50, None, 0);
    }
    assert_eq!(coordinator.get_job(&job_id).unwrap().state, JobState::Completed);
}

#[test]
fn test_failed_task_fails_job() {
    let mut coordinator = JobCoordinator::new();
    let config = json(r#"{"source": {"Fake": {}}, "sink": {"Console": {}}}"#);
    let (job_id, tasks) = coordinator.compile_and_schedule("jf", "f", &config, Some(1), &workers(1), 0).unwrap();
    coordinator.mark_tasks_dispatched(&vec![tasks[0].task_id.clone()], "worker-0");
    coordinator.report_task_status(
        &job_id,
        &tasks[0].task_id,
        "FAILED",
        0,
        Some("connection refused".into()),
        0,
    );
    let job = coordinator.get_job(&job_id).unwrap();
    assert!(matches!(job.state, JobState::Failed { .. }));
    assert_eq!(job.error_message.as_deref(), Some("connection refused"));
}

#[test]
fn test_cancel_propagates_to_worker_notification() {
    let mut coordinator = JobCoordinator::new();
    let config = json(r#"{"source": {"Fake": {}}, "sink": {"Console": {}}}"#);
    let (job_id, _) = coordinator.compile_and_schedule("jc", "c", &config, Some(1), &workers(1), 0).unwrap();
    assert!(coordinator.cancel_job(&job_id, 0));
    assert_eq!(coordinator.cancelled_job_ids(), vec![job_id]);
}

#[test]
fn test_env_parsing_shapes() {
    assert_eq!(env_parallelism(&json(r#"{"env":{"parallelism":4}}"#)), 4);
    assert_eq!(env_parallelism(&json(r#"{"env":{"parallelism":{"default":3}}}"#)), 3);
    assert_eq!(env_parallelism(&json("{}")), 1);
    assert_eq!(env_checkpoint_interval(&json(r#"{"env":{"checkpoint":{"interval":5000}}}"#)), 5000);
    assert_eq!(env_checkpoint_interval(&json(r#"{"env":{"checkpoint":12345}}"#)), 12345);
    // Flat dotted key produced by YAML/TOML parsers.
    assert_eq!(env_checkpoint_interval(&json(r#"{"env":{"checkpoint.interval":7000}}"#)), 7000);
    assert_eq!(env_checkpoint_interval(&json("{}")), DEFAULT_CHECKPOINT_INTERVAL_MS);
}

fn refusal(text: &str) -> PlanError {
    let mut coordinator = JobCoordinator::new();
    coordinator.compile_and_schedule("j", "n", &json(text), None, &workers(1), 0).unwrap_err()
}

#[test]
fn every_planning_error_has_its_cause() {
    assert!(matches!(refusal(r#"{"pipelines": []}"#), PlanError::EmptyPipelines));
    assert!(matches!(refusal(r#"{"pipelines": [{"sink": {"C": {}}}]}"#), PlanError::PipelineWithoutSource(_)));
    assert!(matches!(
        refusal(r#"{"pipelines": [{"source": {}, "sink": {"C": {}}}]}"#),
        PlanError::PipelineWithEmptySource(_)
    ));
    assert!(matches!(refusal(r#"{"pipelines": [{"source": {"F": {}}}]}"#), PlanError::PipelineWithoutSinks(_)));
    assert!(matches!(refusal(r#"{"sink": {"C": {}}}"#), PlanError::NoSource));
    assert!(matches!(refusal(r#"{"source": {}, "sink": {"C": {}}}"#), PlanError::EmptySource));
    assert!(matches!(refusal(r#"{"source": {"F": {}}}"#), PlanError::NoSink));
    let e = JobCoordinator::new()
        .compile_and_schedule("j", "n", &json(r#"{"source": {"F": {}}, "sink": {"C": {}}}"#), None, &[], 0)
        .unwrap_err();
    assert!(matches!(e, PlanError::NoWorker));
    assert!(e.message("n").starts_with("no worker registered: cannot schedule job 'n'"));
    assert_eq!(
        refusal(r#"{"pipelines": [{"name": "x", "source": {"F": {}}}]}"#).message("n"),
        "pipeline 'x' has no sinks section"
    );
}

#[test]
fn a_terminal_job_stays_terminal() {
    let mut c = JobCoordinator::new();
    let config = json(r#"{"source": {"Fake": {}}, "sink": {"Console": {}}}"#);
    let (id, tasks) = c.compile_and_schedule("j", "n", &config, None, &workers(1), 0).unwrap();
    assert!(c.cancel_job(&id, 7));
    c.report_task_status(&id, &tasks[0].task_id, "RUNNING", 1, None, 8);
    let job = c.get_job(&id).unwrap();
    assert_eq!(job.state, JobState::Cancelled);
    assert_eq!(job.end_time, Some(7));
    assert!(!c.cancel_job(&id, 9));
}

#[test]
fn the_log_keeps_its_last_lines() {
    let mut c = JobCoordinator::new();
    let config = json(r#"{"source": {"Fake": {}}, "sink": {"Console": {}}}"#);
    let (id, tasks) = c.compile_and_schedule("j", "n", &config, None, &workers(1), 0).unwrap();
    let lines: Vec<String> = (0..600).map(|i| format!("line {}", i)).collect();
    c.report_task_metrics(&tasks[0].task_id, 3, 11, &lines, "worker-0", 2, 40, &None);
    let job = c.get_job(&id).unwrap();
    let t = job.task(&tasks[0].task_id).unwrap();
    assert_eq!(t.logs.len(), 500);
    assert_eq!(t.logs[0], "line 100");
    assert_eq!(t.logs[499], "line 599");
    assert_eq!((t.processed_records, t.last_record_at, t.last_checkpoint_id, t.last_checkpoint_size), (3, 11, 2, 40));
    assert_eq!(c.list_jobs().len(), 1);
}

#[test]
fn transforms_reach_the_task() {
    let mut c = JobCoordinator::new();
    let config = json(
        r#"{"source": {"Fake": {}}, "transform": [{"Sql": {"query": "select 1"}}], "sink": {"Console": {}}}"#,
    );
    let (_, tasks) = c.compile_and_schedule("j", "n", &config, None, &workers(1), 0).unwrap();
    let t: serde_json::Value = serde_json::from_str(tasks[0].config.get("transform.config").unwrap()).unwrap();
    assert_eq!(t.as_array().unwrap().len(), 1);
}
