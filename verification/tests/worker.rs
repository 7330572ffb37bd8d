use seatunnel::admission::{AdmissionConfig, AdmissionController, AdmissionSignals};
use seatunnel::checkpoint_forwarder::{CheckpointForwarder, ForwardAction, TaskToDriver};
use seatunnel::heartbeat::HeartbeatResponse;
use seatunnel::job::TaskDescriptor;
use seatunnel::job_coordinator::{CheckpointResolution, CheckpointTrigger};
use seatunnel::json::Json;
use seatunnel::pipeline::{fetched_checkpoint, plan_pipeline, restore_source, PipelineError, RestoreSource, Setting, SinkPlan};
use seatunnel::props::Properties;
use seatunnel::state_store::LocalStateStore;
use seatunnel::worker::{
    panic_message, report_end, CleanConfig, TaskEnd, TaskSnapshot, WorkerAction, WorkerNode,
};

fn tmp_store(tag: &str) -> LocalStateStore {
    LocalStateStore::new(&format!("/tmp/st-worker-{}", tag))
}

fn node(tag: &str) -> WorkerNode {
    WorkerNode::new("w1".to_string(), "127.0.0.1:5001".to_string(), tmp_store(tag))
}

fn properties(pairs: &[(&str, &str)]) -> Properties {
    let mut p = Properties::new();
    for (k, v) in pairs {
        p.insert(k.to_string(), v.to_string());
    }
    p
}

fn task(task_id: &str, job_id: &str, plugin: &str, config: &str) -> TaskDescriptor {
    TaskDescriptor {
        task_id: task_id.to_string(),
        job_id: job_id.to_string(),
        stage_id: "s".to_string(),
        task_name: "n".to_string(),
        task_index: 0,
        source_config_json: String::new(),
        sink_config_json: String::new(),
        parallelism: 1,
        config: properties(&[
            ("source.plugin", plugin),
            ("source.config", config),
            ("sink.plugin", "Console"),
            ("sink.config", "{}"),
            ("transform.config", "[]"),
            ("checkpoint.interval", "60000"),
        ]),
    }
}

fn response(term: u64, pending_tasks: Vec<TaskDescriptor>, cancel_jobs: Vec<String>) -> HeartbeatResponse {
    HeartbeatResponse {
        worker_id: "w1".to_string(),
        next_interval_ms: 2000,
        pending_tasks,
        cancel_jobs,
        preempted_task_ids: Vec::new(),
        term,
        leader_hint: String::new(),
        checkpoint_triggers: Vec::new(),
        checkpoint_resolutions: Vec::new(),
    }
}

#[test]
fn test_worker_node_creation() {
    let worker = node("create");
    assert_eq!(worker.worker_id, "w1");
    assert_eq!(worker.term(), 0);
}

#[test]
fn test_term_fencing_rejects_stale_master() {
    let mut worker = node("fence");

    // Fresh master at term 2: accepted, term recorded.
    let resp = response(
        2,
        vec![task("t-new", "j", "Fake", r#"{"row.num":1}"#)],
        vec!["j-doomed".to_string()],
    );
    assert!(worker.apply_master_response(&resp).is_some());
    assert_eq!(worker.term(), 2);

    // Deposed master at term 1 (< 2): instructions ignored.
    let stale = response(1, Vec::new(), vec!["j-doomed".to_string()]);
    assert!(worker.apply_master_response(&stale).is_none());
    assert_eq!(worker.term(), 2);
}

#[test]
fn test_assign_and_complete_fake_job() {
    let mut worker = node("run");
    let t = task("t-1", "j-1", "Fake", r#"{"row.num":3}"#);
    assert!(worker.assign_task(&t));
    assert_eq!(worker.running_task_ids(), vec!["t-1".to_string()]);
    // The execution ends and is taken off the list.
    worker.finish_task("t-1");
    assert_eq!(worker.running_task_count(), 0);
}

#[test]
fn test_cancel_stops_running_task() {
    let mut worker = node("cancel");
    let t = task("t-c", "j-c", "Kafka", r#"{"bootstrap.servers":"127.0.0.1:19092","topic":"never"}"#);
    assert!(worker.assign_task(&t));
    let mut actions = Vec::new();
    worker.cancel_jobs(&vec!["j-c".to_string()], &mut actions);
    assert!(worker.running_task_count() <= 1);
    assert!(actions.iter().any(|a| matches!(a, WorkerAction::Cancel { task_id } if task_id == "t-c")));
}

#[test]
fn test_cancel_cleanup_scheduled_once_per_job() {
    let clean = CleanConfig { grace_secs: 3600, interval_secs: 60, ttl_secs: 3600 };
    let mut worker = WorkerNode::new_with_clean(
        "w1".to_string(),
        "127.0.0.1:5001".to_string(),
        tmp_store("dedup"),
        Some(clean),
    );

    // The master re-broadcasts the cancel on every heartbeat while
    // the job still has non-terminal tasks; repeated broadcasts must
    // not arm more than one delayed cleanup per job.
    let mut actions = Vec::new();
    worker.cancel_jobs(&vec!["j-a".to_string(), "j-b".to_string()], &mut actions);
    worker.cancel_jobs(&vec!["j-a".to_string()], &mut actions);
    worker.cancel_jobs(&vec!["j-a".to_string(), "j-b".to_string(), "j-c".to_string()], &mut actions);

    let scheduled = &worker.cancel_cleanups;
    assert_eq!(scheduled.len(), 3, "one entry per distinct job");
    for id in ["j-a", "j-b", "j-c"] {
        assert!(scheduled.contains(&id.to_string()));
    }
    assert_eq!(actions.len(), 3);
}

#[test]
fn a_task_is_assigned_once() {
    let mut worker = node("twice");
    let t = task("t", "j", "Fake", "{}");
    assert!(worker.assign_task(&t));
    assert!(!worker.assign_task(&t));
    assert_eq!(worker.running_task_count(), 1);
}

#[test]
fn a_response_is_obeyed_in_order() {
    let mut worker = node("order");
    worker.assign_task(&task("old", "j", "Fake", "{}"));
    worker.open_checkpoint_gate("old", "j");
    let mut resp = response(1, vec![task("new", "k", "Fake", "{}")], Vec::new());
    resp.preempted_task_ids = vec!["gone".to_string()];
    resp.checkpoint_triggers =
        vec![CheckpointTrigger { task_id: "old".to_string(), checkpoint_id: 4 }];
    resp.checkpoint_resolutions =
        vec![CheckpointResolution { task_id: "old".to_string(), checkpoint_id: 3, completed: true }];
    let actions = worker.apply_master_response(&resp).unwrap();
    assert!(actions.iter().any(|a| matches!(a, WorkerAction::Trigger { task_id, checkpoint_id: 4 } if task_id == "old")));
    assert!(actions
        .iter()
        .any(|a| matches!(a, WorkerAction::Resolve { task_id, checkpoint_id: 3, completed: true } if task_id == "old")));
    assert!(actions.iter().any(|a| matches!(a, WorkerAction::Start { task } if task.task_id == "new")));
    assert_eq!(worker.running_task_count(), 2);
}

#[test]
fn preempted_tasks_are_cancelled() {
    let mut worker = node("preempt");
    worker.assign_task(&task("t", "j", "Fake", "{}"));
    let mut actions = Vec::new();
    worker.preempt_tasks(&vec!["t".to_string(), "u".to_string()], &mut actions);
    assert_eq!(actions.len(), 1);
    assert!(worker.cancel_cleanups.is_empty());
}

#[test]
fn terms_only_rise() {
    let mut worker = node("term");
    assert_eq!(worker.observe_term(4), 4);
    assert_eq!(worker.observe_term(2), 4);
}

#[test]
fn a_heartbeat_carries_what_was_measured() {
    let mut worker = node("measure");
    worker.assign_task(&task("t", "j", "Fake", "{}"));
    worker.assign_task(&task("u", "j", "Fake", "{}"));
    let snap = TaskSnapshot {
        task_id: "t".to_string(),
        processed_records: 7,
        last_record_at: 8,
        new_lines: vec!["x".to_string()],
        last_checkpoint_id: 9,
        last_checkpoint_size: 10,
        sink_metrics: Some(Json::Int(3)),
    };
    let reports = worker.heartbeat_tasks(&vec![snap]);
    let t = reports.iter().find(|r| r.task_id == "t").unwrap();
    assert_eq!((t.processed_records, t.last_record_at, t.last_checkpoint_id, t.last_checkpoint_size_bytes), (7, 8, 9, 10));
    assert_eq!(t.logs, vec!["x".to_string()]);
    assert_eq!(t.sink_metrics, Some(Json::Int(3)));
    let u = reports.iter().find(|r| r.task_id == "u").unwrap();
    assert_eq!(u.sink_metrics, None);
}

#[test]
fn admission_fields_follow_the_signals() {
    let mut worker = node("admission").with_admission(AdmissionController::new_manual(AdmissionConfig::default()));
    assert!(worker.admission_fields(0).can_accept);
    worker.set_admission_signals(AdmissionSignals { lag_ms: Some(900), mem_permille: Some(300), cpu_permille: Some(5) });
    let f = worker.admission_fields(1_000);
    assert!(!f.can_accept);
    assert_eq!((f.lag_ms, f.mem_permille, f.cpu_permille), (900, 300, 5));
}

#[test]
fn ends_are_reported() {
    let e = report_end(&TaskEnd::Completed { records: 5 });
    assert_eq!((e.state, e.records, e.error), (3, 5, None));
    let e = report_end(&TaskEnd::Cancelled { records: 6 });
    assert_eq!((e.state, e.records, e.error), (5, 6, None));
    let e = report_end(&TaskEnd::Failed { records: 7, error: "no".to_string() });
    assert_eq!((e.state, e.records, e.error), (4, 7, Some("no".to_string())));
    let e = report_end(&TaskEnd::Panicked { message: Some("bad".to_string()) });
    assert_eq!(e.state, 4);
    assert!(e.error.unwrap().contains("bad"));
    assert_eq!(panic_message(Some("oops")), "oops");
    assert_eq!(panic_message(None), "unknown panic");
}

#[test]
fn a_pipeline_is_read_from_its_task() {
    let plan = plan_pipeline(&task("t", "j", "Fake", r#"{"row.num":3}"#)).unwrap();
    assert_eq!(plan.source_plugin, "Fake");
    assert_eq!(plan.source_config, Json::parse(br#"{"row.num":3}"#).unwrap());
    assert_eq!(plan.checkpoint_interval, 60_000);
    assert!(matches!(plan.sinks, SinkPlan::Single { ref plugin, .. } if plugin == "Console"));
    assert!(plan.transforms.is_empty());
    let bad = plan_pipeline(&task("t", "j", "Fake", "{")).unwrap_err();
    assert!(matches!(bad, PipelineError::Unreadable(Setting::Source, _)));
}

#[test]
fn a_fanout_pipeline_is_read_from_its_task() {
    let mut t = task("t", "j", "Fake", "{}");
    t.config.insert("pipeline.source.plugin".to_string(), "MySQL-CDC".to_string());
    t.config.insert("pipeline.source.config".to_string(), "{}".to_string());
    t.config.insert(
        "pipeline.sinks".to_string(),
        r#"[{"plugin":"Kafka","config":{"topic":"a"}},{"plugin":"JDBC","config":{}}]"#.to_string(),
    );
    t.config.insert("pipeline.on-sink-failure".to_string(), "isolate".to_string());
    let plan = plan_pipeline(&t).unwrap();
    assert_eq!(plan.source_plugin, "MySQL-CDC");
    assert!(matches!(plan.sinks, SinkPlan::Fanout { ref sinks, ref on_failure } if sinks.len() == 2 && on_failure == "isolate"));
    t.config.insert("pipeline.sinks".to_string(), "{}".to_string());
    assert!(matches!(plan_pipeline(&t).unwrap_err(), PipelineError::Malformed(Setting::Sinks)));
    t.config.insert("pipeline.sinks".to_string(), "[".to_string());
    assert!(matches!(plan_pipeline(&t).unwrap_err(), PipelineError::Unreadable(Setting::Sinks, _)));
}

#[test]
fn a_task_restores_from_the_nearest_store() {
    assert!(matches!(restore_source(true, "s3", true), RestoreSource::Local));
    assert!(matches!(restore_source(false, "master", false), RestoreSource::Master));
    assert!(matches!(restore_source(false, "s3", true), RestoreSource::S3));
    assert!(matches!(restore_source(false, "s3", false), RestoreSource::Cold));
    assert!(matches!(restore_source(false, "localfile", false), RestoreSource::Cold));
    assert_eq!(fetched_checkpoint(3, vec![1]), Some((3, vec![1])));
    assert_eq!(fetched_checkpoint(0, Vec::new()), None);
}

#[test]
fn a_checkpoint_is_persisted_before_it_is_reported() {
    let mut worker = node("forward");
    worker.assign_task(&task("t", "j", "Fake", "{}"));
    worker.open_checkpoint_gate("t", "j");
    let forwarder = CheckpointForwarder::new("master", false);
    let actions = forwarder.run(
        &mut worker,
        &vec![
            TaskToDriver::Checkpoint { task_id: "t".to_string(), checkpoint_id: 2, reader_state: b"st".to_vec() },
            TaskToDriver::CheckpointFailed { task_id: "t".to_string(), checkpoint_id: 3 },
            TaskToDriver::Done { task_id: "t".to_string() },
            TaskToDriver::Checkpoint { task_id: "t".to_string(), checkpoint_id: 4, reader_state: b"x".to_vec() },
        ],
    );
    assert!(matches!(&actions[0], ForwardAction::Persist { checkpoint_id: 2, data, .. } if data == b"st"));
    assert!(matches!(&actions[1], ForwardAction::Report { report, .. }
        if report.checkpoint_id == 2 && report.success && report.prepare && report.checkpoint_data == b"st"));
    assert!(actions.iter().any(|a| matches!(a, ForwardAction::Report { report, .. }
        if report.checkpoint_id == 3 && !report.success)));
    assert!(!actions.iter().any(|a| matches!(a, ForwardAction::Persist { checkpoint_id: 4, .. })));
}
