use seatunnel::command::Command;
use seatunnel::job::JobState;
use seatunnel::job_coordinator::JobCoordinator;
use seatunnel::json::Json;
use seatunnel::replication::StateSnapshot;

fn json(text: &str) -> Json {
    Json::parse(text.as_bytes()).unwrap()
}

fn workers(n: usize) -> Vec<(String, String)> {
    (0..n).map(|i| (format!("worker-{}", i), format!("127.0.0.1:{}", 5001 + i))).collect()
}

fn running(job: &str, parallelism: usize) -> (JobCoordinator, Vec<String>) {
    let mut c = JobCoordinator::new();
    let config = json(r#"{"env": {"checkpoint.interval": 1000}, "source": {"Fake": {}}, "sink": {"Console": {}}}"#);
    let (_, tasks) = c.compile_and_schedule(job, "n", &config, Some(parallelism), &workers(parallelism), 0).unwrap();
    let ids: Vec<String> = tasks.iter().map(|t| t.task_id.clone()).collect();
    for (i, id) in ids.iter().enumerate() {
        c.mark_tasks_dispatched(&vec![id.clone()], &format!("worker-{}", i));
        c.report_task_status(job, id, "RUNNING", 3, None, 0);
    }
    (c, ids)
}

#[test]
fn a_snapshot_survives_its_text() {
    let (mut c, ids) = running("j", 2);
    c.observe_term(7);
    c.checkpoint_store.save("j", &ids[0], 4, &[1, 2, 255]);
    let text = c.export_state().to_text();
    let snapshot = StateSnapshot::parse(text.as_bytes()).unwrap();
    assert_eq!(snapshot.term, Some(7));
    let mut other = JobCoordinator::new();
    other.import_state(&snapshot);
    let (a, b) = (c.get_job("j").unwrap(), other.get_job("j").unwrap());
    assert_eq!(a.job_name, b.job_name);
    assert_eq!(b.state, JobState::Running);
    assert_eq!(a.raw_config, b.raw_config);
    assert_eq!(b.tasks.len(), 2);
    assert_eq!(other.term(), 7);
    assert_eq!(other.checkpoint_store.load_latest("j", &ids[0]), Some((4, vec![1, 2, 255])));
    let records = snapshot.tasks.unwrap();
    assert_eq!(records.len(), 2);
    let d = records.iter().find(|d| d.task_id.as_deref() == Some(ids[1].as_str())).unwrap();
    assert_eq!(d.config.as_ref().unwrap().get("worker_id").map(String::as_str), Some("worker-1"));
}

#[test]
fn counters_that_are_missing_have_defaults() {
    let s = StateSnapshot::read(&json(
        r#"{"jobs": [{"job_id": "j", "job_name": "n", "state": "RUNNING", "parallelism": 2, "start_time": 5, "tasks": [
            {"task_id": "t", "stage_id": "s", "worker_id": "w", "state": "RUNNING", "processed_records": 9}
        ]}]}"#,
    ));
    let jobs = s.jobs.unwrap();
    assert_eq!(jobs.len(), 1);
    let j = &jobs[0];
    assert_eq!(j.next_checkpoint_id, 1);
    assert_eq!((j.checkpoint_interval_ms, j.checkpoints_completed), (0, 0));
    assert_eq!((j.end_time, j.error_message.clone()), (None, None));
    assert_eq!(j.raw_config, "");
    assert_eq!(j.tasks[0].processed_records, 9);
    assert_eq!(j.tasks[0].error, None);
    assert_eq!(s.term, None);
    assert!(s.tasks.is_none());
    assert!(s.checkpoints.is_none());
}

#[test]
fn a_malformed_section_leaves_the_others() {
    let s = StateSnapshot::read(&json(
        r#"{"term": 4, "jobs": [{"job_id": "j"}], "tasks": [
            {"task_id": "t", "config": {"k": "v"}}, {"task_id": 5, "config": {"k": 1}}, 6
        ], "checkpoints": [[["j", "t"], {"entries": [[1, [0, 255]]]}]]}"#,
    ));
    assert_eq!(s.term, Some(4));
    assert!(s.jobs.is_none(), "one malformed job spoils the jobs");
    let tasks = s.tasks.unwrap();
    assert_eq!(tasks.len(), 3);
    assert_eq!(tasks[0].task_id.as_deref(), Some("t"));
    assert_eq!(tasks[0].config.as_ref().unwrap().get("k").map(String::as_str), Some("v"));
    assert_eq!(tasks[1].task_id, None);
    assert!(tasks[1].config.is_none());
    assert_eq!(tasks[2].task_id, None);
    let checkpoints = s.checkpoints.unwrap();
    assert_eq!(checkpoints[0].0, ("j".to_string(), "t".to_string()));
    assert_eq!(checkpoints[0].1.entries, vec![(1, vec![0, 255])]);
    // A byte that is none spoils the checkpoints, and nothing else.
    let s = StateSnapshot::read(&json(
        r#"{"term": -1, "jobs": [], "checkpoints": [[["j", "t"], {"entries": [[1, [256]]]}]]}"#,
    ));
    assert_eq!(s.term, None);
    assert_eq!(s.jobs.unwrap().len(), 0);
    assert!(s.checkpoints.is_none());
    assert!(StateSnapshot::parse(b"not json").is_err());
    assert!(StateSnapshot::parse(b"[]").unwrap().jobs.is_none());
}

#[test]
fn each_task_is_triggered_once_by_its_owner() {
    let (mut c, ids) = running("j", 2);
    let mut given: Vec<(String, String, u64)> = Vec::new();
    let mut now = 10;
    for round in 0..3u64 {
        for worker in ["worker-0", "worker-1", "worker-0", "worker-1", "worker-2"] {
            for t in c.due_checkpoint_triggers(worker, now) {
                given.push((worker.to_string(), t.task_id, t.checkpoint_id));
            }
        }
        assert_eq!(given.len(), 2 * (round as usize + 1));
        // Nothing new begins while the checkpoint is in flight.
        assert!(c.due_checkpoint_triggers("worker-0", now + 5_000).is_empty());
        for id in &ids {
            c.handle_checkpoint_prepare("j", id, round + 1, true);
        }
        now += 1_000;
    }
    for (i, (worker, task, id)) in given.iter().enumerate() {
        assert_eq!(*id, i as u64 / 2 + 1, "the tasks of a pipeline share an id, and ids rise");
        let owner = ids.iter().position(|t| t == task).unwrap();
        assert_eq!(*worker, format!("worker-{}", owner));
        assert!(given[..i].iter().all(|g| (&g.1, g.2) != (task, *id)));
    }
    assert_eq!(c.get_job("j").unwrap().next_checkpoint_id, 4);
}

#[test]
fn commands_keep_everything_apart() {
    let (mut c, ids) = running("j", 2);
    let id = ids[0].clone();
    for cmd in [
        Command::AdoptTasks { worker_id: "worker-0".to_string(), task_ids: vec![id.clone(), id.clone()] },
        Command::MarkDispatched { task_ids: vec![id.clone(), id.clone()], worker_id: "worker-0".to_string() },
        Command::ReleaseLostTasks { worker_id: "worker-1".to_string(), task_ids: ids.clone() },
        Command::EvictWorker { worker_id: "worker-0".to_string() },
        Command::CheckpointTriggered { job_id: "j".to_string(), stage_id: "j-p0".to_string(), at_ms: 1 },
        Command::CheckpointTriggered { job_id: "j".to_string(), stage_id: "j-p0".to_string(), at_ms: 2 },
        Command::CancelJob { job_id: "j".to_string(), at_ms: 3 },
    ] {
        c.apply_command(&cmd, 9);
        let job = c.get_job("j").unwrap();
        let mut names: Vec<String> = job.tasks.iter().map(|t| t.task_id.clone()).collect();
        names.sort();
        names.dedup();
        assert_eq!(names, ids);
        assert!(c.pending_checkpoints.len() <= 1);
    }
    let snapshot = c.export_state();
    c.import_state(&snapshot);
    assert_eq!(c.all_tasks.len(), 2);
    assert_eq!(c.jobs.len(), 1);
}

#[test]
fn a_replaced_state_keeps_as_many_checkpoints() {
    let (source, ids) = running("j", 1);
    let snapshot = source.export_state();
    let mut c = JobCoordinator::new();
    c.replace_state(&snapshot);
    for id in 1..=5u64 {
        c.checkpoint_store.save("j", &ids[0], id, b"x");
    }
    let kept = c.checkpoint_store.export();
    assert_eq!(kept.len(), 1);
    let left: Vec<u64> = kept[0].1.entries.iter().map(|e| e.0).collect();
    assert_eq!(left, vec![3, 4, 5]);
}
