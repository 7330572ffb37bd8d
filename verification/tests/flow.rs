use seatunnel::client_handler::{ClientHandler, SubmitJobRequest};
use seatunnel::job_coordinator::JobCoordinator;
use seatunnel::master::{new_worker_registry, MasterHandler, MasterInfo};
use seatunnel::master_service::{TaskStatusReport, WorkerRegistration};
use seatunnel::node::HeartbeatLoop;
use seatunnel::raft::log_store::LogId;
use seatunnel::raft::state_machine::{CoordinatorStateMachine, Entry, Payload};
use seatunnel::raft::{members_from_addresses, validate_voters, LeaderState, RaftWrite, WritePath};
use seatunnel::state_store::LocalStateStore;
use seatunnel::worker::{report_end, TaskEnd, WorkerAction, WorkerNode};

/// A master and a worker that exchange heartbeats at given times.
struct Cluster {
    master: MasterHandler,
    worker: WorkerNode,
    beats: HeartbeatLoop,
    now: i64,
}

impl Cluster {
    fn new() -> Self {
        let info = MasterInfo { advertise_addr: "127.0.0.1:5800".to_string(), role: "master".to_string() };
        let master = MasterHandler::new(JobCoordinator::new(), new_worker_registry(), info, 1000, 30_000);
        let worker =
            WorkerNode::new("w1".to_string(), "127.0.0.1:5001".to_string(), LocalStateStore::new("/tmp/flow"));
        let beats = HeartbeatLoop::new(vec!["127.0.0.1:5800".to_string()], 1000);
        let mut cluster = Cluster { master, worker, beats, now: 1 };
        let reg = WorkerRegistration {
            worker_id: "w1".to_string(),
            address: "127.0.0.1:5001".to_string(),
            running_task_ids: Vec::new(),
        };
        let answer = cluster.master.register_worker(&reg, true, "", 1);
        cluster.worker.observe_term(answer.term);
        cluster
    }

    fn client(&self) -> ClientHandler<'_> {
        ClientHandler::new_direct(&self.master.coordinator, &self.master.workers, &self.master.info)
    }

    fn submit(&mut self, name: &str, config: &str) -> String {
        let request = SubmitJobRequest {
            job_id: format!("job-{}", name),
            job_name: name.to_string(),
            job_config: config.as_bytes().to_vec(),
            parallelism: 0, // use env parallelism
        };
        let s = self.client().submit_job(&request, self.now).unwrap();
        self.master.coordinator.apply_command(&s.command, self.now);
        assert!(s.response.success, "submit failed: {}", s.response.message);
        s.response.job_id
    }

    /// One heartbeat: what the worker is told to do.
    fn beat(&mut self) -> Vec<WorkerAction> {
        self.now += 100;
        let fields = self.worker.admission_fields(self.now);
        let tasks = self.worker.heartbeat_tasks(&Vec::new());
        let hb = self.beats.request("w1", "127.0.0.1:5001", self.worker.term(), tasks, fields);
        let answer = self.master.compute_heartbeat(&hb, true, "", self.now);
        self.beats.on_answer(answer.next_interval_ms);
        self.worker.apply_master_response(&answer).unwrap()
    }

    fn report(&mut self, job: &str, task: &str, state: i32, records: u64) {
        let report = TaskStatusReport {
            job_id: job.to_string(),
            task_id: task.to_string(),
            worker_id: "w1".to_string(),
            state,
            processed_records: records as i64,
            error_message: String::new(),
        };
        let cmd = self.master.report_task_status(&report);
        self.master.coordinator.apply_command(&cmd, self.now);
    }

    fn state(&self, job: &str) -> i32 {
        self.client().get_job_status(job).unwrap().state
    }
}

#[test]
fn bounded_job_runs_to_completed_through_cluster() {
    let mut cluster = Cluster::new();
    let job_id = cluster.submit(
        "it-bounded",
        r#"{"env": {"job.name": "it-bounded", "parallelism": 2},
            "source": {"Fake": {"row.num": 5}}, "sink": {"Console": {}}}"#,
    );
    let started: Vec<String> = cluster
        .beat()
        .into_iter()
        .filter_map(|a| match a {
            WorkerAction::Start { task } => Some(task.task_id),
            _ => None,
        })
        .collect();
    assert_eq!(started.len(), 2);
    for t in &started {
        cluster.report(&job_id, t, 2, 0);
    }
    assert_eq!(cluster.state(&job_id), 3);
    for t in &started {
        let end = report_end(&TaskEnd::Completed { records: 5 });
        cluster.worker.finish_task(t);
        cluster.report(&job_id, t, end.state, end.records);
    }
    assert_eq!(cluster.state(&job_id), 4);
    let status = cluster.client().get_job_status(&job_id).unwrap();
    let records: i64 = status.tasks.iter().map(|t| t.processed_records).sum();
    assert_eq!(records, 10, "2 subtasks × 5 rows expected");
    assert!(cluster.beat().is_empty());
}

#[test]
fn streaming_job_cancels_to_cancelled_state() {
    let mut cluster = Cluster::new();
    let job_id = cluster.submit(
        "it-streaming",
        r#"{"env": {"job.name": "it-streaming", "parallelism": 1},
            "source": {"Kafka": {"bootstrap.servers": "127.0.0.1:19092", "topic": "never"}},
            "sink": {"Console": {}}}"#,
    );
    cluster.beat();
    let task = cluster.worker.running_task_ids()[0].clone();
    cluster.report(&job_id, &task, 2, 0);
    assert_eq!(cluster.state(&job_id), 3);

    let cmd = cluster.client().cancel_job(&job_id, cluster.now).unwrap();
    cluster.master.coordinator.apply_command(&cmd, cluster.now);
    assert_eq!(cluster.state(&job_id), 6);
    // The worker learns of it, stops the task and says so.
    let actions = cluster.beat();
    assert!(actions.iter().any(|a| matches!(a, WorkerAction::Cancel { task_id } if *task_id == task)));
    let end = report_end(&TaskEnd::Cancelled { records: 0 });
    cluster.worker.finish_task(&task);
    cluster.report(&job_id, &task, end.state, end.records);
    assert_eq!(cluster.state(&job_id), 6);
    assert!(cluster.beat().is_empty());
}

fn submission(job: &str) -> Payload {
    let config = br#"{"source": {"Fake": {}}, "sink": {"Console": {}}}"#;
    let request = SubmitJobRequest {
        job_id: job.to_string(),
        job_name: job.to_string(),
        job_config: config.to_vec(),
        parallelism: 0,
    };
    let cluster = Cluster::new();
    Payload::Normal(cluster.client().submit_job(&request, 1).unwrap().command)
}

fn entry(term: u64, index: u64, payload: Payload) -> Entry {
    Entry { log_id: LogId { term, node_id: 1, index }, payload }
}

#[test]
fn single_voter_elects_and_applies() {
    assert!(validate_voters(1).is_ok(), "single voter is legal");
    let members = members_from_addresses(&vec!["single".to_string()]);
    let mut machine = CoordinatorStateMachine::new(JobCoordinator::new());
    let mut state = LeaderState { term: 0, leader_id: None };
    state.observe(1, Some(1), &mut machine.coordinator);
    assert!(machine.coordinator.term() >= 1, "leader term must be >= 1, got {}", machine.coordinator.term());
    assert!(RaftWrite::new(1, members, state).is_leader());
    machine.apply(&vec![entry(1, 1, submission("j-single"))], 1);
    assert_eq!(machine.coordinator.get_job("j-single").unwrap().state.to_wire(), "SCHEDULED");
}

#[test]
fn three_voters_failover_without_dual_writes() {
    assert!(validate_voters(2).is_err(), "two voters must be rejected");
    assert!(validate_voters(3).is_ok(), "three voters are legal");
    let addresses = vec!["a:1".to_string(), "b:2".to_string(), "c:3".to_string()];
    let mut machines: Vec<CoordinatorStateMachine> =
        (0..3).map(|_| CoordinatorStateMachine::new(JobCoordinator::new())).collect();
    let mut states: Vec<LeaderState> = (0..3).map(|_| LeaderState { term: 0, leader_id: None }).collect();
    for i in 0..3 {
        states[i].observe(1, Some(1), &mut machines[i].coordinator);
        machines[i].apply(&vec![entry(1, 1, submission("jrepl"))], 1);
        assert_eq!(machines[i].coordinator.get_job("jrepl").unwrap().state.to_wire(), "SCHEDULED", "replication stalled");
    }
    let leaders = |states: &Vec<LeaderState>| -> Vec<u64> {
        (1..=3u64)
            .filter(|id| {
                let s = &states[*id as usize - 1];
                let seen = LeaderState { term: s.term, leader_id: s.leader_id };
                RaftWrite::new(*id, members_from_addresses(&addresses), seen).is_leader()
            })
            .collect()
    };
    assert_eq!(leaders(&states), vec![1]);

    // The first node is gone; the others elect the second.
    let before = machines[1].coordinator.term();
    for i in 1..3 {
        states[i].observe(2, Some(2), &mut machines[i].coordinator);
        machines[i].apply(&vec![entry(2, 2, submission("after-failover"))], 1);
        assert!(machines[i].coordinator.get_job("jrepl").is_some());
        assert!(machines[i].coordinator.get_job("after-failover").is_some());
    }
    let after = machines[1].coordinator.term();
    assert!(after > before, "term must advance across failover");
    assert!(after <= before + 3, "term inflated {} -> {} across one failover", before, after);
    // Once the first node hears of the election it leads no more.
    states[0].observe(2, Some(2), &mut machines[0].coordinator);
    assert_eq!(leaders(&states), vec![2]);
}
