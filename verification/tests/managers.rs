use seatunnel::job_manager::JobManager;
use seatunnel::resource_manager::ResourceManager;

#[test]
fn test_job_lifecycle() {
    let mut jm = JobManager::new();

    jm.submit_job("job-1".to_string(), "test-job".to_string(), 4, 1000);
    let job = jm.get_job("job-1").unwrap();
    assert_eq!(job.state, "CREATED");
    assert_eq!(job.parallelism, 4);

    jm.update_state("job-1", "RUNNING".to_string());
    assert_eq!(jm.get_job("job-1").unwrap().state, "RUNNING");
    assert_eq!(jm.running_count(), 1);

    jm.cancel_job("job-1");
    assert_eq!(jm.get_job("job-1").unwrap().state, "CANCELLED");
    assert_eq!(jm.running_count(), 0);
}

#[test]
fn test_list_jobs() {
    let mut jm = JobManager::new();
    jm.submit_job("j1".to_string(), "job1".to_string(), 2, 1000);
    jm.submit_job("j2".to_string(), "job2".to_string(), 4, 2000);
    assert_eq!(jm.list_jobs().len(), 2);
}

#[test]
fn removed_jobs_are_gone() {
    let mut jm = JobManager::new();
    assert!(!jm.cancel_job("none"));
    jm.submit_job("j1".to_string(), "a".to_string(), 1, 0);
    jm.submit_job("j1".to_string(), "b".to_string(), 1, 0);
    assert_eq!(jm.list_jobs().len(), 1);
    assert_eq!(jm.get_job("j1").unwrap().job_name, "b");
    jm.remove_job("j1");
    assert!(jm.get_job("j1").is_none());
}

#[test]
fn test_register_and_assign() {
    let mut rm = ResourceManager::new();
    rm.register_worker("w1".to_string(), "127.0.0.1:5001".to_string(), 8, 8 * 1024 * 1024 * 1024);
    rm.register_worker("w2".to_string(), "127.0.0.1:5002".to_string(), 4, 4 * 1024 * 1024 * 1024);

    assert_eq!(rm.worker_count(), 2);
    rm.update_heartbeat("w1", 1000);
    assert!(rm.is_worker_alive("w1", 5000));

    let (id, addr) = rm.assign_task().unwrap();
    assert!(id == "w1" || id == "w2");
    assert!(addr == "127.0.0.1:5001" || addr == "127.0.0.1:5002");
}

#[test]
fn test_remove_worker() {
    let mut rm = ResourceManager::new();
    rm.register_worker("w1".to_string(), "127.0.0.1:5001".to_string(), 8, 8 * 1024 * 1024 * 1024);
    rm.remove_worker("w1");
    assert_eq!(rm.worker_count(), 0);
}

#[test]
fn tasks_are_spread_over_the_workers() {
    let mut rm = ResourceManager::new();
    assert!(rm.assign_task().is_none());
    rm.register_worker("a".to_string(), "x".to_string(), 1, 1);
    rm.register_worker("b".to_string(), "y".to_string(), 1, 1);
    let mut got: Vec<String> = (0..4).map(|_| rm.assign_task().unwrap().0).collect();
    got.sort();
    assert_eq!(got, vec!["a", "a", "b", "b"]);
    assert!(!rm.is_worker_alive("c", 10));
    assert_eq!(rm.get_workers().len(), 2);
}
