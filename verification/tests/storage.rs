use seatunnel::checkpoint_store::{MasterCheckpointStore, S3CheckpointStore, TaskCheckpoints};
use seatunnel::retention::{checkpoint_file_name, checkpoint_id_of};
use seatunnel::state_store::{
    newest_mtime, sanitize, JobTree, LocalStateStore, PersistAndReportListener, TreeEntry,
};

/// Objects in memory, each with the time of its last change.
struct Bucket {
    store: S3CheckpointStore,
    objects: Vec<(String, Vec<u8>, u128)>,
    now: u128,
}

impl Bucket {
    fn new(retained: usize) -> Self {
        Bucket { store: S3CheckpointStore::new("checkpoints", retained), objects: Vec::new(), now: 1000 }
    }

    fn list(&self, prefix: &str) -> Vec<String> {
        let start = format!("{}/", prefix);
        self.objects.iter().filter(|o| o.0.starts_with(&start)).map(|o| o.0.clone()).collect()
    }

    fn names(&self, job: &str, task: &str) -> Vec<String> {
        let start = format!("{}/", self.store.task_prefix(job, task));
        self.list(&self.store.task_prefix(job, task)).iter().map(|p| p[start.len()..].to_string()).collect()
    }

    fn save(&mut self, job: &str, task: &str, id: u64, data: &[u8]) {
        let path = self.store.object_path(job, task, id);
        self.objects.push((path, data.to_vec(), self.now));
        let paths = self.list(&self.store.task_prefix(job, task));
        for (_, at) in self.store.prune_task(&self.names(job, task)) {
            self.objects.retain(|o| o.0 != paths[at]);
        }
    }

    fn load_latest(&self, job: &str, task: &str) -> Option<(u64, Vec<u8>)> {
        let (id, at) = self.store.latest_object(&self.names(job, task))?;
        let path = &self.list(&self.store.task_prefix(job, task))[at];
        let object = self.objects.iter().find(|o| o.0 == *path).unwrap();
        Some((id, object.1.clone()))
    }

    fn drop_job(&mut self, job: &str) {
        let gone = self.list(&self.store.job_prefix(job));
        self.objects.retain(|o| !gone.contains(&o.0));
    }

    fn sweep_expired(&mut self, ttl: u128) -> Vec<String> {
        let all = self.list(&self.store.root_prefix());
        let mut jobs = Vec::new();
        for job in self.store.list_distinct_first_segments(&all) {
            let paths = self.list(&self.store.job_prefix(&job));
            let times = self.objects.iter().filter(|o| paths.contains(&o.0)).map(|o| o.2).collect();
            jobs.push((job, times));
        }
        let swept = self.store.sweep_expired(&jobs, self.now, ttl);
        for job in &swept {
            self.drop_job(job);
        }
        swept
    }
}

#[test]
fn master_store_roundtrip_and_retention() {
    let mut store = MasterCheckpointStore::new(2);
    store.save("j", "t", 1, b"one");
    store.save("j", "t", 2, b"two");
    store.save("j", "t", 3, b"three");
    let (id, data) = store.load_latest("j", "t").unwrap();
    assert_eq!((id, data.as_slice()), (3, b"three".as_slice()));
    // Retention kept 2.
    let exported = store.export();
    let entry = exported
        .iter()
        .find(|((job, task), _)| job == "j" && task == "t")
        .expect("task exported");
    assert_eq!(entry.1.entries.len(), 2);
    store.drop_job("j");
    assert!(store.load_latest("j", "t").is_none());
}

#[test]
fn s3_save_load_latest() {
    let mut store = Bucket::new(3);
    store.save("job1", "task1", 1, b"state-one");
    store.save("job1", "task1", 2, b"state-two");
    let (id, data) = store.load_latest("job1", "task1").unwrap();
    assert_eq!(id, 2);
    assert_eq!(data, b"state-two");
}

#[test]
fn s3_write_prunes_old_objects() {
    let mut store = Bucket::new(2);
    for id in 1..=5u64 {
        store.save("j", "t", id, format!("s{}", id).as_bytes());
    }
    // Only cp-4 and cp-5 remain.
    let (id, _) = store.load_latest("j", "t").unwrap();
    assert_eq!(id, 5);
    let paths = store.list(&store.store.task_prefix("j", "t"));
    assert_eq!(paths.len(), 2);
}

#[test]
fn s3_drop_job_removes_everything() {
    let mut store = Bucket::new(3);
    store.save("j1", "t1", 1, b"x");
    store.save("j1", "t2", 1, b"y");
    store.save("j2", "t1", 1, b"z");
    store.drop_job("j1");
    assert!(store.load_latest("j1", "t1").is_none());
    assert!(store.load_latest("j1", "t2").is_none());
    assert!(store.load_latest("j2", "t1").is_some());
}

#[test]
fn s3_sweep_removes_expired_jobs() {
    let mut store = Bucket::new(3);
    store.save("old", "t", 1, b"x");
    store.save("fresh", "t", 1, b"y");
    // ttl 0 expires everything.
    let swept = store.sweep_expired(0);
    assert!(swept.contains(&"old".to_string()));
    assert!(swept.contains(&"fresh".to_string()));
    assert!(store.load_latest("old", "t").is_none());
}

#[test]
fn s3_sweep_keeps_young_objects() {
    let mut store = Bucket::new(3);
    store.save("fresh", "t", 1, b"y");
    let swept = store.sweep_expired(3_600_000);
    assert!(swept.is_empty());
    assert!(store.load_latest("fresh", "t").is_some());
}

#[test]
fn s3_names_and_prefixes() {
    let store = S3CheckpointStore::new("/a/b/", 0);
    assert_eq!(store.root_prefix(), "a/b");
    assert_eq!(store.object_path("j", "t", 7), format!("a/b/j/t/{}", checkpoint_file_name(7)));
    // At least one checkpoint is kept.
    let names = vec![checkpoint_file_name(1), checkpoint_file_name(2), "other".to_string()];
    assert_eq!(store.prune_task(&names), vec![(1, 0)]);
    assert!(!store.is_expired(&vec![], 100, 0));
}

#[test]
fn checkpoint_names_are_read_back() {
    for id in [0, 1, 42, u64::MAX] {
        assert_eq!(checkpoint_id_of(&checkpoint_file_name(id)), Some(id));
    }
    assert_eq!(checkpoint_id_of("cp-x.state"), None);
    assert_eq!(checkpoint_id_of("readme"), None);
}

#[test]
fn master_store_lists_and_imports() {
    let mut store = MasterCheckpointStore::new(5);
    store.save("j", "b", 1, b"12345");
    store.save("j", "a", 2, b"x");
    store.save("k", "a", 9, b"other");
    let meta = store.list_job_meta("j");
    assert_eq!(meta.len(), 2);
    assert!(meta.iter().any(|m| m.task_id == "b" && m.entries[0].size_bytes == 5));
    let mut other = MasterCheckpointStore::new(1);
    other.save("j", "a", 4, b"mine");
    let incoming = vec![
        (("j".to_string(), "a".to_string()), TaskCheckpoints { entries: vec![(8, b"theirs".to_vec())] }),
        (("n".to_string(), "t".to_string()), TaskCheckpoints { entries: vec![(1, b"new".to_vec())] }),
    ];
    other.import(&incoming);
    assert_eq!(other.load_latest("n", "t"), Some((1, b"new".to_vec())));
}

/// Files in memory below the root of a state store.
struct Disk {
    store: LocalStateStore,
    files: Vec<(String, Vec<u8>, u128)>,
    empty_jobs: Vec<String>,
    now: u128,
}

impl Disk {
    fn new(store: LocalStateStore) -> Self {
        Disk { store, files: Vec::new(), empty_jobs: Vec::new(), now: 5000 }
    }

    fn names(&self, job: &str, task: &str) -> Vec<String> {
        let dir = format!("{}/", self.store.task_dir(job, task));
        self.files.iter().filter(|f| f.0.starts_with(&dir)).map(|f| f.0[dir.len()..].to_string()).collect()
    }

    fn save_checkpoint(&mut self, job: &str, task: &str, id: u64, data: &[u8]) {
        let plan = self.store.save_checkpoint(job, task, id);
        assert!(plan.tmp_path.starts_with(&plan.dir));
        assert_ne!(plan.tmp_path, plan.final_path);
        self.files.push((plan.final_path, data.to_vec(), self.now));
        let names = self.names(job, task);
        let dir = self.store.task_dir(job, task);
        for (_, at) in self.store.prune(&names) {
            self.files.retain(|f| f.0 != format!("{}/{}", dir, names[at]));
        }
    }

    fn load_latest_checkpoint(&self, job: &str, task: &str) -> Option<(u64, Vec<u8>)> {
        let names = self.names(job, task);
        let (id, at) = self.store.load_latest_checkpoint(&names)?;
        let path = format!("{}/{}", self.store.task_dir(job, task), names[at]);
        Some((id, self.files.iter().find(|f| f.0 == path).unwrap().1.clone()))
    }

    fn job_dirs(&self) -> Vec<String> {
        let start = format!("{}/", self.store.root());
        let mut jobs: Vec<String> = self.empty_jobs.clone();
        for f in &self.files {
            let job = f.0[start.len()..].split('/').next().unwrap().to_string();
            if !jobs.contains(&job) {
                jobs.push(job);
            }
        }
        jobs
    }

    fn drop_job(&mut self, job: &str) {
        let dir = format!("{}/", self.store.job_dir(job));
        self.files.retain(|f| !f.0.starts_with(&dir));
        self.empty_jobs.retain(|j| j != job);
    }

    fn sweep_expired(&mut self, ttl: u128) -> Vec<String> {
        let mut jobs = Vec::new();
        for name in self.job_dirs() {
            let dir = format!("{}/", self.store.job_dir(&name));
            let files = self.files.iter().filter(|f| f.0.starts_with(&dir)).map(|f| TreeEntry::File(f.2)).collect();
            jobs.push(JobTree { name, entries: vec![TreeEntry::Dir(files)] });
        }
        let removed = self.store.sweep_expired(&jobs, self.now, ttl);
        for job in &removed {
            self.drop_job(job);
        }
        removed
    }
}

fn tmp_store(tag: &str) -> Disk {
    Disk::new(LocalStateStore::new(&format!("/tmp/st-state-store-{}", tag)))
}

#[test]
fn save_and_load_roundtrip() {
    let mut store = tmp_store("rt");
    store.save_checkpoint("job1", "task1", 1, b"state-one");
    store.save_checkpoint("job1", "task1", 2, b"state-two");

    let (id, data) = store.load_latest_checkpoint("job1", "task1").unwrap();
    assert_eq!(id, 2);
    assert_eq!(data, b"state-two");
}

#[test]
fn load_missing_returns_none() {
    let store = tmp_store("missing");
    assert!(store.load_latest_checkpoint("nope", "nope").is_none());
}

#[test]
fn retention_prunes_old_snapshots() {
    let mut store = tmp_store("prune");
    for id in 1..=5u64 {
        store.save_checkpoint("job1", "t", id, format!("s{}", id).as_bytes());
    }
    let (latest, _) = store.load_latest_checkpoint("job1", "t").unwrap();
    assert_eq!(latest, 5);
    // Only the retained snapshots remain.
    let count = store.names("job1", "t").len();
    assert_eq!(count, 3);
}

#[test]
fn configurable_retention() {
    let mut store = Disk::new(LocalStateStore::with_retention(tmp_store("cret").store.root(), 1));
    assert_eq!(store.store.retained_snapshots(), 1);
    for id in 1..=4u64 {
        store.save_checkpoint("j", "t", id, b"x");
    }
    let count = store.names("j", "t").len();
    assert_eq!(count, 1);
    let (latest, _) = store.load_latest_checkpoint("j", "t").unwrap();
    assert_eq!(latest, 4);
}

#[test]
fn sweep_removes_expired_and_keeps_fresh() {
    let mut store = tmp_store("sweep");
    store.save_checkpoint("old", "t", 1, b"x");
    store.save_checkpoint("fresh", "t", 1, b"x");

    // ttl 0: everything is "expired".
    let removed = store.sweep_expired(0);
    assert!(removed.contains(&"old".to_string()));
    assert!(removed.contains(&"fresh".to_string()));
    assert!(store.job_dirs().is_empty());
}

#[test]
fn sweep_keeps_young_directories() {
    let mut store = tmp_store("sweep2");
    store.save_checkpoint("fresh", "t", 1, b"x");
    // A large ttl keeps a just-written directory.
    let removed = store.sweep_expired(3_600_000);
    assert!(removed.is_empty());
    assert_eq!(store.job_dirs().len(), 1);
}

#[test]
fn sweep_removes_empty_job_dirs() {
    let mut store = tmp_store("sweep3");
    store.empty_jobs.push("ghost".to_string());
    let removed = store.sweep_expired(3_600_000);
    assert!(removed.contains(&"ghost".to_string()));
}

#[test]
fn drop_job_removes_state() {
    let mut store = tmp_store("drop");
    store.save_checkpoint("j", "t", 1, b"x");
    assert!(store.load_latest_checkpoint("j", "t").is_some());
    store.drop_job("j");
    assert!(store.load_latest_checkpoint("j", "t").is_none());
}

#[test]
fn sweep_takes_the_newest_file_of_a_tree() {
    let deep = vec![TreeEntry::File(3), TreeEntry::Dir(vec![TreeEntry::Dir(vec![]), TreeEntry::File(9)])];
    assert_eq!(newest_mtime(&deep), Some(9));
    let store = LocalStateStore::new("/s");
    assert!(store.is_expired(&deep, 20, 11));
    assert!(!store.is_expired(&deep, 20, 12));
}

#[test]
fn names_are_made_safe_for_paths() {
    assert_eq!(sanitize("a/b:c d-1_x.y"), "a_b_c_d-1_x.y");
    let store = LocalStateStore::from_env_or_default(None);
    assert_eq!(store.root(), ".seatunnel-state");
    assert_eq!(LocalStateStore::from_env_or_default(Some("/x")).root(), "/x");
    assert_eq!(store.task_dir("j/1", "t"), ".seatunnel-state/j_1/t");
    let plan = PersistAndReportListener { store }.on_checkpoint("j", "t", 4);
    assert_eq!(plan.dir, ".seatunnel-state/j/t");
    assert_eq!(plan.final_path, format!(".seatunnel-state/j/t/{}", checkpoint_file_name(4)));
    assert_eq!(checkpoint_id_of(&plan.tmp_path[plan.dir.len() + 1..]), None);
}

#[test]
fn an_empty_root_is_the_working_directory() {
    let store = LocalStateStore::new("");
    assert_eq!(store.job_dir("j"), "j");
    assert_eq!(store.task_dir("j", "t"), "j/t");
    let slash = LocalStateStore::new("/data/");
    assert_eq!(slash.job_dir("j"), "/data/j");
    let plain = LocalStateStore::new("/data");
    assert_eq!(plain.task_dir("j", "t"), "/data/j/t");
}

#[test]
fn s3_prefixes_are_normalised() {
    let store = S3CheckpointStore::new("a//b", 1);
    assert_eq!(store.root_prefix(), "a/b");
    assert_eq!(store.job_prefix("j"), "a/b/j");
    assert_eq!(store.task_prefix("j", "t"), "a/b/j/t");
    let path = store.object_path("j", "t", 3);
    assert_eq!(path, format!("a/b/j/t/{}", checkpoint_file_name(3)));
    assert_eq!(store.list_distinct_first_segments(&vec![path]), vec!["j".to_string()]);

    let store = S3CheckpointStore::new("~x", 1);
    assert_eq!(store.root_prefix(), "%7Ex");
    let path = store.object_path("j", "t", 3);
    assert_eq!(path, format!("%7Ex/j/t/{}", checkpoint_file_name(3)));
    assert_eq!(store.list_distinct_first_segments(&vec![path]), vec!["j".to_string()]);
}

#[test]
fn s3_sweep_finds_jobs_under_a_normalised_prefix() {
    let mut bucket = Bucket::new(1);
    bucket.store = S3CheckpointStore::new("a//b", 1);
    bucket.save("old", "t", 1, b"x");
    bucket.now += 10_000;
    assert_eq!(bucket.sweep_expired(5_000), vec!["old".to_string()]);
    assert!(bucket.load_latest("old", "t").is_none());
}
