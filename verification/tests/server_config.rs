use seatunnel::server_config::{EngineServerConfig, RaftTiming, ServerConfigFile};

#[test]
fn defaults_without_file() {
    let config = EngineServerConfig::load(None, None, None);
    assert_eq!(config.state_dir, ".seatunnel-state");
    assert_eq!(config.keep_checkpoint_count, 3);
    assert!(config.auto_clean);
    assert_eq!(config.history_job_expire_minutes, 1440);
    assert_eq!(config.worker_soft_timeout_ms, 30_000);
    assert_eq!(config.worker_timeout_ms, 60_000);
    assert_eq!(config.heartbeat_interval_ms, 2_000);
    assert_eq!(config.overload_lag_ms, 500);
    assert_eq!(config.memory_watermark_percent, 75);
    assert_eq!(config.overload_cooldown_secs, 10);
    assert_eq!(config.dispatch_batch_limit, 16);
    assert_eq!(config.cancel_force_timeout_ms, 300_000);
}

#[test]
fn cancel_force_timeout_is_clamped() {
    let mut file = ServerConfigFile::default();
    file.seatunnel.engine.cancel_force_timeout_ms = Some(5000);
    let mut config = EngineServerConfig::default();
    config.apply_file(&file);
    // Lifted to the floor: a healthy cancel reports terminal within
    // seconds and must never be forced.
    assert_eq!(config.cancel_force_timeout_ms, 30_000);

    let mut file = ServerConfigFile::default();
    file.seatunnel.engine.cancel_force_timeout_ms = Some(120000);
    let mut config = EngineServerConfig::default();
    config.apply_file(&file);
    assert_eq!(config.cancel_force_timeout_ms, 120_000);
}

#[test]
fn timeout_overrides_are_clamped() {
    let mut file = ServerConfigFile::default();
    file.seatunnel.engine.worker_soft_timeout_ms = Some(5000);
    file.seatunnel.engine.worker_timeout_ms = Some(2000);
    file.seatunnel.engine.heartbeat_interval_ms = Some(500);
    file.seatunnel.engine.overload_lag_ms = Some(900);
    file.seatunnel.engine.memory_watermark_percent = Some(60);
    file.seatunnel.engine.overload_cooldown_secs = Some(30);
    file.seatunnel.engine.dispatch_batch_limit = Some(4);
    let mut config = EngineServerConfig::default();
    config.apply_file(&file);
    assert_eq!(config.worker_soft_timeout_ms, 5_000);
    // Hard timeout lifted to the soft threshold (2000 < 5000).
    assert_eq!(config.worker_timeout_ms, 5_000);
    assert_eq!(config.heartbeat_interval_ms, 500);
    assert_eq!(config.overload_lag_ms, 900);
    assert_eq!(config.memory_watermark_percent, 60);
    assert_eq!(config.overload_cooldown_secs, 30);
    assert_eq!(config.dispatch_batch_limit, 4);
}

#[test]
fn parses_java_style_keys() {
    let mut file = ServerConfigFile::default();
    let engine = &mut file.seatunnel.engine;
    engine.history_job_expire_minutes = Some(720);
    engine.checkpoint.interval = Some(15000);
    engine.checkpoint.keep_checkpoint_count = Some(5);
    engine.checkpoint.storage.kind = Some("localfile".to_string());
    engine.checkpoint.storage.namespace = Some("/data/seatunnel/state".to_string());
    engine.checkpoint.storage.auto_clean = Some(true);
    engine.checkpoint.storage.clean_grace_minutes = Some(2);
    engine.checkpoint.storage.clean_interval_minutes = Some(15);
    let mut config = EngineServerConfig::default();
    config.apply_file(&file);
    assert_eq!(config.history_job_expire_minutes, 720);
    assert_eq!(config.checkpoint_interval, 15000);
    assert_eq!(config.keep_checkpoint_count, 5);
    assert_eq!(config.state_dir, "/data/seatunnel/state");
    assert_eq!(config.clean_grace_minutes, 2);
    assert_eq!(config.clean_interval_minutes, 15);
}

#[test]
fn auto_clean_can_be_disabled() {
    let mut file = ServerConfigFile::default();
    file.seatunnel.engine.checkpoint.storage.auto_clean = Some(false);
    let mut config = EngineServerConfig::default();
    config.apply_file(&file);
    assert!(!config.auto_clean);
}

#[test]
fn overrides_beat_file() {
    let mut file = ServerConfigFile::default();
    file.seatunnel.engine.checkpoint.storage.namespace = Some("/from-file".to_string());
    let mut config = EngineServerConfig::default();
    config.apply_file(&file);
    assert_eq!(config.state_dir, "/from-file");
    // CLI overrides the file.
    let config = EngineServerConfig::load(None, Some("/from-cli"), None);
    assert_eq!(config.state_dir, "/from-cli");
    // Env sits between the two.
    let config = EngineServerConfig::load(None, None, Some("/from-env"));
    assert_eq!(config.state_dir, "/from-env");
    let config = EngineServerConfig::load(Some(&file), None, Some("/from-env"));
    assert_eq!(config.state_dir, "/from-env");
    let config = EngineServerConfig::load(Some(&file), Some("/from-cli"), Some("/from-env"));
    assert_eq!(config.state_dir, "/from-cli");
}

#[test]
fn raft_defaults_without_file() {
    let config = EngineServerConfig::load(None, None, None);
    assert_eq!(config.raft.election_timeout_min_ms, 900);
    assert_eq!(config.raft.election_timeout_max_ms, 1_300);
    assert_eq!(config.raft.election_skew_ms, 700);
    assert_eq!(config.raft.heartbeat_interval_ms, 150);
}

#[test]
fn raft_section_overrides_and_clamps() {
    let mut file = ServerConfigFile::default();
    file.seatunnel.engine.raft.election_timeout_min_ms = Some(1000);
    file.seatunnel.engine.raft.election_timeout_max_ms = Some(1500);
    file.seatunnel.engine.raft.election_skew_ms = Some(0);
    file.seatunnel.engine.raft.heartbeat_interval_ms = Some(30);
    let mut config = EngineServerConfig::default();
    config.apply_file(&file);
    assert_eq!(config.raft.election_timeout_min_ms, 1_000);
    assert_eq!(config.raft.election_timeout_max_ms, 1_500);
    // Skew 0 disables the per-node priority shift.
    assert_eq!(config.raft.election_skew_ms, 0);
    // Heartbeat floored at 50ms.
    assert_eq!(config.raft.heartbeat_interval_ms, 50);
}

#[test]
fn raft_window_ordering_is_repaired() {
    let mut file = ServerConfigFile::default();
    file.seatunnel.engine.raft.election_timeout_min_ms = Some(1200);
    file.seatunnel.engine.raft.election_timeout_max_ms = Some(1000);
    let mut config = EngineServerConfig::default();
    config.apply_file(&file);
    assert!(config.raft.election_timeout_max_ms > config.raft.election_timeout_min_ms);
}

#[test]
fn raft_small_positive_skew_is_lifted() {
    let mut file = ServerConfigFile::default();
    file.seatunnel.engine.raft.election_skew_ms = Some(100);
    let mut config = EngineServerConfig::default();
    config.apply_file(&file);
    let width = config.raft.election_timeout_max_ms - config.raft.election_timeout_min_ms;
    let tick = config.raft.heartbeat_interval_ms * 3 / 2;
    // 100ms skew cannot separate the default window — lifted to
    // width + tick so windows stay disjoint.
    assert_eq!(config.raft.election_skew_ms, width + tick);
}

#[test]
fn raft_election_windows_are_disjoint() {
    let timing = RaftTiming::default();
    let tick = timing.heartbeat_interval_ms * 3 / 2;
    let windows: Vec<(u64, u64)> = (1..=5).map(|i| timing.election_window(i)).collect();
    for w in &windows {
        assert!(w.0 < w.1, "window must be non-empty: {:?}", w);
    }
    for pair in windows.windows(2) {
        // Gap between adjacent windows must clear one tick so the
        // lower node's vote request always arrives first.
        assert!(pair[1].0 >= pair[0].1 + tick, "adjacent windows overlap or gap < tick: {:?}", pair);
    }
    // Node 1 window is the unshifted default.
    assert_eq!(windows[0], (900, 1_300));
}

#[test]
fn raft_zero_skew_disables_windows() {
    let timing = RaftTiming { election_skew_ms: 0, ..RaftTiming::default() };
    assert_eq!(timing.election_window(1), timing.election_window(3));
}

#[test]
fn a_file_that_sets_nothing_leaves_the_defaults() {
    let config = EngineServerConfig::load(Some(&ServerConfigFile::default()), None, None);
    assert_eq!(config.state_dir, ".seatunnel-state");
    assert_eq!(config.raft.election_skew_ms, 700);
    assert_eq!(config.admission_config().memory_watermark_percent, 75);
    assert!(config.member_list.len() <= 1);
}

#[test]
fn members_are_trimmed() {
    let mut file = ServerConfigFile::default();
    file.hazelcast.network.join.tcp_ip.member_list = vec![" a:1 ".to_string(), "".to_string(), "b:2".to_string()];
    let config = EngineServerConfig::load(Some(&file), None, None);
    assert_eq!(config.member_list, vec!["a:1".to_string(), "b:2".to_string()]);
}

#[test]
fn a_soft_timeout_alone_lifts_the_hard_one() {
    let mut file = ServerConfigFile::default();
    file.seatunnel.engine.worker_soft_timeout_ms = Some(90_000);
    let mut config = EngineServerConfig::default();
    config.apply_file(&file);
    assert_eq!(config.worker_soft_timeout_ms, 90_000);
    assert_eq!(config.worker_timeout_ms, 90_000);
}

#[test]
fn a_lower_bound_alone_keeps_the_window_open() {
    for min in [1_300, 2_000] {
        let mut file = ServerConfigFile::default();
        file.seatunnel.engine.raft.election_timeout_min_ms = Some(min);
        assert!(file.seatunnel.engine.raft.fits(&RaftTiming::default()));
        let mut config = EngineServerConfig::default();
        config.apply_file(&file);
        assert_eq!(config.raft.election_timeout_min_ms, min);
        assert_eq!(config.raft.election_timeout_max_ms, min + 1);
        let (low, high) = config.raft.election_window(2);
        assert!(low < high);
    }
}

#[test]
fn times_that_do_not_fit_are_noticed() {
    let mut file = ServerConfigFile::default();
    file.seatunnel.engine.raft.election_timeout_min_ms = Some(u64::MAX);
    assert!(!file.seatunnel.engine.raft.fits(&RaftTiming::default()));
}

#[test]
fn windows_of_any_two_nodes_are_disjoint() {
    let timing = RaftTiming::default();
    for earlier in 1..5u64 {
        for later in earlier + 1..=5 {
            assert!(timing.election_window(earlier).1 < timing.election_window(later).0);
        }
    }
}

#[test]
fn the_worker_address_and_the_replication_interval_come_from_the_file() {
    let mut file = ServerConfigFile::default();
    file.seatunnel.engine.worker_address = Some("10.0.0.7:5801".to_string());
    file.seatunnel.engine.replication_interval_ms = Some(750);
    let config = EngineServerConfig::load(Some(&file), None, None);
    assert_eq!(config.worker_address, "10.0.0.7:5801");
    assert_eq!(config.replication_interval_ms, 750);
}

#[test]
fn a_blank_file_leaves_a_configuration() {
    let mut file = ServerConfigFile::default();
    file.seatunnel.engine.worker_soft_timeout_ms = Some(45_000);
    file.seatunnel.engine.worker_timeout_ms = Some(90_000);
    file.seatunnel.engine.memory_watermark_percent = Some(60);
    file.hazelcast.cluster_name = Some("blue".to_string());
    let mut config = EngineServerConfig::default();
    config.apply_file(&file);
    let timing = config.raft;
    config.apply_file(&ServerConfigFile::default());
    assert_eq!(config.worker_soft_timeout_ms, 45_000);
    assert_eq!(config.worker_timeout_ms, 90_000);
    assert_eq!(config.memory_watermark_percent, 60);
    assert_eq!(config.cluster_name, "blue");
    assert_eq!(config.raft, timing);
}
