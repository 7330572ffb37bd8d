use seatunnel::admission::{
    evaluate, AdmissionConfig, AdmissionController, AdmissionSignals, AdmissionState, Decision, SharedSignals,
};

fn cfg() -> AdmissionConfig {
    AdmissionConfig::default()
}

fn signals(lag: u64, mem: u32) -> AdmissionSignals {
    AdmissionSignals { lag_ms: Some(lag), mem_permille: Some(mem), cpu_permille: None }
}

#[test]
fn healthy_worker_accepts() {
    let mut state = AdmissionState::default();
    let d = evaluate(&signals(50, 300), &cfg(), &mut state, 1);
    assert!(d.can_accept);
    assert!(d.load_score_permille > 0);
}

#[test]
fn lag_breach_overloads_immediately() {
    let mut state = AdmissionState::default();
    let d = evaluate(&signals(900, 300), &cfg(), &mut state, 1);
    assert!(!d.can_accept);
}

#[test]
fn memory_breach_overloads_immediately() {
    let mut state = AdmissionState::default();
    let d = evaluate(&signals(10, 800), &cfg(), &mut state, 1);
    assert!(!d.can_accept);
}

#[test]
fn recovery_requires_cooldown_window() {
    let mut state = AdmissionState::default();
    evaluate(&signals(900, 300), &cfg(), &mut state, 1);
    let d = evaluate(&signals(50, 300), &cfg(), &mut state, 5);
    assert!(!d.can_accept, "cooldown not elapsed yet");
    let d = evaluate(&signals(50, 300), &cfg(), &mut state, 5);
    assert!(d.can_accept);
}

#[test]
fn disabled_signals_never_overload() {
    let mut state = AdmissionState::default();
    let config = AdmissionConfig { lag_threshold_ms: 0, memory_watermark_percent: 0, cooldown_secs: 10 };
    let d = evaluate(&signals(60_000, 999), &config, &mut state, 1);
    assert!(d.can_accept, "all signals disabled = always accept");
}

#[test]
fn missing_samples_treated_as_healthy() {
    let mut state = AdmissionState::default();
    let d = evaluate(&AdmissionSignals::default(), &cfg(), &mut state, 1);
    assert!(d.can_accept);
}

#[test]
fn load_score_is_max_of_ratios() {
    let mut state = AdmissionState::default();
    // lag 250/500 = 500‰; mem 300/750 = 400‰ → score 500.
    let d = evaluate(&signals(250, 300), &cfg(), &mut state, 1);
    assert_eq!(d.load_score_permille, 500);
}

#[test]
fn shared_signals_roundtrip() {
    let mut s = SharedSignals::new();
    assert_eq!(s.load(), AdmissionSignals::default());
    s.store(&AdmissionSignals { lag_ms: Some(123), mem_permille: Some(456), cpu_permille: Some(789) });
    assert_eq!(
        s.load(),
        AdmissionSignals { lag_ms: Some(123), mem_permille: Some(456), cpu_permille: Some(789) }
    );
    s.store(&AdmissionSignals { lag_ms: Some(7), mem_permille: None, cpu_permille: Some(10) });
    assert_eq!(s.load().lag_ms, Some(7));
    assert_eq!(s.load().mem_permille, None);
    assert_eq!(s.load().cpu_permille, Some(10));
}

#[test]
fn memory_score_is_taken_over_the_watermark() {
    let mut state = AdmissionState::default();
    // mem 600/750 = 800‰; lag 100/500 = 200‰.
    let d = evaluate(&signals(100, 600), &cfg(), &mut state, 1);
    assert_eq!(d.load_score_permille, 800);
    assert_eq!(Decision::accepting(1500).load_score_permille, 1000);
}

#[test]
fn signals_are_held_within_their_ranges() {
    let mut s = SharedSignals::new();
    s.store(&AdmissionSignals { lag_ms: Some(u64::MAX), mem_permille: Some(5000), cpu_permille: Some(1001) });
    assert_eq!(
        s.load(),
        AdmissionSignals { lag_ms: Some(u32::MAX as u64), mem_permille: Some(1000), cpu_permille: Some(1000) }
    );
}

#[test]
fn usable_memory_prefers_a_lower_container_limit() {
    assert_eq!(AdmissionSignals::usable_memory_bytes(1000, Some(400)), 400);
    assert_eq!(AdmissionSignals::usable_memory_bytes(1000, Some(4000)), 1000);
    assert_eq!(AdmissionSignals::usable_memory_bytes(1000, Some(0)), 1000);
    assert_eq!(AdmissionSignals::usable_memory_bytes(1000, None), 1000);
    assert_eq!(AdmissionSignals::memory_permille(300, 400), Some(750));
    assert_eq!(AdmissionSignals::memory_permille(300, 0), None);
}

#[test]
fn controller_decides_by_its_signals() {
    let mut c = AdmissionController::new_manual(cfg());
    assert!(c.decision(0).can_accept);
    c.set_signals(signals(600, 10));
    assert!(!c.decision(0).can_accept);
    c.set_signals(signals(10, 10));
    for second in 1..10 {
        assert!(!c.decision(second * 1000).can_accept);
    }
    assert!(c.decision(10_000).can_accept);
}

#[test]
fn a_controller_counts_the_time_between_its_decisions() {
    let mut c = AdmissionController::new_manual(cfg());
    c.set_signals(signals(600, 10));
    assert!(!c.decision(5_000).can_accept);
    c.set_signals(signals(10, 10));
    // Asking often does not make the time pass.
    for ms in 0..100 {
        assert!(!c.decision(5_000 + ms).can_accept);
    }
    // What is left of a second counts for the next one.
    assert!(!c.decision(10_900).can_accept);
    assert!(!c.decision(14_999).can_accept);
    assert!(c.decision(15_000).can_accept);
}

#[test]
fn one_long_gap_is_enough_to_recover() {
    let mut c = AdmissionController::new_manual(cfg());
    c.set_signals(signals(600, 10));
    assert!(!c.decision(1_000).can_accept);
    c.set_signals(signals(10, 10));
    assert!(c.decision(11_000).can_accept);
}

#[test]
fn a_breach_starts_the_cooldown_anew() {
    let mut c = AdmissionController::new_manual(cfg());
    c.set_signals(signals(600, 10));
    assert!(!c.decision(0).can_accept);
    c.set_signals(signals(10, 10));
    assert!(!c.decision(9_000).can_accept);
    c.set_signals(signals(600, 10));
    assert!(!c.decision(9_500).can_accept);
    c.set_signals(signals(10, 10));
    assert!(!c.decision(19_000).can_accept);
    assert!(c.decision(19_500).can_accept);
}

#[test]
fn a_watermark_above_every_share_is_never_reached() {
    for percent in [1_000_000_000, u64::MAX] {
        let config = AdmissionConfig { lag_threshold_ms: 0, memory_watermark_percent: percent, cooldown_secs: 10 };
        let mut state = AdmissionState::default();
        let d = evaluate(&signals(0, 999), &config, &mut state, 1);
        assert!(d.can_accept);
        assert_eq!(d.load_score_permille, 0);
    }
}
