//! Dynamic task admission: whether a worker can take another task is answered by
//! measured pressure, never by a slot count.
//!
//! Two signals, each of which can be disabled: the event-loop lag, and the share
//! of usable memory that the process holds. Crossing a threshold takes effect at
//! once; recovery needs every signal healthy for the whole cooldown.

use vstd::prelude::*;

verus! {

/// Admission thresholds; a threshold of 0 disables its signal.
#[derive(Debug, Clone, Copy, PartialEq, Eq, Structural)]
pub struct AdmissionConfig {
    /// Healthy while the lag stays below this, in milliseconds.
    pub lag_threshold_ms: u64,
    /// Healthy while the memory share stays below this, in percent.
    pub memory_watermark_percent: u64,
    /// Healthy seconds in a row that recovery takes.
    pub cooldown_secs: u64,
}

impl Default for AdmissionConfig {
    fn default() -> (r: Self)
        ensures
            r == (AdmissionConfig { lag_threshold_ms: 500, memory_watermark_percent: 75, cooldown_secs: 10 }),
    {
        AdmissionConfig { lag_threshold_ms: 500, memory_watermark_percent: 75, cooldown_secs: 10 }
    }
}

/// The measured signals at one point in time.
#[derive(Debug, Clone, Copy, PartialEq, Eq)]
pub struct AdmissionSignals {
    /// Smoothed event-loop lag in milliseconds.
    pub lag_ms: Option<u64>,
    /// Resident over usable memory, per mille.
    pub mem_permille: Option<u32>,
    /// Host CPU usage, per mille; shown, never scored.
    pub cpu_permille: Option<u32>,
}

/// Signals before any sample was taken.
pub open spec fn no_signals() -> AdmissionSignals {
    AdmissionSignals { lag_ms: None, mem_permille: None, cpu_permille: None }
}

impl Default for AdmissionSignals {
    fn default() -> (r: Self)
        ensures
            r == no_signals(),
    {
        AdmissionSignals { lag_ms: None, mem_permille: None, cpu_permille: None }
    }
}

impl AdmissionSignals {
    /// The memory that shares are taken of: a container's limit when it has one
    /// below the physical memory, else the physical memory.
    pub fn usable_memory_bytes(physical: u64, cgroup: Option<u64>) -> (r: u64)
        ensures
            r == match cgroup {
                Some(l) => if 0 < l < physical { l } else { physical },
                None => physical,
            },
    {
        match cgroup {
            Some(l) => if l > 0 && l < physical { l } else { physical },
            None => physical,
        }
    }

    /// The share of usable memory that is resident, per mille, rounded down.
    pub fn memory_permille(resident: u64, usable: u64) -> (r: Option<u32>)
        ensures
            r == if usable == 0 {
                None
            } else if (resident * 1000) / usable as int > u32::MAX {
                Some(u32::MAX)
            } else {
                Some(((resident * 1000) / usable as int) as u32)
            },
    {
        if usable == 0 {
            return None;
        }
        let share: u128 = (resident as u128 * 1000) / usable as u128;
        if share > 0xffff_ffff {
            Some(u32::MAX)
        } else {
            Some(share as u32)
        }
    }
}

/// Hysteresis carried between evaluations.
#[derive(Debug, Clone, Copy, PartialEq, Eq, Structural)]
pub struct AdmissionState {
    /// Healthy seconds in a row.
    pub consecutive_healthy_secs: u64,
    pub overloaded: bool,
}

impl Default for AdmissionState {
    fn default() -> (r: Self)
        ensures
            r == (AdmissionState { consecutive_healthy_secs: 0, overloaded: false }),
    {
        AdmissionState { consecutive_healthy_secs: 0, overloaded: false }
    }
}

/// One admission decision.
#[derive(Debug, Clone, Copy, PartialEq, Eq, Structural)]
pub struct Decision {
    /// Overall pressure from 0 to 1000: the highest ratio of an enabled signal to
    /// its threshold. Placement orders workers by it.
    pub load_score_permille: u32,
    pub can_accept: bool,
}

impl Decision {
    /// An accepting decision at the given score.
    pub fn accepting(score: u32) -> (r: Self)
        ensures
            r.can_accept,
            r.load_score_permille == if score <= 1000 { score } else { 1000 },
    {
        Decision { load_score_permille: if score <= 1000 { score } else { 1000 }, can_accept: true }
    }
}

/// `value` over `threshold` per mille, at most 1000, rounded to the nearest whole
/// with halves up; 0 when there is no threshold.
pub open spec fn ratio_permille(value: nat, threshold: nat) -> nat {
    if threshold == 0 {
        0
    } else if value >= threshold {
        1000
    } else {
        ((value * 2000 + threshold) / (2 * threshold)) as nat
    }
}

/// The ratio of the lag to its threshold.
pub open spec fn lag_ratio(s: AdmissionSignals, c: AdmissionConfig) -> nat {
    match s.lag_ms {
        Some(l) => ratio_permille(l as nat, c.lag_threshold_ms as nat),
        None => 0,
    }
}

/// The ratio of the memory share to its watermark.
pub open spec fn memory_ratio(s: AdmissionSignals, c: AdmissionConfig) -> nat {
    match s.mem_permille {
        Some(m) => ratio_permille(m as nat, (c.memory_watermark_percent * 10) as nat),
        None => 0,
    }
}

/// Whether no enabled and measured signal reaches its threshold.
pub open spec fn healthy(s: AdmissionSignals, c: AdmissionConfig) -> bool {
    &&& match s.lag_ms {
        Some(l) => c.lag_threshold_ms == 0 || l < c.lag_threshold_ms,
        None => true,
    }
    &&& match s.mem_permille {
        Some(m) => c.memory_watermark_percent == 0 || m < c.memory_watermark_percent * 10,
        None => true,
    }
}

/// The hysteresis after an evaluation.
pub open spec fn evaluated(
    s: AdmissionSignals,
    c: AdmissionConfig,
    state: AdmissionState,
    healthy_secs: u64,
) -> AdmissionState {
    if healthy(s, c) {
        let sum = state.consecutive_healthy_secs + healthy_secs;
        let secs = if sum > u64::MAX { u64::MAX } else { sum as u64 };
        AdmissionState {
            consecutive_healthy_secs: secs,
            overloaded: state.overloaded && secs < c.cooldown_secs,
        }
    } else {
        AdmissionState { consecutive_healthy_secs: 0, overloaded: true }
    }
}

fn ratio(value: u64, threshold: u128) -> (r: u32)
    requires
        threshold <= u64::MAX * 10,
    ensures
        r == ratio_permille(value as nat, threshold as nat),
        r <= 1000,
{
    if threshold == 0 {
        0
    } else if value as u128 >= threshold {
        1000
    } else {
        let n: u128 = value as u128 * 2000 + threshold;
        let d: u128 = 2 * threshold;
        let q: u128 = n / d;
        proof {
            assert(n <= d * 1000 + threshold) by (nonlinear_arith)
                requires
                    n == value * 2000 + threshold,
                    d == 2 * threshold,
                    value < threshold,
            ;
            assert(q <= 1000) by (nonlinear_arith)
                requires
                    n <= d * 1000 + threshold,
                    d == 2 * threshold,
                    threshold > 0,
                    q == n / d,
            ;
        }
        q as u32
    }
}

fn is_healthy(signals: &AdmissionSignals, config: &AdmissionConfig) -> (r: bool)
    ensures
        r == healthy(*signals, *config),
{
    let watermark: u128 = config.memory_watermark_percent as u128 * 10;
    let lag_ok: bool = match signals.lag_ms {
        Some(l) => config.lag_threshold_ms == 0 || l < config.lag_threshold_ms,
        None => true,
    };
    let mem_ok: bool = match signals.mem_permille {
        Some(m) => config.memory_watermark_percent == 0 || (m as u128) < watermark,
        None => true,
    };
    lag_ok && mem_ok
}

/// Scores the signals and updates the hysteresis. `healthy_secs_delta` is the time
/// since the previous evaluation.
pub fn evaluate(
    signals: &AdmissionSignals,
    config: &AdmissionConfig,
    state: &mut AdmissionState,
    healthy_secs_delta: u64,
) -> (r: Decision)
    ensures
        *final(state) == evaluated(*signals, *config, *old(state), healthy_secs_delta),
        r.can_accept == !final(state).overloaded,
        r.load_score_permille == if lag_ratio(*signals, *config) >= memory_ratio(*signals, *config) {
            lag_ratio(*signals, *config)
        } else {
            memory_ratio(*signals, *config)
        },
        r.load_score_permille <= 1000,
{
    let watermark: u128 = config.memory_watermark_percent as u128 * 10;
    let lag: u32 = match signals.lag_ms {
        Some(l) => ratio(l, config.lag_threshold_ms as u128),
        None => 0,
    };
    let mem: u32 = match signals.mem_permille {
        Some(m) => ratio(m as u64, watermark),
        None => 0,
    };
    let score: u32 = if lag >= mem { lag } else { mem };
    if is_healthy(signals, config) {
        state.consecutive_healthy_secs = state.consecutive_healthy_secs.saturating_add(healthy_secs_delta);
        if state.overloaded && state.consecutive_healthy_secs >= config.cooldown_secs {
            state.overloaded = false;
        }
    } else {
        state.consecutive_healthy_secs = 0;
        state.overloaded = true;
    }
    Decision { load_score_permille: score, can_accept: !state.overloaded }
}

/// A breach overloads at once, whatever was before.
pub proof fn law_breach_overloads(s: AdmissionSignals, c: AdmissionConfig, state: AdmissionState, secs: u64)
    requires
        !healthy(s, c),
    ensures
        evaluated(s, c, state, secs).overloaded,
        evaluated(s, c, state, secs).consecutive_healthy_secs == 0,
{
}

/// An overloaded worker recovers only once it has been healthy for the cooldown.
pub proof fn law_recovery_takes_the_cooldown(
    s: AdmissionSignals,
    c: AdmissionConfig,
    state: AdmissionState,
    secs: u64,
)
    requires
        state.overloaded,
    ensures
        !evaluated(s, c, state, secs).overloaded <==> healthy(s, c) && state.consecutive_healthy_secs + secs
            >= c.cooldown_secs,
{
}

/// Signals that are disabled or missing never overload a worker.
pub proof fn law_disabled_or_missing_signals(s: AdmissionSignals, c: AdmissionConfig, state: AdmissionState, secs: u64)
    requires
        c.lag_threshold_ms == 0 || s.lag_ms is None,
        c.memory_watermark_percent == 0 || s.mem_permille is None,
    ensures
        healthy(s, c),
        !state.overloaded ==> !evaluated(s, c, state, secs).overloaded,
        lag_ratio(s, c) == 0,
        memory_ratio(s, c) == 0,
{
}

// ---------------------------------------------------------------------------
// The packed word
// ---------------------------------------------------------------------------

/// The signals packed into one word, so that samplers and readers exchange them
/// as a unit: bit 62 says that there is a lag (bits 0 to 31), bit 61 a memory
/// share (bits 32 to 46), bit 60 a CPU usage (bits 47 to 57). Zero stands for
/// nothing measured.
#[derive(Debug)]
pub struct SharedSignals {
    word: u64,
}

/// What a packed word keeps of some signals.
pub open spec fn clamped(s: AdmissionSignals) -> AdmissionSignals {
    AdmissionSignals {
        lag_ms: match s.lag_ms {
            Some(l) => Some(if l <= u32::MAX { l } else { u32::MAX as u64 }),
            None => None,
        },
        mem_permille: match s.mem_permille {
            Some(m) => Some(if m <= 1000 { m } else { 1000 }),
            None => None,
        },
        cpu_permille: match s.cpu_permille {
            Some(c) => Some(if c <= 1000 { c } else { 1000 }),
            None => None,
        },
    }
}

/// What a word says.
pub open spec fn unpacked(raw: u64) -> AdmissionSignals {
    AdmissionSignals {
        lag_ms: if raw & 0x4000_0000_0000_0000 != 0 { Some(raw & 0xffff_ffff) } else { None },
        mem_permille: if raw & 0x2000_0000_0000_0000 != 0 { Some(((raw >> 32) & 0x7fff) as u32) } else { None },
        cpu_permille: if raw & 0x1000_0000_0000_0000 != 0 { Some(((raw >> 47) & 0x7ff) as u32) } else { None },
    }
}

/// The part of a word that stands for a lag: its bit, and the lag in bits 0 to 31.
pub open spec fn lag_part(s: AdmissionSignals) -> u64 {
    match clamped(s).lag_ms {
        Some(l) => 0x4000_0000_0000_0000u64 | l,
        None => 0,
    }
}

/// The part of a word that stands for a memory share: its bit, and the share from
/// bit 32 on.
pub open spec fn memory_part(s: AdmissionSignals) -> u64 {
    match clamped(s).mem_permille {
        Some(m) => 0x2000_0000_0000_0000u64 | ((m as u64) << 32u64),
        None => 0,
    }
}

/// The part of a word that stands for a CPU usage: its bit, and the usage from bit
/// 47 on.
pub open spec fn cpu_part(s: AdmissionSignals) -> u64 {
    match clamped(s).cpu_permille {
        Some(c) => 0x1000_0000_0000_0000u64 | ((c as u64) << 47u64),
        None => 0,
    }
}

/// The word that signals are packed into.
pub open spec fn packed(s: AdmissionSignals) -> u64 {
    lag_part(s) | memory_part(s) | cpu_part(s)
}

proof fn lemma_pack(a: bool, b: bool, d: bool, l: u64, m: u64, c: u64)
    by (bit_vector)
    requires
        l <= 0xffff_ffff,
        m <= 1000,
        c <= 1000,
    ensures
        ({
            let raw = (if a { 0x4000_0000_0000_0000u64 | l } else { 0u64 }) | (if b {
                0x2000_0000_0000_0000u64 | (m << 32u64)
            } else {
                0u64
            }) | (if d { 0x1000_0000_0000_0000u64 | (c << 47u64) } else { 0u64 });
            &&& (raw & 0x4000_0000_0000_0000 != 0) == a
            &&& (raw & 0x2000_0000_0000_0000 != 0) == b
            &&& (raw & 0x1000_0000_0000_0000 != 0) == d
            &&& (raw == 0) == (!a && !b && !d)
            &&& a ==> raw & 0xffff_ffff == l
            &&& b ==> (raw >> 32) & 0x7fff == m
            &&& d ==> (raw >> 47) & 0x7ff == c
        }),
{
}

/// A word says exactly what it was packed from, each signal within its range, and
/// it is zero exactly when nothing was measured: a measured zero is not zero.
pub proof fn law_packed_word(s: AdmissionSignals)
    ensures
        unpacked(packed(s)) == clamped(s),
        packed(s) == 0 <==> s == no_signals(),
{
    let c = clamped(s);
    let l: u64 = match c.lag_ms {
        Some(v) => v,
        None => 0,
    };
    let m: u64 = match c.mem_permille {
        Some(v) => v as u64,
        None => 0,
    };
    let u: u64 = match c.cpu_permille {
        Some(v) => v as u64,
        None => 0,
    };
    lemma_pack(s.lag_ms is Some, s.mem_permille is Some, s.cpu_permille is Some, l, m, u);
}

impl View for SharedSignals {
    type V = AdmissionSignals;

    closed spec fn view(&self) -> AdmissionSignals {
        unpacked(self.word)
    }
}

impl SharedSignals {
    /// Nothing measured yet.
    pub fn new() -> (r: Self)
        ensures
            r@ == no_signals(),
    {
        let r = SharedSignals { word: 0 };
        proof {
            assert(0u64 & 0x4000_0000_0000_0000 == 0) by (bit_vector);
            assert(0u64 & 0x2000_0000_0000_0000 == 0) by (bit_vector);
            assert(0u64 & 0x1000_0000_0000_0000 == 0) by (bit_vector);
        }
        r
    }

    fn pack(signals: &AdmissionSignals) -> (r: u64)
        ensures
            r == packed(*signals),
            unpacked(r) == clamped(*signals),
    {
        let l: u64 = match signals.lag_ms {
            Some(l) => if l <= 0xffff_ffff { l } else { 0xffff_ffff },
            None => 0,
        };
        let m: u64 = match signals.mem_permille {
            Some(m) => if m <= 1000 { m as u64 } else { 1000 },
            None => 0,
        };
        let c: u64 = match signals.cpu_permille {
            Some(c) => if c <= 1000 { c as u64 } else { 1000 },
            None => 0,
        };
        let a: bool = signals.lag_ms.is_some();
        let b: bool = signals.mem_permille.is_some();
        let d: bool = signals.cpu_permille.is_some();
        proof {
            law_packed_word(*signals);
        }
        let x: u64 = if a { 0x4000_0000_0000_0000u64 | l } else { 0u64 };
        let y: u64 = if b { 0x2000_0000_0000_0000u64 | (m << 32u64) } else { 0u64 };
        let z: u64 = if d { 0x1000_0000_0000_0000u64 | (c << 47u64) } else { 0u64 };
        x | y | z
    }

    fn unpack(raw: u64) -> (r: AdmissionSignals)
        ensures
            r == unpacked(raw),
    {
        AdmissionSignals {
            lag_ms: if raw & 0x4000_0000_0000_0000 != 0 { Some(raw & 0xffff_ffff) } else { None },
            mem_permille: if raw & 0x2000_0000_0000_0000 != 0 { Some(((raw >> 32) & 0x7fff) as u32) } else { None },
            cpu_permille: if raw & 0x1000_0000_0000_0000 != 0 { Some(((raw >> 47) & 0x7ff) as u32) } else { None },
        }
    }

    /// Publishes the latest signals, each within its range.
    pub fn store(&mut self, signals: &AdmissionSignals)
        ensures
            final(self)@ == clamped(*signals),
    {
        self.word = Self::pack(signals);
    }

    /// Reads the latest signals.
    pub fn load(&self) -> (r: AdmissionSignals)
        ensures
            r == self@,
    {
        Self::unpack(self.word)
    }
}

/// Signals within their ranges are read back as they were published.
pub proof fn law_signals_round_trip(s: AdmissionSignals)
    requires
        s.lag_ms matches Some(l) ==> l <= u32::MAX,
        s.mem_permille matches Some(m) ==> m <= 1000,
        s.cpu_permille matches Some(c) ==> c <= 1000,
    ensures
        clamped(s) == s,
{
}

// ---------------------------------------------------------------------------
// The controller
// ---------------------------------------------------------------------------

/// A worker's admission controller: signals and hysteresis.
#[derive(Debug)]
pub struct AdmissionController {
    pub signals: SharedSignals,
    pub state: AdmissionState,
    pub config: AdmissionConfig,
    /// Up to when the time has been counted, once there was a decision.
    pub counted_ms: Option<i64>,
}

/// The whole seconds that have passed since the time was last counted.
pub open spec fn seconds_since(counted: Option<i64>, now: i64) -> u64 {
    match counted {
        Some(t) => if now > t { ((now - t) / 1000) as u64 } else { 0 },
        None => 0,
    }
}

/// Up to when the time is counted after a decision. What is short of a second is
/// counted with the next one; a breach, and a clock that was set back, start anew.
pub open spec fn counted_to(counted: Option<i64>, now: i64, is_healthy: bool) -> i64 {
    match counted {
        Some(t) => if is_healthy && now > t { (t + seconds_since(counted, now) * 1000) as i64 } else { now },
        None => now,
    }
}

impl AdmissionController {
    /// A controller without samples. Samplers publish into its signals.
    pub fn new(config: AdmissionConfig) -> (r: Self)
        ensures
            r.signals@ == no_signals(),
            r.state == (AdmissionState { consecutive_healthy_secs: 0, overloaded: false }),
            r.config == config,
            r.counted_ms is None,
    {
        AdmissionController {
            signals: SharedSignals::new(),
            state: AdmissionState { consecutive_healthy_secs: 0, overloaded: false },
            config,
            counted_ms: None,
        }
    }

    /// A controller whose signals are only set explicitly.
    pub fn new_manual(config: AdmissionConfig) -> (r: Self)
        ensures
            r.signals@ == no_signals(),
            r.state == (AdmissionState { consecutive_healthy_secs: 0, overloaded: false }),
            r.config == config,
            r.counted_ms is None,
    {
        Self::new(config)
    }

    /// Publishes signals.
    pub fn set_signals(&mut self, signals: AdmissionSignals)
        ensures
            final(self).signals@ == clamped(signals),
            final(self).state == old(self).state,
            final(self).config == old(self).config,
            final(self).counted_ms == old(self).counted_ms,
    {
        self.signals.store(&signals);
    }

    /// The current decision. The hysteresis advances by the time since the previous
    /// one, in whole seconds.
    pub fn decision(&mut self, now_ms: i64) -> (r: Decision)
        ensures
            final(self).state == evaluated(
                old(self).signals@,
                old(self).config,
                old(self).state,
                seconds_since(old(self).counted_ms, now_ms),
            ),
            final(self).counted_ms == Some(
                counted_to(old(self).counted_ms, now_ms, healthy(old(self).signals@, old(self).config)),
            ),
            final(self).signals == old(self).signals,
            final(self).config == old(self).config,
            r.can_accept == !final(self).state.overloaded,
            r.load_score_permille == if lag_ratio(old(self).signals@, old(self).config) >= memory_ratio(
                old(self).signals@,
                old(self).config,
            ) {
                lag_ratio(old(self).signals@, old(self).config)
            } else {
                memory_ratio(old(self).signals@, old(self).config)
            },
    {
        let signals = self.signals.load();
        let config = self.config;
        let now: i128 = now_ms as i128;
        let from: i128 = match self.counted_ms {
            Some(t) => if now_ms > t { t as i128 } else { now },
            None => now,
        };
        let secs: u64 = ((now - from) / 1000) as u64;
        let decision = evaluate(&signals, &config, &mut self.state, secs);
        let counted: i64 = if is_healthy(&signals, &config) {
            (from + secs as i128 * 1000) as i64
        } else {
            now_ms
        };
        self.counted_ms = Some(counted);
        decision
    }

    /// The latest signals.
    pub fn signals(&self) -> (r: AdmissionSignals)
        ensures
            r == self.signals@,
    {
        self.signals.load()
    }
}

/// An overloaded worker whose signals are healthy accepts again with the first
/// decision that comes at least the cooldown after the time was last counted, which
/// a breach sets to its own time.
pub proof fn law_time_recovers(s: AdmissionSignals, c: AdmissionConfig, state: AdmissionState, counted: i64, now: i64)
    requires
        healthy(s, c),
        now - counted >= c.cooldown_secs * 1000,
    ensures
        !evaluated(s, c, state, seconds_since(Some(counted), now)).overloaded,
{
    assert(c.cooldown_secs > 0 ==> now > counted);
    assert((now - counted) / 1000 >= c.cooldown_secs);
}

/// No time is lost between two healthy decisions: what is short of a second stays
/// to be counted.
pub proof fn law_time_is_counted(counted: i64, now: i64)
    requires
        now >= counted,
    ensures
        counted <= counted_to(Some(counted), now, true) <= now,
        now - counted_to(Some(counted), now, true) < 1000,
        counted_to(Some(counted), now, true) - counted == seconds_since(Some(counted), now) * 1000,
{
}

} // verus!
