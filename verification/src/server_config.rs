//! Engine server configuration: the sections of the configuration file, the
//! built-in defaults, and how a file and overrides resolve over them.

use vstd::prelude::*;

use crate::admission::AdmissionConfig;
use crate::job::{opt_copy, opt_view};
use crate::text;

verus! {

// ---------------------------------------------------------------------------
// The file
// ---------------------------------------------------------------------------

/// The cluster section.
#[derive(Debug)]
pub struct HazelcastSection {
    pub cluster_name: Option<String>,
    pub network: HazelcastNetwork,
}

/// How the nodes of a cluster reach each other.
#[derive(Debug)]
pub struct HazelcastNetwork {
    pub join: HazelcastJoin,
    pub port: HazelcastPort,
}

/// How a node joins.
#[derive(Debug)]
pub struct HazelcastJoin {
    pub tcp_ip: HazelcastTcpIp,
}

/// The member list.
#[derive(Debug)]
pub struct HazelcastTcpIp {
    pub enabled: Option<bool>,
    pub member_list: Vec<String>,
}

/// The port of a master.
#[derive(Debug)]
pub struct HazelcastPort {
    pub auto_increment: Option<bool>,
    pub port: Option<u16>,
}

/// The root of the file.
#[derive(Debug)]
pub struct ServerConfigFile {
    pub seatunnel: SeatunnelSection,
    pub hazelcast: HazelcastSection,
}

/// The engine's part of the file.
#[derive(Debug)]
pub struct SeatunnelSection {
    pub engine: EngineSection,
}

/// The engine section.
#[derive(Debug)]
pub struct EngineSection {
    /// How long a finished job's artifacts are kept, in minutes.
    pub history_job_expire_minutes: Option<u64>,
    /// Silence after which a worker gets no new tasks, in milliseconds.
    pub worker_soft_timeout_ms: Option<u64>,
    /// Silence after which a worker is evicted, in milliseconds.
    pub worker_timeout_ms: Option<u64>,
    /// Heartbeat period of a worker, in milliseconds.
    pub heartbeat_interval_ms: Option<u64>,
    /// No longer used: admission goes by measured pressure.
    pub slot_num: Option<u32>,
    /// Event-loop lag that overloads a worker, in milliseconds; 0 disables it.
    pub overload_lag_ms: Option<u64>,
    /// Memory share that overloads a worker, in percent; 0 disables it.
    pub memory_watermark_percent: Option<u64>,
    /// Healthy seconds that an overloaded worker needs to recover.
    pub overload_cooldown_secs: Option<u64>,
    /// Tasks handed to one worker per heartbeat; 0 is unlimited.
    pub dispatch_batch_limit: Option<u32>,
    /// Time that a coordinated checkpoint may take, in milliseconds.
    pub checkpoint_timeout_ms: Option<u64>,
    /// Time after which the tasks of a cancelled job are forced, in milliseconds.
    pub cancel_force_timeout_ms: Option<u64>,
    /// Replication period between masters, in milliseconds.
    pub replication_interval_ms: Option<u64>,
    /// The address that a worker advertises.
    pub worker_address: Option<String>,
    pub checkpoint: CheckpointSection,
    pub raft: RaftSection,
}

/// The consensus section.
#[derive(Debug)]
pub struct RaftSection {
    /// Lower bound of the election window, in milliseconds.
    pub election_timeout_min_ms: Option<u64>,
    /// Upper bound of the election window, in milliseconds.
    pub election_timeout_max_ms: Option<u64>,
    /// Shift of the window from one member to the next; 0 disables it.
    pub election_skew_ms: Option<u64>,
    /// Heartbeat period, in milliseconds.
    pub heartbeat_interval_ms: Option<u64>,
}

/// The checkpoint section.
#[derive(Debug)]
pub struct CheckpointSection {
    /// Default checkpoint interval, in milliseconds.
    pub interval: Option<u64>,
    /// Checkpoints kept of one task.
    pub keep_checkpoint_count: Option<usize>,
    pub storage: StorageSection,
}

/// The checkpoint storage section.
#[derive(Debug)]
pub struct StorageSection {
    /// `localfile`, `master` or `s3`.
    pub kind: Option<String>,
    /// The local directory.
    pub namespace: Option<String>,
    /// Whether the state of finished jobs is removed.
    pub auto_clean: Option<bool>,
    /// Minutes from a cancellation to the removal of the job's state.
    pub clean_grace_minutes: Option<u64>,
    /// Minutes between two sweeps.
    pub clean_interval_minutes: Option<u64>,
    pub plugin_config: S3PluginConfig,
}

/// The object store section.
#[derive(Debug)]
pub struct S3PluginConfig {
    pub bucket: Option<String>,
    pub endpoint: Option<String>,
    pub region: Option<String>,
    pub access_key: Option<String>,
    pub secret_key: Option<String>,
    pub prefix: Option<String>,
    pub path_style: Option<bool>,
}

/// Whether a file sets nothing.
pub open spec fn blank(f: ServerConfigFile) -> bool {
    let e = f.seatunnel.engine;
    let s = e.checkpoint.storage;
    let p = s.plugin_config;
    let h = f.hazelcast;
    &&& e.history_job_expire_minutes is None && e.worker_soft_timeout_ms is None && e.worker_timeout_ms is None
    &&& e.heartbeat_interval_ms is None && e.slot_num is None && e.overload_lag_ms is None
    &&& e.memory_watermark_percent is None && e.overload_cooldown_secs is None && e.dispatch_batch_limit is None
    &&& e.checkpoint_timeout_ms is None && e.cancel_force_timeout_ms is None && e.replication_interval_ms is None
    &&& e.worker_address is None && e.checkpoint.interval is None && e.checkpoint.keep_checkpoint_count is None
    &&& s.kind is None && s.namespace is None && s.auto_clean is None && s.clean_grace_minutes is None
    &&& s.clean_interval_minutes is None && p.bucket is None && p.endpoint is None && p.region is None
    &&& p.access_key is None && p.secret_key is None && p.prefix is None && p.path_style is None
    &&& e.raft.election_timeout_min_ms is None && e.raft.election_timeout_max_ms is None
    &&& e.raft.election_skew_ms is None && e.raft.heartbeat_interval_ms is None && h.cluster_name is None
    &&& h.network.join.tcp_ip.enabled is None && h.network.join.tcp_ip.member_list@.len() == 0
    &&& h.network.port.auto_increment is None && h.network.port.port is None
}

impl Default for ServerConfigFile {
    fn default() -> (r: Self)
        ensures
            blank(r),
    {
        ServerConfigFile {
            seatunnel: SeatunnelSection {
                engine: EngineSection {
                    history_job_expire_minutes: None,
                    worker_soft_timeout_ms: None,
                    worker_timeout_ms: None,
                    heartbeat_interval_ms: None,
                    slot_num: None,
                    overload_lag_ms: None,
                    memory_watermark_percent: None,
                    overload_cooldown_secs: None,
                    dispatch_batch_limit: None,
                    checkpoint_timeout_ms: None,
                    cancel_force_timeout_ms: None,
                    replication_interval_ms: None,
                    worker_address: None,
                    checkpoint: CheckpointSection {
                        interval: None,
                        keep_checkpoint_count: None,
                        storage: StorageSection {
                            kind: None,
                            namespace: None,
                            auto_clean: None,
                            clean_grace_minutes: None,
                            clean_interval_minutes: None,
                            plugin_config: S3PluginConfig {
                                bucket: None,
                                endpoint: None,
                                region: None,
                                access_key: None,
                                secret_key: None,
                                prefix: None,
                                path_style: None,
                            },
                        },
                    },
                    raft: RaftSection {
                        election_timeout_min_ms: None,
                        election_timeout_max_ms: None,
                        election_skew_ms: None,
                        heartbeat_interval_ms: None,
                    },
                },
            },
            hazelcast: HazelcastSection {
                cluster_name: None,
                network: HazelcastNetwork {
                    join: HazelcastJoin { tcp_ip: HazelcastTcpIp { enabled: None, member_list: Vec::new() } },
                    port: HazelcastPort { auto_increment: None, port: None },
                },
            },
        }
    }
}

// ---------------------------------------------------------------------------
// Election timing
// ---------------------------------------------------------------------------

/// Election timing. Every member has its own window, shifted by its place in the
/// member list, so that the lowest live member campaigns first and two members
/// never campaign in step.
#[derive(Debug, Clone, Copy, PartialEq, Eq, Structural)]
pub struct RaftTiming {
    /// Lower bound of the first member's window, in milliseconds.
    pub election_timeout_min_ms: u64,
    /// Upper bound of the first member's window, in milliseconds.
    pub election_timeout_max_ms: u64,
    /// Shift from one member to the next; 0 disables it.
    pub election_skew_ms: u64,
    /// Heartbeat period, in milliseconds.
    pub heartbeat_interval_ms: u64,
}

/// The default timing.
pub open spec fn default_timing() -> RaftTiming {
    RaftTiming {
        election_timeout_min_ms: 900,
        election_timeout_max_ms: 1_300,
        election_skew_ms: 700,
        heartbeat_interval_ms: 150,
    }
}

/// `n`, or the largest value that fits.
pub open spec fn saturated(n: nat) -> u64 {
    if n <= u64::MAX { n as u64 } else { u64::MAX }
}

/// The shift of a member's window.
pub open spec fn window_shift(t: RaftTiming, node_id: u64) -> u64 {
    saturated((t.election_skew_ms * (if node_id == 0 { 0 } else { node_id - 1 })) as nat)
}

/// The time between two ticks of a member.
pub open spec fn tick(t: RaftTiming) -> int {
    (t.heartbeat_interval_ms * 3) / 2
}

impl RaftTiming {
    /// The election window of a voter, counted from 1 in the order of the member
    /// list. A later member waits longer.
    pub fn election_window(&self, node_id: u64) -> (r: (u64, u64))
        ensures
            r.0 == saturated((self.election_timeout_min_ms + window_shift(*self, node_id)) as nat),
            r.1 == saturated((self.election_timeout_max_ms + window_shift(*self, node_id)) as nat),
    {
        let place: u64 = if node_id == 0 { 0 } else { node_id - 1 };
        proof {
            assert(0 <= self.election_skew_ms * place <= u64::MAX * u64::MAX) by (nonlinear_arith);
        }
        let product: u128 = self.election_skew_ms as u128 * place as u128;
        let shift: u64 = if product <= u64::MAX as u128 { product as u64 } else { u64::MAX };
        (self.election_timeout_min_ms.saturating_add(shift), self.election_timeout_max_ms.saturating_add(shift))
    }
}

impl Default for RaftTiming {
    fn default() -> (r: Self)
        ensures
            r == default_timing(),
    {
        RaftTiming {
            election_timeout_min_ms: 900,
            election_timeout_max_ms: 1_300,
            election_skew_ms: 700,
            heartbeat_interval_ms: 150,
        }
    }
}

/// Whether the shift separates the windows of neighbours by at least one tick.
pub open spec fn separates(t: RaftTiming) -> bool {
    t.election_skew_ms >= t.election_timeout_max_ms - t.election_timeout_min_ms + tick(t)
}

/// With a separating shift, the window of a member ends at least one tick before
/// that of any later member begins, as long as the times fit.
pub proof fn law_windows_are_disjoint(t: RaftTiming, earlier: u64, later: u64)
    requires
        separates(t),
        1 <= earlier < later,
        t.election_timeout_max_ms + t.election_skew_ms * (later - 1) <= u64::MAX,
    ensures
        t.election_timeout_min_ms + window_shift(t, later) >= t.election_timeout_max_ms + window_shift(t, earlier)
            + tick(t),
{
    let k = t.election_skew_ms as int;
    let a = earlier - 1;
    let b = later - 1;
    assert(k * b >= k * a + k && k * a >= 0) by (nonlinear_arith)
        requires
            k >= 0,
            0 <= a,
            a + 1 <= b,
    ;
}

/// Without a shift all members have one window.
pub proof fn law_zero_skew(t: RaftTiming, a: u64, b: u64)
    requires
        t.election_skew_ms == 0,
    ensures
        window_shift(t, a) == window_shift(t, b),
        window_shift(t, a) == 0,
{
}

// ---------------------------------------------------------------------------
// The resolved configuration
// ---------------------------------------------------------------------------

/// Resolved object store settings.
#[derive(Debug)]
pub struct ResolvedS3Config {
    pub bucket: String,
    pub endpoint: String,
    pub region: String,
    pub access_key: Option<String>,
    pub secret_key: Option<String>,
    pub prefix: String,
    pub path_style: bool,
}

/// The mathematical value of object store settings.
#[verifier::ext_equal]
pub struct S3V {
    pub bucket: Seq<char>,
    pub endpoint: Seq<char>,
    pub region: Seq<char>,
    pub access_key: Option<Seq<char>>,
    pub secret_key: Option<Seq<char>>,
    pub prefix: Seq<char>,
    pub path_style: bool,
}

impl View for ResolvedS3Config {
    type V = S3V;

    open spec fn view(&self) -> S3V {
        S3V {
            bucket: self.bucket@,
            endpoint: self.endpoint@,
            region: self.region@,
            access_key: opt_view(self.access_key),
            secret_key: opt_view(self.secret_key),
            prefix: self.prefix@,
            path_style: self.path_style,
        }
    }
}

/// What a client of the object store is built from.
#[derive(Debug)]
pub struct S3ClientPlan {
    pub bucket: String,
    pub endpoint: Option<String>,
    pub region: Option<String>,
    pub access_key: Option<String>,
    pub secret_key: Option<String>,
    /// Whether the bucket stands in the path.
    pub path_style: bool,
    /// Whether plain HTTP is allowed.
    pub allow_http: bool,
}

/// A text, or nothing when it is empty.
pub open spec fn unless_empty(s: Seq<char>) -> Option<Seq<char>> {
    if s.len() > 0 { Some(s) } else { None }
}

fn given(s: &String) -> (r: Option<String>)
    ensures
        opt_view(r) == unless_empty(s@),
{
    if s.as_str().is_empty() {
        None
    } else {
        Some(s.clone())
    }
}

impl ResolvedS3Config {
    /// What a client of the object store is built from. A plain HTTP endpoint has
    /// to be allowed explicitly.
    pub fn client_plan(&self) -> (r: S3ClientPlan)
        ensures
            r.bucket@ == self@.bucket,
            opt_view(r.endpoint) == unless_empty(self@.endpoint),
            opt_view(r.region) == unless_empty(self@.region),
            opt_view(r.access_key) == self@.access_key,
            opt_view(r.secret_key) == self@.secret_key,
            r.path_style == self@.path_style,
            r.allow_http == text::has_prefix(self@.endpoint, "http://"@),
    {
        S3ClientPlan {
            bucket: self.bucket.clone(),
            endpoint: given(&self.endpoint),
            region: given(&self.region),
            access_key: opt_copy(&self.access_key),
            secret_key: opt_copy(&self.secret_key),
            path_style: self.path_style,
            allow_http: text::starts_with(self.endpoint.as_str(), "http://"),
        }
    }
}

/// The effective configuration.
#[derive(Debug)]
pub struct EngineServerConfig {
    pub state_dir: String,
    pub keep_checkpoint_count: usize,
    pub checkpoint_interval: u64,
    pub auto_clean: bool,
    pub clean_grace_minutes: u64,
    pub clean_interval_minutes: u64,
    pub history_job_expire_minutes: u64,
    pub worker_soft_timeout_ms: u64,
    pub worker_timeout_ms: u64,
    pub heartbeat_interval_ms: u64,
    pub overload_lag_ms: u64,
    pub memory_watermark_percent: u64,
    pub overload_cooldown_secs: u64,
    pub dispatch_batch_limit: u32,
    pub checkpoint_timeout_ms: u64,
    pub cancel_force_timeout_ms: u64,
    pub replication_interval_ms: u64,
    pub worker_address: String,
    pub storage_type: String,
    pub s3: ResolvedS3Config,
    pub member_list: Vec<String>,
    pub cluster_name: String,
    pub hazelcast_port: Option<u16>,
    pub raft: RaftTiming,
}

/// The mathematical value of a configuration.
#[verifier::ext_equal]
pub struct ConfigV {
    pub state_dir: Seq<char>,
    pub keep_checkpoint_count: usize,
    pub checkpoint_interval: u64,
    pub auto_clean: bool,
    pub clean_grace_minutes: u64,
    pub clean_interval_minutes: u64,
    pub history_job_expire_minutes: u64,
    pub worker_soft_timeout_ms: u64,
    pub worker_timeout_ms: u64,
    pub heartbeat_interval_ms: u64,
    pub overload_lag_ms: u64,
    pub memory_watermark_percent: u64,
    pub overload_cooldown_secs: u64,
    pub dispatch_batch_limit: u32,
    pub checkpoint_timeout_ms: u64,
    pub cancel_force_timeout_ms: u64,
    pub replication_interval_ms: u64,
    pub worker_address: Seq<char>,
    pub storage_type: Seq<char>,
    pub s3: S3V,
    pub member_list: Seq<Seq<char>>,
    pub cluster_name: Seq<char>,
    pub hazelcast_port: Option<u16>,
    pub raft: RaftTiming,
}

impl View for EngineServerConfig {
    type V = ConfigV;

    open spec fn view(&self) -> ConfigV {
        ConfigV {
            state_dir: self.state_dir@,
            keep_checkpoint_count: self.keep_checkpoint_count,
            checkpoint_interval: self.checkpoint_interval,
            auto_clean: self.auto_clean,
            clean_grace_minutes: self.clean_grace_minutes,
            clean_interval_minutes: self.clean_interval_minutes,
            history_job_expire_minutes: self.history_job_expire_minutes,
            worker_soft_timeout_ms: self.worker_soft_timeout_ms,
            worker_timeout_ms: self.worker_timeout_ms,
            heartbeat_interval_ms: self.heartbeat_interval_ms,
            overload_lag_ms: self.overload_lag_ms,
            memory_watermark_percent: self.memory_watermark_percent,
            overload_cooldown_secs: self.overload_cooldown_secs,
            dispatch_batch_limit: self.dispatch_batch_limit,
            checkpoint_timeout_ms: self.checkpoint_timeout_ms,
            cancel_force_timeout_ms: self.cancel_force_timeout_ms,
            replication_interval_ms: self.replication_interval_ms,
            worker_address: self.worker_address@,
            storage_type: self.storage_type@,
            s3: self.s3@,
            member_list: text::views(self.member_list@),
            cluster_name: self.cluster_name@,
            hazelcast_port: self.hazelcast_port,
            raft: self.raft,
        }
    }
}

/// The built-in defaults.
pub open spec fn default_config() -> ConfigV {
    ConfigV {
        state_dir: ".seatunnel-state"@,
        keep_checkpoint_count: 3,
        checkpoint_interval: 30_000,
        auto_clean: true,
        clean_grace_minutes: 10,
        clean_interval_minutes: 60,
        history_job_expire_minutes: 1440,
        worker_soft_timeout_ms: 30_000,
        worker_timeout_ms: 60_000,
        heartbeat_interval_ms: 2_000,
        overload_lag_ms: 500,
        memory_watermark_percent: 75,
        overload_cooldown_secs: 10,
        dispatch_batch_limit: 16,
        checkpoint_timeout_ms: 30_000,
        cancel_force_timeout_ms: 300_000,
        replication_interval_ms: 5_000,
        worker_address: "127.0.0.1:5001"@,
        storage_type: "localfile"@,
        s3: S3V {
            bucket: Seq::empty(),
            endpoint: Seq::empty(),
            region: Seq::empty(),
            access_key: None,
            secret_key: None,
            prefix: Seq::empty(),
            path_style: false,
        },
        member_list: seq!["127.0.0.1:5800"@],
        cluster_name: "seatunnel"@,
        hazelcast_port: None,
        raft: default_timing(),
    }
}

impl Default for EngineServerConfig {
    fn default() -> (r: Self)
        ensures
            r@ == default_config(),
    {
        let mut member_list: Vec<String> = Vec::new();
        member_list.push(text::owned("127.0.0.1:5800"));
        assert(text::views(member_list@) =~= seq!["127.0.0.1:5800"@]);
        EngineServerConfig {
            state_dir: text::owned(".seatunnel-state"),
            keep_checkpoint_count: 3,
            checkpoint_interval: 30_000,
            auto_clean: true,
            clean_grace_minutes: 10,
            clean_interval_minutes: 60,
            history_job_expire_minutes: 1440,
            worker_soft_timeout_ms: 30_000,
            worker_timeout_ms: 60_000,
            heartbeat_interval_ms: 2_000,
            overload_lag_ms: 500,
            memory_watermark_percent: 75,
            overload_cooldown_secs: 10,
            dispatch_batch_limit: 16,
            checkpoint_timeout_ms: 30_000,
            cancel_force_timeout_ms: 300_000,
            replication_interval_ms: 5_000,
            worker_address: text::owned("127.0.0.1:5001"),
            storage_type: text::owned("localfile"),
            s3: ResolvedS3Config {
                bucket: String::new(),
                endpoint: String::new(),
                region: String::new(),
                access_key: None,
                secret_key: None,
                prefix: String::new(),
                path_style: false,
            },
            member_list,
            cluster_name: text::owned("seatunnel"),
            hazelcast_port: None,
            raft: RaftTiming::default(),
        }
    }
}

// ---------------------------------------------------------------------------
// Applying a file
// ---------------------------------------------------------------------------

/// What is given, else what was there.
pub open spec fn or_keep<A>(given: Option<A>, old: A) -> A {
    match given {
        Some(v) => v,
        None => old,
    }
}

/// What is given but not below `least`, else what was there.
pub open spec fn at_least(given: Option<u64>, least: u64, old: u64) -> u64 {
    match given {
        Some(v) => if v < least { least } else { v },
        None => old,
    }
}

/// What is given when it is not empty, else what was there.
pub open spec fn text_or_keep(given: Option<String>, old: Seq<char>) -> Seq<char> {
    match given {
        Some(v) => if v@.len() > 0 { v@ } else { old },
        None => old,
    }
}

/// What is given when it is not empty, else what was there.
pub open spec fn secret_or_keep(given: Option<String>, old: Option<Seq<char>>) -> Option<Seq<char>> {
    match given {
        Some(v) => if v@.len() > 0 { Some(v@) } else { old },
        None => old,
    }
}

/// The non-empty texts of a list, without whitespace at their ends.
pub open spec fn trimmed_members(s: Seq<Seq<char>>) -> Seq<Seq<char>>
    decreases s.len(),
{
    if s.len() == 0 {
        s
    } else {
        let head = trimmed_members(s.drop_last());
        let m = text::trimmed(s.last());
        if m.len() > 0 { head.push(m) } else { head }
    }
}

/// The election window under a file. Each bound is what the file sets, else what
/// was there; an upper bound that is not above the lower is lifted to just above it.
pub open spec fn window_of(r: RaftSection, old: RaftTiming) -> (int, int) {
    let min = match r.election_timeout_min_ms {
        Some(m) => if m < 1 { 1int } else { m as int },
        None => old.election_timeout_min_ms as int,
    };
    let max = or_keep(r.election_timeout_max_ms, old.election_timeout_max_ms);
    (min, if max <= min { min + 1 } else { max as int })
}

/// The heartbeat period that a file sets, at least 50 milliseconds.
pub open spec fn raft_heartbeat(r: RaftSection, old: RaftTiming) -> u64 {
    at_least(r.heartbeat_interval_ms, 50, old.heartbeat_interval_ms)
}

/// The shift that separates the windows of neighbours by one tick.
pub open spec fn least_skew(r: RaftSection, old: RaftTiming) -> int {
    let w = window_of(r, old);
    w.1 - w.0 + (raft_heartbeat(r, old) * 3) / 2
}

/// Whether the resulting times fit.
pub open spec fn timing_fits(r: RaftSection, old: RaftTiming) -> bool {
    let w = window_of(r, old);
    &&& w.1 <= u64::MAX
    &&& raft_heartbeat(r, old) * 3 <= u64::MAX
    &&& least_skew(r, old) <= u64::MAX
}

/// The timing that a file sets. A positive shift that does not separate the
/// windows is lifted until it does.
pub open spec fn timing_applied(r: RaftSection, old: RaftTiming) -> RaftTiming {
    let w = window_of(r, old);
    let skew = or_keep(r.election_skew_ms, old.election_skew_ms);
    RaftTiming {
        election_timeout_min_ms: w.0 as u64,
        election_timeout_max_ms: w.1 as u64,
        election_skew_ms: if 0 < skew < least_skew(r, old) { least_skew(r, old) as u64 } else { skew },
        heartbeat_interval_ms: raft_heartbeat(r, old),
    }
}

/// The object store settings that a file sets.
pub open spec fn s3_applied(p: S3PluginConfig, old: S3V) -> S3V {
    S3V {
        bucket: text_or_keep(p.bucket, old.bucket),
        endpoint: text_or_keep(p.endpoint, old.endpoint),
        region: text_or_keep(p.region, old.region),
        access_key: secret_or_keep(p.access_key, old.access_key),
        secret_key: secret_or_keep(p.secret_key, old.secret_key),
        prefix: match p.prefix {
            Some(v) => if v@.len() > 0 { text::trimmed_of(v@, '/') } else { old.prefix },
            None => old.prefix,
        },
        path_style: or_keep(p.path_style, old.path_style),
    }
}

/// The soft timeout that a file sets, at least one second.
pub open spec fn soft_timeout(e: EngineSection, old: ConfigV) -> u64 {
    at_least(e.worker_soft_timeout_ms, 1_000, old.worker_soft_timeout_ms)
}

/// A configuration after a file was applied.
pub open spec fn file_applied(c: ConfigV, f: ServerConfigFile) -> ConfigV {
    let e = f.seatunnel.engine;
    let storage = e.checkpoint.storage;
    let members = trimmed_members(text::views(f.hazelcast.network.join.tcp_ip.member_list@));
    ConfigV {
        state_dir: text_or_keep(storage.namespace, c.state_dir),
        keep_checkpoint_count: match e.checkpoint.keep_checkpoint_count {
            Some(n) => if n < 1 { 1 } else { n },
            None => c.keep_checkpoint_count,
        },
        checkpoint_interval: at_least(e.checkpoint.interval, 1, c.checkpoint_interval),
        auto_clean: or_keep(storage.auto_clean, c.auto_clean),
        clean_grace_minutes: or_keep(storage.clean_grace_minutes, c.clean_grace_minutes),
        clean_interval_minutes: at_least(storage.clean_interval_minutes, 1, c.clean_interval_minutes),
        history_job_expire_minutes: at_least(e.history_job_expire_minutes, 1, c.history_job_expire_minutes),
        worker_soft_timeout_ms: soft_timeout(e, c),
        worker_timeout_ms: match e.worker_timeout_ms {
            Some(ms) => {
                let floor = if soft_timeout(e, c) < 1_000 { 1_000 } else { soft_timeout(e, c) };
                if ms < floor { floor } else { ms }
            },
            None => if c.worker_timeout_ms < soft_timeout(e, c) { soft_timeout(e, c) } else { c.worker_timeout_ms },
        },
        heartbeat_interval_ms: match e.heartbeat_interval_ms {
            Some(ms) => if ms < 250 { 250 } else if ms > 60_000 { 60_000 } else { ms },
            None => c.heartbeat_interval_ms,
        },
        overload_lag_ms: or_keep(e.overload_lag_ms, c.overload_lag_ms),
        memory_watermark_percent: match e.memory_watermark_percent {
            Some(p) => if p > 100 { 100 } else { p },
            None => c.memory_watermark_percent,
        },
        overload_cooldown_secs: or_keep(e.overload_cooldown_secs, c.overload_cooldown_secs),
        dispatch_batch_limit: or_keep(e.dispatch_batch_limit, c.dispatch_batch_limit),
        checkpoint_timeout_ms: at_least(e.checkpoint_timeout_ms, 1_000, c.checkpoint_timeout_ms),
        cancel_force_timeout_ms: at_least(e.cancel_force_timeout_ms, 30_000, c.cancel_force_timeout_ms),
        replication_interval_ms: or_keep(e.replication_interval_ms, c.replication_interval_ms),
        worker_address: text_or_keep(e.worker_address, c.worker_address),
        storage_type: match storage.kind {
            Some(k) => if k@ == "localfile"@ || k@ == "master"@ || k@ == "s3"@ { k@ } else { c.storage_type },
            None => c.storage_type,
        },
        s3: s3_applied(storage.plugin_config, c.s3),
        member_list: if members.len() > 0 { members } else { c.member_list },
        cluster_name: text_or_keep(f.hazelcast.cluster_name, c.cluster_name),
        hazelcast_port: match f.hazelcast.network.port.port {
            Some(p) => Some(p),
            None => c.hazelcast_port,
        },
        raft: timing_applied(e.raft, c.raft),
    }
}

fn raised(given: Option<u64>, least: u64, old: u64) -> (r: u64)
    ensures
        r == at_least(given, least, old),
{
    match given {
        Some(v) => if v < least { least } else { v },
        None => old,
    }
}

fn text_given(given: &Option<String>, old: &String) -> (r: String)
    ensures
        r@ == text_or_keep(*given, old@),
{
    match given {
        Some(v) => if v.as_str().is_empty() { old.clone() } else { v.clone() },
        None => old.clone(),
    }
}

fn secret_given(given: &Option<String>, old: &Option<String>) -> (r: Option<String>)
    ensures
        opt_view(r) == secret_or_keep(*given, opt_view(*old)),
{
    match given {
        Some(v) => if v.as_str().is_empty() { opt_copy(old) } else { Some(v.clone()) },
        None => opt_copy(old),
    }
}

pub(crate) fn members_of(list: &Vec<String>) -> (r: Vec<String>)
    ensures
        text::views(r@) == trimmed_members(text::views(list@)),
{
    let ghost all = text::views(list@);
    let mut out: Vec<String> = Vec::new();
    let mut i: usize = 0;
    proof {
        assert(all.take(0) =~= Seq::empty());
        assert(text::views(out@) =~= Seq::empty());
    }
    while i < list.len()
        invariant
            i <= list@.len(),
            all == text::views(list@),
            text::views(out@) == trimmed_members(all.take(i as int)),
        decreases list@.len() - i,
    {
        proof {
            assert(all.take(i + 1).drop_last() =~= all.take(i as int));
            assert(all.take(i + 1).last() == list@[i as int]@);
        }
        let m = text::trim(list[i].as_str());
        if !m.as_str().is_empty() {
            let ghost prev = out@;
            out.push(m);
            assert(text::views(out@) =~= text::views(prev).push(m@));
        }
        i += 1;
    }
    assert(all.take(all.len() as int) =~= all);
    out
}

fn timing_over(old: &RaftTiming, section: &RaftSection) -> (r: RaftTiming)
    requires
        timing_fits(*section, *old),
    ensures
        r == timing_applied(*section, *old),
{
    let heartbeat: u64 = raised(section.heartbeat_interval_ms, 50, old.heartbeat_interval_ms);
    let min: u64 = raised(section.election_timeout_min_ms, 1, old.election_timeout_min_ms);
    let bound: u64 = section.election_timeout_max_ms.unwrap_or(old.election_timeout_max_ms);
    let max: u64 = if bound <= min { min + 1 } else { bound };
    let skew: u64 = section.election_skew_ms.unwrap_or(old.election_skew_ms);
    let width: u64 = max - min;
    let step: u64 = heartbeat * 3 / 2;
    let least: u64 = width + step;
    RaftTiming {
        election_timeout_min_ms: min,
        election_timeout_max_ms: max,
        election_skew_ms: if skew > 0 && skew < least { least } else { skew },
        heartbeat_interval_ms: heartbeat,
    }
}

fn s3_over(old: &ResolvedS3Config, plugin: &S3PluginConfig) -> (r: ResolvedS3Config)
    ensures
        r@ == s3_applied(*plugin, old@),
{
    ResolvedS3Config {
        bucket: text_given(&plugin.bucket, &old.bucket),
        endpoint: text_given(&plugin.endpoint, &old.endpoint),
        region: text_given(&plugin.region, &old.region),
        access_key: secret_given(&plugin.access_key, &old.access_key),
        secret_key: secret_given(&plugin.secret_key, &old.secret_key),
        prefix: match &plugin.prefix {
            Some(p) => if p.as_str().is_empty() { old.prefix.clone() } else { text::trim_of(p.as_str(), '/') },
            None => old.prefix.clone(),
        },
        path_style: plugin.path_style.unwrap_or(old.path_style),
    }
}

impl RaftSection {
    /// Whether the times that the section gives over `old` fit.
    pub fn fits(&self, old: &RaftTiming) -> (r: bool)
        ensures
            r == timing_fits(*self, *old),
    {
        let heartbeat: u64 = raised(self.heartbeat_interval_ms, 50, old.heartbeat_interval_ms);
        let min: u64 = raised(self.election_timeout_min_ms, 1, old.election_timeout_min_ms);
        let bound: u64 = self.election_timeout_max_ms.unwrap_or(old.election_timeout_max_ms);
        let max: u128 = if bound <= min { min as u128 + 1 } else { bound as u128 };
        let least: u128 = max - min as u128 + heartbeat as u128 * 3 / 2;
        max <= u64::MAX as u128 && heartbeat as u128 * 3 <= u64::MAX as u128 && least <= u64::MAX as u128
    }
}

impl EngineServerConfig {
    /// Applies a file over the configuration. Values out of range are brought
    /// into it; what the file leaves out stays.
    pub fn apply_file(&mut self, file: &ServerConfigFile)
        requires
            timing_fits(file.seatunnel.engine.raft, old(self)@.raft),
        ensures
            final(self)@ == file_applied(old(self)@, *file),
    {
        let engine = &file.seatunnel.engine;
        let storage = &engine.checkpoint.storage;
        let soft: u64 = raised(engine.worker_soft_timeout_ms, 1_000, self.worker_soft_timeout_ms);
        let floor: u64 = if soft < 1_000 { 1_000 } else { soft };
        let kept: u64 = if self.worker_timeout_ms < soft { soft } else { self.worker_timeout_ms };
        let hard: u64 = raised(engine.worker_timeout_ms, floor, kept);
        let members = members_of(&file.hazelcast.network.join.tcp_ip.member_list);
        assert(text::views(members@).len() == members@.len());
        let member_list = if members.len() > 0 { members } else { text::copy_list(&self.member_list) };
        let known_kind: bool = match &storage.kind {
            Some(k) => text::same(k.as_str(), "localfile") || text::same(k.as_str(), "master") || text::same(
                k.as_str(),
                "s3",
            ),
            None => false,
        };
        let storage_type = match &storage.kind {
            Some(k) => if known_kind { k.clone() } else { self.storage_type.clone() },
            None => self.storage_type.clone(),
        };
        *self = EngineServerConfig {
            state_dir: text_given(&storage.namespace, &self.state_dir),
            keep_checkpoint_count: match engine.checkpoint.keep_checkpoint_count {
                Some(n) => if n < 1 { 1 } else { n },
                None => self.keep_checkpoint_count,
            },
            checkpoint_interval: raised(engine.checkpoint.interval, 1, self.checkpoint_interval),
            auto_clean: storage.auto_clean.unwrap_or(self.auto_clean),
            clean_grace_minutes: storage.clean_grace_minutes.unwrap_or(self.clean_grace_minutes),
            clean_interval_minutes: raised(storage.clean_interval_minutes, 1, self.clean_interval_minutes),
            history_job_expire_minutes: raised(engine.history_job_expire_minutes, 1, self.history_job_expire_minutes),
            worker_soft_timeout_ms: soft,
            worker_timeout_ms: hard,
            heartbeat_interval_ms: match engine.heartbeat_interval_ms {
                Some(ms) => if ms < 250 { 250 } else if ms > 60_000 { 60_000 } else { ms },
                None => self.heartbeat_interval_ms,
            },
            overload_lag_ms: engine.overload_lag_ms.unwrap_or(self.overload_lag_ms),
            memory_watermark_percent: match engine.memory_watermark_percent {
                Some(p) => if p > 100 { 100 } else { p },
                None => self.memory_watermark_percent,
            },
            overload_cooldown_secs: engine.overload_cooldown_secs.unwrap_or(self.overload_cooldown_secs),
            dispatch_batch_limit: engine.dispatch_batch_limit.unwrap_or(self.dispatch_batch_limit),
            checkpoint_timeout_ms: raised(engine.checkpoint_timeout_ms, 1_000, self.checkpoint_timeout_ms),
            cancel_force_timeout_ms: raised(engine.cancel_force_timeout_ms, 30_000, self.cancel_force_timeout_ms),
            replication_interval_ms: engine.replication_interval_ms.unwrap_or(self.replication_interval_ms),
            worker_address: text_given(&engine.worker_address, &self.worker_address),
            storage_type,
            s3: s3_over(&self.s3, &storage.plugin_config),
            member_list,
            cluster_name: text_given(&file.hazelcast.cluster_name, &self.cluster_name),
            hazelcast_port: match file.hazelcast.network.port.port {
                Some(p) => Some(p),
                None => self.hazelcast_port,
            },
            raft: timing_over(&self.raft, &engine.raft),
        };
    }

    /// The effective configuration: the defaults, a file over them, then the
    /// environment's state directory, then the command line's. Empty ones count as
    /// not given.
    pub fn load(
        file: Option<&ServerConfigFile>,
        cli_state_dir: Option<&str>,
        env_state_dir: Option<&str>,
    ) -> (r: Self)
        requires
            file matches Some(f) ==> timing_fits(f.seatunnel.engine.raft, default_timing()),
        ensures
            ({
                let base = match file {
                    Some(f) => file_applied(default_config(), *f),
                    None => default_config(),
                };
                let dir = match cli_state_dir {
                    Some(d) => unless_empty(d@),
                    None => None,
                };
                let env = match env_state_dir {
                    Some(d) => unless_empty(d@),
                    None => None,
                };
                r@ == (ConfigV {
                    state_dir: if dir is Some { dir->0 } else if env is Some { env->0 } else { base.state_dir },
                    ..base
                })
            }),
    {
        let mut config = EngineServerConfig::default();
        if let Some(f) = file {
            config.apply_file(f);
        }
        if let Some(dir) = env_state_dir {
            if !dir.is_empty() {
                config.state_dir = text::owned(dir);
            }
        }
        if let Some(dir) = cli_state_dir {
            if !dir.is_empty() {
                config.state_dir = text::owned(dir);
            }
        }
        config
    }

    /// The admission thresholds of a worker.
    pub fn admission_config(&self) -> (r: AdmissionConfig)
        ensures
            r == (AdmissionConfig {
                lag_threshold_ms: self@.overload_lag_ms,
                memory_watermark_percent: self@.memory_watermark_percent,
                cooldown_secs: self@.overload_cooldown_secs,
            }),
    {
        AdmissionConfig {
            lag_threshold_ms: self.overload_lag_ms,
            memory_watermark_percent: self.memory_watermark_percent,
            cooldown_secs: self.overload_cooldown_secs,
        }
    }

    /// A copy.
    pub fn copy(&self) -> (r: Self)
        ensures
            r@ == self@,
    {
        EngineServerConfig {
            state_dir: self.state_dir.clone(),
            keep_checkpoint_count: self.keep_checkpoint_count,
            checkpoint_interval: self.checkpoint_interval,
            auto_clean: self.auto_clean,
            clean_grace_minutes: self.clean_grace_minutes,
            clean_interval_minutes: self.clean_interval_minutes,
            history_job_expire_minutes: self.history_job_expire_minutes,
            worker_soft_timeout_ms: self.worker_soft_timeout_ms,
            worker_timeout_ms: self.worker_timeout_ms,
            heartbeat_interval_ms: self.heartbeat_interval_ms,
            overload_lag_ms: self.overload_lag_ms,
            memory_watermark_percent: self.memory_watermark_percent,
            overload_cooldown_secs: self.overload_cooldown_secs,
            dispatch_batch_limit: self.dispatch_batch_limit,
            checkpoint_timeout_ms: self.checkpoint_timeout_ms,
            cancel_force_timeout_ms: self.cancel_force_timeout_ms,
            replication_interval_ms: self.replication_interval_ms,
            worker_address: self.worker_address.clone(),
            storage_type: self.storage_type.clone(),
            s3: ResolvedS3Config {
                bucket: self.s3.bucket.clone(),
                endpoint: self.s3.endpoint.clone(),
                region: self.s3.region.clone(),
                access_key: opt_copy(&self.s3.access_key),
                secret_key: opt_copy(&self.s3.secret_key),
                prefix: self.s3.prefix.clone(),
                path_style: self.s3.path_style,
            },
            member_list: text::copy_list(&self.member_list),
            cluster_name: self.cluster_name.clone(),
            hazelcast_port: self.hazelcast_port,
            raft: self.raft,
        }
    }
}

/// A file that sets nothing leaves every configuration whose hard timeout is not
/// below the soft one, whose election window is not empty, and whose shift is zero or
/// separates the windows. The defaults are such a configuration.
pub proof fn law_blank_file(c: ConfigV, f: ServerConfigFile)
    requires
        blank(f),
        c.worker_timeout_ms >= c.worker_soft_timeout_ms,
        c.raft.election_timeout_min_ms < c.raft.election_timeout_max_ms,
        c.raft.election_skew_ms > 0 ==> separates(c.raft),
    ensures
        file_applied(c, f) == c,
        timing_fits(f.seatunnel.engine.raft, default_timing()),
        file_applied(default_config(), f) == default_config(),
{
    assert(text::views(f.hazelcast.network.join.tcp_ip.member_list@).len() == 0);
}

/// What holds of every configuration that a file was applied over the defaults:
/// the values stay in their ranges, the hard timeout is not below the soft one, the
/// election window is not empty, and a positive shift separates the windows.
pub proof fn law_applied_file(f: ServerConfigFile)
    requires
        timing_fits(f.seatunnel.engine.raft, default_timing()),
    ensures
        ({
            let c = file_applied(default_config(), f);
            &&& c.history_job_expire_minutes >= 1
            &&& c.keep_checkpoint_count >= 1
            &&& c.checkpoint_interval >= 1
            &&& c.clean_interval_minutes >= 1
            &&& c.worker_soft_timeout_ms >= 1_000
            &&& c.worker_timeout_ms >= 1_000
            &&& 250 <= c.heartbeat_interval_ms <= 60_000
            &&& c.memory_watermark_percent <= 100
            &&& c.checkpoint_timeout_ms >= 1_000
            &&& c.cancel_force_timeout_ms >= 30_000
            &&& c.member_list.len() >= 1
            &&& c.worker_timeout_ms >= c.worker_soft_timeout_ms
            &&& c.raft.election_timeout_min_ms < c.raft.election_timeout_max_ms
            &&& (c.raft.election_skew_ms > 0 ==> separates(c.raft))
        }),
{
}

/// Over whatever a file is applied, the hard timeout is not below the soft one and
/// the election window is not empty.
pub proof fn law_timeouts_are_ordered(c: ConfigV, f: ServerConfigFile)
    requires
        timing_fits(f.seatunnel.engine.raft, c.raft),
    ensures
        file_applied(c, f).worker_timeout_ms >= file_applied(c, f).worker_soft_timeout_ms,
        file_applied(c, f).raft.election_timeout_min_ms < file_applied(c, f).raft.election_timeout_max_ms,
{
}

} // verus!
