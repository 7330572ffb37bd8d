//! What a node decides before and while it serves: its addresses, its place among
//! the voters, the settings of a master and of a worker, when a master gives up on
//! a worker, and when a worker turns to another master.

use vstd::prelude::*;

use crate::admission::AdmissionConfig;
use crate::checkpoint_coordination::{in_time, timeout_notices};
use crate::command::{Command, CommandV};
use crate::heartbeat::{cancelled_report, cancelled_reports, HeartbeatRequest, TaskReport};
use crate::job_coordinator::CoordinatorV;
use crate::keyed::{index_of, values};
use crate::master::{clamped, silent, EntryV, MasterHandler, MasterV};
use crate::raft::{validate_voters, VoterError};
use crate::recovery::{overdue, StuckV};
use crate::server_config::{trimmed_members, EngineServerConfig};
use crate::state_store::{inside, join_path};
use crate::text;
use crate::worker::{AdmissionFields, CleanConfig};

verus! {

// ---------------------------------------------------------------------------
// Arguments and addresses
// ---------------------------------------------------------------------------

/// What a node is.
#[derive(Debug, Clone, Copy, PartialEq, Eq, Structural)]
pub enum NodeRole {
    Master,
    Worker,
    Hybrid,
}

/// The role that an argument names; another argument is refused with a message.
pub fn node_role(role: &str) -> (r: Result<NodeRole, String>)
    ensures
        match r {
            Ok(NodeRole::Master) => role@ == "master"@,
            Ok(NodeRole::Worker) => role@ == "worker"@,
            Ok(NodeRole::Hybrid) => role@ == "hybrid"@,
            Err(e) => role@ != "master"@ && role@ != "worker"@ && role@ != "hybrid"@ && e@ == "Unknown role: "@ + role@
                + ". Use 'master', 'worker' or 'hybrid'."@,
        },
{
    if text::same(role, "master") {
        Ok(NodeRole::Master)
    } else if text::same(role, "worker") {
        Ok(NodeRole::Worker)
    } else if text::same(role, "hybrid") {
        Ok(NodeRole::Hybrid)
    } else {
        Err(text::join3("Unknown role: ", role, ". Use 'master', 'worker' or 'hybrid'."))
    }
}

/// The state directory that was chosen; the default is no choice.
pub fn explicit_state_dir(state_dir: &str) -> (r: Option<String>)
    ensures
        match r {
            Some(d) => d@ == state_dir@ && state_dir@ != ".seatunnel-state"@,
            None => state_dir@ == ".seatunnel-state"@,
        },
{
    if text::same(state_dir, ".seatunnel-state") {
        None
    } else {
        Some(text::owned(state_dir))
    }
}

/// The masters that an argument lists, else the configured members.
pub open spec fn masters_of(arg: Option<Seq<char>>, members: Seq<Seq<char>>) -> Seq<Seq<char>> {
    match arg {
        Some(m) => {
            let list = trimmed_members(text::split_text(m, ','));
            if list.len() > 0 { list } else { members }
        },
        None => members,
    }
}

/// The masters of a worker in the order in which it turns to them: those that the
/// argument lists with commas, else the configured members. There must be one.
pub fn resolve_master_list(master_arg: Option<&str>, member_list: &Vec<String>) -> (r: Result<Vec<String>, String>)
    ensures
        ({
            let m = masters_of(
                match master_arg {
                    Some(a) => Some(a@),
                    None => None,
                },
                text::views(member_list@),
            );
            match r {
                Ok(v) => m.len() > 0 && text::views(v@) == m,
                Err(e) => m.len() == 0 && e@ == "no master address (use --master or the config member-list)"@,
            }
        }),
{
    let listed = match master_arg {
        Some(a) => {
            let parts = text::split(a, ',');
            crate::server_config::members_of(&parts)
        },
        None => {
            let none: Vec<String> = Vec::new();
            assert(text::views(none@) =~= Seq::empty());
            none
        },
    };
    let list = if listed.len() > 0 { listed } else { text::copy_list(member_list) };
    if list.len() == 0 {
        return Err(text::owned("no master address (use --master or the config member-list)"));
    }
    Ok(list)
}

/// The address under which other nodes reach a master: what was chosen, else the
/// host that it is bound to, or the loopback when it is bound to all, with the port.
pub open spec fn advertised(chosen: Option<Seq<char>>, host: Seq<char>, port: u16) -> Seq<char> {
    let reachable = if host == "0.0.0.0"@ || host == "::"@ { "127.0.0.1"@ } else { host };
    match chosen {
        Some(a) => if a.len() > 0 { a } else { reachable + ":"@ + text::decimal_text(port as nat) },
        None => reachable + ":"@ + text::decimal_text(port as nat),
    }
}

/// The address under which other nodes reach a master.
pub fn advertise_address(advertise: Option<&str>, host: &str, port: u16) -> (r: String)
    ensures
        r@ == advertised(
            match advertise {
                Some(a) => Some(a@),
                None => None,
            },
            host@,
            port,
        ),
{
    match advertise {
        Some(a) => {
            if !a.is_empty() {
                return text::owned(a);
            }
        },
        None => {},
    }
    let number = text::decimal(port as u64);
    if text::same(host, "0.0.0.0") || text::same(host, "::") {
        text::join3("127.0.0.1", ":", number.as_str())
    } else {
        text::join3(host, ":", number.as_str())
    }
}

/// The port of an address, if it has one.
pub open spec fn port_of(address: Seq<char>) -> Option<nat> {
    match text::split_at_last(address, ':') {
        Some(p) => text::unsigned_number(p.1, u16::MAX as nat),
        None => None,
    }
}

fn find_port(address: &str) -> (r: Option<u64>)
    ensures
        match r {
            Some(p) => port_of(address@) == Some(p as nat),
            None => port_of(address@) is None,
        },
{
    match text::rsplit_once(address, ':') {
        Some(p) => text::parse_unsigned(p.1.as_str(), 65_535),
        None => None,
    }
}

/// Whether a member of the list is this node: it has its address, or it is the
/// loopback with its port.
pub open spec fn is_me(advertise: Seq<char>, member: Seq<char>) -> bool {
    member == advertise || (port_of(advertise) is Some && port_of(advertise) == port_of(member) && text::has_prefix(
        member,
        "127.0.0.1"@,
    ))
}

/// The place of this node among the voters, counted from 1: the first member of
/// the list that it is.
pub fn my_voter_id(advertise: &str, members: &Vec<String>) -> (r: Option<u64>)
    ensures
        match r {
            Some(id) => 1 <= id <= members@.len() && is_me(advertise@, members@[id - 1]@) && forall|i: int|
                0 <= i < id - 1 ==> !is_me(advertise@, (#[trigger] members@[i])@),
            None => forall|i: int| 0 <= i < members@.len() ==> !is_me(advertise@, (#[trigger] members@[i])@),
        },
{
    let my_port = find_port(advertise);
    let mut i: usize = 0;
    while i < members.len()
        invariant
            i <= members@.len(),
            match my_port {
                Some(p) => port_of(advertise@) == Some(p as nat),
                None => port_of(advertise@) is None,
            },
            forall|k: int| 0 <= k < i ==> !is_me(advertise@, (#[trigger] members@[k])@),
        decreases members@.len() - i,
    {
        let member = members[i].as_str();
        if text::same(member, advertise) {
            return Some(i as u64 + 1);
        }
        let same_port: bool = match (my_port, find_port(member)) {
            (Some(a), Some(b)) => a == b,
            _ => false,
        };
        if same_port && text::starts_with(member, "127.0.0.1") {
            return Some(i as u64 + 1);
        }
        i += 1;
    }
    None
}

/// Where a master listens: where it was told, else at the configured port on all
/// interfaces.
pub fn bind_address(addr: &str, hazelcast_port: Option<u16>) -> (r: String)
    ensures
        r@ == match hazelcast_port {
            Some(p) => if addr@ == "0.0.0.0:5800"@ { "0.0.0.0:"@ + text::decimal_text(p as nat) } else { addr@ },
            None => addr@,
        },
{
    if !text::same(addr, "0.0.0.0:5800") {
        text::owned(addr)
    } else {
        match hazelcast_port {
            Some(p) => {
                let number = text::decimal(p as u64);
                text::join2("0.0.0.0:", number.as_str())
            },
            None => text::owned(addr),
        }
    }
}

// ---------------------------------------------------------------------------
// A master
// ---------------------------------------------------------------------------

/// How the shared object store is swept.
#[derive(Debug, Clone, Copy, PartialEq, Eq, Structural)]
pub struct SweepPlan {
    pub ttl_secs: u64,
    pub every_secs: u64,
}

/// What a master starts with.
#[derive(Debug)]
pub struct MasterPlan {
    /// This node's place among the voters.
    pub node_id: u64,
    pub voters: Vec<String>,
    /// Where the log is kept.
    pub raft_dir: String,
    /// How long a worker may be silent before it is given up.
    pub eviction_timeout_ms: u64,
    /// How long a coordinated checkpoint may take.
    pub checkpoint_timeout_ms: u64,
    /// The sweep of the object store, where checkpoints are shared there.
    pub sweep: Option<SweepPlan>,
}

/// Why a node cannot be a master.
#[derive(Debug)]
pub enum MasterError {
    Voters(VoterError),
    /// The list of members does not hold this node.
    NotAMember(String),
}

/// The higher of two numbers.
pub open spec fn higher(a: u64, b: u64) -> u64 {
    if a > b { a } else { b }
}

fn high(a: u64, b: u64) -> (r: u64)
    ensures
        r == higher(a, b),
{
    if a > b {
        a
    } else {
        b
    }
}

/// Whether a configuration's minutes can be counted in seconds.
pub open spec fn minutes_fit(c: EngineServerConfig) -> bool {
    &&& c.clean_grace_minutes * 60 <= u64::MAX
    &&& c.clean_interval_minutes * 60 <= u64::MAX
    &&& c.history_job_expire_minutes * 60 <= u64::MAX
}

/// Whether checkpoints are shared in the object store.
pub open spec fn shares_in_s3(c: EngineServerConfig) -> bool {
    c.storage_type@ == "s3"@ && c.s3.bucket@.len() > 0
}

/// What a master starts with under a configuration. The number of voters must be
/// odd, and the node must be one of them.
pub fn plan_master(config: &EngineServerConfig, advertise_addr: &str) -> (r: Result<MasterPlan, MasterError>)
    requires
        minutes_fit(*config),
    ensures
        ({
            let n = config.member_list@.len();
            let members = text::views(config.member_list@);
            match r {
                Ok(p) => {
                    &&& n % 2 == 1
                    &&& 1 <= p.node_id <= n
                    &&& is_me(advertise_addr@, members[p.node_id - 1])
                    &&& forall|i: int| 0 <= i < p.node_id - 1 ==> !is_me(advertise_addr@, #[trigger] members[i])
                    &&& text::views(p.voters@) == members
                    &&& p.raft_dir@ == inside(config.state_dir@, "raft"@)
                    &&& p.eviction_timeout_ms == higher(
                        higher(config.worker_timeout_ms, config.worker_soft_timeout_ms),
                        1_000,
                    )
                    &&& p.checkpoint_timeout_ms == higher(config.checkpoint_timeout_ms, 1_000)
                    &&& p.sweep == if shares_in_s3(*config) {
                        Some(
                            SweepPlan {
                                ttl_secs: (config.history_job_expire_minutes * 60) as u64,
                                every_secs: (config.clean_interval_minutes * 60) as u64,
                            },
                        )
                    } else {
                        None
                    }
                },
                Err(MasterError::Voters(e)) => n % 2 == 0 && e == if n == 0 {
                    VoterError::Empty
                } else {
                    VoterError::Even(n as usize)
                },
                Err(MasterError::NotAMember(a)) => n % 2 == 1 && a@ == advertise_addr@ && forall|i: int|
                    0 <= i < members.len() ==> !is_me(advertise_addr@, #[trigger] members[i]),
            }
        }),
{
    match validate_voters(config.member_list.len()) {
        Ok(_) => {},
        Err(e) => {
            return Err(MasterError::Voters(e));
        },
    }
    let node_id = match my_voter_id(advertise_addr, &config.member_list) {
        Some(id) => id,
        None => {
            proof {
                assert forall|i: int| 0 <= i < config.member_list@.len() implies !is_me(
                    advertise_addr@,
                    #[trigger] text::views(config.member_list@)[i],
                ) by {
                    assert(!is_me(advertise_addr@, config.member_list@[i]@));
                }
            }
            return Err(MasterError::NotAMember(text::owned(advertise_addr)));
        },
    };
    proof {
        assert forall|i: int| 0 <= i < node_id - 1 implies !is_me(
            advertise_addr@,
            #[trigger] text::views(config.member_list@)[i],
        ) by {
            assert(!is_me(advertise_addr@, config.member_list@[i]@));
        }
    }
    let sweep: Option<SweepPlan> = if text::same(config.storage_type.as_str(), "s3")
        && !config.s3.bucket.as_str().is_empty() {
        Some(
            SweepPlan {
                ttl_secs: config.history_job_expire_minutes * 60,
                every_secs: config.clean_interval_minutes * 60,
            },
        )
    } else {
        None
    };
    Ok(
        MasterPlan {
            node_id,
            voters: text::copy_list(&config.member_list),
            raft_dir: join_path(config.state_dir.as_str(), "raft"),
            eviction_timeout_ms: high(high(config.worker_timeout_ms, config.worker_soft_timeout_ms), 1_000),
            checkpoint_timeout_ms: high(config.checkpoint_timeout_ms, 1_000),
            sweep,
        },
    )
}

/// The registry without some workers.
pub open spec fn dismissed(w: Seq<EntryV>, ids: Seq<Seq<char>>) -> Seq<EntryV>
    decreases ids.len(),
{
    if ids.len() == 0 {
        w
    } else {
        let h = dismissed(w, ids.drop_last());
        match index_of(h, ids.last()) {
            Some(i) => h.remove(i),
            None => h,
        }
    }
}

/// What a master's periodic look does: checkpoints that wait for too long are
/// aborted, workers that are silent for too long are given up, and tasks that do not
/// end although their job was cancelled long ago are taken to have ended.
pub open spec fn looked_after(
    m: MasterV,
    eviction_timeout: u64,
    checkpoint_timeout: u64,
    now: i64,
) -> (MasterV, Seq<CommandV>) {
    let c = m.coordinator;
    let gone = silent(m.workers, eviction_timeout as i64, now);
    (
        MasterV {
            coordinator: CoordinatorV {
                pending: in_time(c.pending, now, checkpoint_timeout),
                outbox: c.outbox + timeout_notices(c.pending, now, checkpoint_timeout),
                ..c
            },
            workers: dismissed(m.workers, gone),
            ..m
        },
        gone.map_values(|id: Seq<char>| CommandV::EvictWorker(id)) + overdue(c.jobs, m.force_timeout, now).map_values(
            |s: StuckV| cancelled_report(s),
        ),
    )
}

impl MasterHandler {
    /// Aborts the checkpoints that wait for too long, gives up the workers that
    /// are silent for too long, and returns the commands that release their tasks
    /// and that end the tasks of jobs cancelled longer ago than the deadline.
    pub fn look_after(
        &mut self,
        eviction_timeout_ms: u64,
        checkpoint_timeout_ms: u64,
        now: i64,
    ) -> (r: Vec<Command>)
        ensures
            (final(self)@, values(r@)) == looked_after(old(self)@, eviction_timeout_ms, checkpoint_timeout_ms, now),
    {
        let ghost m = self@;
        let _ = self.coordinator.abort_timed_out_checkpoints(checkpoint_timeout_ms, now);
        let gone = self.workers.silent_workers(eviction_timeout_ms as i64, now);
        let ghost gv = text::views(gone@);
        let ghost c = self@.coordinator;
        let mut out: Vec<Command> = Vec::new();
        let mut i: usize = 0;
        assert(gv.take(0) =~= Seq::empty());
        while i < gone.len()
            invariant
                i <= gone@.len(),
                gv == text::views(gone@),
                self@ == (MasterV { coordinator: c, workers: dismissed(m.workers, gv.take(i as int)), ..m }),
                out@.len() == i,
                forall|k: int| 0 <= k < i ==> #[trigger] out@[k]@ == CommandV::EvictWorker(gv[k]),
            decreases gone@.len() - i,
        {
            proof {
                assert(gv.take(i + 1).drop_last() =~= gv.take(i as int));
                assert(gv.take(i + 1).last() == gone@[i as int]@);
            }
            let cmd = self.unregister_worker(gone[i].as_str());
            out.push(cmd);
            i += 1;
        }
        proof {
            assert(gv.take(gv.len() as int) =~= gv);
            assert(values(out@) =~= gv.map_values(|id: Seq<char>| CommandV::EvictWorker(id)));
        }
        let late = self.coordinator.overdue_cancelled_tasks(self.cancel_force_timeout_ms, now);
        let mut ends = cancelled_reports(&late);
        let ghost first = values(out@);
        let ghost second = values(ends@);
        out.append(&mut ends);
        assert(values(out@) =~= first + second);
        out
    }
}

// ---------------------------------------------------------------------------
// A worker
// ---------------------------------------------------------------------------

/// Where a worker shares its checkpoints.
#[derive(Debug, Clone, Copy, PartialEq, Eq, Structural)]
pub enum SharedStorage {
    /// Nowhere: they stay on its disk.
    Local,
    /// With the master.
    Master,
    /// In the object store.
    S3,
}

/// What a worker starts with.
#[derive(Debug)]
pub struct WorkerPlan {
    /// The master that it turns to first.
    pub master: String,
    /// The address under which it is reached.
    pub address: String,
    pub state_dir: String,
    pub retained: usize,
    pub clean: Option<CleanConfig>,
    pub admission: AdmissionConfig,
    pub storage: SharedStorage,
}

/// The clean-up that a configuration asks for.
pub open spec fn clean_of(c: EngineServerConfig) -> Option<CleanConfig> {
    if c.auto_clean {
        Some(
            CleanConfig {
                grace_secs: (c.clean_grace_minutes * 60) as u64,
                interval_secs: (c.clean_interval_minutes * 60) as u64,
                ttl_secs: (c.history_job_expire_minutes * 60) as u64,
            },
        )
    } else {
        None
    }
}

/// What a worker starts with under a configuration. Its address is the one that it
/// was told, else the configured one: `0.0.0.0:5800` stands for none told.
pub fn plan_worker(
    config: &EngineServerConfig,
    addr_arg: &str,
    master_list: &Vec<String>,
) -> (r: Result<WorkerPlan, String>)
    requires
        minutes_fit(*config),
    ensures
        match r {
            Ok(p) => {
                &&& master_list@.len() > 0
                &&& p.master@ == master_list@[0]@
                &&& p.address@ == if addr_arg@ == "0.0.0.0:5800"@ { config.worker_address@ } else { addr_arg@ }
                &&& p.state_dir@ == config.state_dir@
                &&& p.retained == config.keep_checkpoint_count
                &&& p.clean == clean_of(*config)
                &&& p.admission == (AdmissionConfig {
                    lag_threshold_ms: config.overload_lag_ms,
                    memory_watermark_percent: config.memory_watermark_percent,
                    cooldown_secs: config.overload_cooldown_secs,
                })
                &&& p.storage == if shares_in_s3(*config) {
                    SharedStorage::S3
                } else if config.storage_type@ == "master"@ {
                    SharedStorage::Master
                } else {
                    SharedStorage::Local
                }
            },
            Err(e) => master_list@.len() == 0 && e@
                == "no master address (use --master or the config member-list)"@,
        },
{
    if master_list.len() == 0 {
        return Err(text::owned("no master address (use --master or the config member-list)"));
    }
    let address = if text::same(addr_arg, "0.0.0.0:5800") {
        config.worker_address.clone()
    } else {
        text::owned(addr_arg)
    };
    let clean: Option<CleanConfig> = if config.auto_clean {
        Some(
            CleanConfig {
                grace_secs: config.clean_grace_minutes * 60,
                interval_secs: config.clean_interval_minutes * 60,
                ttl_secs: config.history_job_expire_minutes * 60,
            },
        )
    } else {
        None
    };
    let storage = if text::same(config.storage_type.as_str(), "s3") && !config.s3.bucket.as_str().is_empty() {
        SharedStorage::S3
    } else if text::same(config.storage_type.as_str(), "master") {
        SharedStorage::Master
    } else {
        SharedStorage::Local
    };
    Ok(
        WorkerPlan {
            master: master_list[0].clone(),
            address,
            state_dir: config.state_dir.clone(),
            retained: config.keep_checkpoint_count,
            clean,
            admission: config.admission_config(),
            storage,
        },
    )
}

/// Failed heartbeats in a row after which a worker turns to another master.
pub const FAILURES_BEFORE_FAILOVER: u32 = 3;

/// The pace of a worker's heartbeats, and which master they go to.
#[derive(Debug)]
pub struct HeartbeatLoop {
    pub masters: Vec<String>,
    pub master_idx: usize,
    /// Failed heartbeats in a row.
    pub failures: u32,
    pub interval_ms: u64,
    pub default_interval_ms: u64,
}

impl HeartbeatLoop {
    /// Whether the loop has a master.
    pub open spec fn well_formed(self) -> bool {
        self.master_idx < self.masters@.len()
    }

    /// A loop that begins with the first master.
    pub fn new(masters: Vec<String>, default_interval_ms: u64) -> (r: Self)
        ensures
            r.masters == masters,
            r.master_idx == 0,
            r.failures == 0,
            r.interval_ms == default_interval_ms,
            r.default_interval_ms == default_interval_ms,
            masters@.len() > 0 ==> r.well_formed(),
    {
        HeartbeatLoop { masters, master_idx: 0, failures: 0, interval_ms: default_interval_ms, default_interval_ms }
    }

    /// The pause before the next heartbeat. The master holds a heartbeat back, so
    /// the pause is short.
    pub fn pause_ms(&self) -> (r: u64)
        ensures
            r == if self.interval_ms < 100 { self.interval_ms } else { 100 },
    {
        if self.interval_ms < 100 {
            self.interval_ms
        } else {
            100
        }
    }

    /// The next heartbeat.
    pub fn request(
        &self,
        worker_id: &str,
        address: &str,
        term: u64,
        tasks: Vec<TaskReport>,
        fields: AdmissionFields,
    ) -> (r: HeartbeatRequest)
        ensures
            r.worker_id@ == worker_id@,
            r.address@ == address@,
            r.term == term,
            r.tasks == tasks,
            r.load_score == fields.load_score,
            r.lag_ms == fields.lag_ms,
            r.mem_permille == fields.mem_permille,
            r.cpu_permille == fields.cpu_permille,
            r.can_accept == fields.can_accept,
            r.wait_ms == self.interval_ms as i64,
    {
        HeartbeatRequest {
            worker_id: text::owned(worker_id),
            address: text::owned(address),
            term,
            tasks,
            load_score: fields.load_score,
            lag_ms: fields.lag_ms,
            mem_permille: fields.mem_permille,
            cpu_permille: fields.cpu_permille,
            can_accept: fields.can_accept,
            wait_ms: self.interval_ms as i64,
        }
    }

    /// A heartbeat was answered: the master sets the pace, within a quarter of a
    /// second and a minute.
    pub fn on_answer(&mut self, next_interval_ms: i64)
        ensures
            final(self).failures == 0,
            final(self).interval_ms == if next_interval_ms > 0 {
                clamped(next_interval_ms as int, 250, 60_000)
            } else {
                old(self).default_interval_ms as int
            },
            final(self).masters == old(self).masters,
            final(self).master_idx == old(self).master_idx,
            final(self).default_interval_ms == old(self).default_interval_ms,
    {
        self.failures = 0;
        self.interval_ms = if next_interval_ms > 0 {
            if next_interval_ms < 250 {
                250
            } else if next_interval_ms > 60_000 {
                60_000
            } else {
                next_interval_ms as u64
            }
        } else {
            self.default_interval_ms
        };
    }

    /// A heartbeat failed. After three in a row the worker turns to the next
    /// master, whose address is returned, and counts anew; with one master it
    /// stays.
    pub fn on_failure(&mut self) -> (r: Option<String>)
        requires
            old(self).well_formed(),
            old(self).failures < u32::MAX,
        ensures
            final(self).well_formed(),
            final(self).masters == old(self).masters,
            final(self).interval_ms == old(self).interval_ms,
            final(self).default_interval_ms == old(self).default_interval_ms,
            match r {
                Some(next) => {
                    &&& old(self).failures + 1 >= FAILURES_BEFORE_FAILOVER
                    &&& old(self).masters@.len() > 1
                    &&& final(self).master_idx == (old(self).master_idx + 1) % old(self).masters@.len() as int
                    &&& next@ == old(self).masters@[final(self).master_idx as int]@
                    &&& final(self).failures == 0
                },
                None => {
                    &&& old(self).failures + 1 < FAILURES_BEFORE_FAILOVER || old(self).masters@.len() == 1
                    &&& final(self).master_idx == old(self).master_idx
                    &&& final(self).failures == old(self).failures + 1
                },
            },
    {
        let n: usize = self.masters.len();
        self.failures += 1;
        if self.failures >= FAILURES_BEFORE_FAILOVER && n > 1 {
            proof {
                let i = self.master_idx as nat;
                if i + 1 < n {
                    vstd::arithmetic::div_mod::lemma_small_mod(i + 1, n as nat);
                } else {
                    vstd::arithmetic::div_mod::lemma_mod_self_0(n as int);
                }
            }
            self.master_idx = if self.master_idx + 1 < n { self.master_idx + 1 } else { 0 };
            self.failures = 0;
            Some(self.masters[self.master_idx].clone())
        } else {
            None
        }
    }
}

/// The master that a worker has turned to after some failovers.
pub open spec fn turned_to(start: nat, failovers: nat, masters: nat) -> nat
    decreases failovers,
{
    if failovers == 0 {
        start
    } else {
        (turned_to(start, (failovers - 1) as nat, masters) + 1) % masters
    }
}

/// Turning from master to master a worker comes to each of them, and is back where
/// it started after as many failovers as there are masters.
pub proof fn law_every_master_is_tried(start: nat, masters: nat, target: nat)
    requires
        start < masters,
        target < masters,
    ensures
        turned_to(start, masters, masters) == start,
        exists|n: nat| n < masters && #[trigger] turned_to(start, n, masters) == target,
{
    lemma_turned_to(start, masters, masters);
    let n: nat = if target >= start { (target - start) as nat } else { (target + masters - start) as nat };
    lemma_turned_to(start, n, masters);
    assert(turned_to(start, n, masters) == target);
}

proof fn lemma_turned_to(start: nat, n: nat, masters: nat)
    requires
        start < masters,
        n <= masters,
    ensures
        turned_to(start, n, masters) == if start + n < masters { start + n } else { (start + n - masters) as nat },
    decreases n,
{
    if n > 0 {
        lemma_turned_to(start, (n - 1) as nat, masters);
        let p = turned_to(start, (n - 1) as nat, masters);
        if p + 1 < masters {
            vstd::arithmetic::div_mod::lemma_small_mod(p + 1, masters);
        } else {
            vstd::arithmetic::div_mod::lemma_mod_self_0(masters as int);
        }
    }
}

} // verus!
