//! What a configuration file sets: each of its settings is taken, within its bounds, and
//! what it leaves out stays as it was.

use vstd::prelude::*;

use crate::server_config::{
    default_config, default_timing, file_applied, s3_applied, timing_applied, timing_fits, trimmed_members,
    unless_empty, window_shift, ConfigV, RaftSection, RaftTiming, S3PluginConfig, S3V, ServerConfigFile,
};
use crate::text;

verus! {

/// What is configured where no file says otherwise.
pub proof fn law_defaults()
    ensures
        ({
            let c = default_config();
            &&& c.state_dir == ".seatunnel-state"@ && c.storage_type == "localfile"@ && c.cluster_name == "seatunnel"@
            &&& c.worker_address == "127.0.0.1:5001"@ && c.member_list == seq!["127.0.0.1:5800"@]
            &&& c.hazelcast_port is None && c.auto_clean
            &&& c.keep_checkpoint_count == 3 && c.checkpoint_interval == 30_000
            &&& c.clean_grace_minutes == 10 && c.clean_interval_minutes == 60 && c.history_job_expire_minutes == 1_440
            &&& c.worker_soft_timeout_ms == 30_000 && c.worker_timeout_ms == 60_000 && c.heartbeat_interval_ms == 2_000
            &&& c.overload_lag_ms == 500 && c.memory_watermark_percent == 75 && c.overload_cooldown_secs == 10
            &&& c.dispatch_batch_limit == 16 && c.checkpoint_timeout_ms == 30_000
            &&& c.cancel_force_timeout_ms == 300_000 && c.replication_interval_ms == 5_000
            &&& c.raft == default_timing()
            &&& c.s3.bucket.len() == 0 && c.s3.endpoint.len() == 0 && c.s3.region.len() == 0 && c.s3.prefix.len() == 0
            &&& c.s3.access_key is None && c.s3.secret_key is None && !c.s3.path_style
            &&& c.raft.election_timeout_min_ms == 900 && c.raft.election_timeout_max_ms == 1_300
            &&& c.raft.election_skew_ms == 700 && c.raft.heartbeat_interval_ms == 150
        }),
{
}

/// Whether a setting is the given number, or the least one where that is below it, or
/// stays where none is given.
pub open spec fn is_set(given: Option<u64>, least: u64, old: u64, new: u64) -> bool {
    &&& given is None ==> new == old
    &&& given matches Some(v) ==> (v >= least ==> new == v) && (v < least ==> new == least)
}

/// Whether a text is the given one, or stays where none or an empty one is given.
pub open spec fn is_text_set(given: Option<String>, old: Seq<char>, new: Seq<char>) -> bool {
    &&& given is None ==> new == old
    &&& given matches Some(v) ==> (v@.len() > 0 ==> new == v@) && (v@.len() == 0 ==> new == old)
}

/// Each setting of a file is taken, none below its least value, and what the file leaves
/// out stays.
pub proof fn law_settings_are_taken(c: ConfigV, f: ServerConfigFile)
    ensures
        ({
            let r = file_applied(c, f);
            let e = f.seatunnel.engine;
            let s = e.checkpoint.storage;
            &&& is_text_set(s.namespace, c.state_dir, r.state_dir)
            &&& is_text_set(e.worker_address, c.worker_address, r.worker_address)
            &&& is_text_set(f.hazelcast.cluster_name, c.cluster_name, r.cluster_name)
            &&& is_set(e.checkpoint.interval, 1, c.checkpoint_interval, r.checkpoint_interval)
            &&& is_set(s.clean_interval_minutes, 1, c.clean_interval_minutes, r.clean_interval_minutes)
            &&& is_set(e.history_job_expire_minutes, 1, c.history_job_expire_minutes, r.history_job_expire_minutes)
            &&& is_set(e.worker_soft_timeout_ms, 1_000, c.worker_soft_timeout_ms, r.worker_soft_timeout_ms)
            &&& is_set(e.checkpoint_timeout_ms, 1_000, c.checkpoint_timeout_ms, r.checkpoint_timeout_ms)
            &&& is_set(e.cancel_force_timeout_ms, 30_000, c.cancel_force_timeout_ms, r.cancel_force_timeout_ms)
            &&& s.clean_grace_minutes is None ==> r.clean_grace_minutes == c.clean_grace_minutes
            &&& s.clean_grace_minutes matches Some(v) ==> r.clean_grace_minutes == v
            &&& s.auto_clean is None ==> r.auto_clean == c.auto_clean
            &&& s.auto_clean matches Some(v) ==> r.auto_clean == v
            &&& e.overload_lag_ms is None ==> r.overload_lag_ms == c.overload_lag_ms
            &&& e.overload_lag_ms matches Some(v) ==> r.overload_lag_ms == v
            &&& e.overload_cooldown_secs is None ==> r.overload_cooldown_secs == c.overload_cooldown_secs
            &&& e.overload_cooldown_secs matches Some(v) ==> r.overload_cooldown_secs == v
            &&& e.dispatch_batch_limit is None ==> r.dispatch_batch_limit == c.dispatch_batch_limit
            &&& e.dispatch_batch_limit matches Some(v) ==> r.dispatch_batch_limit == v
            &&& e.replication_interval_ms is None ==> r.replication_interval_ms == c.replication_interval_ms
            &&& e.replication_interval_ms matches Some(v) ==> r.replication_interval_ms == v
            &&& e.checkpoint.keep_checkpoint_count is None ==> r.keep_checkpoint_count == c.keep_checkpoint_count
            &&& e.checkpoint.keep_checkpoint_count matches Some(v) ==> (v >= 1 ==> r.keep_checkpoint_count == v) && (v
                == 0 ==> r.keep_checkpoint_count == 1)
            &&& e.memory_watermark_percent is None ==> r.memory_watermark_percent == c.memory_watermark_percent
            &&& e.memory_watermark_percent matches Some(v) ==> (v <= 100 ==> r.memory_watermark_percent == v) && (v
                > 100 ==> r.memory_watermark_percent == 100)
            &&& e.heartbeat_interval_ms is None ==> r.heartbeat_interval_ms == c.heartbeat_interval_ms
            &&& e.heartbeat_interval_ms matches Some(v) ==> (250 <= v <= 60_000 ==> r.heartbeat_interval_ms == v) && (v
                < 250 ==> r.heartbeat_interval_ms == 250) && (v > 60_000 ==> r.heartbeat_interval_ms == 60_000)
            &&& f.hazelcast.network.port.port is None ==> r.hazelcast_port == c.hazelcast_port
            &&& f.hazelcast.network.port.port matches Some(p) ==> r.hazelcast_port == Some(p)
            &&& r.raft == timing_applied(e.raft, c.raft)
            &&& r.s3 == s3_applied(s.plugin_config, c.s3)
        }),
{
}

/// The hard timeout of a worker is the given one, or stays; it is never below the soft
/// one, and a given one not below a second.
pub proof fn law_hard_timeout(c: ConfigV, f: ServerConfigFile)
    ensures
        ({
            let r = file_applied(c, f);
            let given = f.seatunnel.engine.worker_timeout_ms;
            &&& given is None && c.worker_timeout_ms >= r.worker_soft_timeout_ms ==> r.worker_timeout_ms
                == c.worker_timeout_ms
            &&& given is None && c.worker_timeout_ms < r.worker_soft_timeout_ms ==> r.worker_timeout_ms
                == r.worker_soft_timeout_ms
            &&& given matches Some(v) ==> (v >= 1_000 && v >= r.worker_soft_timeout_ms ==> r.worker_timeout_ms == v) && (v
                < 1_000 && r.worker_soft_timeout_ms <= 1_000 ==> r.worker_timeout_ms == 1_000) && (v
                < r.worker_soft_timeout_ms && r.worker_soft_timeout_ms >= 1_000 ==> r.worker_timeout_ms
                == r.worker_soft_timeout_ms)
        }),
{
}

/// The storage is one of three; any other name leaves it as it was. The members of a file
/// replace those that were known, unless it names none.
pub proof fn law_storage_and_members(c: ConfigV, f: ServerConfigFile, kind: String)
    requires
        f.seatunnel.engine.checkpoint.storage.kind == Some(kind),
    ensures
        kind@ == "localfile"@ || kind@ == "master"@ || kind@ == "s3"@ ==> file_applied(c, f).storage_type == kind@,
        kind@ != "localfile"@ && kind@ != "master"@ && kind@ != "s3"@ ==> file_applied(c, f).storage_type == c.storage_type,
        ({
            let given = text::views(f.hazelcast.network.join.tcp_ip.member_list@).map_values(
                |s: Seq<char>| text::trimmed(s),
            ).filter(|s: Seq<char>| s.len() > 0);
            &&& given.len() > 0 ==> file_applied(c, f).member_list == given
            &&& given.len() == 0 ==> file_applied(c, f).member_list == c.member_list
        }),
{
    law_members(text::views(f.hazelcast.network.join.tcp_ip.member_list@));
}

/// Members are trimmed, and blank ones are left out.
pub proof fn law_members(s: Seq<Seq<char>>)
    ensures
        trimmed_members(s) == s.map_values(|m: Seq<char>| text::trimmed(m)).filter(|m: Seq<char>| m.len() > 0),
    decreases s.len(),
{
    reveal(Seq::filter);
    let t = s.map_values(|m: Seq<char>| text::trimmed(m));
    if s.len() > 0 {
        law_members(s.drop_last());
        assert(t.drop_last() =~= s.drop_last().map_values(|m: Seq<char>| text::trimmed(m)));
        assert(t.last() == text::trimmed(s.last()));
    }
}

/// The settings of an object store: each is the given one, and stays where none or an
/// empty one is given. The slashes around a prefix are taken off.
pub proof fn law_object_store(p: S3PluginConfig, old: S3V)
    ensures
        ({
            let r = s3_applied(p, old);
            &&& is_text_set(p.bucket, old.bucket, r.bucket)
            &&& is_text_set(p.endpoint, old.endpoint, r.endpoint)
            &&& is_text_set(p.region, old.region, r.region)
            &&& p.access_key is None ==> r.access_key == old.access_key
            &&& p.access_key matches Some(v) ==> (v@.len() > 0 ==> r.access_key == Some(v@)) && (v@.len() == 0
                ==> r.access_key == old.access_key)
            &&& p.secret_key is None ==> r.secret_key == old.secret_key
            &&& p.secret_key matches Some(v) ==> (v@.len() > 0 ==> r.secret_key == Some(v@)) && (v@.len() == 0
                ==> r.secret_key == old.secret_key)
            &&& p.prefix is None ==> r.prefix == old.prefix
            &&& p.prefix matches Some(v) ==> (v@.len() > 0 ==> r.prefix == text::trimmed_of(v@, '/')) && (v@.len() == 0
                ==> r.prefix == old.prefix)
            &&& p.path_style is None ==> r.path_style == old.path_style
            &&& p.path_style matches Some(v) ==> r.path_style == v
        }),
        unless_empty(Seq::empty()) is None,
        forall|s: Seq<char>| s.len() > 0 ==> #[trigger] unless_empty(s) == Some(s),
{
}

/// The timing of elections: each number is the given one within its bounds. The window
/// does not start at zero and is not empty, the heartbeat is not below fifty
/// milliseconds, and a shift that would not keep the windows apart is raised until it does.
pub proof fn law_election_timing(r: RaftSection, old: RaftTiming)
    requires
        timing_fits(r, old),
    ensures
        ({
            let t = timing_applied(r, old);
            &&& is_set(r.election_timeout_min_ms, 1, old.election_timeout_min_ms, t.election_timeout_min_ms)
            &&& is_set(r.heartbeat_interval_ms, 50, old.heartbeat_interval_ms, t.heartbeat_interval_ms)
            &&& ({
                let max = if r.election_timeout_max_ms is Some {
                    r.election_timeout_max_ms->0
                } else {
                    old.election_timeout_max_ms
                };
                let skew = if r.election_skew_ms is Some { r.election_skew_ms->0 } else { old.election_skew_ms };
                let least = t.election_timeout_max_ms - t.election_timeout_min_ms + (t.heartbeat_interval_ms * 3) / 2;
                &&& max > t.election_timeout_min_ms ==> t.election_timeout_max_ms == max
                &&& max <= t.election_timeout_min_ms ==> t.election_timeout_max_ms == t.election_timeout_min_ms + 1
                &&& skew == 0 || skew >= least ==> t.election_skew_ms == skew
                &&& skew > 0 && skew < least ==> t.election_skew_ms == least
            })
        }),
{
}

/// A member's window is shifted by the skew for each member in front of it.
pub proof fn law_window_shift(t: RaftTiming, node: u64)
    ensures
        node <= 1 ==> window_shift(t, node) == 0,
        node >= 1 && t.election_skew_ms * (node - 1) <= u64::MAX ==> window_shift(t, node) == t.election_skew_ms * (node
            - 1),
        node >= 1 && t.election_skew_ms * (node - 1) > u64::MAX ==> window_shift(t, node) == u64::MAX,
{
    if node >= 1 {
        assert(t.election_skew_ms * (node - 1) >= 0) by (nonlinear_arith)
            requires
                node >= 1,
        ;
    }
    assert(t.election_skew_ms * 0 == 0) by (nonlinear_arith);
}

} // verus!
