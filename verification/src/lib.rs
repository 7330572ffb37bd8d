//! Core logic of a distributed data-integration engine.

pub mod admission;
pub mod agreement_laws;
pub mod cancellation_laws;
pub mod checkpoint_coordination;
pub mod checkpoint_forwarder;
pub mod checkpoint_laws;
pub mod checkpoint_store;
pub mod client_handler;
pub mod client_laws;
pub mod client_queries;
pub mod cluster_laws;
pub mod command;
pub mod config_laws;
pub mod consistency_laws;
pub mod coordination_laws;
pub mod coordinator_laws;
pub mod dispatch;
pub mod factory_attrs;
pub mod formats;
pub mod handover_laws;
pub mod heartbeat;
pub mod heartbeat_laws;
pub mod job;
pub mod job_config;
pub mod job_coordinator;
pub mod job_manager;
pub mod json;
pub mod keyed;
pub mod leader_election;
pub mod master;
pub mod master_service;
pub mod node;
pub mod pipeline;
pub mod placement;
pub mod plan_laws;
pub mod props;
pub mod raft;
pub mod recovery;
pub mod replication;
pub mod resource_manager;
pub mod retention;
pub mod row;
pub mod server_config;
pub mod snapshot_json;
pub mod snapshot_laws;
pub mod state_store;
pub mod storage_laws;
pub mod task_reports;
pub mod text;
pub mod transforms;
pub mod trigger_laws;
pub mod value_laws;
pub mod worker;
pub mod worker_laws;
