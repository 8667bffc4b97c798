//! Plan orchestration with evidence gates.
//!
//! The library holds the rules of an orchestrator that drives plans, waves and
//! tasks through their lifecycle: which status transitions are allowed, what
//! evidence they need, which agent may hold a task, what is imported, requeued,
//! merged, rolled back or reported. Every rule works on the tables of
//! [`store::Store`]; reading and writing those tables is left to the caller.

pub mod agent_health;
pub mod aggregation;
pub mod approval;
pub mod artifact_bundle;
pub mod artifacts;
pub mod audit;
pub mod challenger;
pub mod claims;
pub mod cleanup;
pub mod compensation;
pub mod concurrency_gates;
pub mod evaluation;
pub mod evidence;
pub mod evidence_gates;
pub mod evidence_intake;
pub mod executor_routing;
pub mod file_conflict_gate;
pub mod file_locks;
pub mod file_size_scan;
pub mod gates;
pub mod handlers;
pub mod json;
pub mod key_numbers;
pub mod learning;
pub mod mcp_defs;
pub mod merge_guardian;
pub mod notify;
pub mod paths;
pub mod peers;
pub mod plan_context;
pub mod plan_executor;
pub mod plan_force_ops;
pub mod plan_hierarchy;
pub mod plan_import;
pub mod plan_import_core;
pub mod preflight;
pub mod rows;
pub mod sorting;
pub mod store;
pub mod table;
pub mod text;
pub mod types;
pub mod uploads;
pub mod verdicts;
pub mod workflow;
