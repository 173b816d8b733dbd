//! Verified core of an agent harness.

pub mod agent_loop;
pub mod approval;
pub mod budget_ledger;
pub mod chat_turn;
pub mod cli;
pub mod commands;
pub mod compaction;
pub mod context;
pub mod desktop_bridge;
pub mod exec_tool;
pub mod fetch;
pub mod held;
pub mod history;
pub mod hooks;
pub mod host;
pub mod http;
pub mod inbox;
pub mod json;
pub mod loop_guard;
pub mod mcp_bridge;
pub mod model_provider;
pub mod names;
pub mod network_proxy;
pub mod paths;
pub mod protocol;
pub mod readonly_server;
pub mod result_guard;
pub mod role_config;
pub mod sampling;
pub mod sandbox_exec;
pub mod sandbox_policy;
pub mod scan;
pub mod secret_store;
pub mod session;
pub mod session_rpc;
pub mod settings;
pub mod steer;
pub mod subagent;
pub mod subagent_lifecycle;
pub mod subagent_policy;
pub mod team;
pub mod terminal;
pub mod text;
pub mod token_meter;
pub mod tools;
pub mod turn_records;
pub mod turn_trace;
pub mod url;
pub mod usage;
pub mod usage_id;
