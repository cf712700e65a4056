use vstd::prelude::*;

pub mod claude;
pub mod config;
pub mod cursor_engine_config;
pub mod cursor_mcp_bridge;
pub mod cursor_sdk_sidecar;
pub mod db;
pub mod decimal;
pub mod dense_delivery_guard;
pub mod error;
pub mod final_delivery_dedupe;
pub mod final_delivery_media;
pub mod gemini;
pub mod ids;
pub mod hook_actions;
pub mod hook_executor;
pub mod hook_runtime;
pub mod ip_literal;
pub mod job_heartbeat;
pub mod json;
pub mod llm;
pub mod oai;
pub mod paths;
pub mod pattern;
pub mod safety_redaction;
pub mod send_policy;
pub mod stream;
pub mod text;

verus! {

} // verus!
