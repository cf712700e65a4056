//! The settings the bot is started with, as plain values. Loading them from the
//! environment and files is done outside the library.
use vstd::prelude::*;

verus! {

/// Start-up configuration read by the engine, delivery, hook and provider logic.
#[derive(Debug, Clone)]
pub struct Config {
    pub llm_provider: String,
    pub api_key: String,
    pub model: String,
    pub max_tokens: u32,
    pub llm_base_url: Option<String>,
    pub llm_thinking_enabled: bool,
    pub show_thinking: bool,
    pub orchestrator_model: String,
    pub evaluator_model: String,
    pub evaluator_base_url: String,
    pub perplexity_api_key: Option<String>,
    pub hook_prompt_model: String,
    pub hook_prompt_timeout_secs: u64,
    pub hook_command_timeout_secs: u64,
    pub workspace_dir: String,
    pub cursor_sdk_runner_port: u16,
    pub cursor_sdk_runner_url: Option<String>,
    pub cursor_sdk_model: String,
    pub cursor_sdk_python: String,
    pub cursor_sdk_auto_start: bool,
    pub cursor_sdk_auto_install: bool,
    pub cursor_sidecar_max_uptime_secs: u64,
    pub cursor_agent_cli_path: String,
    pub cursor_agent_model: String,
    pub cursor_agent_runner_url: Option<String>,
    pub cursor_agent_timeout_secs: u64,
    pub cursor_agent_tmux_enabled: bool,
}

/// The Cursor SDK model used when none is set.
pub open spec fn spec_default_cursor_sdk_model() -> Seq<char> {
    seq!['c', 'o', 'm', 'p', 'o', 's', 'e', 'r', '-', '2', '.', '5']
}

/// The cursor-agent executable used when none is set.
pub open spec fn spec_default_cursor_agent_cli_path() -> Seq<char> {
    seq!['c', 'u', 'r', 's', 'o', 'r', '-', 'a', 'g', 'e', 'n', 't']
}

/// `"composer-2.5"`.
pub fn default_cursor_sdk_model() -> (r: String)
    ensures
        r@ == spec_default_cursor_sdk_model(),
{
    let r = String::from_str("composer-2.5");
    proof {
        reveal_strlit("composer-2.5");
    }
    r
}

/// `"cursor-agent"`.
pub fn default_cursor_agent_cli_path() -> (r: String)
    ensures
        r@ == spec_default_cursor_agent_cli_path(),
{
    let r = String::from_str("cursor-agent");
    proof {
        reveal_strlit("cursor-agent");
    }
    r
}

} // verus!
