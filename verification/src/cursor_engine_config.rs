//! Cursor SDK engine and cursor-agent CLI settings: their defaults, how they are
//! read from the environment and from stored `app_settings` rows, how they are
//! written back, and the user-facing notices of an interrupted Cursor turn.
use vstd::prelude::*;
use crate::config::{
    default_cursor_agent_cli_path, default_cursor_sdk_model, spec_default_cursor_agent_cli_path,
    spec_default_cursor_sdk_model, Config,
};
use crate::cursor_sdk_sidecar::{default_local_runner_url, local_runner_url_seq, trim_url_seq};
use crate::decimal::{decimal_seq, parse_u64, parse_u64_seq, u64_decimal, lemma_parse_decimal, lemma_decimal_digits};
use crate::json::JsonValue;
use crate::text::{
    append_str, append_vec, chars_of, contains, contains_seq, has_prefix, lower_seq, lower_vec, occurs_at,
    starts_with, string_of, trim_end_set_vec, trim_seq, trim_vec, vec_eq, is_ws, lemma_trim_identity,
};

verus! {

broadcast use vstd::string::group_string_axioms;

pub const APP_SETTING_CURSOR_SDK_RUNNER_URL: &'static str = "CURSOR_SDK_RUNNER_URL";
pub const APP_SETTING_CURSOR_SDK_MODEL: &'static str = "CURSOR_SDK_MODEL";
pub const APP_SETTING_CURSOR_SDK_RUNNER_OK: &'static str = "CURSOR_SDK_RUNNER_OK";
pub const APP_SETTING_CURSOR_AGENT_CLI_PATH: &'static str = "CURSOR_AGENT_CLI_PATH";
pub const APP_SETTING_CURSOR_AGENT_MODEL: &'static str = "CURSOR_AGENT_MODEL";
pub const APP_SETTING_CURSOR_AGENT_RUNNER_URL: &'static str = "CURSOR_AGENT_RUNNER_URL";
pub const APP_SETTING_CURSOR_AGENT_TIMEOUT_SECS: &'static str = "CURSOR_AGENT_TIMEOUT_SECS";
pub const APP_SETTING_CURSOR_INTERACTIVE_TIMEOUT_SECS: &'static str = "CURSOR_INTERACTIVE_TIMEOUT_SECS";
pub const APP_SETTING_CURSOR_AGENT_TMUX_ENABLED: &'static str = "CURSOR_AGENT_TMUX_ENABLED";
pub const APP_SETTING_CURSOR_SDK_MODEL_PARAMS: &'static str = "CURSOR_SDK_MODEL_PARAMS";
pub const APP_SETTING_CURSOR_MCP_TOOLS_ENABLED: &'static str = "CURSOR_MCP_TOOLS_ENABLED";
pub const APP_SETTING_CURSOR_MCP_EXPOSE_SEND_MESSAGE: &'static str = "CURSOR_MCP_EXPOSE_SEND_MESSAGE";
pub const APP_SETTING_CURSOR_DELEGATION_SLIM_PROMPT: &'static str = "CURSOR_DELEGATION_SLIM_PROMPT";
pub const APP_SETTING_CURSOR_DELEGATION_RESUME_DELTA: &'static str = "CURSOR_DELEGATION_RESUME_DELTA";

/// Default wall-clock budget of the whole Cursor run, in seconds.
pub const DEFAULT_TIMEOUT_SECS: u64 = 3600;
/// Default wall-clock budget of an interactive Cursor turn, in seconds.
pub const DEFAULT_INTERACTIVE_TIMEOUT_SECS: u64 = 900;
/// Stored timeouts are clamped to this range.
pub const MIN_TIMEOUT_SECS: u64 = 60;
pub const MAX_TIMEOUT_SECS: u64 = 86_400;

#[derive(Debug, Clone)]
pub struct CursorModelParam {
    pub id: String,
    pub value: String,
}

#[derive(Debug, Clone)]
pub struct CursorModelParameterValue {
    pub value: String,
    pub display_name: Option<String>,
}

#[derive(Debug, Clone)]
pub struct CursorModelParameterDef {
    pub id: String,
    pub display_name: Option<String>,
    pub values: Vec<CursorModelParameterValue>,
}

#[derive(Debug, Clone)]
pub struct CursorModelVariant {
    pub params: Vec<CursorModelParam>,
    pub display_name: String,
    pub description: Option<String>,
    pub is_default: bool,
}

#[derive(Debug, Clone)]
pub struct CursorModelCatalogEntry {
    pub id: String,
    pub display_name: Option<String>,
    pub parameters: Vec<CursorModelParameterDef>,
    pub variants: Vec<CursorModelVariant>,
}

#[derive(Debug, Clone)]
pub struct CursorEngineSettings {
    pub sdk_runner_url: String,
    pub sdk_model: String,
    pub sdk_model_params: Vec<CursorModelParam>,
    pub sdk_runner_ok: bool,
    pub cli_path: String,
    pub cli_model: String,
    pub cli_runner_url: String,
    pub timeout_secs: u64,
    /// Wall-clock budget for interactive Cursor turns (scheduled/background use `timeout_secs`).
    pub interactive_timeout_secs: u64,
    pub tmux_enabled: bool,
    /// Expose the bot's tools to Cursor via loopback MCP (default on).
    pub mcp_tools_enabled: bool,
    /// Allow `send_message` through Cursor MCP (default off).
    pub mcp_expose_send_message: bool,
    /// Strip the tool catalog from the sidecar system prompt when MCP is live (default on).
    pub delegation_slim_prompt: bool,
    /// Retired: always false and ignored by the engine.
    pub delegation_resume_delta: bool,
}

impl Default for CursorEngineSettings {
    fn default() -> (r: Self)
        ensures
            r.sdk_runner_url@ == Seq::<char>::empty(),
            r.sdk_model@ == spec_default_cursor_sdk_model(),
            r.sdk_model_params@.len() == 0,
            !r.sdk_runner_ok,
            r.cli_path@ == spec_default_cursor_agent_cli_path(),
            r.cli_model@ == Seq::<char>::empty(),
            r.cli_runner_url@ == Seq::<char>::empty(),
            r.timeout_secs == DEFAULT_TIMEOUT_SECS,
            r.interactive_timeout_secs == DEFAULT_INTERACTIVE_TIMEOUT_SECS,
            r.tmux_enabled,
            r.mcp_tools_enabled,
            !r.mcp_expose_send_message,
            r.delegation_slim_prompt,
            !r.delegation_resume_delta,
    {
        CursorEngineSettings {
            sdk_runner_url: String::new(),
            sdk_model: default_cursor_sdk_model(),
            sdk_model_params: Vec::new(),
            sdk_runner_ok: false,
            cli_path: default_cursor_agent_cli_path(),
            cli_model: String::new(),
            cli_runner_url: String::new(),
            timeout_secs: DEFAULT_TIMEOUT_SECS,
            interactive_timeout_secs: DEFAULT_INTERACTIVE_TIMEOUT_SECS,
            tmux_enabled: true,
            mcp_tools_enabled: true,
            mcp_expose_send_message: false,
            delegation_slim_prompt: true,
            delegation_resume_delta: false,
        }
    }
}

fn default_interactive_timeout_secs() -> (r: u64)
    ensures
        r == DEFAULT_INTERACTIVE_TIMEOUT_SECS,
{
    DEFAULT_INTERACTIVE_TIMEOUT_SECS
}

/// `o`'s text trimmed, when it is present and not blank.
pub open spec fn nonblank_trimmed(o: Option<String>) -> Option<Seq<char>> {
    match o {
        Some(s) => if trim_seq(s@).len() > 0 {
            Some(trim_seq(s@))
        } else {
            None
        },
        None => None,
    }
}

fn nonblank_trimmed_exec(o: &Option<String>) -> (r: Option<Vec<char>>)
    ensures
        match r {
            Some(v) => nonblank_trimmed(*o) == Some(v@),
            None => nonblank_trimmed(*o) is None,
        },
{
    match o {
        Some(s) => {
            let t = trim_vec(&chars_of(s.as_str()));
            if t.len() > 0 {
                Some(t)
            } else {
                None
            }
        },
        None => None,
    }
}

/// The SDK runner URL of the environment: the configured one, or the local sidecar.
pub open spec fn env_runner_url(env: Config) -> Seq<char> {
    match nonblank_trimmed(env.cursor_sdk_runner_url) {
        Some(u) => u,
        None => local_runner_url_seq(env.cursor_sdk_runner_port),
    }
}

/// The CLI runner URL of the environment, trimmed; empty when unset.
pub open spec fn env_cli_runner_url(env: Config) -> Seq<char> {
    match env.cursor_agent_runner_url {
        Some(u) => trim_seq(u@),
        None => Seq::empty(),
    }
}

impl CursorEngineSettings {
    /// The settings as the environment gives them, before any stored override.
    pub fn from_env(config: &Config) -> (r: Self)
        ensures
            r.sdk_runner_url@ == env_runner_url(*config),
            r.sdk_model@ == trim_seq(config.cursor_sdk_model@),
            r.sdk_model_params@.len() == 0,
            !r.sdk_runner_ok,
            r.cli_path@ == trim_seq(config.cursor_agent_cli_path@),
            r.cli_model@ == trim_seq(config.cursor_agent_model@),
            r.cli_runner_url@ == env_cli_runner_url(*config),
            r.timeout_secs == config.cursor_agent_timeout_secs,
            r.interactive_timeout_secs == DEFAULT_INTERACTIVE_TIMEOUT_SECS,
            r.tmux_enabled == config.cursor_agent_tmux_enabled,
            r.mcp_tools_enabled,
            !r.mcp_expose_send_message,
            r.delegation_slim_prompt,
            !r.delegation_resume_delta,
    {
        let port = config.cursor_sdk_runner_port;
        let sdk_runner_url = match nonblank_trimmed_exec(&config.cursor_sdk_runner_url) {
            Some(u) => string_of(&u),
            None => default_local_runner_url(port),
        };
        let cli_runner_url = match &config.cursor_agent_runner_url {
            Some(u) => string_of(&trim_vec(&chars_of(u.as_str()))),
            None => String::new(),
        };
        CursorEngineSettings {
            sdk_runner_url,
            sdk_model: string_of(&trim_vec(&chars_of(config.cursor_sdk_model.as_str()))),
            sdk_model_params: Vec::new(),
            sdk_runner_ok: false,
            cli_path: string_of(&trim_vec(&chars_of(config.cursor_agent_cli_path.as_str()))),
            cli_model: string_of(&trim_vec(&chars_of(config.cursor_agent_model.as_str()))),
            cli_runner_url,
            timeout_secs: config.cursor_agent_timeout_secs,
            interactive_timeout_secs: default_interactive_timeout_secs(),
            tmux_enabled: config.cursor_agent_tmux_enabled,
            mcp_tools_enabled: true,
            mcp_expose_send_message: false,
            delegation_slim_prompt: true,
            delegation_resume_delta: false,
        }
    }

    /// Both the SDK runner URL and the SDK model are set.
    pub open spec fn spec_sdk_configured(&self) -> bool {
        trim_seq(self.sdk_runner_url@).len() > 0 && trim_seq(self.sdk_model@).len() > 0
    }

    pub fn sdk_configured(&self) -> (r: bool)
        ensures
            r == self.spec_sdk_configured(),
    {
        trim_vec(&chars_of(self.sdk_runner_url.as_str())).len() > 0 && trim_vec(
            &chars_of(self.sdk_model.as_str()),
        ).len() > 0
    }

    /// The engine can run: configured, marked usable, and the sidecar answers with
    /// an API key and the SDK installed.
    pub fn engine_ready(&self, health: &SidecarHealth) -> (r: bool)
        ensures
            r == (self.spec_sdk_configured() && self.sdk_runner_ok && health.reachable
                && health.api_key_configured && health.cursor_sdk_installed),
    {
        self.sdk_configured() && self.sdk_runner_ok && health.reachable && health.api_key_configured
            && health.cursor_sdk_installed
    }
}

#[derive(Debug, Clone)]
pub struct SidecarHealth {
    pub reachable: bool,
    pub api_key_configured: bool,
    pub cursor_sdk_installed: bool,
    pub runs_in_flight: u64,
    pub persona_bridges_active: u64,
    pub os_bridge_pids: u64,
    pub uptime_secs: u64,
    pub started_at_unix: u64,
    pub recycle_requested: bool,
    pub oldest_run_age_secs: u64,
    pub error: Option<String>,
}

/// A health report with every flag off, every count zero and no error.
pub open spec fn blank_health(h: SidecarHealth) -> bool {
    &&& !h.reachable
    &&& !h.api_key_configured
    &&& !h.cursor_sdk_installed
    &&& h.runs_in_flight == 0
    &&& h.persona_bridges_active == 0
    &&& h.os_bridge_pids == 0
    &&& h.uptime_secs == 0
    &&& h.started_at_unix == 0
    &&& !h.recycle_requested
    &&& h.oldest_run_age_secs == 0
    &&& h.error is None
}

impl Default for SidecarHealth {
    fn default() -> (r: Self)
        ensures
            blank_health(r),
    {
        SidecarHealth {
            reachable: false,
            api_key_configured: false,
            cursor_sdk_installed: false,
            runs_in_flight: 0,
            persona_bridges_active: 0,
            os_bridge_pids: 0,
            uptime_secs: 0,
            started_at_unix: 0,
            recycle_requested: false,
            oldest_run_age_secs: 0,
            error: None,
        }
    }
}

// ---------------------------------------------------------------------------
// Stored settings rows
// ---------------------------------------------------------------------------

/// Settings rows as `(key, value)` texts.
pub open spec fn rows_view(rows: Seq<(String, String)>) -> Seq<(Seq<char>, Seq<char>)> {
    rows.map_values(|p: (String, String)| (p.0@, p.1@))
}

/// Keys compare without regard to ASCII case (`str::eq_ignore_ascii_case`).
pub open spec fn key_matches(k: Seq<char>, key: Seq<char>) -> bool {
    lower_seq(k) == lower_seq(key)
}

/// Index of the first row whose key matches, or `-1`.
pub open spec fn first_key_index(rows: Seq<(Seq<char>, Seq<char>)>, key: Seq<char>) -> int
    decreases rows.len(),
{
    if rows.len() == 0 {
        -1
    } else if key_matches(rows[0].0, key) {
        0
    } else {
        let k = first_key_index(rows.drop_first(), key);
        if k < 0 {
            -1
        } else {
            k + 1
        }
    }
}

pub proof fn lemma_first_key_index(rows: Seq<(Seq<char>, Seq<char>)>, key: Seq<char>)
    ensures
        -1 <= first_key_index(rows, key) < rows.len(),
        first_key_index(rows, key) >= 0 ==> key_matches(rows[first_key_index(rows, key)].0, key),
        forall|j: int| 0 <= j < rows.len() && (first_key_index(rows, key) < 0 || j < first_key_index(rows, key))
            ==> !key_matches(#[trigger] rows[j].0, key),
    decreases rows.len(),
{
    if rows.len() > 0 && !key_matches(rows[0].0, key) {
        let t = rows.drop_first();
        lemma_first_key_index(t, key);
        let f = first_key_index(rows, key);
        assert forall|j: int| 0 <= j < rows.len() && (f < 0 || j < f) implies !key_matches(
            #[trigger] rows[j].0,
            key,
        ) by {
            if j > 0 {
                assert(rows[j] == t[j - 1]);
                assert(!key_matches(t[j - 1].0, key));
            }
        }
    }
}

/// The trimmed value of the first row with `key`, unless it is blank.
pub open spec fn read_setting_seq(rows: Seq<(Seq<char>, Seq<char>)>, key: Seq<char>) -> Option<Seq<char>> {
    let i = first_key_index(rows, key);
    if i < 0 {
        None
    } else {
        let v = trim_seq(rows[i].1);
        if v.len() == 0 {
            None
        } else {
            Some(v)
        }
    }
}

/// The text of an optional string.
pub open spec fn opt_view(o: Option<String>) -> Option<Seq<char>> {
    match o {
        Some(s) => Some(s@),
        None => None,
    }
}

/// The value stored under `key` (matched without regard to ASCII case), trimmed;
/// `None` when there is no such row or its value is blank.
pub fn read_setting(settings: &[(String, String)], key: &str) -> (r: Option<String>)
    ensures
        opt_view(r) == read_setting_seq(rows_view(settings@), key@),
{
    let ghost rows = rows_view(settings@);
    let k = lower_vec(&chars_of(key));
    let mut i: usize = 0;
    proof {
        lemma_first_key_index(rows, key@);
    }
    while i < settings.len()
        invariant
            i <= settings.len(),
            rows == rows_view(settings@),
            k@ == lower_seq(key@),
            forall|j: int| 0 <= j < i ==> !key_matches(#[trigger] rows[j].0, key@),
            -1 <= first_key_index(rows, key@) < rows.len(),
            first_key_index(rows, key@) >= 0 ==> key_matches(rows[first_key_index(rows, key@)].0, key@),
            forall|j: int| 0 <= j < rows.len() && (first_key_index(rows, key@) < 0 || j < first_key_index(rows, key@))
                ==> !key_matches(#[trigger] rows[j].0, key@),
        decreases settings.len() - i,
    {
        let name = lower_vec(&chars_of(settings[i].0.as_str()));
        assert(rows[i as int].0 == settings@[i as int].0@);
        if vec_eq(&name, &k) {
            assert(key_matches(rows[i as int].0, key@));
            assert(first_key_index(rows, key@) == i as int);
            let v = trim_vec(&chars_of(settings[i].1.as_str()));
            assert(rows[i as int].1 == settings@[i as int].1@);
            if v.len() == 0 {
                return None;
            }
            return Some(string_of(&v));
        }
        i += 1;
    }
    assert(first_key_index(rows, key@) < 0) by {
        if first_key_index(rows, key@) >= 0 {
            let f = first_key_index(rows, key@);
            assert(!key_matches(rows[f].0, key@));
        }
    }
    None
}

/// `1`, `true`, `yes` or `on`, trimmed and without regard to ASCII case.
pub open spec fn parse_bool_seq(raw: Seq<char>) -> bool {
    let l = lower_seq(trim_seq(raw));
    l == "1"@ || l == "true"@ || l == "yes"@ || l == "on"@
}

pub fn parse_bool(raw: &str) -> (r: bool)
    ensures
        r == parse_bool_seq(raw@),
{
    let l = lower_vec(&trim_vec(&chars_of(raw)));
    vec_eq(&l, &chars_of("1")) || vec_eq(&l, &chars_of("true")) || vec_eq(&l, &chars_of("yes"))
        || vec_eq(&l, &chars_of("on"))
}

/// `true` or `false` as stored.
pub open spec fn spec_bool_text(b: bool) -> Seq<char> {
    if b {
        "true"@
    } else {
        "false"@
    }
}

pub fn bool_text(b: bool) -> (r: String)
    ensures
        r@ == spec_bool_text(b),
{
    if b {
        String::from_str("true")
    } else {
        String::from_str("false")
    }
}

/// A stored text setting, or `fallback`.
pub open spec fn str_setting(rows: Seq<(Seq<char>, Seq<char>)>, key: Seq<char>, fallback: Seq<char>) -> Seq<char> {
    match read_setting_seq(rows, key) {
        Some(v) => v,
        None => fallback,
    }
}

/// A stored flag, or `fallback`.
pub open spec fn bool_setting(rows: Seq<(Seq<char>, Seq<char>)>, key: Seq<char>, fallback: bool) -> bool {
    match read_setting_seq(rows, key) {
        Some(v) => parse_bool_seq(v),
        None => fallback,
    }
}

/// `n` clamped to 60..=86400.
pub open spec fn clamp_timeout(n: u64) -> u64 {
    if n < MIN_TIMEOUT_SECS {
        MIN_TIMEOUT_SECS
    } else if n > MAX_TIMEOUT_SECS {
        MAX_TIMEOUT_SECS
    } else {
        n
    }
}

/// A stored timeout, clamped; `fallback` when absent or not a number.
pub open spec fn timeout_setting(rows: Seq<(Seq<char>, Seq<char>)>, key: Seq<char>, fallback: u64) -> u64 {
    match read_setting_seq(rows, key) {
        Some(v) => match parse_u64_seq(v) {
            Some(n) => clamp_timeout(n),
            None => fallback,
        },
        None => fallback,
    }
}

/// `s`, or `d` when `s` is blank.
pub open spec fn or_default(s: Seq<char>, d: Seq<char>) -> Seq<char> {
    if trim_seq(s).len() == 0 {
        d
    } else {
        s
    }
}

/// Model parameters as `(id, value)` texts.
pub open spec fn params_view(ps: Seq<CursorModelParam>) -> Seq<(Seq<char>, Seq<char>)> {
    ps.map_values(|p: CursorModelParam| (p.id@, p.value@))
}

/// The parameters whose id and value are both non-blank, in order.
pub open spec fn kept_params(ps: Seq<(Seq<char>, Seq<char>)>) -> Seq<(Seq<char>, Seq<char>)>
    decreases ps.len(),
{
    if ps.len() == 0 {
        Seq::empty()
    } else {
        let k = kept_params(ps.drop_last());
        let p = ps.last();
        if trim_seq(p.0).len() > 0 && trim_seq(p.1).len() > 0 {
            k.push(p)
        } else {
            k
        }
    }
}

/// `r` is what loading the stored `rows` over the environment `env` gives, with
/// `parsed` the model parameters parsed from their row (`None` when absent or not
/// valid JSON).
pub open spec fn settings_loaded(
    rows: Seq<(Seq<char>, Seq<char>)>,
    env: Config,
    parsed: Option<Seq<(Seq<char>, Seq<char>)>>,
    r: CursorEngineSettings,
) -> bool {
    let url = str_setting(rows, APP_SETTING_CURSOR_SDK_RUNNER_URL@, env_runner_url(env));
    &&& r.sdk_runner_url@ == (if trim_seq(url).len() == 0 {
        local_runner_url_seq(env.cursor_sdk_runner_port)
    } else {
        url
    })
    &&& r.sdk_model@ == or_default(
        str_setting(rows, APP_SETTING_CURSOR_SDK_MODEL@, trim_seq(env.cursor_sdk_model@)),
        spec_default_cursor_sdk_model(),
    )
    &&& params_view(r.sdk_model_params@) == (match parsed {
        Some(ps) => kept_params(ps),
        None => Seq::empty(),
    })
    &&& r.sdk_runner_ok == bool_setting(rows, APP_SETTING_CURSOR_SDK_RUNNER_OK@, false)
    &&& r.cli_path@ == or_default(
        str_setting(rows, APP_SETTING_CURSOR_AGENT_CLI_PATH@, trim_seq(env.cursor_agent_cli_path@)),
        spec_default_cursor_agent_cli_path(),
    )
    &&& r.cli_model@ == str_setting(rows, APP_SETTING_CURSOR_AGENT_MODEL@, trim_seq(env.cursor_agent_model@))
    &&& r.cli_runner_url@ == str_setting(rows, APP_SETTING_CURSOR_AGENT_RUNNER_URL@, env_cli_runner_url(env))
    &&& r.timeout_secs == timeout_setting(rows, APP_SETTING_CURSOR_AGENT_TIMEOUT_SECS@, env.cursor_agent_timeout_secs)
    &&& r.interactive_timeout_secs == timeout_setting(
        rows,
        APP_SETTING_CURSOR_INTERACTIVE_TIMEOUT_SECS@,
        DEFAULT_INTERACTIVE_TIMEOUT_SECS,
    )
    &&& r.tmux_enabled == bool_setting(rows, APP_SETTING_CURSOR_AGENT_TMUX_ENABLED@, env.cursor_agent_tmux_enabled)
    &&& r.mcp_tools_enabled == bool_setting(rows, APP_SETTING_CURSOR_MCP_TOOLS_ENABLED@, true)
    &&& r.mcp_expose_send_message == bool_setting(rows, APP_SETTING_CURSOR_MCP_EXPOSE_SEND_MESSAGE@, false)
    &&& r.delegation_slim_prompt == bool_setting(rows, APP_SETTING_CURSOR_DELEGATION_SLIM_PROMPT@, true)
    &&& !r.delegation_resume_delta
}

fn str_override(rows: &[(String, String)], key: &str, current: String) -> (r: String)
    ensures
        r@ == str_setting(rows_view(rows@), key@, current@),
{
    match read_setting(rows, key) {
        Some(v) => v,
        None => current,
    }
}

fn bool_override(rows: &[(String, String)], key: &str, current: bool) -> (r: bool)
    ensures
        r == bool_setting(rows_view(rows@), key@, current),
{
    match read_setting(rows, key) {
        Some(v) => parse_bool(v.as_str()),
        None => current,
    }
}

fn timeout_override(rows: &[(String, String)], key: &str, current: u64) -> (r: u64)
    ensures
        r == timeout_setting(rows_view(rows@), key@, current),
{
    match read_setting(rows, key) {
        Some(v) => match parse_u64(&chars_of(v.as_str())) {
            Some(n) => if n < MIN_TIMEOUT_SECS {
                MIN_TIMEOUT_SECS
            } else if n > MAX_TIMEOUT_SECS {
                MAX_TIMEOUT_SECS
            } else {
                n
            },
            None => current,
        },
        None => current,
    }
}

fn keep_params(ps: Vec<CursorModelParam>) -> (r: Vec<CursorModelParam>)
    ensures
        params_view(r@) == kept_params(params_view(ps@)),
{
    let ghost pv = params_view(ps@);
    let mut out: Vec<CursorModelParam> = Vec::new();
    let mut i: usize = 0;
    while i < ps.len()
        invariant
            i <= ps.len(),
            pv == params_view(ps@),
            params_view(out@) == kept_params(pv.subrange(0, i as int)),
        decreases ps.len() - i,
    {
        let p = &ps[i];
        let ghost sub = pv.subrange(0, i + 1);
        assert(sub.drop_last() =~= pv.subrange(0, i as int));
        assert(sub.last() == (p.id@, p.value@));
        if trim_vec(&chars_of(p.id.as_str())).len() > 0 && trim_vec(&chars_of(p.value.as_str())).len() > 0 {
            let ghost before = out@;
            out.push(CursorModelParam { id: p.id.clone(), value: p.value.clone() });
            assert(params_view(out@) =~= params_view(before).push((p.id@, p.value@)));
        }
        i += 1;
    }
    assert(pv.subrange(0, pv.len() as int) =~= pv);
    out
}

/// The optional parsed parameters as texts.
pub open spec fn opt_params_view(o: Option<Vec<CursorModelParam>>) -> Option<Seq<(Seq<char>, Seq<char>)>> {
    match o {
        Some(v) => Some(params_view(v@)),
        None => None,
    }
}

/// The settings after the stored `app_settings` rows are laid over the environment:
/// each stored, non-blank value replaces the environment's; timeouts are clamped to
/// 60..=86400 and ignored when not a number; flags are on for `1`, `true`, `yes` or
/// `on`; resume-delta stays off; a blank SDK model or CLI path falls back to its
/// default and a blank runner URL to the local sidecar. `parsed_params` holds the
/// model parameters parsed from the `CURSOR_SDK_MODEL_PARAMS` row, when that row
/// exists and is valid JSON; only those with a non-blank id and value are kept.
pub fn settings_from_rows(
    rows: &[(String, String)],
    env: &Config,
    parsed_params: Option<Vec<CursorModelParam>>,
) -> (r: CursorEngineSettings)
    ensures
        settings_loaded(rows_view(rows@), *env, opt_params_view(parsed_params), r),
{
    let base = CursorEngineSettings::from_env(env);
    let url = str_override(rows, APP_SETTING_CURSOR_SDK_RUNNER_URL, base.sdk_runner_url);
    let model = str_override(rows, APP_SETTING_CURSOR_SDK_MODEL, base.sdk_model);
    let params = match parsed_params {
        Some(ps) => keep_params(ps),
        None => base.sdk_model_params,
    };
    let runner_ok = bool_override(rows, APP_SETTING_CURSOR_SDK_RUNNER_OK, base.sdk_runner_ok);
    let cli_path = str_override(rows, APP_SETTING_CURSOR_AGENT_CLI_PATH, base.cli_path);
    let cli_model = str_override(rows, APP_SETTING_CURSOR_AGENT_MODEL, base.cli_model);
    let cli_runner_url = str_override(rows, APP_SETTING_CURSOR_AGENT_RUNNER_URL, base.cli_runner_url);
    let timeout_secs = timeout_override(rows, APP_SETTING_CURSOR_AGENT_TIMEOUT_SECS, base.timeout_secs);
    let interactive = timeout_override(
        rows,
        APP_SETTING_CURSOR_INTERACTIVE_TIMEOUT_SECS,
        base.interactive_timeout_secs,
    );
    let tmux = bool_override(rows, APP_SETTING_CURSOR_AGENT_TMUX_ENABLED, base.tmux_enabled);
    let mcp_tools = bool_override(rows, APP_SETTING_CURSOR_MCP_TOOLS_ENABLED, base.mcp_tools_enabled);
    let expose = bool_override(rows, APP_SETTING_CURSOR_MCP_EXPOSE_SEND_MESSAGE, base.mcp_expose_send_message);
    let slim = bool_override(rows, APP_SETTING_CURSOR_DELEGATION_SLIM_PROMPT, base.delegation_slim_prompt);
    let model = if trim_vec(&chars_of(model.as_str())).len() == 0 {
        default_cursor_sdk_model()
    } else {
        model
    };
    let cli_path = if trim_vec(&chars_of(cli_path.as_str())).len() == 0 {
        default_cursor_agent_cli_path()
    } else {
        cli_path
    };
    let url = if trim_vec(&chars_of(url.as_str())).len() == 0 {
        default_local_runner_url(env.cursor_sdk_runner_port)
    } else {
        url
    };
    proof {
        assert(params_view(Seq::<CursorModelParam>::empty()) =~= Seq::<(Seq<char>, Seq<char>)>::empty());
    }
    let r = CursorEngineSettings {
        sdk_runner_url: url,
        sdk_model: model,
        sdk_model_params: params,
        sdk_runner_ok: runner_ok,
        cli_path,
        cli_model,
        cli_runner_url,
        timeout_secs,
        interactive_timeout_secs: interactive,
        tmux_enabled: tmux,
        mcp_tools_enabled: mcp_tools,
        mcp_expose_send_message: expose,
        delegation_slim_prompt: slim,
        delegation_resume_delta: false,
    };
    assert(r.sdk_runner_url@ == url@);
    assert(params_view(r.sdk_model_params@) == (match opt_params_view(parsed_params) {
        Some(ps) => kept_params(ps),
        None => Seq::empty(),
    }));
    assert(r.timeout_secs == timeout_setting(rows_view(rows@), APP_SETTING_CURSOR_AGENT_TIMEOUT_SECS@, env.cursor_agent_timeout_secs));
    r
}

/// The rows written for `cfg`, in order, with `params_json` the JSON text of its
/// model parameters.
pub open spec fn persisted_rows(cfg: CursorEngineSettings, params_json: Seq<char>) -> Seq<(Seq<char>, Seq<char>)> {
    seq![
        (APP_SETTING_CURSOR_SDK_RUNNER_URL@, trim_seq(cfg.sdk_runner_url@)),
        (APP_SETTING_CURSOR_SDK_MODEL@, trim_seq(cfg.sdk_model@)),
        (APP_SETTING_CURSOR_SDK_MODEL_PARAMS@, params_json),
        (APP_SETTING_CURSOR_SDK_RUNNER_OK@, spec_bool_text(cfg.sdk_runner_ok)),
        (APP_SETTING_CURSOR_AGENT_CLI_PATH@, trim_seq(cfg.cli_path@)),
        (APP_SETTING_CURSOR_AGENT_MODEL@, trim_seq(cfg.cli_model@)),
        (APP_SETTING_CURSOR_AGENT_RUNNER_URL@, trim_seq(cfg.cli_runner_url@)),
        (APP_SETTING_CURSOR_AGENT_TIMEOUT_SECS@, decimal_seq(cfg.timeout_secs as nat)),
        (APP_SETTING_CURSOR_INTERACTIVE_TIMEOUT_SECS@, decimal_seq(cfg.interactive_timeout_secs as nat)),
        (APP_SETTING_CURSOR_AGENT_TMUX_ENABLED@, spec_bool_text(cfg.tmux_enabled)),
        (APP_SETTING_CURSOR_MCP_TOOLS_ENABLED@, spec_bool_text(cfg.mcp_tools_enabled)),
        (APP_SETTING_CURSOR_MCP_EXPOSE_SEND_MESSAGE@, spec_bool_text(cfg.mcp_expose_send_message)),
        (APP_SETTING_CURSOR_DELEGATION_SLIM_PROMPT@, spec_bool_text(cfg.delegation_slim_prompt)),
        (APP_SETTING_CURSOR_DELEGATION_RESUME_DELTA@, "false"@),
    ]
}

fn row(key: &str, value: String) -> (r: (String, String))
    ensures
        r.0@ == key@,
        r.1@ == value@,
{
    (String::from_str(key), value)
}

fn trimmed(s: &String) -> (r: String)
    ensures
        r@ == trim_seq(s@),
{
    string_of(&trim_vec(&chars_of(s.as_str())))
}

/// The `app_settings` rows that store `cfg`, in the order they are written; text
/// values are trimmed, numbers are written in decimal, flags as `true`/`false`, and
/// resume-delta always as `false`.
pub fn settings_to_rows(cfg: &CursorEngineSettings, params_json: &str) -> (r: Vec<(String, String)>)
    ensures
        rows_view(r@) == persisted_rows(*cfg, params_json@),
{
    let mut rows: Vec<(String, String)> = Vec::new();
    rows.push(row(APP_SETTING_CURSOR_SDK_RUNNER_URL, trimmed(&cfg.sdk_runner_url)));
    rows.push(row(APP_SETTING_CURSOR_SDK_MODEL, trimmed(&cfg.sdk_model)));
    rows.push(row(APP_SETTING_CURSOR_SDK_MODEL_PARAMS, String::from_str(params_json)));
    rows.push(row(APP_SETTING_CURSOR_SDK_RUNNER_OK, bool_text(cfg.sdk_runner_ok)));
    rows.push(row(APP_SETTING_CURSOR_AGENT_CLI_PATH, trimmed(&cfg.cli_path)));
    rows.push(row(APP_SETTING_CURSOR_AGENT_MODEL, trimmed(&cfg.cli_model)));
    rows.push(row(APP_SETTING_CURSOR_AGENT_RUNNER_URL, trimmed(&cfg.cli_runner_url)));
    rows.push(row(APP_SETTING_CURSOR_AGENT_TIMEOUT_SECS, string_of(&u64_decimal(cfg.timeout_secs))));
    rows.push(row(APP_SETTING_CURSOR_INTERACTIVE_TIMEOUT_SECS, string_of(&u64_decimal(cfg.interactive_timeout_secs))));
    rows.push(row(APP_SETTING_CURSOR_AGENT_TMUX_ENABLED, bool_text(cfg.tmux_enabled)));
    rows.push(row(APP_SETTING_CURSOR_MCP_TOOLS_ENABLED, bool_text(cfg.mcp_tools_enabled)));
    rows.push(row(APP_SETTING_CURSOR_MCP_EXPOSE_SEND_MESSAGE, bool_text(cfg.mcp_expose_send_message)));
    rows.push(row(APP_SETTING_CURSOR_DELEGATION_SLIM_PROMPT, bool_text(cfg.delegation_slim_prompt)));
    rows.push(row(APP_SETTING_CURSOR_DELEGATION_RESUME_DELTA, String::from_str("false")));
    assert(rows_view(rows@) =~= persisted_rows(*cfg, params_json@));
    rows
}

/// The stored setting keys, in the order they are written.
pub open spec fn setting_keys() -> Seq<Seq<char>> {
    seq![
        APP_SETTING_CURSOR_SDK_RUNNER_URL@,
        APP_SETTING_CURSOR_SDK_MODEL@,
        APP_SETTING_CURSOR_SDK_MODEL_PARAMS@,
        APP_SETTING_CURSOR_SDK_RUNNER_OK@,
        APP_SETTING_CURSOR_AGENT_CLI_PATH@,
        APP_SETTING_CURSOR_AGENT_MODEL@,
        APP_SETTING_CURSOR_AGENT_RUNNER_URL@,
        APP_SETTING_CURSOR_AGENT_TIMEOUT_SECS@,
        APP_SETTING_CURSOR_INTERACTIVE_TIMEOUT_SECS@,
        APP_SETTING_CURSOR_AGENT_TMUX_ENABLED@,
        APP_SETTING_CURSOR_MCP_TOOLS_ENABLED@,
        APP_SETTING_CURSOR_MCP_EXPOSE_SEND_MESSAGE@,
        APP_SETTING_CURSOR_DELEGATION_SLIM_PROMPT@,
        APP_SETTING_CURSOR_DELEGATION_RESUME_DELTA@,
    ]
}

/// No two stored setting keys match each other, even without regard to case.
pub proof fn lemma_setting_keys_distinct()
    ensures
        forall|a: int, b: int| 0 <= a < b < 14 ==> !key_matches(#[trigger] setting_keys()[a], #[trigger] setting_keys()[b]),
{
    reveal_strlit("CURSOR_SDK_RUNNER_URL");
    reveal_strlit("CURSOR_SDK_MODEL");
    reveal_strlit("CURSOR_SDK_MODEL_PARAMS");
    reveal_strlit("CURSOR_SDK_RUNNER_OK");
    reveal_strlit("CURSOR_AGENT_CLI_PATH");
    reveal_strlit("CURSOR_AGENT_MODEL");
    reveal_strlit("CURSOR_AGENT_RUNNER_URL");
    reveal_strlit("CURSOR_AGENT_TIMEOUT_SECS");
    reveal_strlit("CURSOR_INTERACTIVE_TIMEOUT_SECS");
    reveal_strlit("CURSOR_AGENT_TMUX_ENABLED");
    reveal_strlit("CURSOR_MCP_TOOLS_ENABLED");
    reveal_strlit("CURSOR_MCP_EXPOSE_SEND_MESSAGE");
    reveal_strlit("CURSOR_DELEGATION_SLIM_PROMPT");
    reveal_strlit("CURSOR_DELEGATION_RESUME_DELTA");
    assert(APP_SETTING_CURSOR_SDK_RUNNER_URL@ =~= seq!['C', 'U', 'R', 'S', 'O', 'R', '_', 'S', 'D', 'K', '_', 'R', 'U', 'N', 'N', 'E', 'R', '_', 'U', 'R', 'L']);
    assert(APP_SETTING_CURSOR_SDK_MODEL@ =~= seq!['C', 'U', 'R', 'S', 'O', 'R', '_', 'S', 'D', 'K', '_', 'M', 'O', 'D', 'E', 'L']);
    assert(APP_SETTING_CURSOR_SDK_MODEL_PARAMS@ =~= seq!['C', 'U', 'R', 'S', 'O', 'R', '_', 'S', 'D', 'K', '_', 'M', 'O', 'D', 'E', 'L', '_', 'P', 'A', 'R', 'A', 'M', 'S']);
    assert(APP_SETTING_CURSOR_SDK_RUNNER_OK@ =~= seq!['C', 'U', 'R', 'S', 'O', 'R', '_', 'S', 'D', 'K', '_', 'R', 'U', 'N', 'N', 'E', 'R', '_', 'O', 'K']);
    assert(APP_SETTING_CURSOR_AGENT_CLI_PATH@ =~= seq!['C', 'U', 'R', 'S', 'O', 'R', '_', 'A', 'G', 'E', 'N', 'T', '_', 'C', 'L', 'I', '_', 'P', 'A', 'T', 'H']);
    assert(APP_SETTING_CURSOR_AGENT_MODEL@ =~= seq!['C', 'U', 'R', 'S', 'O', 'R', '_', 'A', 'G', 'E', 'N', 'T', '_', 'M', 'O', 'D', 'E', 'L']);
    assert(APP_SETTING_CURSOR_AGENT_RUNNER_URL@ =~= seq!['C', 'U', 'R', 'S', 'O', 'R', '_', 'A', 'G', 'E', 'N', 'T', '_', 'R', 'U', 'N', 'N', 'E', 'R', '_', 'U', 'R', 'L']);
    assert(APP_SETTING_CURSOR_AGENT_TIMEOUT_SECS@ =~= seq!['C', 'U', 'R', 'S', 'O', 'R', '_', 'A', 'G', 'E', 'N', 'T', '_', 'T', 'I', 'M', 'E', 'O', 'U', 'T', '_', 'S', 'E', 'C', 'S']);
    assert(APP_SETTING_CURSOR_INTERACTIVE_TIMEOUT_SECS@ =~= seq!['C', 'U', 'R', 'S', 'O', 'R', '_', 'I', 'N', 'T', 'E', 'R', 'A', 'C', 'T', 'I', 'V', 'E', '_', 'T', 'I', 'M', 'E', 'O', 'U', 'T', '_', 'S', 'E', 'C', 'S']);
    assert(APP_SETTING_CURSOR_AGENT_TMUX_ENABLED@ =~= seq!['C', 'U', 'R', 'S', 'O', 'R', '_', 'A', 'G', 'E', 'N', 'T', '_', 'T', 'M', 'U', 'X', '_', 'E', 'N', 'A', 'B', 'L', 'E', 'D']);
    assert(APP_SETTING_CURSOR_MCP_TOOLS_ENABLED@ =~= seq!['C', 'U', 'R', 'S', 'O', 'R', '_', 'M', 'C', 'P', '_', 'T', 'O', 'O', 'L', 'S', '_', 'E', 'N', 'A', 'B', 'L', 'E', 'D']);
    assert(APP_SETTING_CURSOR_MCP_EXPOSE_SEND_MESSAGE@ =~= seq!['C', 'U', 'R', 'S', 'O', 'R', '_', 'M', 'C', 'P', '_', 'E', 'X', 'P', 'O', 'S', 'E', '_', 'S', 'E', 'N', 'D', '_', 'M', 'E', 'S', 'S', 'A', 'G', 'E']);
    assert(APP_SETTING_CURSOR_DELEGATION_SLIM_PROMPT@ =~= seq!['C', 'U', 'R', 'S', 'O', 'R', '_', 'D', 'E', 'L', 'E', 'G', 'A', 'T', 'I', 'O', 'N', '_', 'S', 'L', 'I', 'M', '_', 'P', 'R', 'O', 'M', 'P', 'T']);
    assert(APP_SETTING_CURSOR_DELEGATION_RESUME_DELTA@ =~= seq!['C', 'U', 'R', 'S', 'O', 'R', '_', 'D', 'E', 'L', 'E', 'G', 'A', 'T', 'I', 'O', 'N', '_', 'R', 'E', 'S', 'U', 'M', 'E', '_', 'D', 'E', 'L', 'T', 'A']);
    let ks = setting_keys();
    assert forall|a: int, b: int| 0 <= a < b < 14 implies !key_matches(#[trigger] ks[a], #[trigger] ks[b]) by {
        let la = lower_seq(ks[a]);
        let lb = lower_seq(ks[b]);
        if a == 0 && b == 4 {
            assert(la[7] != lb[7]);
        } else if a == 2 && b == 6 {
            assert(la[7] != lb[7]);
        } else if a == 7 && b == 9 {
            assert(la[14] != lb[14]);
        } else if a == 11 && b == 13 {
            assert(la[7] != lb[7]);
        } else {
            assert(la.len() != lb.len());
        }
    }
}

/// Reading a key gives the value of row `i` when row `i` holds that key and no
/// earlier row matches it.
proof fn lemma_read_row(rows: Seq<(Seq<char>, Seq<char>)>, i: int, key: Seq<char>)
    requires
        0 <= i < rows.len(),
        rows[i].0 == key,
        forall|j: int| 0 <= j < i ==> !key_matches(#[trigger] rows[j].0, key),
    ensures
        read_setting_seq(rows, key) == (if trim_seq(rows[i].1).len() == 0 {
            None
        } else {
            Some(trim_seq(rows[i].1))
        }),
{
    lemma_first_key_index(rows, key);
    let f = first_key_index(rows, key);
    assert(key_matches(rows[i].0, key));
    if f < 0 || f > i {
        assert(!key_matches(rows[i].0, key));
    }
    if f < i {
        assert(!key_matches(rows[f].0, key));
    }
}

/// Settings that come back unchanged from a write and a read: the text fields
/// trimmed and not blank, the timeouts within 60..=86400, every model parameter
/// with a non-blank id and value, and resume-delta off.
pub open spec fn settings_storable(cfg: CursorEngineSettings) -> bool {
    &&& trim_seq(cfg.sdk_runner_url@) == cfg.sdk_runner_url@ && cfg.sdk_runner_url@.len() > 0
    &&& trim_seq(cfg.sdk_model@) == cfg.sdk_model@ && cfg.sdk_model@.len() > 0
    &&& trim_seq(cfg.cli_path@) == cfg.cli_path@ && cfg.cli_path@.len() > 0
    &&& trim_seq(cfg.cli_model@) == cfg.cli_model@ && cfg.cli_model@.len() > 0
    &&& trim_seq(cfg.cli_runner_url@) == cfg.cli_runner_url@ && cfg.cli_runner_url@.len() > 0
    &&& MIN_TIMEOUT_SECS <= cfg.timeout_secs <= MAX_TIMEOUT_SECS
    &&& MIN_TIMEOUT_SECS <= cfg.interactive_timeout_secs <= MAX_TIMEOUT_SECS
    &&& kept_params(params_view(cfg.sdk_model_params@)) == params_view(cfg.sdk_model_params@)
    &&& !cfg.delegation_resume_delta
}

proof fn lemma_bool_text_roundtrip(b: bool)
    ensures
        trim_seq(spec_bool_text(b)) == spec_bool_text(b),
        spec_bool_text(b).len() > 0,
        parse_bool_seq(spec_bool_text(b)) == b,
{
    reveal_strlit("true");
    reveal_strlit("false");
    reveal_strlit("1");
    reveal_strlit("yes");
    reveal_strlit("on");
    assert("true"@ =~= seq!['t', 'r', 'u', 'e']);
    assert("false"@ =~= seq!['f', 'a', 'l', 's', 'e']);
    assert("1"@ =~= seq!['1']);
    assert("yes"@ =~= seq!['y', 'e', 's']);
    assert("on"@ =~= seq!['o', 'n']);
    lemma_trim_identity(spec_bool_text(b));
    assert(lower_seq(spec_bool_text(b)) =~= spec_bool_text(b));
    if !b {
        assert(lower_seq("false"@) != "true"@);
        assert(lower_seq("false"@) != "yes"@);
    }
}

proof fn lemma_decimal_roundtrip(n: u64)
    ensures
        trim_seq(decimal_seq(n as nat)) == decimal_seq(n as nat),
        decimal_seq(n as nat).len() > 0,
        parse_u64_seq(decimal_seq(n as nat)) == Some(n),
{
    lemma_decimal_digits(n as nat);
    lemma_parse_decimal(n);
    let d = decimal_seq(n as nat);
    assert(crate::decimal::is_digit(d[0]));
    assert(crate::decimal::is_digit(d.last())) by {
        assert(d.last() == d[d.len() - 1]);
    }
    lemma_trim_identity(d);
}

proof fn lemma_settings_roundtrip_exact(
    cfg: CursorEngineSettings,
    params_json: Seq<char>,
    env: Config,
    r: CursorEngineSettings,
)
    requires
        settings_storable(cfg),
        settings_loaded(persisted_rows(cfg, params_json), env, Some(params_view(cfg.sdk_model_params@)), r),
    ensures
        r.sdk_runner_url@ == cfg.sdk_runner_url@,
        r.sdk_model@ == cfg.sdk_model@,
        params_view(r.sdk_model_params@) == params_view(cfg.sdk_model_params@),
        r.sdk_runner_ok == cfg.sdk_runner_ok,
        r.cli_path@ == cfg.cli_path@,
        r.cli_model@ == cfg.cli_model@,
        r.cli_runner_url@ == cfg.cli_runner_url@,
        r.timeout_secs == cfg.timeout_secs,
        r.interactive_timeout_secs == cfg.interactive_timeout_secs,
        r.tmux_enabled == cfg.tmux_enabled,
        r.mcp_tools_enabled == cfg.mcp_tools_enabled,
        r.mcp_expose_send_message == cfg.mcp_expose_send_message,
        r.delegation_slim_prompt == cfg.delegation_slim_prompt,
        r.delegation_resume_delta == cfg.delegation_resume_delta,
{
    let rows = persisted_rows(cfg, params_json);
    lemma_setting_keys_distinct();
    let ks = setting_keys();
    assert forall|i: int| 0 <= i < 14 implies #[trigger] rows[i].0 == ks[i] by {}
    assert forall|i: int, j: int| 0 <= j < i < 14 implies !key_matches(#[trigger] rows[j].0, #[trigger] ks[i]) by {
        assert(rows[j].0 == ks[j]);
    }
    lemma_bool_text_roundtrip(cfg.sdk_runner_ok);
    lemma_bool_text_roundtrip(cfg.tmux_enabled);
    lemma_bool_text_roundtrip(cfg.mcp_tools_enabled);
    lemma_bool_text_roundtrip(cfg.mcp_expose_send_message);
    lemma_bool_text_roundtrip(cfg.delegation_slim_prompt);
    lemma_decimal_roundtrip(cfg.timeout_secs);
    lemma_decimal_roundtrip(cfg.interactive_timeout_secs);
    lemma_read_row(rows, 0, ks[0]);
    lemma_read_row(rows, 1, ks[1]);
    lemma_read_row(rows, 3, ks[3]);
    lemma_read_row(rows, 4, ks[4]);
    lemma_read_row(rows, 5, ks[5]);
    lemma_read_row(rows, 6, ks[6]);
    lemma_read_row(rows, 7, ks[7]);
    lemma_read_row(rows, 8, ks[8]);
    lemma_read_row(rows, 9, ks[9]);
    lemma_read_row(rows, 10, ks[10]);
    lemma_read_row(rows, 11, ks[11]);
    lemma_read_row(rows, 12, ks[12]);
}


/// The stored rows hold each written row: it is among them, and every stored row
/// whose key matches a written key (without regard to case) is that written row.
/// Rows under other keys may be there too, in any order.
pub open spec fn rows_hold(stored: Seq<(Seq<char>, Seq<char>)>, written: Seq<(Seq<char>, Seq<char>)>) -> bool {
    &&& forall|i: int| 0 <= i < written.len() ==> stored.contains(#[trigger] written[i])
    &&& forall|i: int, j: int|
        0 <= i < written.len() && 0 <= j < stored.len() && key_matches(#[trigger] stored[j].0, #[trigger] written[i].0)
            ==> stored[j] == written[i]
}

/// Reading a key from rows that hold `(key, val)`, and no other value under a
/// matching key, gives `val` trimmed (`None` when blank).
proof fn lemma_read_held(rows: Seq<(Seq<char>, Seq<char>)>, key: Seq<char>, val: Seq<char>)
    requires
        rows.contains((key, val)),
        forall|j: int| 0 <= j < rows.len() && key_matches(#[trigger] rows[j].0, key) ==> rows[j].1 == val,
    ensures
        read_setting_seq(rows, key) == (if trim_seq(val).len() == 0 {
            None
        } else {
            Some(trim_seq(val))
        }),
{
    lemma_first_key_index(rows, key);
    let j = choose|j: int| 0 <= j < rows.len() && rows[j] == (key, val);
    assert(key_matches(rows[j].0, key));
    let f = first_key_index(rows, key);
    assert(f >= 0);
}

/// What a write stores, a read gives back: when the stored rows hold the rows
/// written for storable settings (other settings may be stored beside them, under
/// keys that match none of these), loading them, with the parameters parsed back,
/// yields the same settings.
pub proof fn lemma_settings_roundtrip(
    cfg: CursorEngineSettings,
    params_json: Seq<char>,
    stored: Seq<(Seq<char>, Seq<char>)>,
    env: Config,
    r: CursorEngineSettings,
)
    requires
        settings_storable(cfg),
        rows_hold(stored, persisted_rows(cfg, params_json)),
        settings_loaded(stored, env, Some(params_view(cfg.sdk_model_params@)), r),
    ensures
        r.sdk_runner_url@ == cfg.sdk_runner_url@,
        r.sdk_model@ == cfg.sdk_model@,
        params_view(r.sdk_model_params@) == params_view(cfg.sdk_model_params@),
        r.sdk_runner_ok == cfg.sdk_runner_ok,
        r.cli_path@ == cfg.cli_path@,
        r.cli_model@ == cfg.cli_model@,
        r.cli_runner_url@ == cfg.cli_runner_url@,
        r.timeout_secs == cfg.timeout_secs,
        r.interactive_timeout_secs == cfg.interactive_timeout_secs,
        r.tmux_enabled == cfg.tmux_enabled,
        r.mcp_tools_enabled == cfg.mcp_tools_enabled,
        r.mcp_expose_send_message == cfg.mcp_expose_send_message,
        r.delegation_slim_prompt == cfg.delegation_slim_prompt,
        r.delegation_resume_delta == cfg.delegation_resume_delta,
{
    let rows = persisted_rows(cfg, params_json);
    lemma_setting_keys_distinct();
    let ks = setting_keys();
    assert forall|i: int| 0 <= i < 14 implies #[trigger] rows[i].0 == ks[i] by {}
    assert forall|i: int| 0 <= i < 14 implies read_setting_seq(stored, #[trigger] ks[i]) == read_setting_seq(rows, ks[i]) by {
        assert(stored.contains(rows[i]));
        assert forall|j: int| 0 <= j < stored.len() && key_matches(#[trigger] stored[j].0, ks[i]) implies stored[j].1
            == rows[i].1 by {
            assert(key_matches(stored[j].0, rows[i].0));
        }
        lemma_read_held(stored, ks[i], rows[i].1);
        assert(rows.contains(rows[i]));
        assert forall|j: int| 0 <= j < rows.len() && key_matches(#[trigger] rows[j].0, ks[i]) implies rows[j].1
            == rows[i].1 by {
            if j != i {
                if j < i {
                    assert(!key_matches(ks[j], ks[i]));
                } else {
                    assert(!key_matches(ks[i], ks[j]));
                    assert(lower_seq(ks[j]) != lower_seq(ks[i]));
                }
            }
        }
        lemma_read_held(rows, ks[i], rows[i].1);
    }
    assert(read_setting_seq(stored, ks[0]) == read_setting_seq(rows, ks[0]));
    assert(read_setting_seq(stored, ks[1]) == read_setting_seq(rows, ks[1]));
    assert(read_setting_seq(stored, ks[3]) == read_setting_seq(rows, ks[3]));
    assert(read_setting_seq(stored, ks[4]) == read_setting_seq(rows, ks[4]));
    assert(read_setting_seq(stored, ks[5]) == read_setting_seq(rows, ks[5]));
    assert(read_setting_seq(stored, ks[6]) == read_setting_seq(rows, ks[6]));
    assert(read_setting_seq(stored, ks[7]) == read_setting_seq(rows, ks[7]));
    assert(read_setting_seq(stored, ks[8]) == read_setting_seq(rows, ks[8]));
    assert(read_setting_seq(stored, ks[9]) == read_setting_seq(rows, ks[9]));
    assert(read_setting_seq(stored, ks[10]) == read_setting_seq(rows, ks[10]));
    assert(read_setting_seq(stored, ks[11]) == read_setting_seq(rows, ks[11]));
    assert(read_setting_seq(stored, ks[12]) == read_setting_seq(rows, ks[12]));
    assert(settings_loaded(rows, env, Some(params_view(cfg.sdk_model_params@)), r));
    lemma_settings_roundtrip_exact(cfg, params_json, env, r);
}

// ---------------------------------------------------------------------------
// Sidecar health and model catalog replies
// ---------------------------------------------------------------------------

/// The endpoint `<runner>/<path>` of a runner URL trimmed of whitespace and trailing
/// slashes; `None` when the runner URL is blank.
pub open spec fn runner_endpoint_seq(base: Seq<char>, path: Seq<char>) -> Option<Seq<char>> {
    let t = trim_url_seq(base);
    if t.len() == 0 {
        None
    } else {
        Some(t + path)
    }
}

fn runner_endpoint(base_url: &str, path: &str) -> (r: Option<String>)
    ensures
        opt_view(r) == runner_endpoint_seq(base_url@, path@),
{
    let slash = vec!['/'];
    assert(slash@ =~= seq!['/']);
    let mut t = trim_end_set_vec(&trim_vec(&chars_of(base_url)), &slash);
    if t.len() == 0 {
        None
    } else {
        append_str(&mut t, path);
        Some(string_of(&t))
    }
}

/// The health endpoint of a runner, or `None` when no runner URL is set.
pub fn sidecar_health_url(base_url: &str) -> (r: Option<String>)
    ensures
        opt_view(r) == runner_endpoint_seq(base_url@, "/health"@),
{
    runner_endpoint(base_url, "/health")
}

/// The model catalog endpoint of a runner, or `None` when no runner URL is set.
pub fn sidecar_models_url(base_url: &str) -> (r: Option<String>)
    ensures
        opt_view(r) == runner_endpoint_seq(base_url@, "/models"@),
{
    runner_endpoint(base_url, "/models")
}

/// A failed health report: everything off and zero, with the error text `msg`.
pub open spec fn failed_health(h: SidecarHealth, msg: Seq<char>) -> bool {
    &&& !h.reachable
    &&& !h.api_key_configured
    &&& !h.cursor_sdk_installed
    &&& h.runs_in_flight == 0
    &&& h.persona_bridges_active == 0
    &&& h.os_bridge_pids == 0
    &&& h.uptime_secs == 0
    &&& h.started_at_unix == 0
    &&& !h.recycle_requested
    &&& h.oldest_run_age_secs == 0
    &&& opt_view(h.error) == Some(msg)
}

fn failed(msg: String) -> (r: SidecarHealth)
    ensures
        failed_health(r, msg@),
{
    SidecarHealth {
        reachable: false,
        api_key_configured: false,
        cursor_sdk_installed: false,
        runs_in_flight: 0,
        persona_bridges_active: 0,
        os_bridge_pids: 0,
        uptime_secs: 0,
        started_at_unix: 0,
        recycle_requested: false,
        oldest_run_age_secs: 0,
        error: Some(msg),
    }
}

fn prefixed(prefix: &str, detail: &str) -> (r: String)
    ensures
        r@ == prefix@ + detail@,
{
    let mut v = chars_of(prefix);
    append_str(&mut v, detail);
    string_of(&v)
}

/// The report when no runner URL is configured.
pub fn sidecar_health_not_configured() -> (r: SidecarHealth)
    ensures
        failed_health(r, "Runner URL is not configured"@),
{
    failed(String::from_str("Runner URL is not configured"))
}

/// What came of a health request to the sidecar.
#[derive(Debug)]
pub enum HealthProbeOutcome {
    /// The HTTP client could not be built.
    ClientError(String),
    /// The request failed.
    Unreachable(String),
    /// The sidecar answered with a non-success status, shown as text.
    HttpStatus(String),
    /// The sidecar answered, but its body was not JSON.
    InvalidJson(String),
    /// The sidecar answered with this JSON body.
    Body(JsonValue),
}

/// A flag of the health body; false when missing or not a boolean.
pub open spec fn body_flag(body: JsonValue, key: Seq<char>) -> bool {
    match body.spec_get(key) {
        Some(v) => match v.spec_as_bool() {
            Some(b) => b,
            None => false,
        },
        None => false,
    }
}

/// A count of the health body; 0 when missing or not an unsigned integer.
pub open spec fn body_count(body: JsonValue, key: Seq<char>) -> u64 {
    match body.spec_get(key) {
        Some(v) => match v.spec_as_u64() {
            Some(n) => n,
            None => 0,
        },
        None => 0,
    }
}

fn flag_of(body: &JsonValue, key: &str) -> (r: bool)
    ensures
        r == body_flag(*body, key@),
{
    match body.get(key) {
        Some(v) => match v.as_bool() {
            Some(b) => b,
            None => false,
        },
        None => false,
    }
}

fn count_of(body: &JsonValue, key: &str) -> (r: u64)
    ensures
        r == body_count(*body, key@),
{
    match body.get(key) {
        Some(v) => match v.as_u64() {
            Some(n) => n,
            None => 0,
        },
        None => 0,
    }
}

/// The health report for a probe outcome: a JSON body makes the sidecar reachable
/// with its flags and counts read from the body; an undecodable body is reachable
/// but reports nothing else; any other failure is unreachable; each failure carries
/// its error text.
pub fn sidecar_health_from_probe(outcome: HealthProbeOutcome) -> (r: SidecarHealth)
    ensures
        match outcome {
            HealthProbeOutcome::ClientError(e) => failed_health(r, "HTTP client error: "@ + e@),
            HealthProbeOutcome::Unreachable(e) => failed_health(r, "Sidecar unreachable: "@ + e@),
            HealthProbeOutcome::HttpStatus(s) => failed_health(r, "Sidecar health returned HTTP "@ + s@),
            HealthProbeOutcome::InvalidJson(e) => {
                &&& r.reachable
                &&& !r.api_key_configured
                &&& !r.cursor_sdk_installed
                &&& r.runs_in_flight == 0 && r.persona_bridges_active == 0 && r.os_bridge_pids == 0
                &&& r.uptime_secs == 0 && r.started_at_unix == 0 && !r.recycle_requested
                &&& r.oldest_run_age_secs == 0
                &&& opt_view(r.error) == Some("Invalid health JSON: "@ + e@)
            },
            HealthProbeOutcome::Body(b) => {
                &&& r.reachable
                &&& r.api_key_configured == body_flag(b, "api_key_configured"@)
                &&& r.cursor_sdk_installed == body_flag(b, "cursor_sdk_installed"@)
                &&& r.runs_in_flight == body_count(b, "runs_in_flight"@)
                &&& r.persona_bridges_active == body_count(b, "persona_bridges_active"@)
                &&& r.os_bridge_pids == body_count(b, "os_bridge_pids"@)
                &&& r.uptime_secs == body_count(b, "uptime_secs"@)
                &&& r.started_at_unix == body_count(b, "started_at_unix"@)
                &&& r.recycle_requested == body_flag(b, "recycle_requested"@)
                &&& r.oldest_run_age_secs == body_count(b, "oldest_run_age_secs"@)
                &&& r.error is None
            },
        },
{
    match outcome {
        HealthProbeOutcome::ClientError(e) => failed(prefixed("HTTP client error: ", e.as_str())),
        HealthProbeOutcome::Unreachable(e) => failed(prefixed("Sidecar unreachable: ", e.as_str())),
        HealthProbeOutcome::HttpStatus(s) => failed(prefixed("Sidecar health returned HTTP ", s.as_str())),
        HealthProbeOutcome::InvalidJson(e) => {
            let mut h = failed(prefixed("Invalid health JSON: ", e.as_str()));
            h.reachable = true;
            h
        },
        HealthProbeOutcome::Body(b) => SidecarHealth {
            reachable: true,
            api_key_configured: flag_of(&b, "api_key_configured"),
            cursor_sdk_installed: flag_of(&b, "cursor_sdk_installed"),
            runs_in_flight: count_of(&b, "runs_in_flight"),
            persona_bridges_active: count_of(&b, "persona_bridges_active"),
            os_bridge_pids: count_of(&b, "os_bridge_pids"),
            uptime_secs: count_of(&b, "uptime_secs"),
            started_at_unix: count_of(&b, "started_at_unix"),
            recycle_requested: flag_of(&b, "recycle_requested"),
            oldest_run_age_secs: count_of(&b, "oldest_run_age_secs"),
            error: None,
        },
    }
}

/// A string field of a JSON body, when present and a string.
pub open spec fn body_str(body: Option<JsonValue>, key: Seq<char>) -> Option<Seq<char>> {
    match body {
        Some(b) => match b.spec_get(key) {
            Some(v) => v.spec_as_str(),
            None => None,
        },
        None => None,
    }
}

fn body_str_exec(body: Option<&JsonValue>, key: &str) -> (r: Option<String>)
    ensures
        opt_view(r) == body_str(match body { Some(b) => Some(*b), None => None }, key@),
{
    match body {
        Some(b) => match b.get(key) {
            Some(v) => match v.as_str() {
                Some(s) => Some(string_of(&chars_of(s))),
                None => None,
            },
            None => None,
        },
        None => None,
    }
}

/// The error text of a failed catalog request: the body's `error` string, else its
/// `message` string, when not empty; else the HTTP status. `body` is `None` when the
/// reply was not JSON.
pub fn catalog_http_error(status: &str, body: Option<&JsonValue>) -> (r: String)
    ensures
        ({
            let b = match body { Some(v) => Some(*v), None => None };
            let detail = match body_str(b, "error"@) {
                Some(e) => e,
                None => match body_str(b, "message"@) {
                    Some(m) => m,
                    None => Seq::empty(),
                },
            };
            r@ == (if detail.len() > 0 { detail } else { "Sidecar models returned HTTP "@ + status@ })
        }),
{
    let detail = match body_str_exec(body, "error") {
        Some(e) => e,
        None => match body_str_exec(body, "message") {
            Some(m) => m,
            None => String::new(),
        },
    };
    if detail.as_str().unicode_len() > 0 {
        detail
    } else {
        prefixed("Sidecar models returned HTTP ", status)
    }
}

/// A catalog is usable only when it lists at least one model.
pub fn catalog_from_entries(models: Vec<CursorModelCatalogEntry>) -> (r: Result<Vec<CursorModelCatalogEntry>, String>)
    ensures
        models@.len() == 0 ==> (r matches Err(e) && e@ == "No models returned from Cursor API."@),
        models@.len() > 0 ==> (r matches Ok(v) && v@ == models@),
{
    if models.len() == 0 {
        Err(String::from_str("No models returned from Cursor API."))
    } else {
        Ok(models)
    }
}

/// The model ids of a catalog, in order.
pub fn catalog_model_ids(catalog: &Vec<CursorModelCatalogEntry>) -> (r: Vec<String>)
    ensures
        r@.len() == catalog@.len(),
        forall|i: int| 0 <= i < r@.len() ==> #[trigger] r@[i]@ == catalog@[i].id@,
{
    let mut ids: Vec<String> = Vec::new();
    let mut i: usize = 0;
    while i < catalog.len()
        invariant
            i <= catalog.len(),
            ids@.len() == i,
            forall|k: int| 0 <= k < i ==> #[trigger] ids@[k]@ == catalog@[k].id@,
        decreases catalog.len() - i,
    {
        ids.push(catalog[i].id.clone());
        i += 1;
    }
    ids
}

// ---------------------------------------------------------------------------
// Turn budget and notices
// ---------------------------------------------------------------------------

/// The wall-clock budget of a Cursor turn: the run budget (at least 60 s) for
/// scheduled tasks and background jobs, else the interactive budget (at least 60 s)
/// capped by the run budget.
pub open spec fn spec_turn_timeout(s: CursorEngineSettings, scheduled: bool, background: bool) -> u64 {
    let max = if s.timeout_secs >= 60 { s.timeout_secs } else { 60 };
    let inter = if s.interactive_timeout_secs >= 60 { s.interactive_timeout_secs } else { 60 };
    if scheduled || background {
        max
    } else if inter <= max {
        inter
    } else {
        max
    }
}

/// Effective HTTP wall-clock for a Cursor sidecar turn.
pub fn cursor_turn_timeout_secs(
    settings: &CursorEngineSettings,
    is_scheduled_task: bool,
    is_background_job: bool,
) -> (r: u64)
    ensures
        r == spec_turn_timeout(*settings, is_scheduled_task, is_background_job),
        r >= 60,
        r <= (if settings.timeout_secs >= 60 { settings.timeout_secs } else { 60 }),
{
    let max = if settings.timeout_secs >= 60 { settings.timeout_secs } else { 60 };
    if is_scheduled_task || is_background_job {
        max
    } else {
        let inter = if settings.interactive_timeout_secs >= 60 {
            settings.interactive_timeout_secs
        } else {
            60
        };
        if inter <= max {
            inter
        } else {
            max
        }
    }
}

/// The copy shown when a turn ran out of time without a final reply.
pub open spec fn spec_timeout_notice(timeout_secs: u64) -> Seq<char> {
    "This Cursor turn stopped after "@ + decimal_seq(timeout_secs as nat)
        + "s without a final reply. Generation may already have finished on disk (the Comfy queue can be empty). Reply `check again` to summarize existing files only — that does not start a new job."@
}

pub fn cursor_turn_timeout_notice(timeout_secs: u64) -> (r: String)
    ensures
        r@ == spec_timeout_notice(timeout_secs),
{
    let mut v = chars_of("This Cursor turn stopped after ");
    append_vec(&mut v, &u64_decimal(timeout_secs));
    append_str(
        &mut v,
        "s without a final reply. Generation may already have finished on disk (the Comfy queue can be empty). Reply `check again` to summarize existing files only — that does not start a new job.",
    );
    string_of(&v)
}

/// The copy shown when the live stream dies: with background work still running it
/// says so and warns against resending (mentioning the budget when the turn timed
/// out); otherwise it offers `check again`.
pub open spec fn spec_interrupt_notice(timeout_secs: u64, timed_out: bool, background_still_running: bool) -> Seq<char> {
    if background_still_running {
        if timed_out {
            "The live Cursor turn stopped after "@ + decimal_seq(timeout_secs as nat)
                + "s, but background work for this chat is still running. You'll get another message when it finishes. Do not send the same request again unless you want to start a new job."@
        } else {
            "The live Cursor stream dropped, but background work for this chat is still running. You'll get another message when it finishes. Do not send the same request again unless you want to start a new job."@
        }
    } else if timed_out {
        spec_timeout_notice(timeout_secs)
    } else {
        "The live Cursor stream dropped before a final reply was ready. Generation may already have finished on disk (the Comfy queue can be empty). Reply `check again` to summarize existing files only — that does not start a new job."@
    }
}

/// User-facing copy when the sidecar HTTP/NDJSON stream dies but work may still be running.
pub fn cursor_stream_interrupt_notice(
    timeout_secs: u64,
    timed_out: bool,
    background_still_running: bool,
) -> (r: String)
    ensures
        r@ == spec_interrupt_notice(timeout_secs, timed_out, background_still_running),
{
    if background_still_running {
        if timed_out {
            let mut v = chars_of("The live Cursor turn stopped after ");
            append_vec(&mut v, &u64_decimal(timeout_secs));
            append_str(
                &mut v,
                "s, but background work for this chat is still running. You'll get another message when it finishes. Do not send the same request again unless you want to start a new job.",
            );
            string_of(&v)
        } else {
            String::from_str(
                "The live Cursor stream dropped, but background work for this chat is still running. You'll get another message when it finishes. Do not send the same request again unless you want to start a new job.",
            )
        }
    } else if timed_out {
        cursor_turn_timeout_notice(timeout_secs)
    } else {
        String::from_str(
            "The live Cursor stream dropped before a final reply was ready. Generation may already have finished on disk (the Comfy queue can be empty). Reply `check again` to summarize existing files only — that does not start a new job.",
        )
    }
}

/// A message is an interrupt notice when, lower-cased, it holds one of the notices'
/// opening phrases. The phrases are ASCII without `k`, so ASCII lower-casing finds
/// exactly the matches that full Unicode lower-casing finds.
pub open spec fn spec_is_interrupt_notice(text: Seq<char>) -> bool {
    let lower = lower_seq(text);
    contains_seq(lower, "live cursor stream dropped"@) || contains_seq(lower, "live cursor turn stopped after"@)
        || contains_seq(lower, "this cursor turn stopped after"@)
}

pub fn is_cursor_interrupt_notice(text: &str) -> (r: bool)
    ensures
        r == spec_is_interrupt_notice(text@),
{
    let lower = lower_vec(&chars_of(text));
    contains(&lower, &chars_of("live cursor stream dropped")) || contains(
        &lower,
        &chars_of("live cursor turn stopped after"),
    ) || contains(&lower, &chars_of("this cursor turn stopped after"))
}

proof fn lemma_occurs_left(a: Seq<char>, b: Seq<char>, n: Seq<char>, i: int)
    requires
        occurs_at(a, n, i),
    ensures
        occurs_at(a + b, n, i),
        contains_seq(a + b, n),
{
    assert((a + b).subrange(i, i + n.len()) =~= a.subrange(i, i + n.len()));
}

proof fn lemma_occurs_right(a: Seq<char>, b: Seq<char>, n: Seq<char>, i: int)
    requires
        occurs_at(b, n, i),
    ensures
        occurs_at(a + b, n, a.len() + i),
        contains_seq(a + b, n),
{
    assert((a + b).subrange(a.len() + i, a.len() + i + n.len()) =~= b.subrange(i, i + n.len()));
}

proof fn lemma_lower_concat(a: Seq<char>, b: Seq<char>)
    ensures
        lower_seq(a + b) == lower_seq(a) + lower_seq(b),
{
    assert(lower_seq(a + b) =~= lower_seq(a) + lower_seq(b));
}

/// Every interrupt notice is recognised as one; the timed-out notice without
/// background work is the turn-timeout notice; with background work still running
/// the notice says so and warns against sending the request again; without it the
/// notice offers `check again` and says that this does not start a new job.
pub proof fn lemma_interrupt_notice(timeout_secs: u64, timed_out: bool, background_still_running: bool)
    ensures
        spec_is_interrupt_notice(spec_interrupt_notice(timeout_secs, timed_out, background_still_running)),
        timed_out && !background_still_running ==> spec_interrupt_notice(timeout_secs, timed_out, background_still_running)
            == spec_timeout_notice(timeout_secs),
        background_still_running ==> contains_seq(
            spec_interrupt_notice(timeout_secs, timed_out, background_still_running),
            "still running"@,
        ) && contains_seq(
            spec_interrupt_notice(timeout_secs, timed_out, background_still_running),
            "Do not send the same request again"@,
        ),
        !background_still_running ==> contains_seq(
            spec_interrupt_notice(timeout_secs, timed_out, background_still_running),
            "check again"@,
        ) && contains_seq(
            spec_interrupt_notice(timeout_secs, timed_out, background_still_running),
            "does not start a new job"@,
        ),
{
    let d = decimal_seq(timeout_secs as nat);
    reveal_strlit("still running");
    reveal_strlit("Do not send the same request again");
    reveal_strlit("check again");
    reveal_strlit("does not start a new job");
    reveal_strlit("live cursor stream dropped");
    reveal_strlit("live cursor turn stopped after");
    reveal_strlit("this cursor turn stopped after");
    if background_still_running {
        let tail = "s, but background work for this chat is still running. You'll get another message when it finishes. Do not send the same request again unless you want to start a new job."@;
        reveal_strlit("s, but background work for this chat is still running. You'll get another message when it finishes. Do not send the same request again unless you want to start a new job.");
        if timed_out {
            let head = "The live Cursor turn stopped after "@;
            reveal_strlit("The live Cursor turn stopped after ");
            assert(lower_seq(head).subrange(4, 34) =~= "live cursor turn stopped after"@);
            lemma_lower_concat(head, d);
            lemma_lower_concat(head + d, tail);
            lemma_occurs_left(lower_seq(head), lower_seq(d), "live cursor turn stopped after"@, 4);
            lemma_occurs_left(lower_seq(head) + lower_seq(d), lower_seq(tail), "live cursor turn stopped after"@, 4);
            assert(tail.subrange(40, 53) =~= "still running"@);
            assert(tail.subrange(100, 134) =~= "Do not send the same request again"@);
            lemma_occurs_right(head + d, tail, "still running"@, 40);
            lemma_occurs_right(head + d, tail, "Do not send the same request again"@, 100);
        } else {
            let t = "The live Cursor stream dropped, but background work for this chat is still running. You'll get another message when it finishes. Do not send the same request again unless you want to start a new job."@;
            reveal_strlit("The live Cursor stream dropped, but background work for this chat is still running. You'll get another message when it finishes. Do not send the same request again unless you want to start a new job.");
            assert(lower_seq(t).subrange(4, 30) =~= "live cursor stream dropped"@);
            assert(occurs_at(lower_seq(t), "live cursor stream dropped"@, 4));
            assert(t.subrange(69, 82) =~= "still running"@);
            assert(occurs_at(t, "still running"@, 69));
            assert(t.subrange(129, 163) =~= "Do not send the same request again"@);
            assert(occurs_at(t, "Do not send the same request again"@, 129));
        }
    } else if timed_out {
        let head = "This Cursor turn stopped after "@;
        let tail = "s without a final reply. Generation may already have finished on disk (the Comfy queue can be empty). Reply `check again` to summarize existing files only — that does not start a new job."@;
        reveal_strlit("This Cursor turn stopped after ");
        reveal_strlit("s without a final reply. Generation may already have finished on disk (the Comfy queue can be empty). Reply `check again` to summarize existing files only — that does not start a new job.");
        assert(lower_seq(head).subrange(0, 30) =~= "this cursor turn stopped after"@);
        lemma_lower_concat(head, d);
        lemma_lower_concat(head + d, tail);
        lemma_occurs_left(lower_seq(head), lower_seq(d), "this cursor turn stopped after"@, 0);
        lemma_occurs_left(lower_seq(head) + lower_seq(d), lower_seq(tail), "this cursor turn stopped after"@, 0);
        assert(tail.subrange(109, 120) =~= "check again"@);
        assert(tail.subrange(162, 186) =~= "does not start a new job"@);
        lemma_occurs_right(head + d, tail, "check again"@, 109);
        lemma_occurs_right(head + d, tail, "does not start a new job"@, 162);
    } else {
        let t = "The live Cursor stream dropped before a final reply was ready. Generation may already have finished on disk (the Comfy queue can be empty). Reply `check again` to summarize existing files only — that does not start a new job."@;
        reveal_strlit("The live Cursor stream dropped before a final reply was ready. Generation may already have finished on disk (the Comfy queue can be empty). Reply `check again` to summarize existing files only — that does not start a new job.");
        assert(lower_seq(t).subrange(4, 30) =~= "live cursor stream dropped"@);
        assert(occurs_at(lower_seq(t), "live cursor stream dropped"@, 4));
        assert(t.subrange(147, 158) =~= "check again"@);
        assert(occurs_at(t, "check again"@, 147));
        assert(t.subrange(200, 224) =~= "does not start a new job"@);
        assert(occurs_at(t, "does not start a new job"@, 200));
    }
}

/// A runner URL must be non-blank and start with `http://` or `https://`.
pub fn validate_runner_url(url: &str) -> (r: Result<(), String>)
    ensures
        trim_seq(url@).len() == 0 ==> (r matches Err(e) && e@ == "Runner URL is required"@),
        trim_seq(url@).len() > 0 && !has_prefix(trim_seq(url@), "http://"@) && !has_prefix(
            trim_seq(url@),
            "https://"@,
        ) ==> (r matches Err(e) && e@ == "Runner URL must start with http:// or https://"@),
        r is Ok <==> (trim_seq(url@).len() > 0 && (has_prefix(trim_seq(url@), "http://"@)
            || has_prefix(trim_seq(url@), "https://"@))),
{
    let u = trim_vec(&chars_of(url));
    if u.len() == 0 {
        return Err(String::from_str("Runner URL is required"));
    }
    if !starts_with(&u, &chars_of("http://")) && !starts_with(&u, &chars_of("https://")) {
        return Err(String::from_str("Runner URL must start with http:// or https://"));
    }
    Ok(())
}

/// A partial update of the engine settings from the settings page: each field
/// that is present replaces the stored one.
#[derive(Debug, Clone)]
pub struct CursorEnginePatchRequest {
    pub sdk_runner_url: Option<String>,
    pub sdk_model: Option<String>,
    pub sdk_model_params: Option<Vec<CursorModelParam>>,
    pub cli_path: Option<String>,
    pub cli_model: Option<String>,
    pub cli_runner_url: Option<String>,
    pub timeout_secs: Option<u64>,
    pub interactive_timeout_secs: Option<u64>,
    pub tmux_enabled: Option<bool>,
    pub mcp_tools_enabled: Option<bool>,
    pub mcp_expose_send_message: Option<bool>,
    pub delegation_slim_prompt: Option<bool>,
    pub delegation_resume_delta: Option<bool>,
}

} // verus!
