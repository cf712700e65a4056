//! Decisions of the local Cursor SDK sidecar: where it listens, which Python runs
//! it, when an attached sidecar is stale, when it must be restarted or recycled,
//! and what the bootstrap records. Processes, files and HTTP stay outside.
use vstd::prelude::*;
use crate::config::Config;
use crate::cursor_engine_config::{
    bool_text, spec_bool_text, SidecarHealth, APP_SETTING_CURSOR_SDK_RUNNER_OK,
    APP_SETTING_CURSOR_SDK_RUNNER_URL,
};
use crate::decimal::{decimal_seq, u64_decimal};
use crate::json::JsonValue;
use crate::paths::{path_join_seq, path_join_str};
use crate::text::{
    append_str, append_vec, chars_of, ends_with, has_prefix, has_suffix, starts_with, string_of,
    trim_end_set, trim_end_set_vec, trim_seq, trim_vec, vec_eq,
};

verus! {

broadcast use vstd::string::group_string_axioms;

/// Seconds between two supervisor health checks.
pub const SUPERVISOR_INTERVAL_SECS: u64 = 30;
/// Extra OS bridge processes tolerated beyond the active persona bridges.
pub const ORPHAN_BRIDGE_SLACK: u64 = 4;
/// Consecutive unreachable checks after which the sidecar is force-recycled.
pub const WEDGED_STREAK_LIMIT: u8 = 2;
/// Lower bound of the sidecar's maximum uptime.
pub const MIN_MAX_UPTIME_SECS: u64 = 300;

/// `http://127.0.0.1:<port>`.
pub open spec fn local_runner_url_seq(port: u16) -> Seq<char> {
    "http://127.0.0.1:"@ + decimal_seq(port as nat)
}

/// The sidecar URL on this machine for `port`.
pub fn default_local_runner_url(port: u16) -> (r: String)
    ensures
        r@ == local_runner_url_seq(port),
{
    let mut v = chars_of("http://127.0.0.1:");
    let d = u64_decimal(port as u64);
    append_vec(&mut v, &d);
    string_of(&v)
}

/// `s` trimmed of whitespace and of trailing slashes.
pub open spec fn trim_url_seq(s: Seq<char>) -> Seq<char> {
    trim_end_set(trim_seq(s), seq!['/'])
}

fn trim_url(v: &Vec<char>) -> (r: Vec<char>)
    ensures
        r@ == trim_url_seq(v@),
{
    let slash = vec!['/'];
    assert(slash@ =~= seq!['/']);
    trim_end_set_vec(&trim_vec(v), &slash)
}

/// A runner URL that points at a sidecar this bot may start: empty, the default
/// local URL, or any `http://127.0.0.1:` / `http://localhost:` URL.
pub open spec fn is_local_runner_url_seq(url: Seq<char>, port: u16) -> bool {
    let t = trim_url_seq(url);
    ||| t.len() == 0
    ||| t == trim_end_set(local_runner_url_seq(port), seq!['/'])
    ||| has_prefix(t, "http://127.0.0.1:"@)
    ||| has_prefix(t, "http://localhost:"@)
}

pub fn is_local_runner_url(url: &str, port: u16) -> (r: bool)
    ensures
        r == is_local_runner_url_seq(url@, port),
{
    let t = trim_url(&chars_of(url));
    let slash = vec!['/'];
    assert(slash@ =~= seq!['/']);
    let def = trim_end_set_vec(&chars_of(default_local_runner_url(port).as_str()), &slash);
    t.len() == 0 || vec_eq(&t, &def) || starts_with(&t, &chars_of("http://127.0.0.1:"))
        || starts_with(&t, &chars_of("http://localhost:"))
}

/// Every runner URL that, trimmed of whitespace and trailing slashes, is empty or
/// starts with `http://127.0.0.1:` or `http://localhost:` is a local runner the
/// bot may start, whatever the configured port.
pub proof fn lemma_loopback_urls_are_local(url: Seq<char>, port: u16)
    ensures
        ({
            let t = trim_end_set(trim_seq(url), seq!['/']);
            t.len() == 0 || has_prefix(t, "http://127.0.0.1:"@) || has_prefix(t, "http://localhost:"@)
        }) ==> is_local_runner_url_seq(url, port),
{
}

/// The venv's Python on a Unix layout: `<venv>/bin/python`.
pub open spec fn venv_python_seq(venv_dir: Seq<char>) -> Seq<char> {
    path_join_seq(path_join_seq(venv_dir, "bin"@), "python"@)
}

pub fn venv_python_executable(venv_dir: &str) -> (r: String)
    ensures
        r@ == venv_python_seq(venv_dir@),
{
    let a = path_join_str(&chars_of(venv_dir), "bin");
    let b = path_join_str(&a, "python");
    string_of(&b)
}

/// The configured interpreter, or `python3`.
pub open spec fn base_python_seq(configured: Seq<char>) -> Seq<char> {
    if trim_seq(configured).len() == 0 {
        "python3"@
    } else {
        trim_seq(configured)
    }
}

pub fn base_python_executable(config: &Config) -> (r: String)
    ensures
        r@ == base_python_seq(config.cursor_sdk_python@),
{
    let t = trim_vec(&chars_of(config.cursor_sdk_python.as_str()));
    if t.len() == 0 {
        String::from_str("python3")
    } else {
        string_of(&t)
    }
}

/// The interpreter a respawn uses: the managed venv's Python when auto-install is on
/// and it exists, else the configured interpreter or `python3`.
pub fn respawn_python(auto_install: bool, venv_python: &str, venv_python_exists: bool, python_override: &str) -> (r: String)
    ensures
        auto_install && venv_python_exists ==> r@ == venv_python@,
        !(auto_install && venv_python_exists) ==> r@ == base_python_seq(python_override@),
{
    if auto_install && venv_python_exists {
        string_of(&chars_of(venv_python))
    } else {
        let t = trim_vec(&chars_of(python_override));
        if t.len() == 0 {
            String::from_str("python3")
        } else {
            string_of(&t)
        }
    }
}

/// The sidecar must be (re)started: it is unreachable or lacks the SDK.
pub open spec fn spec_needs_restart(h: SidecarHealth) -> bool {
    !h.reachable || !h.cursor_sdk_installed
}

pub fn sidecar_needs_restart(health: &SidecarHealth) -> (r: bool)
    ensures
        r == spec_needs_restart(*health),
{
    !health.reachable || !health.cursor_sdk_installed
}

/// More OS bridge processes than active persona bridges allow.
pub open spec fn has_orphan_bridges(h: SidecarHealth) -> bool {
    h.os_bridge_pids > h.persona_bridges_active + ORPHAN_BRIDGE_SLACK
}

fn orphan_bridges(h: &SidecarHealth) -> (r: bool)
    ensures
        r == has_orphan_bridges(*h),
{
    h.os_bridge_pids > h.persona_bridges_active.saturating_add(ORPHAN_BRIDGE_SLACK)
}

/// An attached sidecar is stale when it is up with the SDK but has run past its
/// maximum uptime, was started before the runner script last changed, or holds
/// orphan bridge processes.
pub open spec fn spec_stale_attach(h: SidecarHealth, max_uptime_secs: u64, script_mtime: Option<u64>) -> bool {
    if !h.reachable || !h.cursor_sdk_installed {
        false
    } else if h.uptime_secs >= max_uptime_secs {
        true
    } else if script_mtime is Some && h.started_at_unix > 0 && script_mtime.unwrap() > h.started_at_unix {
        true
    } else {
        has_orphan_bridges(h)
    }
}

/// `script_mtime` is the runner script's modification time in Unix seconds, when known.
pub fn health_suggests_stale_attach(health: &SidecarHealth, max_uptime_secs: u64, script_mtime: Option<u64>) -> (r: bool)
    ensures
        r == spec_stale_attach(*health, max_uptime_secs, script_mtime),
{
    if !health.reachable || !health.cursor_sdk_installed {
        return false;
    }
    if health.uptime_secs >= max_uptime_secs {
        return true;
    }
    match script_mtime {
        Some(m) => {
            if health.started_at_unix > 0 && m > health.started_at_unix {
                return true;
            }
        },
        None => {},
    }
    orphan_bridges(health)
}

/// Why the supervisor asks an idle sidecar to recycle itself.
#[derive(Debug, Clone, Copy, PartialEq, Eq, Structural)]
pub enum SoftRecycleReason {
    MaxUptime,
    OrphanBridges,
    ScriptUpdated,
}

impl SoftRecycleReason {
    pub fn as_str(&self) -> (r: &'static str)
        ensures
            *self == SoftRecycleReason::MaxUptime ==> r@ == "max_uptime"@,
            *self == SoftRecycleReason::OrphanBridges ==> r@ == "orphan_bridges"@,
            *self == SoftRecycleReason::ScriptUpdated ==> r@ == "script_updated"@,
    {
        match self {
            SoftRecycleReason::MaxUptime => "max_uptime",
            SoftRecycleReason::OrphanBridges => "orphan_bridges",
            SoftRecycleReason::ScriptUpdated => "script_updated",
        }
    }
}

/// What the supervisor does after one health check.
#[derive(Debug, Clone, Copy, PartialEq, Eq, Structural)]
pub enum SupervisorAction {
    Nothing,
    ForceRecycle,
    SoftRecycle(SoftRecycleReason),
}

/// The supervisor's next streak of unreachable checks.
pub open spec fn spec_next_streak(streak: u8, h: SidecarHealth) -> u8 {
    if h.reachable {
        0
    } else if streak + 1 >= WEDGED_STREAK_LIMIT {
        0
    } else {
        (streak + 1) as u8
    }
}

/// The supervisor's action after one health check.
pub open spec fn spec_supervisor_action(streak: u8, h: SidecarHealth, max_uptime_secs: u64, script_mtime: Option<u64>) -> SupervisorAction {
    if !h.reachable {
        if streak + 1 >= WEDGED_STREAK_LIMIT {
            SupervisorAction::ForceRecycle
        } else {
            SupervisorAction::Nothing
        }
    } else if h.uptime_secs >= max_uptime_secs && h.runs_in_flight == 0 {
        SupervisorAction::SoftRecycle(SoftRecycleReason::MaxUptime)
    } else if has_orphan_bridges(h) && h.runs_in_flight == 0 {
        SupervisorAction::SoftRecycle(SoftRecycleReason::OrphanBridges)
    } else if script_mtime is Some && h.started_at_unix > 0 && script_mtime.unwrap() > h.started_at_unix
        && h.runs_in_flight == 0 {
        SupervisorAction::SoftRecycle(SoftRecycleReason::ScriptUpdated)
    } else {
        SupervisorAction::Nothing
    }
}

/// One supervisor tick: from the streak of unreachable checks and the health just
/// read, the next streak and what to do. Two unreachable checks in a row force a
/// recycle; an idle sidecar past its uptime, with orphan bridges, or older than its
/// script is asked to recycle itself; a busy one is left alone.
pub fn supervisor_step(streak: u8, health: &SidecarHealth, max_uptime_secs: u64, script_mtime: Option<u64>) -> (r: (u8, SupervisorAction))
    ensures
        r.0 == spec_next_streak(streak, *health),
        r.1 == spec_supervisor_action(streak, *health, max_uptime_secs, script_mtime),
        r.1 is SoftRecycle ==> health.reachable && health.runs_in_flight == 0,
        r.0 < WEDGED_STREAK_LIMIT,
{
    if !health.reachable {
        let next = streak.saturating_add(1);
        if next >= WEDGED_STREAK_LIMIT {
            return (0, SupervisorAction::ForceRecycle);
        }
        return (next, SupervisorAction::Nothing);
    }
    if health.uptime_secs >= max_uptime_secs && health.runs_in_flight == 0 {
        return (0, SupervisorAction::SoftRecycle(SoftRecycleReason::MaxUptime));
    }
    if orphan_bridges(health) && health.runs_in_flight == 0 {
        return (0, SupervisorAction::SoftRecycle(SoftRecycleReason::OrphanBridges));
    }
    match script_mtime {
        Some(m) => {
            if health.started_at_unix > 0 && m > health.started_at_unix && health.runs_in_flight == 0 {
                return (0, SupervisorAction::SoftRecycle(SoftRecycleReason::ScriptUpdated));
            }
        },
        None => {},
    }
    (0, SupervisorAction::Nothing)
}

/// Whether a soft recycle request was taken: the reply is not `202 Accepted` and its
/// JSON body says `"accepted": true`.
pub fn soft_recycle_accepted(status: u16, body: Option<&JsonValue>) -> (r: bool)
    ensures
        r == (status != 202 && body is Some && body.unwrap().spec_get("accepted"@) is Some
            && body.unwrap().spec_get("accepted"@).unwrap().spec_as_bool() == Some(true)),
{
    let accepted = match body {
        Some(b) => match b.get("accepted") {
            Some(v) => match v.as_bool() {
                Some(x) => x,
                None => false,
            },
            None => false,
        },
        None => false,
    };
    status != 202 && accepted
}

/// The sidecar's maximum uptime: the configured value, at least 300 seconds.
pub fn supervisor_max_uptime_secs(configured: u64) -> (r: u64)
    ensures
        r == (if configured >= MIN_MAX_UPTIME_SECS { configured } else { MIN_MAX_UPTIME_SECS }),
{
    if configured >= MIN_MAX_UPTIME_SECS {
        configured
    } else {
        MIN_MAX_UPTIME_SECS
    }
}

/// The runner URL the bootstrap uses: the configured one, or the local default when
/// it is blank.
pub fn bootstrap_runner_url(configured: &str, port: u16) -> (r: String)
    ensures
        trim_seq(configured@).len() == 0 ==> r@ == local_runner_url_seq(port),
        trim_seq(configured@).len() > 0 ==> r@ == configured@,
{
    let t = trim_vec(&chars_of(configured));
    if t.len() == 0 {
        default_local_runner_url(port)
    } else {
        string_of(&chars_of(configured))
    }
}

/// The bootstrap supervises the sidecar only when auto-start is on, the bot is not in
/// a container and the runner URL is local.
pub fn should_supervise(auto_start: bool, in_docker: bool, runner_url: &str, port: u16) -> (r: bool)
    ensures
        r == (auto_start && !in_docker && is_local_runner_url_seq(runner_url@, port)),
{
    auto_start && !in_docker && is_local_runner_url(runner_url, port)
}

/// A runner is usable when it answers, has an API key and has the SDK.
pub open spec fn spec_runner_ok(h: SidecarHealth) -> bool {
    h.reachable && h.api_key_configured && h.cursor_sdk_installed
}

pub fn bootstrap_runner_ok(health: &SidecarHealth) -> (r: bool)
    ensures
        r == spec_runner_ok(*health),
{
    health.reachable && health.api_key_configured && health.cursor_sdk_installed
}

/// What the bootstrap reports once the final health is known.
#[derive(Debug, Clone, Copy, PartialEq, Eq, Structural)]
pub enum BootstrapStatus {
    Ready,
    SdkMissing,
    ApiKeyMissing,
    NotReady,
    Silent,
}

pub fn bootstrap_status(health: &SidecarHealth, auto_start: bool) -> (r: BootstrapStatus)
    ensures
        r == (if spec_runner_ok(*health) {
            BootstrapStatus::Ready
        } else if health.reachable && !health.cursor_sdk_installed {
            BootstrapStatus::SdkMissing
        } else if health.reachable {
            BootstrapStatus::ApiKeyMissing
        } else if auto_start {
            BootstrapStatus::NotReady
        } else {
            BootstrapStatus::Silent
        }),
{
    if bootstrap_runner_ok(health) {
        BootstrapStatus::Ready
    } else if health.reachable && !health.cursor_sdk_installed {
        BootstrapStatus::SdkMissing
    } else if health.reachable {
        BootstrapStatus::ApiKeyMissing
    } else if auto_start {
        BootstrapStatus::NotReady
    } else {
        BootstrapStatus::Silent
    }
}

/// The two settings the bootstrap records: the trimmed runner URL and whether the
/// runner is usable.
pub fn bootstrap_setting_rows(runner_url: &str, runner_ok: bool) -> (r: Vec<(String, String)>)
    ensures
        r@.len() == 2,
        r@[0].0@ == APP_SETTING_CURSOR_SDK_RUNNER_URL@,
        r@[0].1@ == trim_seq(runner_url@),
        r@[1].0@ == APP_SETTING_CURSOR_SDK_RUNNER_OK@,
        r@[1].1@ == spec_bool_text(runner_ok),
{
    let mut rows: Vec<(String, String)> = Vec::new();
    rows.push((String::from_str(APP_SETTING_CURSOR_SDK_RUNNER_URL), string_of(&trim_vec(&chars_of(runner_url)))));
    rows.push((String::from_str(APP_SETTING_CURSOR_SDK_RUNNER_OK), bool_text(runner_ok)));
    rows
}

} // verus!
