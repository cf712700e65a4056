//! The loopback MCP bridge that exposes the bot's tools to a Cursor run: the run
//! table (tokens, expiry, per-run scratch), the checks every request passes, the
//! protocol version, method routing and tool permissions. HTTP and tool dispatch
//! stay outside.
use vstd::prelude::*;
use crate::decimal::{decimal_seq, u64_decimal};
use crate::json::{entries_model, items_model, json_model, JsonModel, JsonValue};
use crate::text::{
    append_str, append_vec, chars_of, has_prefix, lower_seq, lower_vec, starts_with, string_of, trim_seq, trim_vec,
    vec_eq,
};

verus! {

broadcast use vstd::string::group_string_axioms;

pub const MCP_SERVER_NAME: &'static str = "finally-a-value-bot";
/// How long a run token stays valid, in seconds.
pub const RUN_TTL_SECS: u64 = 3600;
pub const DEFAULT_PROTOCOL_VERSION: &'static str = "2025-11-25";

/// The MCP protocol versions spoken, newest first.
pub open spec fn supported_protocol_versions() -> Seq<Seq<char>> {
    seq!["2025-11-25"@, "2025-06-18"@, "2025-03-26"@, "2024-11-05"@]
}

/// The version answered to `initialize`: the requested one (trimmed) when it is
/// supported, else the newest.
pub open spec fn spec_negotiate(requested: Option<Seq<char>>) -> Seq<char> {
    match requested {
        Some(r) => {
            let t = trim_seq(r);
            if t.len() > 0 && supported_protocol_versions().contains(t) {
                t
            } else {
                DEFAULT_PROTOCOL_VERSION@
            }
        },
        None => DEFAULT_PROTOCOL_VERSION@,
    }
}

pub fn negotiate_protocol_version(requested: Option<&str>) -> (r: &'static str)
    ensures
        r@ == spec_negotiate(match requested { Some(s) => Some(s@), None => None }),
        supported_protocol_versions().contains(r@),
{
    proof {
        assert(supported_protocol_versions()[0] == DEFAULT_PROTOCOL_VERSION@);
    }
    let t = match requested {
        Some(s) => trim_vec(&chars_of(s)),
        None => {
            return DEFAULT_PROTOCOL_VERSION;
        },
    };
    if t.len() == 0 {
        return DEFAULT_PROTOCOL_VERSION;
    }
    let versions = ["2025-11-25", "2025-06-18", "2025-03-26", "2024-11-05"];
    assert(versions@[0]@ == supported_protocol_versions()[0]);
    assert(versions@[1]@ == supported_protocol_versions()[1]);
    assert(versions@[2]@ == supported_protocol_versions()[2]);
    assert(versions@[3]@ == supported_protocol_versions()[3]);
    let mut i: usize = 0;
    while i < 4
        invariant
            i <= 4,
            versions@.len() == 4,
            t@.len() > 0,
            requested matches Some(s) && t@ == trim_seq(s@),
            forall|k: int| 0 <= k < 4 ==> (#[trigger] versions@[k])@ == supported_protocol_versions()[k],
            forall|k: int| 0 <= k < i ==> supported_protocol_versions()[k] != t@,
        decreases 4 - i,
    {
        if vec_eq(&t, &chars_of(versions[i])) {
            assert(supported_protocol_versions()[i as int] == t@);
            return versions[i];
        }
        i += 1;
    }
    assert(!supported_protocol_versions().contains(t@)) by {
        if supported_protocol_versions().contains(t@) {
            let k = choose|k: int| 0 <= k < 4 && supported_protocol_versions()[k] == t@;
            assert(supported_protocol_versions()[k] != t@);
        }
    }
    DEFAULT_PROTOCOL_VERSION
}

/// Tools never exposed to a Cursor run (they would let it recurse into itself).
pub open spec fn default_denied_tools() -> Seq<Seq<char>> {
    seq!["cursor_agent"@, "cursor_agent_send"@, "list_cursor_agent_runs"@]
}

/// A tool may be called by a Cursor run unless it is denied by default, or it is
/// `send_message` and the run does not expose it.
pub open spec fn spec_tool_allowed(expose_send_message: bool, name: Seq<char>) -> bool {
    !default_denied_tools().contains(name) && !(name == "send_message"@ && !expose_send_message)
}

pub fn tool_allowed(expose_send_message: bool, name: &str) -> (r: bool)
    ensures
        r == spec_tool_allowed(expose_send_message, name@),
{
    let n = chars_of(name);
    let d0 = vec_eq(&n, &chars_of("cursor_agent"));
    let d1 = vec_eq(&n, &chars_of("cursor_agent_send"));
    let d2 = vec_eq(&n, &chars_of("list_cursor_agent_runs"));
    proof {
        let ds = default_denied_tools();
        assert(ds[0] == "cursor_agent"@ && ds[1] == "cursor_agent_send"@ && ds[2] == "list_cursor_agent_runs"@);
        if ds.contains(name@) {
            let k = choose|k: int| 0 <= k < 3 && ds[k] == name@;
            assert(k == 0 || k == 1 || k == 2);
        }
    }
    if d0 || d1 || d2 {
        return false;
    }
    if vec_eq(&n, &chars_of("send_message")) && !expose_send_message {
        return false;
    }
    true
}

/// The bridge's endpoint on this machine.
pub fn mcp_endpoint_url(web_port: u16) -> (r: String)
    ensures
        r@ == "http://127.0.0.1:"@ + decimal_seq(web_port as nat) + "/internal/cursor-mcp"@,
{
    let mut v = chars_of("http://127.0.0.1:");
    append_vec(&mut v, &u64_decimal(web_port as u64));
    append_str(&mut v, "/internal/cursor-mcp");
    string_of(&v)
}

/// An `Origin` header the bridge accepts: none given (blank or `null`) or a
/// loopback origin.
pub open spec fn spec_origin_allowed(origin: Seq<char>) -> bool {
    let o = lower_seq(trim_seq(origin));
    o.len() == 0 || o == "null"@ || has_prefix(o, "http://127.0.0.1"@) || has_prefix(o, "http://localhost"@)
        || has_prefix(o, "https://127.0.0.1"@) || has_prefix(o, "https://localhost"@)
}

pub fn origin_is_allowed(origin: &str) -> (r: bool)
    ensures
        r == spec_origin_allowed(origin@),
{
    let o = lower_vec(&trim_vec(&chars_of(origin)));
    o.len() == 0 || vec_eq(&o, &chars_of("null")) || starts_with(&o, &chars_of("http://127.0.0.1")) || starts_with(
        &o,
        &chars_of("http://localhost"),
    ) || starts_with(&o, &chars_of("https://127.0.0.1")) || starts_with(&o, &chars_of("https://localhost"))
}

/// The token of an `Authorization: Bearer <token>` header, trimmed, when not blank.
pub open spec fn spec_bearer(authorization: Option<Seq<char>>) -> Option<Seq<char>> {
    match authorization {
        Some(a) => if has_prefix(a, "Bearer "@) {
            let t = trim_seq(a.subrange(7, a.len() as int));
            if t.len() > 0 {
                Some(t)
            } else {
                None
            }
        } else {
            None
        },
        None => None,
    }
}

pub fn bearer_token(authorization: Option<&str>) -> (r: Option<String>)
    ensures
        match r { Some(t) => Some(t@), None => None } == spec_bearer(match authorization { Some(a) => Some(a@), None => None }),
{
    proof {
        reveal_strlit("Bearer ");
    }
    match authorization {
        Some(a) => {
            let v = chars_of(a);
            if starts_with(&v, &chars_of("Bearer ")) {
                let t = trim_vec(&crate::text::subvec(&v, 7, v.len()));
                if t.len() > 0 {
                    Some(string_of(&t))
                } else {
                    None
                }
            } else {
                None
            }
        },
        None => None,
    }
}

/// How the bridge answers before it looks at a request's body.
#[derive(Debug, Clone)]
pub enum McpGate {
    /// 403 with this text.
    Forbidden(&'static str),
    /// 401: a bearer token is required.
    Unauthorized,
    /// Go on with this run token.
    Proceed(String),
}

/// The checks of every POST: loopback peers only, an accepted `Origin` when one is
/// sent, and a bearer token.
pub fn mcp_request_gate(peer_is_loopback: bool, origin: Option<&str>, authorization: Option<&str>) -> (r: McpGate)
    ensures
        !peer_is_loopback ==> (r matches McpGate::Forbidden(m) && m@ == "loopback only"@),
        peer_is_loopback && (origin matches Some(o) && !spec_origin_allowed(o@)) ==> (r matches McpGate::Forbidden(m)
            && m@ == "invalid origin"@),
        peer_is_loopback && !(origin matches Some(o) && !spec_origin_allowed(o@)) ==> match spec_bearer(
            match authorization { Some(a) => Some(a@), None => None },
        ) {
            Some(t) => r matches McpGate::Proceed(x) && x@ == t,
            None => r is Unauthorized,
        },
{
    if !peer_is_loopback {
        return McpGate::Forbidden("loopback only");
    }
    match origin {
        Some(o) => {
            if !origin_is_allowed(o) {
                return McpGate::Forbidden("invalid origin");
            }
        },
        None => {},
    }
    match bearer_token(authorization) {
        Some(t) => McpGate::Proceed(t),
        None => McpGate::Unauthorized,
    }
}

/// The status of a GET: 403 for a non-loopback peer or a refused origin, else 405
/// (no listening stream is offered).
pub fn mcp_get_status(peer_is_loopback: bool, origin: Option<&str>) -> (r: u16)
    ensures
        !peer_is_loopback ==> r == 403,
        peer_is_loopback && (origin matches Some(o) && !spec_origin_allowed(o@)) ==> r == 403,
        peer_is_loopback && !(origin matches Some(o) && !spec_origin_allowed(o@)) ==> r == 405,
{
    if !peer_is_loopback {
        return 403;
    }
    match origin {
        Some(o) => {
            if !origin_is_allowed(o) {
                return 403;
            }
        },
        None => {},
    }
    405
}

/// The JSON-RPC methods the bridge serves.
#[derive(Debug, Clone, Copy, PartialEq, Eq, Structural)]
pub enum McpMethod {
    Initialize,
    Initialized,
    ToolsList,
    ToolsCall,
    Ping,
    Unknown,
}

pub open spec fn spec_mcp_method(m: Seq<char>) -> McpMethod {
    if m == "initialize"@ {
        McpMethod::Initialize
    } else if m == "notifications/initialized"@ {
        McpMethod::Initialized
    } else if m == "tools/list"@ {
        McpMethod::ToolsList
    } else if m == "tools/call"@ {
        McpMethod::ToolsCall
    } else if m == "ping"@ {
        McpMethod::Ping
    } else {
        McpMethod::Unknown
    }
}

pub fn mcp_method(method: &str) -> (r: McpMethod)
    ensures
        r == spec_mcp_method(method@),
{
    let m = chars_of(method);
    if vec_eq(&m, &chars_of("initialize")) {
        McpMethod::Initialize
    } else if vec_eq(&m, &chars_of("notifications/initialized")) {
        McpMethod::Initialized
    } else if vec_eq(&m, &chars_of("tools/list")) {
        McpMethod::ToolsList
    } else if vec_eq(&m, &chars_of("tools/call")) {
        McpMethod::ToolsCall
    } else if vec_eq(&m, &chars_of("ping")) {
        McpMethod::Ping
    } else {
        McpMethod::Unknown
    }
}

/// The error text for an unknown method.
pub fn method_not_found(method: &str) -> (r: String)
    ensures
        r@ == "Method not found: "@ + method@,
{
    let mut v = chars_of("Method not found: ");
    append_str(&mut v, method);
    string_of(&v)
}

/// The error text for a body that is not a JSON-RPC request.
pub fn parse_error_text(err: &str) -> (r: String)
    ensures
        r@ == "Parse error: "@ + err@,
{
    let mut v = chars_of("Parse error: ");
    append_str(&mut v, err);
    string_of(&v)
}

/// What a POST to the bridge comes to.
#[derive(Debug)]
pub enum McpPostStep {
    /// 403 with this text.
    Forbidden(&'static str),
    /// 401: a bearer token is required.
    Unauthorized,
    /// JSON-RPC error -32700 with this text; no request id is known.
    ParseError(String),
    /// JSON-RPC error -32001: the token names no live run.
    InvalidToken,
    /// The request is served for the run with this token.
    Dispatch(String, McpMethod),
}

/// How a request to the bridge is answered. First the peer, origin and bearer
/// token decide (`gate`); next the JSON-RPC body (its method, or the text of the
/// error reading it); last whether the token names a live run. Only a request
/// that passes all three is served; every other outcome serves nothing.
pub fn mcp_post_step(gate: McpGate, parsed: Result<&str, &str>, run_live: bool) -> (r: McpPostStep)
    ensures
        match gate {
            McpGate::Forbidden(m) => r matches McpPostStep::Forbidden(x) && x == m,
            McpGate::Unauthorized => r is Unauthorized,
            McpGate::Proceed(t) => match parsed {
                Err(e) => r matches McpPostStep::ParseError(x) && x@ == "Parse error: "@ + e@,
                Ok(method) => if run_live {
                    r matches McpPostStep::Dispatch(tok, m) && tok@ == t@ && m == spec_mcp_method(method@)
                } else {
                    r is InvalidToken
                },
            },
        },
{
    match gate {
        McpGate::Forbidden(m) => McpPostStep::Forbidden(m),
        McpGate::Unauthorized => McpPostStep::Unauthorized,
        McpGate::Proceed(t) => match parsed {
            Err(e) => McpPostStep::ParseError(parse_error_text(e)),
            Ok(method) => if run_live {
                McpPostStep::Dispatch(t, mcp_method(method))
            } else {
                McpPostStep::InvalidToken
            },
        },
    }
}

/// The version answered to `initialize`, from the request's `protocolVersion`.
pub fn mcp_initialize_version(params: Option<&JsonValue>) -> (r: &'static str)
    ensures
        r@ == spec_negotiate(match params {
            Some(p) => match p.spec_get("protocolVersion"@) {
                Some(v) => v.spec_as_str(),
                None => None,
            },
            None => None,
        }),
{
    let requested = match params {
        Some(p) => match p.get("protocolVersion") {
            Some(v) => v.as_str(),
            None => None,
        },
        None => None,
    };
    negotiate_protocol_version(requested)
}

/// The tool named by a `tools/call`, or the JSON-RPC error: `-32602` without a name,
/// `-32002` for a tool the run may not call.
pub fn tools_call_target(params: Option<&JsonValue>, expose_send_message: bool) -> (r: Result<String, (i64, String)>)
    ensures
        ({
            let name = match params {
                Some(p) => match p.spec_get("name"@) {
                    Some(v) => match v.spec_as_str() {
                        Some(s) => trim_seq(s),
                        None => Seq::empty(),
                    },
                    None => Seq::empty(),
                },
                None => Seq::empty(),
            };
            if name.len() == 0 {
                r matches Err((c, m)) && c == -32602 && m@ == "tools/call requires name"@
            } else if !spec_tool_allowed(expose_send_message, name) {
                r matches Err((c, m)) && c == -32002 && m@ == "Tool not allowed: "@ + name
            } else {
                r matches Ok(n) && n@ == name
            }
        }),
{
    let name = match params {
        Some(p) => match p.get("name") {
            Some(v) => match v.as_str() {
                Some(s) => trim_vec(&chars_of(s)),
                None => Vec::new(),
            },
            None => Vec::new(),
        },
        None => Vec::new(),
    };
    if name.len() == 0 {
        return Err((-32602, String::from_str("tools/call requires name")));
    }
    let n = string_of(&name);
    if !tool_allowed(expose_send_message, n.as_str()) {
        let mut v = chars_of("Tool not allowed: ");
        append_vec(&mut v, &name);
        return Err((-32002, string_of(&v)));
    }
    Ok(n)
}

/// A health probe of the bridge succeeds when it answers at all with a success,
/// 401 or 403 status.
pub fn mcp_probe_healthy(status: u16) -> (r: bool)
    ensures
        r == ((200 <= status && status < 300) || status == 401 || status == 403),
{
    (200 <= status && status < 300) || status == 401 || status == 403
}

// ---------------------------------------------------------------------------
// Run table
// ---------------------------------------------------------------------------

/// What a Cursor run registers with the bridge.
#[derive(Debug, Clone)]
pub struct CursorMcpRegisterParams {
    pub run_key: String,
    pub chat_id: i64,
    pub persona_id: i64,
    pub caller_channel: String,
    pub is_scheduled_task: bool,
    pub expose_send_message: bool,
}

/// A registered run: its token, when it expires (seconds on the caller's monotonic
/// clock), and what its tool calls have left behind.
#[derive(Debug, Clone)]
pub struct McpRun {
    pub token: String,
    pub expires_at: u64,
    pub params: CursorMcpRegisterParams,
    pub executed_tool_names: Vec<String>,
    pub history_hook_events: Vec<String>,
    pub force_stall_response: Option<String>,
}

/// The runs the bridge knows, each token once.
pub struct CursorMcpRegistry {
    runs: Vec<McpRun>,
}

/// The tokens and expiry times of a list of runs.
pub open spec fn run_keys(runs: Seq<McpRun>) -> Seq<(Seq<char>, u64)> {
    runs.map_values(|r: McpRun| (r.token@, r.expires_at))
}

/// Each token appears once.
pub open spec fn tokens_unique(keys: Seq<(Seq<char>, u64)>) -> bool {
    forall|i: int, j: int| 0 <= i < j < keys.len() ==> keys[i].0 != keys[j].0
}

/// The runs still valid at `now`, in order.
pub open spec fn live_at(keys: Seq<(Seq<char>, u64)>, now: u64) -> Seq<(Seq<char>, u64)>
    decreases keys.len(),
{
    if keys.len() == 0 {
        Seq::empty()
    } else {
        let rest = live_at(keys.drop_last(), now);
        if keys.last().1 > now {
            rest.push(keys.last())
        } else {
            rest
        }
    }
}

/// The expiry of `token` in the table, when it is there.
pub open spec fn expiry_of(keys: Seq<(Seq<char>, u64)>, token: Seq<char>) -> Option<u64>
    decreases keys.len(),
{
    if keys.len() == 0 {
        None
    } else if keys.last().0 == token {
        Some(keys.last().1)
    } else {
        expiry_of(keys.drop_last(), token)
    }
}

/// What a run registered with, as plain values.
pub struct ParamsView {
    pub run_key: Seq<char>,
    pub chat_id: i64,
    pub persona_id: i64,
    pub caller_channel: Seq<char>,
    pub is_scheduled_task: bool,
    pub expose_send_message: bool,
}

/// What the table holds of a run besides its token and expiry: the parameters it
/// registered with, the tools it called, its hook history and its stall response.
pub struct RunView {
    pub params: ParamsView,
    pub tool_names: Seq<Seq<char>>,
    pub history: Seq<Seq<char>>,
    pub stall: Option<Seq<char>>,
}

pub open spec fn params_view(p: CursorMcpRegisterParams) -> ParamsView {
    ParamsView {
        run_key: p.run_key@,
        chat_id: p.chat_id,
        persona_id: p.persona_id,
        caller_channel: p.caller_channel@,
        is_scheduled_task: p.is_scheduled_task,
        expose_send_message: p.expose_send_message,
    }
}

pub open spec fn opt_string_view(o: Option<String>) -> Option<Seq<char>> {
    match o {
        Some(s) => Some(s@),
        None => None,
    }
}

pub open spec fn run_view(r: McpRun) -> RunView {
    RunView {
        params: params_view(r.params),
        tool_names: crate::text::strings_view(r.executed_tool_names@),
        history: crate::text::strings_view(r.history_hook_events@),
        stall: opt_string_view(r.force_stall_response),
    }
}

/// The contents of the run registered with `token`, when it is in the list.
pub open spec fn run_view_of(runs: Seq<McpRun>, token: Seq<char>) -> Option<RunView>
    decreases runs.len(),
{
    if runs.len() == 0 {
        None
    } else if runs.last().token@ == token {
        Some(run_view(runs.last()))
    } else {
        run_view_of(runs.drop_last(), token)
    }
}

/// The runs still valid at `now`, in order.
pub open spec fn live_runs(runs: Seq<McpRun>, now: u64) -> Seq<McpRun>
    decreases runs.len(),
{
    if runs.len() == 0 {
        Seq::empty()
    } else {
        let rest = live_runs(runs.drop_last(), now);
        if runs.last().expires_at > now {
            rest.push(runs.last())
        } else {
            rest
        }
    }
}

/// The contents of `token`'s run after the runs expired at `now` are dropped.
pub open spec fn live_view(keys: Seq<(Seq<char>, u64)>, view: Option<RunView>, token: Seq<char>, now: u64) -> Option<
    RunView,
> {
    if expiry_of(keys, token) matches Some(e) && e > now {
        view
    } else {
        None
    }
}

proof fn lemma_run_keys_drop_last(runs: Seq<McpRun>)
    requires
        runs.len() > 0,
    ensures
        run_keys(runs.drop_last()) == run_keys(runs).drop_last(),
        run_keys(runs).last() == (runs.last().token@, runs.last().expires_at),
        run_keys(runs).len() == runs.len(),
{
    assert(run_keys(runs.drop_last()) =~= run_keys(runs).drop_last());
}

proof fn lemma_unique_drop_last(keys: Seq<(Seq<char>, u64)>)
    requires
        keys.len() > 0,
        tokens_unique(keys),
    ensures
        tokens_unique(keys.drop_last()),
        expiry_of(keys.drop_last(), keys.last().0) is None,
{
    let t = keys.drop_last();
    assert forall|i: int, j: int| 0 <= i < j < t.len() implies t[i].0 != t[j].0 by {
        assert(t[i] == keys[i] && t[j] == keys[j]);
    }
    lemma_expiry_absent(t, keys.last().0, keys);
}

proof fn lemma_live_runs(runs: Seq<McpRun>, now: u64, token: Seq<char>)
    requires
        tokens_unique(run_keys(runs)),
    ensures
        run_keys(live_runs(runs, now)) == live_at(run_keys(runs), now),
        run_view_of(live_runs(runs, now), token) == live_view(run_keys(runs), run_view_of(runs, token), token, now),
    decreases runs.len(),
{
    if runs.len() == 0 {
        assert(run_keys(live_runs(runs, now)) =~= live_at(run_keys(runs), now));
    } else {
        let d = runs.drop_last();
        let keys = run_keys(runs);
        lemma_run_keys_drop_last(runs);
        lemma_unique_drop_last(keys);
        lemma_live_runs(d, now, token);
        let rest = live_runs(d, now);
        if runs.last().expires_at > now {
            assert(run_keys(rest.push(runs.last())) =~= run_keys(rest).push(keys.last()));
            lemma_run_keys_drop_last(rest.push(runs.last()));
            assert(rest.push(runs.last()).drop_last() =~= rest);
        }
        if runs.last().token@ == token {
            lemma_run_view_none(d, token);
        }
    }
}

proof fn lemma_run_view_none(runs: Seq<McpRun>, token: Seq<char>)
    requires
        expiry_of(run_keys(runs), token) is None,
    ensures
        run_view_of(runs, token) is None,
    decreases runs.len(),
{
    if runs.len() > 0 {
        lemma_run_keys_drop_last(runs);
        lemma_run_view_none(runs.drop_last(), token);
    }
}

proof fn lemma_run_view_some(runs: Seq<McpRun>, token: Seq<char>)
    requires
        expiry_of(run_keys(runs), token) is Some,
    ensures
        run_view_of(runs, token) is Some,
    decreases runs.len(),
{
    lemma_run_keys_drop_last(runs);
    if runs.last().token@ != token {
        lemma_run_view_some(runs.drop_last(), token);
    }
}

proof fn lemma_run_view_at(runs: Seq<McpRun>, token: Seq<char>, i: int)
    requires
        tokens_unique(run_keys(runs)),
        0 <= i < runs.len(),
        runs[i].token@ == token,
    ensures
        run_view_of(runs, token) == Some(run_view(runs[i])),
    decreases runs.len(),
{
    lemma_run_keys_drop_last(runs);
    let keys = run_keys(runs);
    if i < runs.len() - 1 {
        assert(keys[i].0 == token);
        assert(keys[keys.len() - 1] == keys.last());
        assert(runs.last().token@ != token);
        lemma_unique_drop_last(keys);
        assert(runs.drop_last()[i] == runs[i]);
        lemma_run_view_at(runs.drop_last(), token, i);
    } else {
        assert(runs.last() == runs[i]);
    }
}

/// Replacing the run at `i` by one with the same token changes that token's
/// contents only.
proof fn lemma_run_view_update(runs: Seq<McpRun>, i: int, r: McpRun, token: Seq<char>)
    requires
        tokens_unique(run_keys(runs)),
        0 <= i < runs.len(),
        r.token@ == runs[i].token@,
    ensures
        tokens_unique(run_keys(runs.update(i, r))),
        run_view_of(runs.update(i, r), token) == (if token == r.token@ {
            Some(run_view(r))
        } else {
            run_view_of(runs, token)
        }),
{
    let u = runs.update(i, r);
    let keys = run_keys(runs);
    assert(run_keys(u) =~= keys.update(i, (keys[i].0, r.expires_at)));
    lemma_expiry_update(keys, i, r.expires_at, token);
    if token == r.token@ {
        lemma_run_view_at(u, token, i);
    } else {
        match expiry_of(keys, token) {
            Some(_) => {
                let j = lemma_expiry_index(keys, token);
                assert(u[j] == runs[j]);
                lemma_run_view_at(runs, token, j);
                lemma_run_view_at(u, token, j);
            },
            None => {
                lemma_run_view_none(runs, token);
                lemma_run_view_none(u, token);
            },
        }
    }
}

/// Removing the run at `i` takes its token's contents away and keeps the others.
proof fn lemma_run_view_remove(runs: Seq<McpRun>, i: int, token: Seq<char>)
    requires
        tokens_unique(run_keys(runs)),
        0 <= i < runs.len(),
    ensures
        run_view_of(runs.remove(i), token) == (if token == runs[i].token@ {
            None
        } else {
            run_view_of(runs, token)
        }),
{
    let rm = runs.remove(i);
    let keys = run_keys(runs);
    assert(run_keys(rm) =~= keys.remove(i));
    lemma_expiry_update(keys, i, 0, token);
    if token == runs[i].token@ {
        lemma_run_view_none(rm, token);
    } else {
        match expiry_of(keys, token) {
            Some(_) => {
                let j = lemma_expiry_index(keys, token);
                lemma_run_view_at(runs, token, j);
                if j < i {
                    assert(rm[j] == runs[j]);
                    lemma_run_view_at(rm, token, j);
                } else {
                    assert(rm[j - 1] == runs[j]);
                    lemma_run_view_at(rm, token, j - 1);
                }
            },
            None => {
                lemma_run_view_none(runs, token);
                lemma_run_view_none(rm, token);
            },
        }
    }
}

proof fn lemma_live_at(keys: Seq<(Seq<char>, u64)>, now: u64, token: Seq<char>)
    requires
        tokens_unique(keys),
    ensures
        tokens_unique(live_at(keys, now)),
        expiry_of(live_at(keys, now), token) == (match expiry_of(keys, token) {
            Some(e) => if e > now { Some(e) } else { None },
            None => None,
        }),
        forall|k: int| 0 <= k < live_at(keys, now).len() ==> #[trigger] live_at(keys, now)[k].1 > now,
        live_at(keys, now).len() <= keys.len(),
    decreases keys.len(),
{
    if keys.len() > 0 {
        let t = keys.drop_last();
        assert(tokens_unique(t)) by {
            assert forall|i: int, j: int| 0 <= i < j < t.len() implies t[i].0 != t[j].0 by {
                assert(t[i] == keys[i] && t[j] == keys[j]);
            }
        }
        lemma_live_at(t, now, token);
        lemma_live_at(t, now, keys.last().0);
        lemma_expiry_absent(t, keys.last().0, keys);
        let rest = live_at(t, now);
        assert(keys.drop_last() =~= t);
        assert(rest.push(keys.last()).drop_last() =~= rest);
        if keys.last().1 > now {
            let l = rest.push(keys.last());
            assert(expiry_of(rest, keys.last().0) is None);
            assert forall|i: int, j: int| 0 <= i < j < l.len() implies l[i].0 != l[j].0 by {
                if j == rest.len() {
                    assert(l[i] == rest[i]);
                    lemma_expiry_none_not_in(rest, keys.last().0, i);
                }
            }
        }
    }
}

proof fn lemma_expiry_absent(t: Seq<(Seq<char>, u64)>, token: Seq<char>, keys: Seq<(Seq<char>, u64)>)
    requires
        keys.len() > 0,
        t == keys.drop_last(),
        token == keys.last().0,
        tokens_unique(keys),
    ensures
        expiry_of(t, token) is None,
{
    assert forall|i: int| 0 <= i < t.len() implies t[i].0 != token by {
        assert(t[i] == keys[i]);
        assert(keys[keys.len() - 1] == keys.last());
    }
    lemma_expiry_none_when_absent(t, token);
}

proof fn lemma_expiry_none_when_absent(t: Seq<(Seq<char>, u64)>, token: Seq<char>)
    requires
        forall|i: int| 0 <= i < t.len() ==> t[i].0 != token,
    ensures
        expiry_of(t, token) is None,
    decreases t.len(),
{
    if t.len() > 0 {
        let d = t.drop_last();
        assert(t.last() == t[t.len() - 1]);
        assert forall|i: int| 0 <= i < d.len() implies d[i].0 != token by {
            assert(d[i] == t[i]);
        }
        lemma_expiry_none_when_absent(d, token);
    }
}

proof fn lemma_expiry_none_not_in(t: Seq<(Seq<char>, u64)>, token: Seq<char>, i: int)
    requires
        expiry_of(t, token) is None,
        0 <= i < t.len(),
    ensures
        t[i].0 != token,
    decreases t.len(),
{
    if i == t.len() - 1 {
        assert(t.last() == t[i]);
    } else {
        let d = t.drop_last();
        assert(d[i] == t[i]);
        lemma_expiry_none_not_in(d, token, i);
    }
}

impl CursorMcpRegistry {
    /// The table's tokens and expiry times.
    pub closed spec fn keys(&self) -> Seq<(Seq<char>, u64)> {
        run_keys(self.runs@)
    }

    /// Each token appears once.
    pub closed spec fn wf(&self) -> bool {
        tokens_unique(run_keys(self.runs@))
    }

    /// What the table holds of the run registered with `token`, when it is there.
    pub closed spec fn run_of(&self, token: Seq<char>) -> Option<RunView> {
        run_view_of(self.runs@, token)
    }

    pub fn new() -> (r: Self)
        ensures
            r.wf(),
            r.keys().len() == 0,
    {
        let r = CursorMcpRegistry { runs: Vec::new() };
        assert(run_keys(r.runs@) =~= Seq::<(Seq<char>, u64)>::empty());
        r
    }

    /// Drops the runs whose time is up.
    fn purge_expired(&mut self, now: u64)
        requires
            old(self).wf(),
        ensures
            final(self).wf(),
            final(self).keys() == live_at(old(self).keys(), now),
            forall|t: Seq<char>| #[trigger] final(self).run_of(t) == live_view(old(self).keys(), old(self).run_of(t), t, now),
    {
        let ghost old_keys = run_keys(self.runs@);
        let ghost orig = self.runs@;
        let mut rest: Vec<McpRun> = Vec::new();
        std::mem::swap(&mut rest, &mut self.runs);
        let mut kept: Vec<McpRun> = Vec::new();
        let ghost mut i: int = 0;
        assert(kept@ =~= live_runs(orig.subrange(0, 0), now));
        assert(rest@ =~= orig.subrange(0, orig.len() as int));
        while rest.len() > 0
            invariant
                0 <= i <= orig.len(),
                old_keys == run_keys(orig),
                rest@ == orig.subrange(i, orig.len() as int),
                kept@ == live_runs(orig.subrange(0, i), now),
            decreases rest.len(),
        {
            let ghost sub = orig.subrange(0, i + 1);
            assert(sub.drop_last() =~= orig.subrange(0, i));
            assert(sub.last() == orig[i]);
            let r = rest.remove(0);
            assert(r == orig[i]);
            if r.expires_at > now {
                kept.push(r);
            }
            proof {
                assert(rest@ =~= orig.subrange(i + 1, orig.len() as int));
                i = i + 1;
            }
        }
        assert(orig.subrange(0, orig.len() as int) =~= orig);
        proof {
            lemma_live_runs(orig, now, Seq::empty());
            lemma_live_at(old_keys, now, Seq::empty());
            assert forall|t: Seq<char>| #[trigger] run_view_of(kept@, t) == live_view(old_keys, run_view_of(orig, t), t, now) by {
                lemma_live_runs(orig, now, t);
            }
        }
        self.runs = kept;
    }

    fn position(&self, token: &str) -> (r: Option<usize>)
        requires
            self.wf(),
        ensures
            match r {
                Some(i) => i < self.runs@.len() && self.runs@[i as int].token@ == token@ && expiry_of(self.keys(), token@)
                    == Some(self.runs@[i as int].expires_at),
                None => expiry_of(self.keys(), token@) is None,
            },
    {
        let t = chars_of(token);
        let mut i: usize = 0;
        while i < self.runs.len()
            invariant
                i <= self.runs.len(),
                t@ == token@,
                self.wf(),
                forall|k: int| 0 <= k < i ==> self.runs@[k].token@ != token@,
            decreases self.runs.len() - i,
        {
            if vec_eq(&chars_of(self.runs[i].token.as_str()), &t) {
                proof {
                    lemma_expiry_at(self.keys(), token@, i as int);
                }
                return Some(i);
            }
            i += 1;
        }
        proof {
            lemma_expiry_none_when_absent(self.keys(), token@);
        }
        None
    }
}

proof fn lemma_expiry_at(keys: Seq<(Seq<char>, u64)>, token: Seq<char>, i: int)
    requires
        tokens_unique(keys),
        0 <= i < keys.len(),
        keys[i].0 == token,
    ensures
        expiry_of(keys, token) == Some(keys[i].1),
    decreases keys.len(),
{
    if i < keys.len() - 1 {
        let d = keys.drop_last();
        assert(keys.last() == keys[keys.len() - 1]);
        assert(keys[keys.len() - 1].0 != token);
        assert(d[i] == keys[i]);
        assert(tokens_unique(d)) by {
            assert forall|a: int, b: int| 0 <= a < b < d.len() implies d[a].0 != d[b].0 by {
                assert(d[a] == keys[a] && d[b] == keys[b]);
            }
        }
        lemma_expiry_at(d, token, i);
    } else {
        assert(keys.last() == keys[i]);
    }
}


fn clone_params(p: &CursorMcpRegisterParams) -> (r: CursorMcpRegisterParams)
    ensures
        r.run_key@ == p.run_key@,
        r.chat_id == p.chat_id,
        r.persona_id == p.persona_id,
        r.caller_channel@ == p.caller_channel@,
        r.is_scheduled_task == p.is_scheduled_task,
        r.expose_send_message == p.expose_send_message,
{
    CursorMcpRegisterParams {
        run_key: p.run_key.clone(),
        chat_id: p.chat_id,
        persona_id: p.persona_id,
        caller_channel: p.caller_channel.clone(),
        is_scheduled_task: p.is_scheduled_task,
        expose_send_message: p.expose_send_message,
    }
}

fn clone_strings(v: &Vec<String>) -> (r: Vec<String>)
    ensures
        crate::text::strings_view(r@) == crate::text::strings_view(v@),
{
    let mut out: Vec<String> = Vec::new();
    let mut i: usize = 0;
    while i < v.len()
        invariant
            i <= v.len(),
            out@.len() == i,
            forall|k: int| 0 <= k < i ==> #[trigger] out@[k]@ == v@[k]@,
        decreases v.len() - i,
    {
        out.push(v[i].clone());
        i += 1;
    }
    assert(crate::text::strings_view(out@) =~= crate::text::strings_view(v@));
    out
}

/// `expiry_of` after the entry at `i` is replaced by one with the same token, or
/// removed: other tokens keep their expiry.
proof fn lemma_expiry_update(keys: Seq<(Seq<char>, u64)>, i: int, e: u64, token: Seq<char>)
    requires
        tokens_unique(keys),
        0 <= i < keys.len(),
    ensures
        tokens_unique(keys.update(i, (keys[i].0, e))),
        token == keys[i].0 ==> expiry_of(keys.update(i, (keys[i].0, e)), token) == Some(e),
        token != keys[i].0 ==> expiry_of(keys.update(i, (keys[i].0, e)), token) == expiry_of(keys, token),
        tokens_unique(keys.remove(i)),
        token == keys[i].0 ==> expiry_of(keys.remove(i), token) is None,
        token != keys[i].0 ==> expiry_of(keys.remove(i), token) == expiry_of(keys, token),
{
    let u = keys.update(i, (keys[i].0, e));
    let r = keys.remove(i);
    assert forall|a: int, b: int| 0 <= a < b < u.len() implies u[a].0 != u[b].0 by {
        assert(u[a].0 == keys[a].0 && u[b].0 == keys[b].0);
    }
    assert forall|a: int, b: int| 0 <= a < b < r.len() implies r[a].0 != r[b].0 by {
        if b < i {
            assert(r[a] == keys[a] && r[b] == keys[b]);
        } else if a < i {
            assert(r[a] == keys[a] && r[b] == keys[b + 1]);
        } else {
            assert(r[a] == keys[a + 1] && r[b] == keys[b + 1]);
        }
    }
    if token == keys[i].0 {
        lemma_expiry_at(u, token, i);
        assert forall|k: int| 0 <= k < r.len() implies r[k].0 != token by {
            if k < i {
                assert(r[k] == keys[k]);
            } else {
                assert(r[k] == keys[k + 1]);
            }
        }
        lemma_expiry_none_when_absent(r, token);
    } else {
        match expiry_of(keys, token) {
            Some(x) => {
                let j = lemma_expiry_index(keys, token);
                assert(u[j] == keys[j]);
                lemma_expiry_at(u, token, j);
                if j < i {
                    assert(r[j] == keys[j]);
                    lemma_expiry_at(r, token, j);
                } else {
                    assert(r[j - 1] == keys[j]);
                    lemma_expiry_at(r, token, j - 1);
                }
            },
            None => {
                lemma_expiry_none_absent(keys, token);
                assert forall|k: int| 0 <= k < u.len() implies u[k].0 != token by {
                    assert(u[k].0 == keys[k].0);
                }
                lemma_expiry_none_when_absent(u, token);
                assert forall|k: int| 0 <= k < r.len() implies r[k].0 != token by {
                    if k < i {
                        assert(r[k] == keys[k]);
                    } else {
                        assert(r[k] == keys[k + 1]);
                    }
                }
                lemma_expiry_none_when_absent(r, token);
            },
        }
    }
}

proof fn lemma_expiry_index(keys: Seq<(Seq<char>, u64)>, token: Seq<char>) -> (j: int)
    requires
        expiry_of(keys, token) is Some,
    ensures
        0 <= j < keys.len(),
        keys[j].0 == token,
        expiry_of(keys, token) == Some(keys[j].1),
    decreases keys.len(),
{
    if keys.last().0 == token {
        keys.len() - 1
    } else {
        let d = keys.drop_last();
        let j = lemma_expiry_index(d, token);
        assert(d[j] == keys[j]);
        j
    }
}

proof fn lemma_expiry_none_absent(keys: Seq<(Seq<char>, u64)>, token: Seq<char>)
    requires
        expiry_of(keys, token) is None,
    ensures
        forall|k: int| 0 <= k < keys.len() ==> keys[k].0 != token,
{
    assert forall|k: int| 0 <= k < keys.len() implies keys[k].0 != token by {
        lemma_expiry_none_not_in(keys, token, k);
    }
}

/// A run registered until `expires` is still there at any earlier time, and gone
/// from the time it expires.
pub proof fn lemma_run_lifetime(keys: Seq<(Seq<char>, u64)>, token: Seq<char>, expires: u64, now: u64)
    requires
        tokens_unique(keys),
        expiry_of(keys, token) == Some(expires),
    ensures
        now < expires ==> expiry_of(live_at(keys, now), token) == Some(expires),
        now >= expires ==> expiry_of(live_at(keys, now), token) is None,
{
    lemma_live_at(keys, now, token);
}

/// A revoked (or never registered) run stays absent whatever expires later.
pub proof fn lemma_revoked_stays_absent(keys: Seq<(Seq<char>, u64)>, token: Seq<char>, now: u64)
    requires
        tokens_unique(keys),
        expiry_of(keys, token) is None,
    ensures
        expiry_of(live_at(keys, now), token) is None,
{
    lemma_live_at(keys, now, token);
}

/// A table whose runs all outlive `now` loses none of them at `now`.
pub proof fn lemma_live_at_all(keys: Seq<(Seq<char>, u64)>, now: u64)
    requires
        forall|k: int| 0 <= k < keys.len() ==> #[trigger] keys[k].1 > now,
    ensures
        live_at(keys, now) == keys,
    decreases keys.len(),
{
    if keys.len() > 0 {
        let d = keys.drop_last();
        assert forall|k: int| 0 <= k < d.len() implies #[trigger] d[k].1 > now by {
            assert(d[k] == keys[k]);
        }
        lemma_live_at_all(d, now);
        assert(keys.last() == keys[keys.len() - 1]);
        assert(d.push(keys.last()) =~= keys);
    }
}

/// Registering a run whose token names no live run raises the number of active
/// runs by one: counted at the time of registering, the runs that were live then
/// and the new one (the time leaves room for the run's lifetime).
pub proof fn lemma_register_adds_one(
    before: Seq<(Seq<char>, u64)>,
    after: Seq<(Seq<char>, u64)>,
    token: Seq<char>,
    now: u64,
)
    requires
        now as int + RUN_TTL_SECS as int <= u64::MAX as int,
        forall|k: int| 0 <= k < after.len() ==> #[trigger] after[k].1 > now,
        after.len() == live_at(before, now).len() + (if expiry_of(live_at(before, now), token) is None {
            1int
        } else {
            0int
        }),
        expiry_of(live_at(before, now), token) is None,
    ensures
        live_at(after, now).len() == live_at(before, now).len() + 1,
{
    lemma_live_at_all(after, now);
}

impl CursorMcpRegistry {
    /// Registers a run: expired runs are dropped, and the run gets a fresh token
    /// valid for an hour from `now` (seconds); every other live run is kept as it
    /// was.
    pub fn register_run(&mut self, params: CursorMcpRegisterParams, now: u64) -> (token: String)
        requires
            old(self).wf(),
        ensures
            final(self).wf(),
            expiry_of(final(self).keys(), token@) == Some(
                if now as int + RUN_TTL_SECS as int <= u64::MAX as int { (now + RUN_TTL_SECS) as u64 } else { u64::MAX },
            ),
            forall|t: Seq<char>| t != token@ ==> #[trigger] expiry_of(final(self).keys(), t) == expiry_of(
                live_at(old(self).keys(), now),
                t,
            ),
            now as int + RUN_TTL_SECS as int <= u64::MAX as int ==> forall|k: int|
                0 <= k < final(self).keys().len() ==> #[trigger] final(self).keys()[k].1 > now,
            final(self).keys().len() == live_at(old(self).keys(), now).len() + (if expiry_of(
                live_at(old(self).keys(), now),
                token@,
            ) is None {
                1int
            } else {
                0int
            }),
            final(self).run_of(token@) == Some(
                RunView {
                    params: params_view(params),
                    tool_names: Seq::empty(),
                    history: Seq::empty(),
                    stall: None,
                },
            ),
            forall|t: Seq<char>| t != token@ ==> #[trigger] final(self).run_of(t) == live_view(
                old(self).keys(),
                old(self).run_of(t),
                t,
                now,
            ),
    {
        let ghost params_in = params;
        self.purge_expired(now);
        let ghost purged = self.keys();
        let ghost purged_runs = self.runs@;
        assert forall|t: Seq<char>| #[trigger] run_view_of(purged_runs, t) == live_view(
            old(self).keys(),
            old(self).run_of(t),
            t,
            now,
        ) by {
            assert(self.run_of(t) == run_view_of(purged_runs, t));
        }
        let token = crate::ids::new_uuid_v4();
        let expires_at = now.saturating_add(RUN_TTL_SECS);
        let run = McpRun {
            token: token.clone(),
            expires_at,
            params,
            executed_tool_names: Vec::new(),
            history_hook_events: Vec::new(),
            force_stall_response: None,
        };
        assert(run_view(run) == RunView {
            params: params_view(params_in),
            tool_names: Seq::empty(),
            history: Seq::empty(),
            stall: None,
        }) by {
            assert(crate::text::strings_view(run.executed_tool_names@) =~= Seq::<Seq<char>>::empty());
            assert(crate::text::strings_view(run.history_hook_events@) =~= Seq::<Seq<char>>::empty());
        }
        match self.position(token.as_str()) {
            Some(i) => {
                proof {
                    assert forall|t: Seq<char>| true implies #[trigger] expiry_of(purged.update(i as int, (purged[i as int].0, expires_at)), t) == (if t == purged[i as int].0 { Some(expires_at) } else { expiry_of(purged, t) }) by {
                        lemma_expiry_update(purged, i as int, expires_at, t);
                    }
                }
                let ghost new_run = run;
                self.runs.set(i, run);
                assert(self.keys() =~= purged.update(i as int, (purged[i as int].0, expires_at)));
                proof {
                    lemma_live_at(old(self).keys(), now, token@);
                    if now as int + RUN_TTL_SECS as int <= u64::MAX as int {
                        assert forall|k: int| 0 <= k < self.keys().len() implies #[trigger] self.keys()[k].1 > now by {
                            if k != i {
                                assert(self.keys()[k] == purged[k]);
                            }
                        }
                    }
                }
                proof {
                    lemma_expiry_update(purged, i as int, expires_at, token@);
                    assert(self.runs@ == purged_runs.update(i as int, new_run));
                    assert forall|t: Seq<char>| true implies #[trigger] run_view_of(self.runs@, t) == (if t == token@ {
                        Some(run_view(new_run))
                    } else {
                        run_view_of(purged_runs, t)
                    }) by {
                        lemma_run_view_update(purged_runs, i as int, new_run, t);
                    }
                }
            },
            None => {
                let ghost new_run = run;
                self.runs.push(run);
                assert(self.runs@.drop_last() =~= purged_runs);
                assert(self.runs@.last() == new_run);
                assert forall|t: Seq<char>| t != token@ implies #[trigger] run_view_of(self.runs@, t) == run_view_of(
                    purged_runs,
                    t,
                ) by {
                    assert(self.runs@.len() > 0);
                }
                assert(self.keys() =~= purged.push((token@, expires_at)));
                proof {
                    lemma_live_at(old(self).keys(), now, token@);
                    if now as int + RUN_TTL_SECS as int <= u64::MAX as int {
                        assert forall|k: int| 0 <= k < self.keys().len() implies #[trigger] self.keys()[k].1 > now by {
                            if k < purged.len() {
                                assert(self.keys()[k] == purged[k]);
                            }
                        }
                    }
                }
                proof {
                    let k = purged.push((token@, expires_at));
                    lemma_expiry_none_absent(purged, token@);
                    assert forall|a: int, b: int| 0 <= a < b < k.len() implies k[a].0 != k[b].0 by {
                        if b < purged.len() {
                            assert(k[a] == purged[a] && k[b] == purged[b]);
                        } else {
                            assert(k[a] == purged[a]);
                        }
                    }
                    assert(k.drop_last() =~= purged);
                }
            },
        }
        token
    }

    /// Forgets a run; its token no longer works. Other runs are kept as they were.
    pub fn revoke_run(&mut self, token: &str)
        requires
            old(self).wf(),
        ensures
            final(self).wf(),
            expiry_of(final(self).keys(), token@) is None,
            forall|t: Seq<char>| t != token@ ==> #[trigger] expiry_of(final(self).keys(), t) == expiry_of(old(self).keys(), t),
            final(self).run_of(token@) is None,
            forall|t: Seq<char>| t != token@ ==> #[trigger] final(self).run_of(t) == old(self).run_of(t),
    {
        let ghost before = self.keys();
        let ghost before_runs = self.runs@;
        match self.position(token) {
            Some(i) => {
                proof {
                    assert forall|t: Seq<char>| true implies #[trigger] run_view_of(before_runs.remove(i as int), t) == (if t
                        == token@ {
                        None
                    } else {
                        run_view_of(before_runs, t)
                    }) by {
                        lemma_run_view_remove(before_runs, i as int, t);
                    }
                }
                proof {
                    assert forall|t: Seq<char>| t != token@ implies #[trigger] expiry_of(before.remove(i as int), t) == expiry_of(before, t) by {
                        lemma_expiry_update(before, i as int, 0, t);
                    }
                    lemma_expiry_update(before, i as int, 0, token@);
                }
                self.runs.remove(i);
                assert(self.keys() =~= before.remove(i as int));
            },
            None => {
                proof {
                    lemma_run_view_none(before_runs, token@);
                }
            },
        }
    }

    /// The number of runs still valid at `now`, after dropping the expired ones.
    pub fn active_run_count(&mut self, now: u64) -> (r: usize)
        requires
            old(self).wf(),
        ensures
            final(self).wf(),
            final(self).keys() == live_at(old(self).keys(), now),
            forall|t: Seq<char>| #[trigger] final(self).run_of(t) == live_view(old(self).keys(), old(self).run_of(t), t, now),
            r == live_at(old(self).keys(), now).len(),
    {
        self.purge_expired(now);
        self.runs.len()
    }

    /// Whether `token` names a run still valid at `now` (expired runs are dropped
    /// first).
    pub fn is_run_active(&mut self, token: &str, now: u64) -> (r: bool)
        requires
            old(self).wf(),
        ensures
            final(self).wf(),
            final(self).keys() == live_at(old(self).keys(), now),
            forall|t: Seq<char>| #[trigger] final(self).run_of(t) == live_view(old(self).keys(), old(self).run_of(t), t, now),
            r == (expiry_of(old(self).keys(), token@) matches Some(e) && e > now),
    {
        let ghost before = self.keys();
        self.purge_expired(now);
        proof {
            lemma_live_at(before, now, token@);
        }
        self.position(token).is_some()
    }

    /// The parameters a run registered with, when it is in the table.
    pub fn run_params(&self, token: &str) -> (r: Option<CursorMcpRegisterParams>)
        requires
            self.wf(),
        ensures
            r is Some <==> expiry_of(self.keys(), token@) is Some,
            match r {
                Some(p) => self.run_of(token@) matches Some(v) && params_view(p) == v.params,
                None => self.run_of(token@) is None,
            },
    {
        match self.position(token) {
            Some(i) => {
                proof {
                    lemma_run_view_at(self.runs@, token@, i as int);
                }
                Some(clone_params(&self.runs[i].params))
            },
            None => {
                proof {
                    lemma_run_view_none(self.runs@, token@);
                }
                None
            },
        }
    }

    /// The runs of the table, in the order of `keys`.
    pub closed spec fn run_at(&self, i: int) -> McpRun {
        self.runs@[i]
    }

    /// The tool names a run has called so far.
    pub open spec fn tool_names_view(run: McpRun) -> Seq<Seq<char>> {
        run.executed_tool_names@.map_values(|s: String| s@)
    }

    /// Records that a run called a tool: the run registered with `token`, when it is
    /// in the table, gets `tool_name` after the tool names it already has; nothing
    /// else in the table changes, and without such a run nothing changes at all.
    pub fn record_tool_name(&mut self, token: &str, tool_name: &str)
        requires
            old(self).wf(),
        ensures
            final(self).wf(),
            final(self).keys() == old(self).keys(),
            forall|i: int|
                0 <= i < old(self).keys().len() ==> {
                    let before = #[trigger] old(self).run_at(i);
                    let after = final(self).run_at(i);
                    &&& after.token == before.token
                    &&& after.expires_at == before.expires_at
                    &&& after.params == before.params
                    &&& after.history_hook_events == before.history_hook_events
                    &&& after.force_stall_response == before.force_stall_response
                    &&& Self::tool_names_view(after) == (if before.token@ == token@ {
                        Self::tool_names_view(before).push(tool_name@)
                    } else {
                        Self::tool_names_view(before)
                    })
                },
            final(self).run_of(token@) == (match old(self).run_of(token@) {
                Some(v) => Some(
                    RunView {
                        params: v.params,
                        tool_names: v.tool_names.push(tool_name@),
                        history: v.history,
                        stall: v.stall,
                    },
                ),
                None => None,
            }),
            forall|t: Seq<char>| t != token@ ==> #[trigger] final(self).run_of(t) == old(self).run_of(t),
    {
        match self.position(token) {
            Some(i) => {
                let ghost before = self.runs@;
                let mut run = self.runs.remove(i);
                let ghost names = run.executed_tool_names@;
                run.executed_tool_names.push(String::from_str(tool_name));
                assert(run.executed_tool_names@.map_values(|s: String| s@) =~= names.map_values(|s: String| s@).push(
                    tool_name@,
                ));
                let ghost new_run = run;
                self.runs.insert(i, run);
                assert(self.runs@.len() == before.len());
                assert forall|k: int| 0 <= k < before.len() && k != i implies self.runs@[k] == before[k] by {}
                assert(self.runs@ =~= before.update(i as int, new_run));
                proof {
                    assert forall|t: Seq<char>| true implies #[trigger] run_view_of(self.runs@, t) == (if t == token@ {
                        Some(run_view(new_run))
                    } else {
                        run_view_of(before, t)
                    }) by {
                        lemma_run_view_update(before, i as int, new_run, t);
                    }
                    lemma_run_view_at(before, token@, i as int);
                }
                assert(self.keys() =~= old(self).keys());
                assert forall|k: int| 0 <= k < before.len() && k != i implies before[k].token@ != token@ by {
                    assert(old(self).keys()[k].0 == before[k].token@);
                    assert(old(self).keys()[i as int].0 == before[i as int].token@);
                }
            },
            None => {
                assert forall|k: int| 0 <= k < old(self).keys().len() implies old(self).run_at(k).token@ != token@ by {
                    lemma_expiry_none_not_in(old(self).keys(), token@, k);
                }
                proof {
                    lemma_run_view_none(self.runs@, token@);
                }
            },
        }
    }

    /// What a run has done so far: its tool names, its hook history and its stall
    /// response, when it is in the table.
    pub fn take_run_summary(&self, token: &str) -> (r: Option<(Vec<String>, Vec<String>, Option<String>)>)
        requires
            self.wf(),
        ensures
            r is Some <==> expiry_of(self.keys(), token@) is Some,
            match r {
                Some((n, h, s)) => self.run_of(token@) matches Some(v) && crate::text::strings_view(n@) == v.tool_names
                    && crate::text::strings_view(h@) == v.history && opt_string_view(s) == v.stall,
                None => self.run_of(token@) is None,
            },
    {
        match self.position(token) {
            Some(i) => {
                proof {
                    lemma_run_view_at(self.runs@, token@, i as int);
                }
                let run = &self.runs[i];
                let stall = match &run.force_stall_response {
                    Some(s) => Some(s.clone()),
                    None => None,
                };
                Some((clone_strings(&run.executed_tool_names), clone_strings(&run.history_hook_events), stall))
            },
            None => {
                proof {
                    lemma_run_view_none(self.runs@, token@);
                }
                None
            },
        }
    }

    /// Ends a run after its post-batch hooks: their history replaces the run's, a new
    /// stall response replaces the old one (the old one is kept otherwise), and the
    /// run is revoked. Returns the stall response, tool names and hook history.
    pub fn finish_run(&mut self, token: &str, history_hook_events: Vec<String>, stall_response: Option<String>) -> (r: Option<
        (Option<String>, Vec<String>, Vec<String>),
    >)
        requires
            old(self).wf(),
        ensures
            final(self).wf(),
            r is Some <==> expiry_of(old(self).keys(), token@) is Some,
            expiry_of(final(self).keys(), token@) is None,
            forall|t: Seq<char>| t != token@ ==> #[trigger] expiry_of(final(self).keys(), t) == expiry_of(old(self).keys(), t),
            r matches Some((s, _, h)) ==> crate::text::strings_view(h@) == crate::text::strings_view(history_hook_events@)
                && (stall_response is Some ==> s == stall_response),
            match r {
                Some((s, n, _)) => old(self).run_of(token@) matches Some(v) && crate::text::strings_view(n@)
                    == v.tool_names && opt_string_view(s) == (if stall_response is Some {
                    opt_string_view(stall_response)
                } else {
                    v.stall
                }),
                None => old(self).run_of(token@) is None,
            },
            final(self).run_of(token@) is None,
            forall|t: Seq<char>| t != token@ ==> #[trigger] final(self).run_of(t) == old(self).run_of(t),
    {
        let ghost before_runs = self.runs@;
        let i = match self.position(token) {
            Some(i) => i,
            None => {
                proof {
                    lemma_run_view_none(self.runs@, token@);
                }
                return None;
            },
        };
        proof {
            lemma_run_view_at(before_runs, token@, i as int);
            assert forall|t: Seq<char>| true implies #[trigger] run_view_of(before_runs.remove(i as int), t) == (if t
                == token@ {
                None
            } else {
                run_view_of(before_runs, t)
            }) by {
                lemma_run_view_remove(before_runs, i as int, t);
            }
        }
        let ghost before = self.keys();
        let run = self.runs.remove(i);
        proof {
            assert forall|t: Seq<char>| t != token@ implies #[trigger] expiry_of(before.remove(i as int), t) == expiry_of(before, t) by {
                lemma_expiry_update(before, i as int, 0, t);
            }
            lemma_expiry_update(before, i as int, 0, token@);
        }
        assert(self.keys() =~= before.remove(i as int));
        let stall = match stall_response {
            Some(s) => Some(s),
            None => run.force_stall_response,
        };
        let names = run.executed_tool_names;
        let events = clone_strings(&history_hook_events);
        Some((stall, names, events))
    }
}

// ---------------------------------------------------------------------------
// Tool schemas
// ---------------------------------------------------------------------------

/// The argument the bot adds to its tools for its own authentication; Cursor
/// never sees it.
pub const AUTH_CONTEXT_KEY: &'static str = "__finally_a_value_bot_auth";

/// The entries of an object's content without those named `key`.
pub open spec fn without_key(es: Seq<(Seq<char>, JsonModel)>, key: Seq<char>) -> Seq<(Seq<char>, JsonModel)>
    decreases es.len(),
{
    if es.len() == 0 {
        Seq::empty()
    } else if es.last().0 == key {
        without_key(es.drop_last(), key)
    } else {
        without_key(es.drop_last(), key).push(es.last())
    }
}

/// The items of an array's content without the string `key`.
pub open spec fn without_str(items: Seq<JsonModel>, key: Seq<char>) -> Seq<JsonModel>
    decreases items.len(),
{
    if items.len() == 0 {
        Seq::empty()
    } else if items.last() == JsonModel::Str(key) {
        without_str(items.drop_last(), key)
    } else {
        without_str(items.drop_last(), key).push(items.last())
    }
}

/// One member of a schema with the auth argument taken out: from `properties`
/// when it is an object, from `required` when it is an array.
pub open spec fn strip_auth_entry(e: (Seq<char>, JsonModel)) -> (Seq<char>, JsonModel) {
    if e.0 == "properties"@ && e.1 is Object {
        (e.0, JsonModel::Object(without_key(e.1->Object_0, AUTH_CONTEXT_KEY@)))
    } else if e.0 == "required"@ && e.1 is Array {
        (e.0, JsonModel::Array(without_str(e.1->Array_0, AUTH_CONTEXT_KEY@)))
    } else {
        e
    }
}

pub open spec fn strip_auth_entries(es: Seq<(Seq<char>, JsonModel)>) -> Seq<(Seq<char>, JsonModel)>
    decreases es.len(),
{
    if es.len() == 0 {
        Seq::empty()
    } else {
        strip_auth_entries(es.drop_last()).push(strip_auth_entry(es.last()))
    }
}

/// A tool's input schema as offered to Cursor: the auth argument is neither a
/// property nor required. Values other than objects pass unchanged.
pub open spec fn schema_without_auth(m: JsonModel) -> JsonModel {
    match m {
        JsonModel::Object(es) => JsonModel::Object(strip_auth_entries(es)),
        _ => m,
    }
}

fn is_auth_key(k: &String) -> (r: bool)
    ensures
        r == (k@ == AUTH_CONTEXT_KEY@),
{
    vec_eq(&chars_of(k.as_str()), &chars_of(AUTH_CONTEXT_KEY))
}

fn props_without_auth(ps: &Vec<(String, JsonValue)>) -> (r: Vec<(String, JsonValue)>)
    ensures
        entries_model(r@) == without_key(entries_model(ps@), AUTH_CONTEXT_KEY@),
{
    let mut out: Vec<(String, JsonValue)> = Vec::new();
    let mut i: usize = 0;
    proof { crate::json::lemma_entries_model(ps@); }
    assert(entries_model(ps@).subrange(0, 0) =~= Seq::<(Seq<char>, JsonModel)>::empty());
    while i < ps.len()
        invariant
            i <= ps.len(),
            entries_model(ps@).len() == ps@.len(),
            forall|k: int| 0 <= k < ps@.len() ==> #[trigger] entries_model(ps@)[k] == (ps@[k].0@, json_model(ps@[k].1)),
            entries_model(out@) == without_key(entries_model(ps@).subrange(0, i as int), AUTH_CONTEXT_KEY@),
        decreases ps.len() - i,
    {
        let ghost em = entries_model(ps@);
        let ghost sub = em.subrange(0, i + 1);
        assert(sub.drop_last() =~= em.subrange(0, i as int));
        assert(sub.last() == (ps@[i as int].0@, json_model(ps@[i as int].1)));
        if !is_auth_key(&ps[i].0) {
            let v = ps[i].1.deep_clone();
            let ghost before = out@;
            out.push((ps[i].0.clone(), v));
            assert(out@.drop_last() =~= before);
        }
        i += 1;
    }
    assert(entries_model(ps@).subrange(0, ps@.len() as int) =~= entries_model(ps@));
    out
}

fn required_without_auth(items: &Vec<JsonValue>) -> (r: Vec<JsonValue>)
    ensures
        items_model(r@) == without_str(items_model(items@), AUTH_CONTEXT_KEY@),
{
    let mut out: Vec<JsonValue> = Vec::new();
    let mut i: usize = 0;
    proof { crate::json::lemma_items_model(items@); }
    assert(items_model(items@).subrange(0, 0) =~= Seq::<JsonModel>::empty());
    while i < items.len()
        invariant
            i <= items.len(),
            items_model(items@).len() == items@.len(),
            forall|k: int| 0 <= k < items@.len() ==> #[trigger] items_model(items@)[k] == json_model(items@[k]),
            items_model(out@) == without_str(items_model(items@).subrange(0, i as int), AUTH_CONTEXT_KEY@),
        decreases items.len() - i,
    {
        let ghost im = items_model(items@);
        let ghost sub = im.subrange(0, i + 1);
        assert(sub.drop_last() =~= im.subrange(0, i as int));
        assert(sub.last() == json_model(items@[i as int]));
        let skip = match &items[i] {
            JsonValue::Str(t) => is_auth_key(t),
            _ => false,
        };
        assert(skip == (json_model(items@[i as int]) == JsonModel::Str(AUTH_CONTEXT_KEY@)));
        if !skip {
            let v = items[i].deep_clone();
            let ghost before = out@;
            out.push(v);
            assert(out@.drop_last() =~= before);
        }
        i += 1;
    }
    assert(items_model(items@).subrange(0, items@.len() as int) =~= items_model(items@));
    out
}

/// Takes the bot's auth argument out of a tool's input schema before the tool is
/// listed to Cursor.
pub fn strip_auth_from_schema(schema: &JsonValue) -> (r: JsonValue)
    ensures
        json_model(r) == schema_without_auth(json_model(*schema)),
{
    match schema {
        JsonValue::Object(es) => {
            let mut out: Vec<(String, JsonValue)> = Vec::new();
            let mut i: usize = 0;
            proof { crate::json::lemma_entries_model(es@); }
            assert(entries_model(es@).subrange(0, 0) =~= Seq::<(Seq<char>, JsonModel)>::empty());
            while i < es.len()
                invariant
                    i <= es.len(),
                    entries_model(es@).len() == es@.len(),
                    forall|k: int| 0 <= k < es@.len() ==> #[trigger] entries_model(es@)[k] == (es@[k].0@, json_model(es@[k].1)),
                    entries_model(out@) == strip_auth_entries(entries_model(es@).subrange(0, i as int)),
                decreases es.len() - i,
            {
                let ghost em = entries_model(es@);
                let ghost sub = em.subrange(0, i + 1);
                assert(sub.drop_last() =~= em.subrange(0, i as int));
                let ghost e = (es@[i as int].0@, json_model(es@[i as int].1));
                assert(sub.last() == e);
                let k = &es[i].0;
                let is_props = vec_eq(&chars_of(k.as_str()), &chars_of("properties"));
                let is_req = vec_eq(&chars_of(k.as_str()), &chars_of("required"));
                let v = match &es[i].1 {
                    JsonValue::Object(ps) => if is_props {
                        JsonValue::Object(props_without_auth(ps))
                    } else {
                        es[i].1.deep_clone()
                    },
                    JsonValue::Array(items) => if is_req {
                        JsonValue::Array(required_without_auth(items))
                    } else {
                        es[i].1.deep_clone()
                    },
                    _ => es[i].1.deep_clone(),
                };
                assert((k@, json_model(v)) == strip_auth_entry(e)) by {
                    reveal_strlit("properties");
                    reveal_strlit("required");
                    if is_props && es@[i as int].1 is Object {
                        assert(json_model(es@[i as int].1)->Object_0 == entries_model(es@[i as int].1->Object_0@));
                    }
                    if is_req && es@[i as int].1 is Array {
                        assert(json_model(es@[i as int].1)->Array_0 == items_model(es@[i as int].1->Array_0@));
                    }
                }
                let ghost before = out@;
                out.push((k.clone(), v));
                assert(out@.drop_last() =~= before);
                i += 1;
            }
            assert(entries_model(es@).subrange(0, es@.len() as int) =~= entries_model(es@));
            JsonValue::Object(out)
        },
        _ => schema.deep_clone(),
    }
}

/// The `mcpServers` entry handed to a Cursor run: one HTTP server under
/// `MCP_SERVER_NAME` at `url`, authorised with the run's bearer token.
pub open spec fn mcp_servers_model(url: Seq<char>, token: Seq<char>) -> JsonModel {
    JsonModel::Object(
        seq![
            (
                MCP_SERVER_NAME@,
                JsonModel::Object(
                    seq![
                        ("type"@, JsonModel::Str("http"@)),
                        ("url"@, JsonModel::Str(url)),
                        ("headers"@, JsonModel::Object(seq![("Authorization"@, JsonModel::Str("Bearer "@ + token))])),
                    ],
                ),
            ),
        ],
    )
}

fn one_entry(k: &str, v: JsonValue) -> (r: Vec<(String, JsonValue)>)
    ensures
        entries_model(r@) == seq![(k@, json_model(v))],
{
    let mut out: Vec<(String, JsonValue)> = Vec::new();
    let kk = String::from_str(k);
    let ghost vm = json_model(v);
    out.push((kk, v));
    proof {
        crate::json::lemma_entries_model(out@);
    }
    assert(entries_model(out@) =~= seq![(k@, vm)]);
    out
}

pub fn build_mcp_servers_config(url: &str, token: &str) -> (r: JsonValue)
    ensures
        json_model(r) == mcp_servers_model(url@, token@),
{
    let mut auth = chars_of("Bearer ");
    append_str(&mut auth, token);
    let headers = JsonValue::Object(one_entry("Authorization", JsonValue::Str(string_of(&auth))));
    let mut server: Vec<(String, JsonValue)> = Vec::new();
    server.push((String::from_str("type"), JsonValue::Str(String::from_str("http"))));
    server.push((String::from_str("url"), JsonValue::Str(String::from_str(url))));
    let ghost hm = json_model(headers);
    server.push((String::from_str("headers"), headers));
    proof {
        crate::json::lemma_entries_model(server@);
        reveal_strlit("type");
        reveal_strlit("url");
        reveal_strlit("http");
        reveal_strlit("headers");
    }
    assert(entries_model(server@) =~= seq![
        ("type"@, JsonModel::Str("http"@)),
        ("url"@, JsonModel::Str(url@)),
        ("headers"@, hm),
    ]);
    JsonValue::Object(one_entry(MCP_SERVER_NAME, JsonValue::Object(server)))
}

} // verus!
