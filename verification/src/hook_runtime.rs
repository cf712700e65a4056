//! The hook pipeline of an agent turn: which stored hooks apply to an event, what
//! each action does to the run's result, and when the pipeline stops. Command and
//! prompt hooks run outside; their outputs come back through `apply_hook_output`.
use vstd::prelude::*;
use crate::db::{spec_scoped_for, HookDefinitionRecord};
use crate::hook_executor::HookOutput;
use crate::json::{entries_model, json_model, json_parse, json_text, json_text_of, json_value_of, lemma_entries_model, JsonModel, JsonValue};
use crate::pattern::{regex_captures, regex_matches};
use crate::text::{
    append_str, chars_of, dedup_seq, dedup_strings, lemma_dedup_seq, lower_seq, lower_vec, string_of, trim_seq,
    trim_vec, vec_eq, join_seqs, strings_view, join_lines, join_with_newlines,
};

verus! {

broadcast use vstd::string::group_string_axioms;

#[derive(Debug, Clone, Copy, PartialEq, Eq, Structural)]
pub enum HookEventName {
    BeforeTurn,
    PreToolUse,
    PostToolUse,
    PostToolBatch,
    PreStop,
    PostDelivery,
}

impl HookEventName {
    pub open spec fn spec_as_str(self) -> Seq<char> {
        match self {
            HookEventName::BeforeTurn => "BeforeTurn"@,
            HookEventName::PreToolUse => "PreToolUse"@,
            HookEventName::PostToolUse => "PostToolUse"@,
            HookEventName::PostToolBatch => "PostToolBatch"@,
            HookEventName::PreStop => "PreStop"@,
            HookEventName::PostDelivery => "PostDelivery"@,
        }
    }

    pub fn as_str(self) -> (r: &'static str)
        ensures
            r@ == self.spec_as_str(),
    {
        match self {
            HookEventName::BeforeTurn => "BeforeTurn",
            HookEventName::PreToolUse => "PreToolUse",
            HookEventName::PostToolUse => "PostToolUse",
            HookEventName::PostToolBatch => "PostToolBatch",
            HookEventName::PreStop => "PreStop",
            HookEventName::PostDelivery => "PostDelivery",
        }
    }
}

/// What a hook sees of the turn. The tool input is carried as its JSON text.
#[derive(Debug)]
pub struct HookRunInput {
    pub chat_id: i64,
    pub persona_id: i64,
    pub caller_channel: String,
    pub is_scheduled_task: bool,
    pub tool_name: Option<String>,
    pub tool_input_json: Option<String>,
    pub tool_output: Option<String>,
    pub tool_is_error: Option<bool>,
    pub stop_reason: Option<String>,
    pub assistant_text: Option<String>,
    pub runtime_signals: Option<JsonValue>,
}

#[derive(Debug, Clone)]
pub struct HookMemoryEffects {
    pub terminal_pz_post_ids: Vec<String>,
}

/// What the hooks of one event decided.
#[derive(Debug)]
pub struct HookRunResult {
    pub blocked_reason: Option<String>,
    pub additional_contexts: Vec<String>,
    pub matched_hook_ids: Vec<i64>,
    pub updated_tool_input: Option<JsonValue>,
    pub memory_effects: HookMemoryEffects,
    pub run_persona_focus_sync: bool,
}

impl HookRunResult {
    /// The result before any hook ran.
    pub fn new() -> (r: Self)
        ensures
            r.blocked_reason is None,
            r.additional_contexts@.len() == 0,
            r.matched_hook_ids@.len() == 0,
            r.updated_tool_input is None,
            r.memory_effects.terminal_pz_post_ids@.len() == 0,
            !r.run_persona_focus_sync,
    {
        HookRunResult {
            blocked_reason: None,
            additional_contexts: Vec::new(),
            matched_hook_ids: Vec::new(),
            updated_tool_input: None,
            memory_effects: HookMemoryEffects { terminal_pz_post_ids: Vec::new() },
            run_persona_focus_sync: false,
        }
    }
}

/// A hook listens for an event when its event name, trimmed, matches without regard
/// to ASCII case.
pub open spec fn spec_event_matches(record: HookDefinitionRecord, event: HookEventName) -> bool {
    lower_seq(trim_seq(record.event_name@)) == lower_seq(event.spec_as_str())
}

pub fn event_matches(record: &HookDefinitionRecord, event: HookEventName) -> (r: bool)
    ensures
        r == spec_event_matches(*record, event),
{
    vec_eq(&lower_vec(&trim_vec(&chars_of(record.event_name.as_str()))), &lower_vec(&chars_of(event.as_str())))
}

/// The parts of the tool-event matcher text, in order.
pub open spec fn tool_target_parts(input: HookRunInput) -> Seq<Seq<char>> {
    let a = match input.tool_name {
        Some(n) => seq!["tool_name="@ + n@],
        None => Seq::empty(),
    };
    let b = match input.tool_input_json {
        Some(j) => a.push("tool_input="@ + j@),
        None => a,
    };
    let c = match input.tool_output {
        Some(o) => b.push("tool_output="@ + o@),
        None => b,
    };
    match input.tool_is_error {
        Some(e) => c.push("tool_is_error="@ + (if e { "true"@ } else { "false"@ })),
        None => c,
    }
}

/// The text a hook's matcher is run against: the tool call for tool events, the
/// stop reason (else the reply) for stop and delivery events, nothing otherwise.
pub open spec fn spec_matcher_target(input: HookRunInput, event: HookEventName) -> Seq<char> {
    match event {
        HookEventName::PreToolUse | HookEventName::PostToolUse => join_lines(tool_target_parts(input)),
        HookEventName::PreStop | HookEventName::PostDelivery => match input.stop_reason {
            Some(s) => s@,
            None => match input.assistant_text {
                Some(t) => t@,
                None => Seq::empty(),
            },
        },
        _ => Seq::empty(),
    }
}

fn push_part(parts: &mut Vec<String>, label: &str, value: &str)
    ensures
        final(parts)@.map_values(|s: String| s@) == old(parts)@.map_values(|s: String| s@).push(label@ + value@),
{
    let ghost before = parts@.map_values(|s: String| s@);
    let mut v = chars_of(label);
    append_str(&mut v, value);
    parts.push(string_of(&v));
    assert(parts@.map_values(|s: String| s@) =~= before.push(label@ + value@));
}

pub fn matcher_target(input: &HookRunInput, event: HookEventName) -> (r: String)
    ensures
        r@ == spec_matcher_target(*input, event),
{
    match event {
        HookEventName::PreToolUse | HookEventName::PostToolUse => {
            let mut parts: Vec<String> = Vec::new();
            assert(parts@.map_values(|s: String| s@) =~= Seq::<Seq<char>>::empty());
            match &input.tool_name {
                Some(n) => push_part(&mut parts, "tool_name=", n.as_str()),
                None => {},
            }
            match &input.tool_input_json {
                Some(j) => push_part(&mut parts, "tool_input=", j.as_str()),
                None => {},
            }
            match &input.tool_output {
                Some(o) => push_part(&mut parts, "tool_output=", o.as_str()),
                None => {},
            }
            match input.tool_is_error {
                Some(e) => push_part(&mut parts, "tool_is_error=", if e { "true" } else { "false" }),
                None => {},
            }
            assert(parts@.map_values(|s: String| s@) =~= tool_target_parts(*input));
            join_with_newlines(&parts)
        },
        HookEventName::PreStop | HookEventName::PostDelivery => match &input.stop_reason {
            Some(s) => s.clone(),
            None => match &input.assistant_text {
                Some(t) => t.clone(),
                None => String::new(),
            },
        },
        _ => String::new(),
    }
}

/// Tool events carry a tool call.
pub open spec fn is_tool_event(event: HookEventName) -> bool {
    event == HookEventName::PreToolUse || event == HookEventName::PostToolUse
}

/// A hook's matcher admits the event: no matcher (or a blank one) and `*` admit
/// everything; otherwise the matcher is a regular expression that must match the
/// target text or, for a tool event, the tool's name alone (so that `^bash$`
/// selects the `bash` tool); an invalid expression matches nothing.
pub open spec fn spec_matcher_matches(matcher: Option<Seq<char>>, input: HookRunInput, event: HookEventName) -> bool {
    match matcher {
        Some(m) => {
            let t = trim_seq(m);
            t.len() == 0 || t == "*"@ || regex_matches(t, spec_matcher_target(input, event)).len() > 0
                || (is_tool_event(event) && input.tool_name is Some && regex_matches(
                t,
                input.tool_name.unwrap()@,
            ).len() > 0)
        },
        None => true,
    }
}

pub fn matcher_matches(matcher: Option<&str>, input: &HookRunInput, event: HookEventName) -> (r: bool)
    ensures
        r == spec_matcher_matches(match matcher { Some(m) => Some(m@), None => None }, *input, event),
{
    let m = match matcher {
        Some(m) => trim_vec(&chars_of(m)),
        None => {
            return true;
        },
    };
    if m.len() == 0 {
        return true;
    }
    let target = matcher_target(input, event);
    if vec_eq(&m, &chars_of("*")) {
        return true;
    }
    let pattern = string_of(&m);
    let ms = regex_captures(pattern.as_str(), target.as_str());
    proof {
        assert(crate::pattern::matches_view(ms@).len() == ms@.len());
    }
    if ms.len() > 0 {
        return true;
    }
    let tool_event = match event {
        HookEventName::PreToolUse | HookEventName::PostToolUse => true,
        _ => false,
    };
    if !tool_event {
        return false;
    }
    match &input.tool_name {
        Some(n) => {
            let by_name = regex_captures(pattern.as_str(), n.as_str());
            proof {
                assert(crate::pattern::matches_view(by_name@).len() == by_name@.len());
            }
            by_name.len() > 0
        },
        None => false,
    }
}

pub fn hook_scope_matches_persona(record: &HookDefinitionRecord, persona_id: i64) -> (r: bool)
    ensures
        r == spec_scoped_for(record.spec_scope(), persona_id),
{
    record.scoped_for_persona(persona_id)
}

/// A hook runs for an event when it is enabled, listens for the event, is scoped to
/// the persona, is allowed by the persona's policy and its matcher admits the event.
pub open spec fn spec_hook_selected(
    hook: HookDefinitionRecord,
    event: HookEventName,
    persona_id: i64,
    allowed_by_policy: bool,
    input: HookRunInput,
) -> bool {
    hook.enabled && spec_event_matches(hook, event) && spec_scoped_for(hook.spec_scope(), persona_id) && allowed_by_policy
        && spec_matcher_matches(match hook.matcher { Some(m) => Some(m@), None => None }, input, event)
}

pub fn hook_selected(
    hook: &HookDefinitionRecord,
    event: HookEventName,
    persona_id: i64,
    allowed_by_policy: bool,
    input: &HookRunInput,
) -> (r: bool)
    ensures
        r == spec_hook_selected(*hook, event, persona_id, allowed_by_policy, *input),
{
    if !hook.enabled || !event_matches(hook, event) {
        return false;
    }
    if !hook_scope_matches_persona(hook, persona_id) {
        return false;
    }
    if !allowed_by_policy {
        return false;
    }
    match &hook.matcher {
        Some(m) => matcher_matches(Some(m.as_str()), input, event),
        None => matcher_matches(None, input, event),
    }
}

/// A string field of a hook's payload, trimmed, when present and not blank.
pub open spec fn spec_payload_string(payload: JsonValue, key: Seq<char>) -> Option<Seq<char>> {
    match payload.spec_get(key) {
        Some(v) => match v.spec_as_str() {
            Some(s) => if trim_seq(s).len() > 0 {
                Some(trim_seq(s))
            } else {
                None
            },
            None => None,
        },
        None => None,
    }
}

pub fn payload_string(payload: &JsonValue, key: &str) -> (r: Option<String>)
    ensures
        match r { Some(x) => Some(x@), None => None } == spec_payload_string(*payload, key@),
{
    match payload.get(key) {
        Some(v) => match v.as_str() {
            Some(s) => {
                let t = trim_vec(&chars_of(s));
                if t.len() > 0 {
                    Some(string_of(&t))
                } else {
                    None
                }
            },
            None => None,
        },
        None => None,
    }
}

/// A flag of the turn's runtime signals; false when missing.
pub open spec fn spec_signal_bool(input: HookRunInput, key: Seq<char>) -> bool {
    match input.runtime_signals {
        Some(v) => match v.spec_get(key) {
            Some(x) => x.spec_as_bool() == Some(true),
            None => false,
        },
        None => false,
    }
}

/// A count of the turn's runtime signals; 0 when missing.
pub open spec fn spec_signal_u64(input: HookRunInput, key: Seq<char>) -> u64 {
    match input.runtime_signals {
        Some(v) => match v.spec_get(key) {
            Some(x) => match x.spec_as_u64() {
                Some(n) => n,
                None => 0,
            },
            None => 0,
        },
        None => 0,
    }
}

pub fn signal_bool(input: &HookRunInput, key: &str) -> (r: bool)
    ensures
        r == spec_signal_bool(*input, key@),
{
    match &input.runtime_signals {
        Some(v) => match v.get(key) {
            Some(x) => match x.as_bool() {
                Some(b) => b,
                None => false,
            },
            None => false,
        },
        None => false,
    }
}

pub fn signal_u64(input: &HookRunInput, key: &str) -> (r: u64)
    ensures
        r == spec_signal_u64(*input, key@),
{
    match &input.runtime_signals {
        Some(v) => match v.get(key) {
            Some(x) => match x.as_u64() {
                Some(n) => n,
                None => 0,
            },
            None => 0,
        },
        None => 0,
    }
}

/// The text of an optional string.
pub open spec fn ov(o: Option<String>) -> Option<Seq<char>> {
    match o {
        Some(s) => Some(s@),
        None => None,
    }
}

/// The reason a hook blocks with: its reason, else its user message (when not
/// blank), else a generic one naming the hook.
pub open spec fn block_reason(reason: Option<Seq<char>>, user_message: Option<Seq<char>>, hook_name: Seq<char>) -> Seq<char> {
    let r = match reason {
        Some(x) => Some(x),
        None => user_message,
    };
    match r {
        Some(x) => if trim_seq(x).len() > 0 {
            x
        } else {
            "Blocked by hook '"@ + hook_name + "'"@
        },
        None => "Blocked by hook '"@ + hook_name + "'"@,
    }
}

/// A permission that stops the turn: `deny` or `ask`, in any case.
pub open spec fn blocks(permission: Option<Seq<char>>) -> bool {
    let p = match permission {
        Some(x) => x,
        None => "allow"@,
    };
    lower_seq(p) == "deny"@ || lower_seq(p) == "ask"@
}

/// The context a hook adds: its additional context, else its agent message, when
/// not blank.
pub open spec fn added_context(additional: Option<Seq<char>>, agent_message: Option<Seq<char>>) -> Option<Seq<char>> {
    let c = match additional {
        Some(x) => Some(x),
        None => agent_message,
    };
    match c {
        Some(x) => if trim_seq(x).len() > 0 {
            Some(x)
        } else {
            None
        },
        None => None,
    }
}

fn blocked_by(hook_name: &str) -> (r: String)
    ensures
        r@ == "Blocked by hook '"@ + hook_name@ + "'"@,
{
    let mut v = chars_of("Blocked by hook '");
    append_str(&mut v, hook_name);
    append_str(&mut v, "'");
    string_of(&v)
}

fn append_strings(dst: &mut Vec<String>, src: &Vec<String>)
    ensures
        final(dst)@.map_values(|s: String| s@) == old(dst)@.map_values(|s: String| s@) + src@.map_values(
            |s: String| s@,
        ),
{
    let ghost start = dst@.map_values(|s: String| s@);
    let ghost idv = src@.map_values(|s: String| s@);
    let mut i: usize = 0;
    assert(start + idv.subrange(0, 0) =~= start);
    while i < src.len()
        invariant
            i <= src.len(),
            idv == src@.map_values(|s: String| s@),
            dst@.map_values(|s: String| s@) == start + idv.subrange(0, i as int),
        decreases src.len() - i,
    {
        dst.push(src[i].clone());
        assert(start + idv.subrange(0, i + 1) =~= (start + idv.subrange(0, i as int)).push(idv[i as int]));
        i += 1;
    }
    assert(idv.subrange(0, idv.len() as int) =~= idv);
}

/// What an outside hook's output does to the run's result `before`, giving
/// `after` (see `apply_hook_output`).
pub open spec fn output_effect(before: HookRunResult, after: HookRunResult, output: HookOutput, hook_name: Seq<char>) -> bool {
    &&& blocks(ov(output.permission)) ==> (after.blocked_reason matches Some(r) && r@ == block_reason(
        ov(output.reason),
        ov(output.user_message),
        hook_name,
    ))
    &&& !blocks(ov(output.permission)) ==> after.blocked_reason == before.blocked_reason
    &&& after.additional_contexts@.map_values(|s: String| s@) == (match added_context(
        ov(output.additional_context),
        ov(output.agent_message),
    ) {
        Some(c) => before.additional_contexts@.map_values(|s: String| s@).push(c),
        None => before.additional_contexts@.map_values(|s: String| s@),
    })
    &&& output.updated_tool_input is Some ==> after.updated_tool_input == output.updated_tool_input
    &&& output.updated_tool_input is None ==> after.updated_tool_input == before.updated_tool_input
    &&& after.matched_hook_ids@ == before.matched_hook_ids@
    &&& after.run_persona_focus_sync == before.run_persona_focus_sync
    &&& after.memory_effects.terminal_pz_post_ids@.map_values(|s: String| s@)
        == before.memory_effects.terminal_pz_post_ids@.map_values(|s: String| s@) + (match output.effects {
        Some(e) => match e.memory_tier3_prune {
            Some(p) => p.terminal_pz_post_ids@.map_values(|s: String| s@),
            None => Seq::empty(),
        },
        None => Seq::empty(),
    })
}

/// Folds one hook's output into the run: a `deny` or `ask` permission blocks with
/// the hook's reason; a non-blank context is added; an updated tool input replaces
/// the previous one; terminal post ids are appended. Nothing else changes.
pub fn apply_hook_output(out: &mut HookRunResult, output: HookOutput, hook_name: &str)
    ensures
        output_effect(*old(out), *final(out), output, hook_name@),
{
    let HookOutput { permission, reason, user_message, agent_message, additional_context, updated_tool_input, effects } =
        output;
    let perm = match permission {
        Some(p) => p,
        None => String::from_str("allow"),
    };
    let r = match reason {
        Some(x) => Some(x),
        None => user_message,
    };
    let reason_text = match r {
        Some(x) => {
            if trim_vec(&chars_of(x.as_str())).len() > 0 {
                x
            } else {
                blocked_by(hook_name)
            }
        },
        None => blocked_by(hook_name),
    };
    let pl = lower_vec(&chars_of(perm.as_str()));
    if vec_eq(&pl, &chars_of("deny")) || vec_eq(&pl, &chars_of("ask")) {
        out.blocked_reason = Some(reason_text);
    }
    let ctx = match additional_context {
        Some(x) => Some(x),
        None => agent_message,
    };
    match ctx {
        Some(c) => {
            if trim_vec(&chars_of(c.as_str())).len() > 0 {
                let ghost before = out.additional_contexts@.map_values(|s: String| s@);
                out.additional_contexts.push(c);
                assert(out.additional_contexts@.map_values(|s: String| s@) =~= before.push(c@));
            }
        },
        None => {},
    }
    match updated_tool_input {
        Some(v) => {
            out.updated_tool_input = Some(v);
        },
        None => {},
    }
    match effects {
        Some(e) => match e.memory_tier3_prune {
            Some(p) => {
                append_strings(&mut out.memory_effects.terminal_pz_post_ids, &p.terminal_pz_post_ids);
            },
            None => {},
        },
        None => {},
    }
}

/// Texts of built-in guards that live with the skill and workflow gates.
#[derive(Debug, Clone)]
pub struct SkillGateMessages {
    pub modify_skill_required: String,
    pub create_workflow_required: String,
    pub modify_workflow_required: String,
}

/// What the pipeline does after a hook's action.
#[derive(Debug, Clone, Copy, PartialEq, Eq, Structural)]
pub enum HookStep {
    /// Go on with the next hook.
    Next,
    /// Stop: no later hook runs.
    Stop,
    /// Run the command hook, fold its output in, and stop when it blocked.
    RunCommand,
    /// Run the prompt hook, fold its output in, and stop when it blocked.
    RunPrompt,
}

/// The action a stored hook performs, from its action type (trimmed, any case).
#[derive(Debug, Clone, Copy, PartialEq, Eq, Structural)]
pub enum HookActionKind {
    Block,
    AddContext,
    Command,
    Prompt,
    PersonaFocusSync,
    SchedulerPolicyContext,
    TurnSkillGate,
    DeferredCommitmentGuard,
    LoopGuard,
    Unknown,
}

pub open spec fn spec_action_kind(action_type: Seq<char>) -> HookActionKind {
    let k = lower_seq(trim_seq(action_type));
    if k == "block"@ {
        HookActionKind::Block
    } else if k == "add_context"@ {
        HookActionKind::AddContext
    } else if k == "command"@ {
        HookActionKind::Command
    } else if k == "prompt"@ {
        HookActionKind::Prompt
    } else if k == "builtin_persona_focus_sync"@ {
        HookActionKind::PersonaFocusSync
    } else if k == "builtin_scheduler_policy_context"@ {
        HookActionKind::SchedulerPolicyContext
    } else if k == "builtin_turn_skill_gate"@ {
        HookActionKind::TurnSkillGate
    } else if k == "builtin_deferred_commitment_guard"@ {
        HookActionKind::DeferredCommitmentGuard
    } else if k == "builtin_loop_guard"@ {
        HookActionKind::LoopGuard
    } else {
        HookActionKind::Unknown
    }
}

pub fn action_kind(action_type: &str) -> (r: HookActionKind)
    ensures
        r == spec_action_kind(action_type@),
{
    let k = lower_vec(&trim_vec(&chars_of(action_type)));
    if vec_eq(&k, &chars_of("block")) {
        HookActionKind::Block
    } else if vec_eq(&k, &chars_of("add_context")) {
        HookActionKind::AddContext
    } else if vec_eq(&k, &chars_of("command")) {
        HookActionKind::Command
    } else if vec_eq(&k, &chars_of("prompt")) {
        HookActionKind::Prompt
    } else if vec_eq(&k, &chars_of("builtin_persona_focus_sync")) {
        HookActionKind::PersonaFocusSync
    } else if vec_eq(&k, &chars_of("builtin_scheduler_policy_context")) {
        HookActionKind::SchedulerPolicyContext
    } else if vec_eq(&k, &chars_of("builtin_turn_skill_gate")) {
        HookActionKind::TurnSkillGate
    } else if vec_eq(&k, &chars_of("builtin_deferred_commitment_guard")) {
        HookActionKind::DeferredCommitmentGuard
    } else if vec_eq(&k, &chars_of("builtin_loop_guard")) {
        HookActionKind::LoopGuard
    } else {
        HookActionKind::Unknown
    }
}

/// The scheduler policy added to scheduled runs.
pub open spec fn scheduler_policy_text() -> Seq<char> {
    "Scheduled run policy: send one final assistant reply only; do not call send_message for this chat."@
}

/// The reason the turn skill gate gives when the schedule skill is missing.
pub open spec fn schedule_skill_text() -> Seq<char> {
    "skill_required: schedule_task and update_scheduled_task require activating the `schedule-job` skill first in this turn. Call `activate_skill` with skill_name `schedule-job`, follow its preflight (including timezone handling), then call the scheduling tool."@
}

/// The reason the deferred-commitment guard gives.
pub open spec fn deferred_commitment_text() -> Seq<char> {
    "deferred_commitment: You ended your turn while promising further work. Either call a tool now (read_agent_history, read_file, glob, list_cursor_agent_runs, etc.) or give a final answer with what you already know—do not say you are checking something without a tool call."@
}

/// The loop guard's hint on repeated whole-file edits.
pub open spec fn legacy_edit_hint_text() -> Seq<char> {
    "Routing hint: you are repeatedly editing files via write_file/edit_file without using apply_search_replace. For non-trivial code edits, first call read_repo_map, then use apply_search_replace with explicit SEARCH/REPLACE blocks; keep edit_file as fallback only."@
}

/// The loop guard's hint on discovery loops.
pub open spec fn discovery_hint_text() -> Seq<char> {
    "Routing hint: you are in a discovery/search loop (list tasks, list cursor runs, broad grep/find). For job status use `read_tiered_memory` and `list_cursor_agent_runs`; for files use `glob` with a pattern (e.g. PZ-*.png) or `read_file` on a known path — not recursive shell grep over `shared/`."@
}

/// The loop guard's reason when a discovery loop stalls the run.
pub open spec fn stall_text() -> Seq<char> {
    "stall_response: I stopped because this run kept searching without making progress (repeated status/list/grep steps). Tell me what you need in one line — e.g. show the latest PZ image, check a specific background job id, or retry generation — and I will use a direct path (tiered memory, glob, or a single read) instead of scanning the tree."@
}

/// The skill gate once the scheduling skill is not asked for: the first of the
/// modify, create-workflow and modify-workflow requirements that the run signals
/// blocks with its message after `skill_required: `; with none, the run goes on.
pub open spec fn skill_gate_outcome(
    input: HookRunInput,
    gates: SkillGateMessages,
    r: HookStep,
    before: Option<String>,
    after: Option<String>,
) -> bool {
    if spec_signal_bool(input, "requires_modify_skill"@) {
        r == HookStep::Stop && (after matches Some(b) && b@ == "skill_required: "@ + gates.modify_skill_required@)
    } else if spec_signal_bool(input, "requires_create_workflow_skill"@) {
        r == HookStep::Stop && (after matches Some(b) && b@ == "skill_required: "@
            + gates.create_workflow_required@)
    } else if spec_signal_bool(input, "requires_modify_workflow_skill"@) {
        r == HookStep::Stop && (after matches Some(b) && b@ == "skill_required: "@
            + gates.modify_workflow_required@)
    } else {
        r == HookStep::Next && after == before
    }
}

/// The larger of a threshold signal and its floor.
pub open spec fn threshold_at_least(v: u64, floor: u64) -> u64 {
    if v >= floor {
        v
    } else {
        floor
    }
}

/// The loop guard: nothing while a forced stall is already present; otherwise the
/// edit hint once the whole-file edit count reaches its threshold (at least 2), the
/// discovery hint once the discovery streak reaches its hint threshold (at least 1),
/// and a stop with the stall reason once the streak reaches its stall threshold (at
/// least 2).
pub open spec fn loop_guard_outcome(
    input: HookRunInput,
    r: HookStep,
    ctx_before: Seq<Seq<char>>,
    ctx_after: Seq<Seq<char>>,
    before: Option<String>,
    after: Option<String>,
) -> bool {
    if spec_signal_bool(input, "force_stall_present"@) {
        r == HookStep::Next && ctx_after == ctx_before && after == before
    } else {
        let legacy = spec_signal_u64(input, "legacy_edit_without_block_count"@);
        let legacy_at = threshold_at_least(spec_signal_u64(input, "legacy_edit_hint_threshold"@), 2);
        let streak = spec_signal_u64(input, "discovery_streak_count"@);
        let hint_at = threshold_at_least(spec_signal_u64(input, "discovery_streak_hint_threshold"@), 1);
        let stall_at = threshold_at_least(spec_signal_u64(input, "discovery_streak_stall_threshold"@), 2);
        let with_edit = if legacy >= legacy_at {
            ctx_before.push(legacy_edit_hint_text())
        } else {
            ctx_before
        };
        &&& ctx_after == (if streak >= hint_at {
            with_edit.push(discovery_hint_text())
        } else {
            with_edit
        })
        &&& if streak >= stall_at {
            r == HookStep::Stop && (after matches Some(b) && b@ == stall_text())
        } else {
            r == HookStep::Next && after == before
        }
    }
}

fn push_text(v: &mut Vec<String>, s: &str)
    ensures
        final(v)@.map_values(|x: String| x@) == old(v)@.map_values(|x: String| x@).push(s@),
{
    let ghost before = v@.map_values(|x: String| x@);
    v.push(String::from_str(s));
    assert(v@.map_values(|x: String| x@) =~= before.push(s@));
}

fn max_u64(a: u64, b: u64) -> (r: u64)
    ensures
        r == (if a >= b { a } else { b }),
{
    if a >= b {
        a
    } else {
        b
    }
}

fn prefixed_text(prefix: &str, rest: &str) -> (r: String)
    ensures
        r@ == prefix@ + rest@,
{
    let mut v = chars_of(prefix);
    append_str(&mut v, rest);
    string_of(&v)
}

/// What one hook's action does to the run's result `before`, giving `after` and
/// the pipeline step `r` (see `hook_action_step`).
pub open spec fn action_step_effect(
    before: HookRunResult,
    after: HookRunResult,
    hook: HookDefinitionRecord,
    payload: JsonValue,
    input: HookRunInput,
    gates: SkillGateMessages,
    r: HookStep,
) -> bool {
    &&& after.matched_hook_ids@ == before.matched_hook_ids@.push(hook.id)
    &&& after.updated_tool_input == before.updated_tool_input
    &&& after.memory_effects == before.memory_effects
    &&& ({
            let kind = spec_action_kind(hook.action_type@);
            &&& kind != HookActionKind::PersonaFocusSync ==> after.run_persona_focus_sync
                == before.run_persona_focus_sync
            &&& (kind != HookActionKind::AddContext && kind != HookActionKind::SchedulerPolicyContext && kind
                != HookActionKind::LoopGuard) ==> after.additional_contexts@ == before.additional_contexts@
            &&& (kind == HookActionKind::AddContext || kind == HookActionKind::Command || kind
                == HookActionKind::Prompt || kind == HookActionKind::PersonaFocusSync || kind
                == HookActionKind::SchedulerPolicyContext || kind == HookActionKind::Unknown) ==> after.blocked_reason
                == before.blocked_reason
            &&& kind == HookActionKind::Block ==> r == HookStep::Stop && (after.blocked_reason matches Some(b)
                && b@ == (match spec_payload_string(payload, "reason"@) {
                Some(x) => x,
                None => "Blocked by hook '"@ + hook.name@ + "'"@,
            }))
            &&& kind == HookActionKind::AddContext ==> r == HookStep::Next && after.additional_contexts@.map_values(
                |s: String| s@,
            ) == (match spec_payload_string(payload, "additional_context"@) {
                Some(x) => before.additional_contexts@.map_values(|s: String| s@).push(x),
                None => match spec_payload_string(payload, "context"@) {
                    Some(x) => before.additional_contexts@.map_values(|s: String| s@).push(x),
                    None => before.additional_contexts@.map_values(|s: String| s@),
                },
            })
            &&& kind == HookActionKind::Command ==> r == HookStep::RunCommand
            &&& kind == HookActionKind::Prompt ==> r == HookStep::RunPrompt
            &&& kind == HookActionKind::PersonaFocusSync ==> r == HookStep::Next && after.run_persona_focus_sync
            &&& kind == HookActionKind::SchedulerPolicyContext ==> r == HookStep::Next
                && after.additional_contexts@.map_values(|s: String| s@) == (if input.is_scheduled_task {
                before.additional_contexts@.map_values(|s: String| s@).push(scheduler_policy_text())
            } else {
                before.additional_contexts@.map_values(|s: String| s@)
            })
            &&& kind == HookActionKind::TurnSkillGate && spec_signal_bool(input, "requires_schedule_skill"@) ==> r
                == HookStep::Stop && (after.blocked_reason matches Some(b) && b@ == schedule_skill_text())
            &&& kind == HookActionKind::DeferredCommitmentGuard && (input.stop_reason matches Some(s) && s@
                == "ask_clarification"@) ==> r == HookStep::Stop && after.blocked_reason
                == before.blocked_reason
            &&& kind == HookActionKind::DeferredCommitmentGuard && !(input.stop_reason matches Some(s) && s@
                == "ask_clarification"@) && spec_signal_bool(input, "deferred_commitment_should_reject"@)
                && spec_signal_bool(input, "can_continue_iteration"@) && spec_signal_u64(
                input,
                "deferred_commitment_nudges"@,
            ) < spec_signal_u64(input, "deferred_commitment_max_nudges"@) ==> r == HookStep::Stop
                && (after.blocked_reason matches Some(b) && b@ == deferred_commitment_text())
            &&& kind == HookActionKind::TurnSkillGate && !spec_signal_bool(input, "requires_schedule_skill"@)
                ==> skill_gate_outcome(input, gates, r, before.blocked_reason, after.blocked_reason)
            &&& kind == HookActionKind::DeferredCommitmentGuard && !(input.stop_reason matches Some(s) && s@
                == "ask_clarification"@) && !(spec_signal_bool(input, "deferred_commitment_should_reject"@)
                && spec_signal_bool(input, "can_continue_iteration"@) && spec_signal_u64(
                input,
                "deferred_commitment_nudges"@,
            ) < spec_signal_u64(input, "deferred_commitment_max_nudges"@)) ==> r == HookStep::Next
                && after.blocked_reason == before.blocked_reason
            &&& kind == HookActionKind::LoopGuard ==> loop_guard_outcome(
                input,
                r,
                before.additional_contexts@.map_values(|s: String| s@),
                after.additional_contexts@.map_values(|s: String| s@),
                before.blocked_reason,
                after.blocked_reason,
            )
            &&& kind == HookActionKind::Unknown ==> r == HookStep::Next && after.blocked_reason
                == before.blocked_reason
            &&& r == HookStep::Stop ==> after.blocked_reason is Some || kind
                == HookActionKind::DeferredCommitmentGuard
        })
}

/// One hook's action, after its id is recorded as matched. `block` stops with the
/// payload's reason (or a generic one); `add_context` adds the payload's context;
/// `command` and `prompt` are run outside; the built-ins set the focus-sync flag,
/// add the scheduler policy to scheduled runs, gate skills, guard deferred
/// commitments and detect loops, stopping the pipeline whenever they block. Unknown
/// action types do nothing.
pub fn hook_action_step(
    out: &mut HookRunResult,
    hook: &HookDefinitionRecord,
    payload: &JsonValue,
    input: &HookRunInput,
    gates: &SkillGateMessages,
) -> (r: HookStep)
    ensures
        action_step_effect(*old(out), *final(out), *hook, *payload, *input, *gates, r),
{
    out.matched_hook_ids.push(hook.id);
    let kind = action_kind(hook.action_type.as_str());
    if kind == HookActionKind::Block {
        let reason = match payload_string(payload, "reason") {
            Some(r) => r,
            None => blocked_by(hook.name.as_str()),
        };
        out.blocked_reason = Some(reason);
        return HookStep::Stop;
    }
    if kind == HookActionKind::AddContext {
        let text = match payload_string(payload, "additional_context") {
            Some(t) => Some(t),
            None => payload_string(payload, "context"),
        };
        match text {
            Some(t) => {
                let ghost before = out.additional_contexts@.map_values(|s: String| s@);
                out.additional_contexts.push(t);
                assert(out.additional_contexts@.map_values(|s: String| s@) =~= before.push(t@));
            },
            None => {},
        }
        return HookStep::Next;
    }
    if kind == HookActionKind::Command {
        return HookStep::RunCommand;
    }
    if kind == HookActionKind::Prompt {
        return HookStep::RunPrompt;
    }
    if kind == HookActionKind::PersonaFocusSync {
        out.run_persona_focus_sync = true;
        return HookStep::Next;
    }
    if kind == HookActionKind::SchedulerPolicyContext {
        if input.is_scheduled_task {
            push_text(
                &mut out.additional_contexts,
                "Scheduled run policy: send one final assistant reply only; do not call send_message for this chat.",
            );
        }
        return HookStep::Next;
    }
    if kind == HookActionKind::TurnSkillGate {
        if signal_bool(input, "requires_schedule_skill") {
            out.blocked_reason = Some(
                String::from_str(
                    "skill_required: schedule_task and update_scheduled_task require activating the `schedule-job` skill first in this turn. Call `activate_skill` with skill_name `schedule-job`, follow its preflight (including timezone handling), then call the scheduling tool.",
                ),
            );
            return HookStep::Stop;
        }
        if signal_bool(input, "requires_modify_skill") {
            out.blocked_reason = Some(prefixed_text("skill_required: ", gates.modify_skill_required.as_str()));
            return HookStep::Stop;
        }
        if signal_bool(input, "requires_create_workflow_skill") {
            out.blocked_reason = Some(prefixed_text("skill_required: ", gates.create_workflow_required.as_str()));
            return HookStep::Stop;
        }
        if signal_bool(input, "requires_modify_workflow_skill") {
            out.blocked_reason = Some(prefixed_text("skill_required: ", gates.modify_workflow_required.as_str()));
            return HookStep::Stop;
        }
        return HookStep::Next;
    }
    if kind == HookActionKind::DeferredCommitmentGuard {
        let clarifying = match &input.stop_reason {
            Some(s) => vec_eq(&chars_of(s.as_str()), &chars_of("ask_clarification")),
            None => false,
        };
        if clarifying {
            return HookStep::Stop;
        }
        let should_reject = signal_bool(input, "deferred_commitment_should_reject");
        let nudge_count = signal_u64(input, "deferred_commitment_nudges");
        let nudge_max = signal_u64(input, "deferred_commitment_max_nudges");
        let can_continue = signal_bool(input, "can_continue_iteration");
        if should_reject && can_continue && nudge_count < nudge_max {
            out.blocked_reason = Some(
                String::from_str(
                    "deferred_commitment: You ended your turn while promising further work. Either call a tool now (read_agent_history, read_file, glob, list_cursor_agent_runs, etc.) or give a final answer with what you already know—do not say you are checking something without a tool call.",
                ),
            );
            return HookStep::Stop;
        }
        return HookStep::Next;
    }
    if kind == HookActionKind::LoopGuard {
        if signal_bool(input, "force_stall_present") {
            return HookStep::Next;
        }
        let legacy_count = signal_u64(input, "legacy_edit_without_block_count");
        if legacy_count >= max_u64(signal_u64(input, "legacy_edit_hint_threshold"), 2) {
            push_text(
                &mut out.additional_contexts,
                "Routing hint: you are repeatedly editing files via write_file/edit_file without using apply_search_replace. For non-trivial code edits, first call read_repo_map, then use apply_search_replace with explicit SEARCH/REPLACE blocks; keep edit_file as fallback only.",
            );
        }
        let discovery_count = signal_u64(input, "discovery_streak_count");
        let discovery_hint = max_u64(signal_u64(input, "discovery_streak_hint_threshold"), 1);
        let discovery_stall = max_u64(signal_u64(input, "discovery_streak_stall_threshold"), 2);
        if discovery_count >= discovery_hint {
            push_text(
                &mut out.additional_contexts,
                "Routing hint: you are in a discovery/search loop (list tasks, list cursor runs, broad grep/find). For job status use `read_tiered_memory` and `list_cursor_agent_runs`; for files use `glob` with a pattern (e.g. PZ-*.png) or `read_file` on a known path — not recursive shell grep over `shared/`.",
            );
        }
        if discovery_count >= discovery_stall {
            out.blocked_reason = Some(
                String::from_str(
                    "stall_response: I stopped because this run kept searching without making progress (repeated status/list/grep steps). Tell me what you need in one line — e.g. show the latest PZ image, check a specific background job id, or retry generation — and I will use a direct path (tiered memory, glob, or a single read) instead of scanning the tree.",
                ),
            );
            return HookStep::Stop;
        }
        return HookStep::Next;
    }
    HookStep::Next
}

/// The content of a hook's stored payload: the JSON document its text holds, or
/// `null` when the text is not one.
pub open spec fn payload_model(text: Seq<char>) -> JsonModel {
    match json_value_of(text) {
        Some(m) => m,
        None => JsonModel::Null,
    }
}

/// Reads a hook's stored payload text.
pub fn hook_payload(text: &str) -> (r: JsonValue)
    ensures
        r@ == payload_model(text@),
{
    match json_parse(text) {
        Ok(v) => v,
        Err(_) => JsonValue::Null,
    }
}

/// The hooks of `hooks` that run for the event, in order; `allowed[i]` is whether
/// the persona's policy allows `hooks[i]`.
pub open spec fn selected_hooks(
    hooks: Seq<HookDefinitionRecord>,
    allowed: Seq<bool>,
    event: HookEventName,
    persona_id: i64,
    input: HookRunInput,
) -> Seq<HookDefinitionRecord>
    decreases hooks.len(),
{
    if hooks.len() == 0 || allowed.len() == 0 {
        Seq::empty()
    } else {
        let rest = selected_hooks(hooks.drop_last(), allowed.drop_last(), event, persona_id, input);
        if spec_hook_selected(hooks.last(), event, persona_id, allowed.last(), input) {
            rest.push(hooks.last())
        } else {
            rest
        }
    }
}

/// The ids of a list of hooks, in order.
pub open spec fn hook_ids(hooks: Seq<HookDefinitionRecord>) -> Seq<i64> {
    hooks.map_values(|h: HookDefinitionRecord| h.id)
}

/// Ids that only grow along the list.
pub open spec fn ids_ascending(ids: Seq<i64>) -> bool {
    forall|i: int, j: int| 0 <= i < j < ids.len() ==> ids[i] < ids[j]
}

/// Keeps the hooks that run for the event, in order.
pub fn select_hooks(
    hooks: Vec<HookDefinitionRecord>,
    allowed: &Vec<bool>,
    event: HookEventName,
    persona_id: i64,
    input: &HookRunInput,
) -> (r: Vec<HookDefinitionRecord>)
    requires
        allowed.len() == hooks.len(),
    ensures
        r@ == selected_hooks(hooks@, allowed@, event, persona_id, *input),
{
    let ghost orig = hooks@;
    let mut rest = hooks;
    let mut out: Vec<HookDefinitionRecord> = Vec::new();
    let mut i: usize = 0;
    assert(out@ =~= selected_hooks(orig.subrange(0, 0), allowed@.subrange(0, 0), event, persona_id, *input));
    assert(rest@ =~= orig.subrange(0, orig.len() as int));
    while rest.len() > 0
        invariant
            i <= orig.len(),
            orig.len() <= usize::MAX,
            allowed@.len() == orig.len(),
            rest@ == orig.subrange(i as int, orig.len() as int),
            out@ == selected_hooks(orig.subrange(0, i as int), allowed@.subrange(0, i as int), event, persona_id, *input),
        decreases rest.len(),
    {
        let ghost sub = orig.subrange(0, i + 1);
        let ghost asub = allowed@.subrange(0, i + 1);
        assert(sub.drop_last() =~= orig.subrange(0, i as int));
        assert(asub.drop_last() =~= allowed@.subrange(0, i as int));
        assert(asub.last() == allowed@[i as int]);
        let h = rest.remove(0);
        assert(h == orig[i as int]);
        assert(sub.last() == h);
        if hook_selected(&h, event, persona_id, allowed[i], input) {
            out.push(h);
        }
        assert(rest@ =~= orig.subrange(i + 1, orig.len() as int));
        i += 1;
    }
    assert(orig.subrange(0, orig.len() as int) =~= orig);
    assert(allowed@.subrange(0, orig.len() as int) =~= allowed@);
    out
}

/// Every hook selected for an event runs for it and is one of the listed hooks;
/// when the listed hooks come in ascending id order, so do the selected ones, each
/// id once.
pub proof fn lemma_selected_hooks(
    hooks: Seq<HookDefinitionRecord>,
    allowed: Seq<bool>,
    event: HookEventName,
    persona_id: i64,
    input: HookRunInput,
)
    requires
        allowed.len() == hooks.len(),
    ensures
        forall|k: int|
            0 <= k < selected_hooks(hooks, allowed, event, persona_id, input).len() ==> exists|j: int|
                0 <= j < hooks.len() && hooks[j] == #[trigger] selected_hooks(hooks, allowed, event, persona_id, input)[k]
                    && spec_hook_selected(hooks[j], event, persona_id, allowed[j], input),
        ids_ascending(hook_ids(hooks)) ==> ids_ascending(hook_ids(selected_hooks(hooks, allowed, event, persona_id, input))),
        ids_ascending(hook_ids(hooks)) ==> forall|k: int|
            0 <= k < selected_hooks(hooks, allowed, event, persona_id, input).len() ==> #[trigger] selected_hooks(
                hooks,
                allowed,
                event,
                persona_id,
                input,
            )[k].id >= hooks[0].id && selected_hooks(hooks, allowed, event, persona_id, input)[k].id <= hooks.last().id,
    decreases hooks.len(),
{
    let sel = selected_hooks(hooks, allowed, event, persona_id, input);
    if hooks.len() > 0 {
        let d = hooks.drop_last();
        let ad = allowed.drop_last();
        lemma_selected_hooks(d, ad, event, persona_id, input);
        let rest = selected_hooks(d, ad, event, persona_id, input);
        assert forall|k: int| 0 <= k < rest.len() implies exists|j: int|
            0 <= j < hooks.len() && hooks[j] == #[trigger] rest[k] && spec_hook_selected(hooks[j], event, persona_id, allowed[j], input) by {
            let j = choose|j: int| 0 <= j < d.len() && d[j] == rest[k] && spec_hook_selected(d[j], event, persona_id, ad[j], input);
            assert(hooks[j] == d[j] && allowed[j] == ad[j]);
        }
        if spec_hook_selected(hooks.last(), event, persona_id, allowed.last(), input) {
            let l = rest.push(hooks.last());
            assert forall|k: int| 0 <= k < l.len() implies exists|j: int|
                0 <= j < hooks.len() && hooks[j] == #[trigger] l[k] && spec_hook_selected(hooks[j], event, persona_id, allowed[j], input) by {
                if k < rest.len() {
                    assert(l[k] == rest[k]);
                } else {
                    assert(hooks[hooks.len() - 1] == hooks.last());
                    assert(allowed[hooks.len() - 1] == allowed.last());
                }
            }
            if ids_ascending(hook_ids(hooks)) {
                let hi = hook_ids(hooks);
                assert(ids_ascending(hook_ids(d))) by {
                    assert forall|a: int, b: int| 0 <= a < b < hook_ids(d).len() implies hook_ids(d)[a] < hook_ids(d)[b] by {
                        assert(hook_ids(d)[a] == hi[a] && hook_ids(d)[b] == hi[b]);
                    }
                }
                let li = hook_ids(l);
                assert forall|a: int, b: int| 0 <= a < b < li.len() implies li[a] < li[b] by {
                    if b < rest.len() {
                        assert(li[a] == hook_ids(rest)[a] && li[b] == hook_ids(rest)[b]);
                    } else {
                        assert(li[a] == rest[a].id);
                        assert(rest[a].id <= d.last().id);
                        assert(hi[d.len() - 1] < hi[hooks.len() - 1]);
                        assert(d.last() == hooks[d.len() - 1]);
                        assert(hooks.last() == hooks[hooks.len() - 1]);
                    }
                }
                assert forall|k: int| 0 <= k < l.len() implies #[trigger] l[k].id >= hooks[0].id && l[k].id <= hooks.last().id by {
                    if k < rest.len() {
                        assert(l[k] == rest[k]);
                        if d.len() > 0 {
                            assert(d[0] == hooks[0]);
                            assert(d.last() == hooks[d.len() - 1]);
                            assert(hooks.last() == hooks[hooks.len() - 1]);
                            assert(hi[d.len() - 1] <= hi[hooks.len() - 1]);
                        }
                    } else {
                        assert(hooks.last() == hooks[hooks.len() - 1]);
                        if hooks.len() > 1 {
                            assert(hi[0] < hi[hooks.len() - 1]);
                        }
                    }
                }
            }
        } else {
            if ids_ascending(hook_ids(hooks)) {
                let hi = hook_ids(hooks);
                assert(ids_ascending(hook_ids(d))) by {
                    assert forall|a: int, b: int| 0 <= a < b < hook_ids(d).len() implies hook_ids(d)[a] < hook_ids(d)[b] by {
                        assert(hook_ids(d)[a] == hi[a] && hook_ids(d)[b] == hi[b]);
                    }
                }
                assert forall|k: int| 0 <= k < rest.len() implies #[trigger] rest[k].id >= hooks[0].id && rest[k].id <= hooks.last().id by {
                    assert(d[0] == hooks[0]);
                    assert(d.last() == hooks[d.len() - 1]);
                    assert(hooks.last() == hooks[hooks.len() - 1]);
                    assert(hi[d.len() - 1] <= hi[hooks.len() - 1]);
                }
            }
        }
    }
}

/// An integer as JSON.
pub open spec fn int_model(x: i64) -> JsonModel {
    JsonModel::Number(if x >= 0 { Some(x as u64) } else { None }, crate::decimal::signed_decimal_seq(x as int))
}

/// An optional string as JSON (`null` when absent).
pub open spec fn opt_str_model(o: Option<String>) -> JsonModel {
    match o {
        Some(s) => JsonModel::Str(s@),
        None => JsonModel::Null,
    }
}

/// The document a command or prompt hook is given on its input: the event, the
/// hook's id and name, and the run's input fields, with the tool input read as
/// JSON (`null` when absent or not JSON).
pub open spec fn hook_input_model(event: HookEventName, hook: HookDefinitionRecord, input: HookRunInput) -> JsonModel {
    JsonModel::Object(
        seq![
            ("event"@, JsonModel::Str(event.spec_as_str())),
            ("hook"@, JsonModel::Object(seq![("id"@, int_model(hook.id)), ("name"@, JsonModel::Str(hook.name@))])),
            ("chat_id"@, int_model(input.chat_id)),
            ("persona_id"@, int_model(input.persona_id)),
            ("channel"@, JsonModel::Str(input.caller_channel@)),
            ("is_scheduled_task"@, JsonModel::Bool(input.is_scheduled_task)),
            ("tool_name"@, opt_str_model(input.tool_name)),
            ("tool_input"@, match input.tool_input_json {
                Some(t) => payload_model(t@),
                None => JsonModel::Null,
            }),
            ("tool_output"@, opt_str_model(input.tool_output)),
            ("tool_is_error"@, match input.tool_is_error {
                Some(b) => JsonModel::Bool(b),
                None => JsonModel::Null,
            }),
            ("stop_reason"@, opt_str_model(input.stop_reason)),
            ("assistant_text"@, opt_str_model(input.assistant_text)),
            ("runtime_signals"@, match input.runtime_signals {
                Some(v) => json_model(v),
                None => JsonModel::Null,
            }),
        ],
    )
}

fn int_value(x: i64) -> (r: JsonValue)
    ensures
        r@ == int_model(x),
{
    let n = if x >= 0 {
        Some(x as u64)
    } else {
        None
    };
    JsonValue::Number(n, string_of(&crate::decimal::i64_decimal(x)))
}

fn opt_str_value(o: &Option<String>) -> (r: JsonValue)
    ensures
        r@ == opt_str_model(*o),
{
    match o {
        Some(s) => JsonValue::Str(s.clone()),
        None => JsonValue::Null,
    }
}

fn entry(key: &str, v: JsonValue) -> (r: (String, JsonValue))
    ensures
        r.0@ == key@,
        r.1 == v,
{
    (String::from_str(key), v)
}

/// The input document of a command or prompt hook, as JSON text.
pub fn hook_input_json(event: HookEventName, hook: &HookDefinitionRecord, input: &HookRunInput) -> (r: String)
    ensures
        r@ == json_text_of(hook_input_model(event, *hook, *input)),
{
    let hook_entries = vec![entry("id", int_value(hook.id)), entry("name", JsonValue::Str(hook.name.clone()))];
    proof {
        lemma_entries_model(hook_entries@);
    }
    assert(entries_model(hook_entries@) =~= seq![("id"@, int_model(hook.id)), ("name"@, JsonModel::Str(hook.name@))]);
    let tool_input = match &input.tool_input_json {
        Some(t) => hook_payload(t.as_str()),
        None => JsonValue::Null,
    };
    let tool_is_error = match input.tool_is_error {
        Some(b) => JsonValue::Bool(b),
        None => JsonValue::Null,
    };
    let signals = match &input.runtime_signals {
        Some(v) => v.deep_clone(),
        None => JsonValue::Null,
    };
    let entries = vec![
        entry("event", JsonValue::Str(String::from_str(event.as_str()))),
        entry("hook", JsonValue::Object(hook_entries)),
        entry("chat_id", int_value(input.chat_id)),
        entry("persona_id", int_value(input.persona_id)),
        entry("channel", JsonValue::Str(input.caller_channel.clone())),
        entry("is_scheduled_task", JsonValue::Bool(input.is_scheduled_task)),
        entry("tool_name", opt_str_value(&input.tool_name)),
        entry("tool_input", tool_input),
        entry("tool_output", opt_str_value(&input.tool_output)),
        entry("tool_is_error", tool_is_error),
        entry("stop_reason", opt_str_value(&input.stop_reason)),
        entry("assistant_text", opt_str_value(&input.assistant_text)),
        entry("runtime_signals", signals),
    ];
    proof {
        lemma_entries_model(entries@);
    }
    let doc = JsonValue::Object(entries);
    assert(doc@ == hook_input_model(event, *hook, *input)) by {
        assert(entries_model(entries@) =~= hook_input_model(event, *hook, *input)->Object_0);
    }
    json_text(&doc)
}

/// The error when a command or prompt hook's payload does not fit its shape.
pub fn invalid_hook_payload(kind: &str, hook_name: &str, err: &str) -> (r: crate::error::FinallyAValueBotError)
    ensures
        r matches crate::error::FinallyAValueBotError::ToolExecution(m) && m@ == "invalid "@ + kind@
            + " hook payload for '"@ + hook_name@ + "': "@ + err@,
{
    let mut v = chars_of("invalid ");
    append_str(&mut v, kind);
    append_str(&mut v, " hook payload for '");
    append_str(&mut v, hook_name);
    append_str(&mut v, "': ");
    append_str(&mut v, err);
    crate::error::FinallyAValueBotError::ToolExecution(string_of(&v))
}

/// The end of a hook run: terminal post ids keep only their first occurrence, so
/// each id appears once and all of them are kept.
pub fn finish_hook_run(out: &mut HookRunResult)
    ensures
        final(out).memory_effects.terminal_pz_post_ids@.map_values(|s: String| s@) == dedup_seq(
            old(out).memory_effects.terminal_pz_post_ids@.map_values(|s: String| s@),
        ),
        final(out).memory_effects.terminal_pz_post_ids@.map_values(|s: String| s@).no_duplicates(),
        forall|x: Seq<char>| #[trigger] strings_view(final(out).memory_effects.terminal_pz_post_ids@).contains(x)
            <==> strings_view(old(out).memory_effects.terminal_pz_post_ids@).contains(x),
        final(out).blocked_reason == old(out).blocked_reason,
        final(out).additional_contexts@ == old(out).additional_contexts@,
        final(out).matched_hook_ids@ == old(out).matched_hook_ids@,
        final(out).updated_tool_input == old(out).updated_tool_input,
        final(out).run_persona_focus_sync == old(out).run_persona_focus_sync,
{
    let ids = dedup_strings(&out.memory_effects.terminal_pz_post_ids);
    proof {
        lemma_dedup_seq(old(out).memory_effects.terminal_pz_post_ids@.map_values(|s: String| s@));
    }
    out.memory_effects.terminal_pz_post_ids = ids;
}

/// A run's result before any hook acted.
pub open spec fn fresh_result(r: HookRunResult) -> bool {
    &&& r.blocked_reason is None
    &&& r.additional_contexts@.len() == 0
    &&& r.matched_hook_ids@.len() == 0
    &&& r.updated_tool_input is None
    &&& r.memory_effects.terminal_pz_post_ids@.len() == 0
    &&& !r.run_persona_focus_sync
}

/// The hook acted on the run as `hook_action_step` does, with its stored payload
/// read as JSON (`null` when it does not parse).
pub open spec fn hook_acted(
    before: HookRunResult,
    after: HookRunResult,
    hook: HookDefinitionRecord,
    input: HookRunInput,
    gates: SkillGateMessages,
    st: HookStep,
) -> bool {
    exists|p: JsonValue|
        #![trigger action_step_effect(before, after, hook, p, input, gates, st)]
        p@ == payload_model(hook.action_payload_json@) && action_step_effect(before, after, hook, p, input, gates, st)
}

/// A hook run in progress: the hooks selected for the event, how many of them have
/// acted, the result so far, and whether a hook stopped the run. Command and
/// prompt hooks run outside; their outputs come back through `apply_output`.
pub struct HookRunDriver {
    hooks: Vec<HookDefinitionRecord>,
    next: usize,
    out: HookRunResult,
    stopped: bool,
}

impl HookRunDriver {
    pub closed spec fn hooks_view(&self) -> Seq<HookDefinitionRecord> {
        self.hooks@
    }

    /// How many hooks have acted.
    pub closed spec fn acted(&self) -> nat {
        self.next as nat
    }

    pub closed spec fn result_view(&self) -> HookRunResult {
        self.out
    }

    pub closed spec fn is_stopped(&self) -> bool {
        self.stopped
    }

    /// The ids matched so far are those of the hooks that have acted, in order.
    pub closed spec fn wf(&self) -> bool {
        &&& self.next <= self.hooks@.len()
        &&& self.out.matched_hook_ids@ == hook_ids(self.hooks@.subrange(0, self.next as int))
    }

    /// A run over the selected hooks, none of which has acted yet.
    pub fn new(selected: Vec<HookDefinitionRecord>) -> (r: Self)
        ensures
            r.wf(),
            r.hooks_view() == selected@,
            r.acted() == 0,
            !r.is_stopped(),
            fresh_result(r.result_view()),
    {
        let r = HookRunDriver { hooks: selected, next: 0, out: HookRunResult::new(), stopped: false };
        assert(r.out.matched_hook_ids@ =~= hook_ids(r.hooks@.subrange(0, 0)));
        r
    }

    /// The selected hook at `i`, when there is one.
    pub fn hook_at(&self, i: usize) -> (r: Option<&HookDefinitionRecord>)
        ensures
            match r {
                Some(h) => i < self.hooks_view().len() && *h == self.hooks_view()[i as int],
                None => i >= self.hooks_view().len(),
            },
    {
        if i < self.hooks.len() {
            Some(&self.hooks[i])
        } else {
            None
        }
    }

    /// Lets the next hook act on the run, with its stored payload read as JSON
    /// (`null` when it does not parse). Nothing happens once every hook has acted or
    /// a hook stopped the run (`None`); otherwise the hook's index and the step the
    /// caller takes next: go on, stop, or run the hook's command or prompt outside.
    pub fn step(&mut self, input: &HookRunInput, gates: &SkillGateMessages) -> (r: Option<(usize, HookStep)>)
        requires
            old(self).wf(),
        ensures
            final(self).wf(),
            final(self).hooks_view() == old(self).hooks_view(),
            (old(self).is_stopped() || old(self).acted() == old(self).hooks_view().len()) ==> r is None
                && final(self).acted() == old(self).acted() && final(self).result_view() == old(self).result_view()
                && final(self).is_stopped() == old(self).is_stopped(),
            !(old(self).is_stopped() || old(self).acted() == old(self).hooks_view().len()) ==> (r matches Some((i, st))
                && i == old(self).acted() && final(self).acted() == old(self).acted() + 1 && hook_acted(
                old(self).result_view(),
                final(self).result_view(),
                old(self).hooks_view()[i as int],
                *input,
                *gates,
                st,
            ) && final(self).is_stopped() == (st == HookStep::Stop)),
    {
        if self.stopped || self.next >= self.hooks.len() {
            return None;
        }
        let i = self.next;
        let payload = hook_payload(self.hooks[i].action_payload_json.as_str());
        let ghost before = self.out;
        let st = hook_action_step(&mut self.out, &self.hooks[i], &payload, input, gates);
        self.next = i + 1;
        if st == HookStep::Stop {
            self.stopped = true;
        }
        assert(hook_ids(self.hooks@.subrange(0, i + 1)) =~= hook_ids(self.hooks@.subrange(0, i as int)).push(
            self.hooks@[i as int].id,
        ));
        assert(hook_acted(before, self.out, self.hooks@[i as int], *input, *gates, st)) by {
            assert(payload@ == payload_model(self.hooks@[i as int].action_payload_json@));
            assert(action_step_effect(before, self.out, self.hooks@[i as int], payload, *input, *gates, st));
        }
        Some((i, st))
    }

    /// Folds the output of a command or prompt hook into the run; the run stops
    /// when the output blocks it.
    pub fn apply_output(&mut self, output: HookOutput, hook_name: &str)
        requires
            old(self).wf(),
        ensures
            final(self).wf(),
            final(self).hooks_view() == old(self).hooks_view(),
            final(self).acted() == old(self).acted(),
            output_effect(old(self).result_view(), final(self).result_view(), output, hook_name@),
            final(self).is_stopped() == (old(self).is_stopped() || final(self).result_view().blocked_reason is Some),
    {
        apply_hook_output(&mut self.out, output, hook_name);
        if self.out.blocked_reason.is_some() {
            self.stopped = true;
        }
    }

    /// Ends the run: its result with the terminal post ids deduplicated.
    pub fn finish(self) -> (r: HookRunResult)
        requires
            self.wf(),
        ensures
            r.matched_hook_ids@ == hook_ids(self.hooks_view().subrange(0, self.acted() as int)),
            r.memory_effects.terminal_pz_post_ids@.map_values(|s: String| s@) == dedup_seq(
                self.result_view().memory_effects.terminal_pz_post_ids@.map_values(|s: String| s@),
            ),
            r.blocked_reason == self.result_view().blocked_reason,
            r.additional_contexts@ == self.result_view().additional_contexts@,
            r.updated_tool_input == self.result_view().updated_tool_input,
            r.run_persona_focus_sync == self.result_view().run_persona_focus_sync,
    {
        let mut out = self.out;
        finish_hook_run(&mut out);
        out
    }
}

/// Every hook id a run has matched belongs to a hook selected for its event: one of
/// the listed hooks that is enabled, listens for the event, is scoped to the
/// persona, is allowed by the persona's policy and whose matcher admits the input.
/// The ids come in the order of the selected hooks, so when the hooks are listed in
/// ascending id order the matched ids ascend too, each once.
pub proof fn lemma_matched_hooks_selected(
    hooks: Seq<HookDefinitionRecord>,
    allowed: Seq<bool>,
    event: HookEventName,
    persona_id: i64,
    input: HookRunInput,
    run: HookRunDriver,
)
    requires
        allowed.len() == hooks.len(),
        run.wf(),
        run.hooks_view() == selected_hooks(hooks, allowed, event, persona_id, input),
    ensures
        forall|k: int|
            0 <= k < run.result_view().matched_hook_ids@.len() ==> exists|j: int|
                0 <= j < hooks.len() && hooks[j].id == #[trigger] run.result_view().matched_hook_ids@[k]
                    && spec_hook_selected(hooks[j], event, persona_id, allowed[j], input),
        ids_ascending(hook_ids(hooks)) ==> ids_ascending(run.result_view().matched_hook_ids@),
{
    let sel = selected_hooks(hooks, allowed, event, persona_id, input);
    lemma_selected_hooks(hooks, allowed, event, persona_id, input);
    let n = run.acted() as int;
    let m = run.result_view().matched_hook_ids@;
    assert(m == hook_ids(sel.subrange(0, n)));
    assert forall|k: int| 0 <= k < m.len() implies exists|j: int|
        0 <= j < hooks.len() && hooks[j].id == #[trigger] m[k] && spec_hook_selected(hooks[j], event, persona_id, allowed[j], input) by {
        assert(m[k] == sel[k].id);
        let j = choose|j: int| 0 <= j < hooks.len() && hooks[j] == #[trigger] sel[k] && spec_hook_selected(hooks[j], event, persona_id, allowed[j], input);
        assert(hooks[j].id == m[k]);
    }
    if ids_ascending(hook_ids(hooks)) {
        assert forall|a: int, b: int| 0 <= a < b < m.len() implies m[a] < m[b] by {
            assert(m[a] == hook_ids(sel)[a] && m[b] == hook_ids(sel)[b]);
        }
    }
}

} // verus!
