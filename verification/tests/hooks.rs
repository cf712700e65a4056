use finally_a_value_bot::db::{hook_allowed_by_policy, prepare_hook_definition, HookDefinitionRecord, PersonaHookSkillPolicy};
use finally_a_value_bot::hook_actions::{
    apply_deterministic_persona_memory_hygiene, apply_hook_memory_effects, extract_pz_post_ids,
    extract_terminal_pz_post_ids, is_terminal_focus_line,
};
use finally_a_value_bot::hook_executor::{
    candidate_hook_roots, command_hook_verdict, hook_output_json_text, prompt_hook_failure, resolve_hook_command_path,
    CommandHookVerdict, CommandRunOutcome, HookOutput, PromptHookFailure,
};
use finally_a_value_bot::hook_runtime::{
    apply_hook_output, finish_hook_run, hook_action_step, hook_selected, select_hooks, HookEventName,
    HookMemoryEffects, HookRunDriver, hook_input_json, HookRunInput, HookRunResult, HookStep, SkillGateMessages,
};
use finally_a_value_bot::json::JsonValue;

fn input(persona_id: i64) -> HookRunInput {
    HookRunInput {
        chat_id: 9001,
        persona_id,
        caller_channel: "telegram".into(),
        is_scheduled_task: false,
        tool_name: None,
        tool_input_json: None,
        tool_output: None,
        tool_is_error: None,
        stop_reason: None,
        assistant_text: None,
        runtime_signals: None,
    }
}

fn hook(id: i64, event: HookEventName, matcher: Option<&str>, action: &str, scope: Option<Vec<i64>>) -> HookDefinitionRecord {
    HookDefinitionRecord {
        id,
        name: format!("hook-{}", id),
        event_name: event.as_str().to_string(),
        matcher: matcher.map(|m| m.to_string()),
        action_type: action.into(),
        action_payload_json: "{}".into(),
        scoped_persona_ids: scope,
        enabled: true,
        updated_at: String::new(),
    }
}

fn gates() -> SkillGateMessages {
    SkillGateMessages {
        modify_skill_required: "skill_required: modify".into(),
        create_workflow_required: "skill_required: create".into(),
        modify_workflow_required: "skill_required: workflow".into(),
    }
}

fn obj(entries: Vec<(&str, JsonValue)>) -> JsonValue {
    JsonValue::Object(entries.into_iter().map(|(k, v)| (k.to_string(), v)).collect())
}

#[test]
fn resolve_hook_command_path_rejects_parent_dir() {
    let roots = candidate_hook_roots("/tmp/workspace", None);
    let err = resolve_hook_command_path("../hack.sh", &roots).expect_err("must reject");
    assert!(err.message().contains("cannot contain '..'"));
}

#[test]
fn hook_command_candidates_per_root() {
    let roots = candidate_hook_roots("/ws", Some("/opt/builtin"));
    assert_eq!(roots, vec!["/ws/hooks".to_string(), "/opt/builtin".to_string()]);
    let c = resolve_hook_command_path("guard.sh", &roots).unwrap();
    assert_eq!(c, vec!["/ws/hooks/guard.sh".to_string(), "/opt/builtin/guard.sh".to_string()]);
    assert!(resolve_hook_command_path("  ", &roots).is_err());
}

#[test]
fn hook_output_json_is_cut_from_first_to_last_brace() {
    assert_eq!(
        hook_output_json_text(r#"log line {"permission":"allow","additional_context":"hi"} trailing"#).as_deref(),
        Some(r#"{"permission":"allow","additional_context":"hi"}"#)
    );
    assert_eq!(hook_output_json_text(" "), None);
    assert_eq!(hook_output_json_text("no json").as_deref(), Some("no json"));
}

#[test]
fn extract_terminal_pz_post_ids_requires_terminal_keyword() {
    let ids = extract_terminal_pz_post_ids("bash", r#"{"cmd": "echo PZ-20260101-abc"}"#, "PZ-20260101-abc", false);
    assert!(ids.is_empty());
}

#[test]
fn extract_terminal_pz_post_ids_on_published_output() {
    let ids = extract_terminal_pz_post_ids("bash", "{}", "Post PZ-20260101-abc published successfully", false);
    assert_eq!(ids.len(), 1);
    assert!(ids.contains(&"PZ-20260101-abc".to_string()));
}

#[test]
fn extract_terminal_pz_post_ids_skips_tool_errors() {
    let ids = extract_terminal_pz_post_ids("bash", "{}", "Post PZ-20260101-abc published", true);
    assert!(ids.is_empty());
}

#[test]
fn post_ids_are_deduplicated_in_order() {
    let ids = extract_pz_post_ids("PZ-20260101-b then PZ-20260102 then PZ-20260101-b again");
    assert_eq!(ids, vec!["PZ-20260101-b".to_string(), "PZ-20260102".to_string()]);
}

#[test]
fn memory_hygiene_drops_terminal_and_mentioned_lines() {
    assert!(is_terminal_focus_line("PZ-1 PUBLISHED"));
    let focus = vec![
        "draft PZ-20260101-a".to_string(),
        "PZ-20260102-b scrapped".to_string(),
        "idea for tomorrow".to_string(),
    ];
    let ids = vec!["PZ-20260101-a".to_string()];
    let kept = apply_deterministic_persona_memory_hygiene(&focus, &ids, false).unwrap();
    assert_eq!(kept, vec!["idea for tomorrow".to_string()]);
    assert!(apply_deterministic_persona_memory_hygiene(&kept, &ids, true).is_none());
    assert!(apply_deterministic_persona_memory_hygiene(&focus, &vec![], false).is_none());
    let effects = HookMemoryEffects { terminal_pz_post_ids: vec![] };
    assert!(apply_hook_memory_effects(&focus, &effects).is_none());
}

fn run_pipeline(hooks: Vec<HookDefinitionRecord>, allowed: Vec<bool>, event: HookEventName, inp: &HookRunInput) -> HookRunResult {
    let selected = select_hooks(hooks, &allowed, event, inp.persona_id, inp);
    let mut run = HookRunDriver::new(selected);
    while let Some((_, step)) = run.step(inp, &gates()) {
        assert!(step == HookStep::Next || step == HookStep::Stop);
    }
    run.finish()
}

#[test]
fn default_policy_allows_hook() {
    let mut h = hook(1, HookEventName::PreToolUse, Some("^bash$"), "block", None);
    h.action_payload_json = r#"{"reason":"blocked"}"#.into();
    let mut inp = input(5);
    inp.tool_name = Some("bash".into());
    let allowed = hook_allowed_by_policy(None, 1);
    let out = run_pipeline(vec![h], vec![allowed], HookEventName::PreToolUse, &inp);
    assert_eq!(out.blocked_reason.as_deref(), Some("blocked"));
    assert!(out.matched_hook_ids.contains(&1));
}

#[test]
fn persona_allowlist_blocks_unassigned_hook() {
    let mut h = hook(2, HookEventName::PostToolBatch, None, "add_context", None);
    h.action_payload_json = r#"{"additional_context":"ctx"}"#.into();
    let policy = PersonaHookSkillPolicy {
        chat_id: 9002,
        persona_id: 5,
        allowed_hook_ids: Some(vec![]),
        allowed_skill_names: None,
        updated_at: String::new(),
    };
    let allowed = hook_allowed_by_policy(Some(&policy), 2);
    let out = run_pipeline(vec![h], vec![allowed], HookEventName::PostToolBatch, &input(5));
    assert!(out.additional_contexts.is_empty());
    assert!(!out.matched_hook_ids.contains(&2));
}

#[test]
fn persona_scope_blocks_other_personas_even_with_default_policy() {
    let owner = 7;
    let other = 8;
    let scoped = hook(3, HookEventName::PostToolBatch, None, "add_context", Some(vec![owner]));
    let allowed = hook_allowed_by_policy(None, 3);
    assert!(allowed);
    assert!(!hook_selected(&scoped, HookEventName::PostToolBatch, other, allowed, &input(other)));
    assert!(hook_selected(&scoped, HookEventName::PostToolBatch, owner, allowed, &input(owner)));
    assert!(!hook_selected(&scoped, HookEventName::PreStop, owner, allowed, &input(owner)));
}

#[test]
fn command_and_prompt_action_types_supported() {
    let mut out = HookRunResult::new();
    let mut inp = input(1);
    inp.tool_name = Some("bash".into());
    inp.tool_input_json = Some(r#"{"cmd":"echo ok"}"#.into());
    let c = hook(4, HookEventName::PreToolUse, None, "command", None);
    assert_eq!(hook_action_step(&mut out, &c, &obj(vec![]), &inp, &gates()), HookStep::RunCommand);
    let verdict = command_hook_verdict(CommandRunOutcome::WaitFailed("not found".into()), false, 30);
    match verdict {
        CommandHookVerdict::Output(o) => apply_hook_output(&mut out, o, "hook-command-demo"),
        other => panic!("unexpected verdict {:?}", other),
    }
    let p = hook(5, HookEventName::PreToolUse, None, "prompt", None);
    assert_eq!(hook_action_step(&mut out, &p, &obj(vec![]), &inp, &gates()), HookStep::RunPrompt);
    let failed = prompt_hook_failure(PromptHookFailure::Failed("no provider".into()), false, 30);
    apply_hook_output(&mut out, failed, "hook-prompt-demo");
    assert!(out.blocked_reason.is_none());
}

#[test]
fn builtin_persona_focus_sync_sets_flag() {
    let mut out = HookRunResult::new();
    let f = hook(6, HookEventName::PostDelivery, None, "builtin_persona_focus_sync", None);
    let mut inp = input(1);
    inp.stop_reason = Some("end_turn".into());
    inp.assistant_text = Some("done".into());
    assert!(hook_selected(&f, HookEventName::PostDelivery, 1, true, &inp));
    assert_eq!(hook_action_step(&mut out, &f, &obj(vec![]), &inp, &gates()), HookStep::Next);
    assert!(out.run_persona_focus_sync);
}

#[test]
fn builtin_turn_skill_gate_blocks_missing_activation() {
    let g = hook(7, HookEventName::PreToolUse, None, "builtin_turn_skill_gate", None);
    let mut inp = input(1);
    inp.tool_name = Some("schedule_task".into());
    inp.runtime_signals = Some(obj(vec![("requires_schedule_skill", JsonValue::Bool(true))]));
    let mut out = HookRunResult::new();
    assert_eq!(hook_action_step(&mut out, &g, &obj(vec![]), &inp, &gates()), HookStep::Stop);
    assert!(out.blocked_reason.as_deref().unwrap_or_default().starts_with("skill_required:"));
}

#[test]
fn deny_output_blocks_and_ids_end_deduplicated() {
    let mut out = HookRunResult::new();
    let mut o = HookOutput::deny("nope".to_string());
    o.additional_context = Some("  ".into());
    apply_hook_output(&mut out, o, "guard");
    assert_eq!(out.blocked_reason.as_deref(), Some("nope"));
    assert!(out.additional_contexts.is_empty());
    out.memory_effects.terminal_pz_post_ids = vec!["a".into(), "b".into(), "a".into()];
    finish_hook_run(&mut out);
    assert_eq!(out.memory_effects.terminal_pz_post_ids, vec!["a".to_string(), "b".to_string()]);
}

#[test]
fn hook_definitions_are_validated() {
    let ok = prepare_hook_definition(" name ", "PreToolUse", None, "block", "{\"reason\":\"x\"}", None, true).unwrap();
    assert_eq!(ok.name, "name");
    assert_eq!(ok.enabled, 1);
    let bad_json = prepare_hook_definition("n", "PreToolUse", None, "block", "{oops", None, true);
    assert!(bad_json.is_err());
    let bad_kind = prepare_hook_definition("n", "PreToolUse", None, "launch_missiles", "{}", None, true);
    assert!(bad_kind.is_err());
}

fn num(n: u64) -> JsonValue {
    JsonValue::Number(Some(n), n.to_string())
}

#[test]
fn loop_guard_hints_then_stalls() {
    let g = hook(8, HookEventName::PreToolUse, None, "builtin_loop_guard", None);
    let mut inp = input(1);
    inp.runtime_signals = Some(obj(vec![
        ("legacy_edit_without_block_count", num(2)),
        ("discovery_streak_count", num(1)),
    ]));
    let mut out = HookRunResult::new();
    assert_eq!(hook_action_step(&mut out, &g, &obj(vec![]), &inp, &gates()), HookStep::Next);
    assert_eq!(out.additional_contexts.len(), 2);
    assert!(out.additional_contexts[0].contains("apply_search_replace"));
    assert!(out.additional_contexts[1].contains("discovery/search loop"));
    assert!(out.blocked_reason.is_none());

    inp.runtime_signals = Some(obj(vec![("discovery_streak_count", num(2))]));
    let mut out = HookRunResult::new();
    assert_eq!(hook_action_step(&mut out, &g, &obj(vec![]), &inp, &gates()), HookStep::Stop);
    assert_eq!(out.additional_contexts.len(), 1);
    assert!(out.blocked_reason.as_deref().unwrap_or_default().starts_with("stall_response:"));

    inp.runtime_signals = Some(obj(vec![("discovery_streak_count", num(9)), ("force_stall_present", JsonValue::Bool(true))]));
    let mut out = HookRunResult::new();
    assert_eq!(hook_action_step(&mut out, &g, &obj(vec![]), &inp, &gates()), HookStep::Next);
    assert!(out.additional_contexts.is_empty());
}

#[test]
fn turn_skill_gate_uses_first_required_message() {
    let g = hook(9, HookEventName::PreToolUse, None, "builtin_turn_skill_gate", None);
    let mut inp = input(1);
    inp.runtime_signals = Some(obj(vec![
        ("requires_create_workflow_skill", JsonValue::Bool(true)),
        ("requires_modify_workflow_skill", JsonValue::Bool(true)),
    ]));
    let mut out = HookRunResult::new();
    assert_eq!(hook_action_step(&mut out, &g, &obj(vec![]), &inp, &gates()), HookStep::Stop);
    assert_eq!(out.blocked_reason.as_deref(), Some("skill_required: skill_required: create"));
    inp.runtime_signals = None;
    let mut out = HookRunResult::new();
    assert_eq!(hook_action_step(&mut out, &g, &obj(vec![]), &inp, &gates()), HookStep::Next);
    assert!(out.blocked_reason.is_none());
}

#[test]
fn hook_run_driver_stops_at_block_and_records_ids() {
    let mut a = hook(1, HookEventName::PreToolUse, None, "add_context", None);
    a.action_payload_json = r#"{"additional_context":"ctx"}"#.into();
    let mut b = hook(2, HookEventName::PreToolUse, None, "block", None);
    b.action_payload_json = r#"{"reason":"no"}"#.into();
    let c = hook(3, HookEventName::PreToolUse, None, "add_context", None);
    let skipped = hook(4, HookEventName::PostToolUse, None, "block", None);
    let inp = input(1);
    let selected = select_hooks(vec![a, skipped, b, c], &vec![true, true, true, true], HookEventName::PreToolUse, 1, &inp);
    assert_eq!(selected.iter().map(|h| h.id).collect::<Vec<_>>(), vec![1, 2, 3]);
    let mut run = HookRunDriver::new(selected);
    assert_eq!(run.step(&inp, &gates()), Some((0, HookStep::Next)));
    assert_eq!(run.step(&inp, &gates()), Some((1, HookStep::Stop)));
    assert_eq!(run.step(&inp, &gates()), None);
    let out = run.finish();
    assert_eq!(out.matched_hook_ids, vec![1, 2]);
    assert_eq!(out.additional_contexts, vec!["ctx".to_string()]);
    assert_eq!(out.blocked_reason.as_deref(), Some("no"));
}

#[test]
fn hook_run_driver_stops_when_outside_output_denies() {
    let cmd = hook(5, HookEventName::PreToolUse, None, "command", None);
    let next = hook(6, HookEventName::PreToolUse, None, "add_context", None);
    let inp = input(1);
    let mut run = HookRunDriver::new(vec![cmd, next]);
    assert_eq!(run.step(&inp, &gates()), Some((0, HookStep::RunCommand)));
    run.apply_output(HookOutput::deny("denied".into()), "cmd");
    assert_eq!(run.step(&inp, &gates()), None);
    let out = run.finish();
    assert_eq!(out.matched_hook_ids, vec![5]);
    assert_eq!(out.blocked_reason.as_deref(), Some("denied"));
}

#[test]
fn hook_input_document_carries_event_hook_and_input() {
    let h = hook(12, HookEventName::PreToolUse, None, "command", None);
    let mut inp = input(-3);
    inp.tool_name = Some("bash".into());
    inp.tool_input_json = Some(r#"{"cmd":"ls"}"#.into());
    let text = hook_input_json(HookEventName::PreToolUse, &h, &inp);
    assert!(text.contains(r#""event":"PreToolUse""#));
    assert!(text.contains(r#""hook":{"id":12,"name":"hook-12"}"#));
    assert!(text.contains(r#""persona_id":-3"#));
    assert!(text.contains(r#""tool_input":{"cmd":"ls"}"#));
    assert!(text.contains(r#""tool_output":null"#));
    inp.tool_input_json = Some("not json".into());
    assert!(hook_input_json(HookEventName::PreToolUse, &h, &inp).contains(r#""tool_input":null"#));
}
