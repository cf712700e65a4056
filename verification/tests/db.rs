use finally_a_value_bot::db::{
    duplicate_final_delivery, parse_i64_array_json, parse_string_array_json, stored_origin, hook_allowed_by_policy, hook_definition_not_found, hook_persona_status, ids_json, message_origin_interactive,
    message_origin_scheduled, normalize_scoped_ids, skill_allowed_by_policy, ChannelPersonaMode,
    HookDefinitionRecord, PersonaHookSkillPolicy,
};

fn record(scope: Option<Vec<i64>>, enabled: bool) -> HookDefinitionRecord {
    HookDefinitionRecord {
        id: 11,
        name: "h".into(),
        event_name: "PreToolUse".into(),
        matcher: None,
        action_type: "block".into(),
        action_payload_json: "{}".into(),
        scoped_persona_ids: scope,
        enabled,
        updated_at: String::new(),
    }
}

#[test]
fn origins() {
    assert_eq!(message_origin_interactive(), "interactive");
    assert_eq!(message_origin_scheduled(), "scheduled");
}

#[test]
fn scope_and_policy() {
    assert!(record(None, true).scoped_for_persona(42));
    assert!(record(Some(vec![1, 2]), true).scoped_for_persona(2));
    assert!(!record(Some(vec![1, 2]), true).scoped_for_persona(3));
    let policy = PersonaHookSkillPolicy {
        chat_id: 1,
        persona_id: 1,
        allowed_hook_ids: Some(vec![]),
        allowed_skill_names: Some(vec!["Schedule-Job".into()]),
        updated_at: String::new(),
    };
    assert!(hook_allowed_by_policy(None, 11));
    assert!(!hook_allowed_by_policy(Some(&policy), 11));
    assert!(skill_allowed_by_policy(Some(&policy), "schedule-job"));
    assert!(!skill_allowed_by_policy(Some(&policy), "other"));
    assert_eq!(hook_persona_status(&record(Some(vec![5]), true), 5, true), (true, true, true));
    assert_eq!(hook_persona_status(&record(Some(vec![5]), false), 5, true), (true, true, false));
}

#[test]
fn scoped_ids_sorted_positive_unique() {
    assert_eq!(normalize_scoped_ids(&vec![5, -1, 3, 5, 0, 1]), vec![1, 3, 5]);
    assert_eq!(ids_json(&vec![1, 3, 5]), "[1,3,5]");
    assert_eq!(ids_json(&vec![]), "[]");
    assert_eq!(ids_json(&vec![-2]), "[-2]");
}

#[test]
fn channel_modes_and_errors() {
    assert_eq!(ChannelPersonaMode::parse("all").unwrap(), ChannelPersonaMode::All);
    assert_eq!(ChannelPersonaMode::Single.as_str(), "single");
    assert!(ChannelPersonaMode::parse("ALL").is_err());
    assert_eq!(hook_definition_not_found(-3).message(), "Hook definition -3 not found");
}

#[test]
fn blank_origin_is_stored_as_interactive() {
    assert_eq!(stored_origin(None), "interactive");
    assert_eq!(stored_origin(Some("  ")), "interactive");
    assert_eq!(stored_origin(Some("scheduled")), "scheduled");
}

#[test]
fn duplicate_final_delivery_needs_same_recent_bot_message() {
    assert!(duplicate_final_delivery(true, "done", "done", Some(5), 30));
    assert!(duplicate_final_delivery(true, "done", "done", Some(30), 30));
    assert!(!duplicate_final_delivery(true, "done", "done", Some(31), 30));
    assert!(!duplicate_final_delivery(true, "done", "done", Some(-1), 30));
    assert!(!duplicate_final_delivery(true, "done", "done", None, 30));
    assert!(!duplicate_final_delivery(false, "done", "done", Some(1), 30));
    assert!(!duplicate_final_delivery(true, "done", "other", Some(1), 30));
}

#[test]
fn stored_hook_id_lists_are_read_as_integers() {
    assert_eq!(parse_i64_array_json(None).unwrap(), None);
    assert_eq!(parse_i64_array_json(Some(" [3, -4, 9223372036854775807] ")).unwrap(), Some(vec![3, -4, i64::MAX]));
    assert_eq!(parse_i64_array_json(Some("[]")).unwrap(), Some(vec![]));
    let e = parse_i64_array_json(Some("[1.5]")).unwrap_err();
    assert_eq!(e.message(), "Invalid allowed_hook_ids_json: array must contain integers");
    let e = parse_i64_array_json(Some("[9223372036854775808]")).unwrap_err();
    assert_eq!(e.message(), "Invalid allowed_hook_ids_json: array must contain integers");
    let e = parse_i64_array_json(Some("{\"a\":1}")).unwrap_err();
    assert_eq!(e.message(), "Invalid allowed_hook_ids_json: expected JSON array");
    let e = parse_i64_array_json(Some("[1,")).unwrap_err();
    assert!(e.message().starts_with("Invalid allowed_hook_ids_json: "));
    assert!(e.message().len() > "Invalid allowed_hook_ids_json: ".len());
}

#[test]
fn stored_skill_name_lists_are_read_trimmed() {
    assert_eq!(parse_string_array_json(None).unwrap(), None);
    assert_eq!(
        parse_string_array_json(Some("[\" schedule-job \", \"x\"]")).unwrap(),
        Some(vec!["schedule-job".to_string(), "x".to_string()])
    );
    let e = parse_string_array_json(Some("[1]")).unwrap_err();
    assert_eq!(e.message(), "Invalid allowed_skill_names_json: array must contain strings");
    let e = parse_string_array_json(Some("\"a\"")).unwrap_err();
    assert_eq!(e.message(), "Invalid allowed_skill_names_json: expected JSON array");
}
