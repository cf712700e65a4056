use finally_a_value_bot::cursor_mcp_bridge::{
    build_mcp_servers_config, strip_auth_from_schema, AUTH_CONTEXT_KEY, MCP_SERVER_NAME,
    bearer_token, mcp_endpoint_url, mcp_initialize_version, mcp_method, mcp_request_gate,
    method_not_found, negotiate_protocol_version, tool_allowed, tools_call_target, CursorMcpRegisterParams,
    CursorMcpRegistry, McpGate, McpMethod, DEFAULT_PROTOCOL_VERSION, RUN_TTL_SECS, mcp_post_step, McpPostStep,
};
use finally_a_value_bot::json::JsonValue;

fn params() -> CursorMcpRegisterParams {
    CursorMcpRegisterParams {
        run_key: "run-1".into(),
        chat_id: 7,
        persona_id: 3,
        caller_channel: "telegram".into(),
        is_scheduled_task: false,
        expose_send_message: false,
    }
}

#[test]
fn negotiate_protocol_version_echoes_cursor_request() {
    assert_eq!(negotiate_protocol_version(Some("2025-11-25")), "2025-11-25");
    assert_eq!(negotiate_protocol_version(Some("2025-06-18")), "2025-06-18");
    assert_eq!(negotiate_protocol_version(Some("2025-11-05")), DEFAULT_PROTOCOL_VERSION);
    assert_eq!(negotiate_protocol_version(None), DEFAULT_PROTOCOL_VERSION);
}

#[test]
fn initialize_reads_protocol_version_from_params() {
    let p = JsonValue::Object(vec![("protocolVersion".into(), JsonValue::Str("2025-06-18".into()))]);
    assert_eq!(mcp_initialize_version(Some(&p)), "2025-06-18");
    assert_eq!(mcp_initialize_version(None), DEFAULT_PROTOCOL_VERSION);
}

#[test]
fn endpoint_and_methods() {
    assert_eq!(mcp_endpoint_url(8080), "http://127.0.0.1:8080/internal/cursor-mcp");
    assert_eq!(mcp_method("tools/call"), McpMethod::ToolsCall);
    assert_eq!(mcp_method("notifications/initialized"), McpMethod::Initialized);
    assert_eq!(mcp_method("resources/list"), McpMethod::Unknown);
    assert_eq!(method_not_found("x"), "Method not found: x");
}

#[test]
fn tool_policy() {
    assert!(!tool_allowed(true, "cursor_agent"));
    assert!(!tool_allowed(false, "send_message"));
    assert!(tool_allowed(true, "send_message"));
    assert!(tool_allowed(false, "read_file"));
    let call = |name: &str| JsonValue::Object(vec![("name".into(), JsonValue::Str(name.into()))]);
    assert_eq!(tools_call_target(Some(&call(" read_file ")), false), Ok("read_file".to_string()));
    assert_eq!(tools_call_target(None, false), Err((-32602, "tools/call requires name".to_string())));
    assert_eq!(
        tools_call_target(Some(&call("send_message")), false),
        Err((-32002, "Tool not allowed: send_message".to_string()))
    );
}

#[test]
fn request_gate_checks_peer_origin_and_token() {
    assert!(matches!(mcp_request_gate(false, None, Some("Bearer t")), McpGate::Forbidden(_)));
    assert!(matches!(mcp_request_gate(true, None, None), McpGate::Unauthorized));
    match mcp_request_gate(true, None, Some("Bearer tok")) {
        McpGate::Proceed(t) => assert_eq!(t, "tok"),
        _ => panic!("expected proceed"),
    }
    assert_eq!(bearer_token(Some("Basic abc")), None);
}

#[test]
fn registered_run_lives_for_its_ttl_then_expires() {
    let mut reg = CursorMcpRegistry::new();
    let tok = reg.register_run(params(), 1000);
    assert!(reg.is_run_active(&tok, 1000 + RUN_TTL_SECS - 1));
    assert_eq!(reg.active_run_count(1000), 1);
    assert!(!reg.is_run_active(&tok, 1000 + RUN_TTL_SECS));
    assert_eq!(reg.active_run_count(1000 + RUN_TTL_SECS), 0);
}

#[test]
fn tokens_are_distinct_and_revocation_sticks() {
    let mut reg = CursorMcpRegistry::new();
    let a = reg.register_run(params(), 0);
    let b = reg.register_run(params(), 0);
    assert_ne!(a, b);
    reg.revoke_run(&a);
    assert!(!reg.is_run_active(&a, 1));
    assert!(reg.is_run_active(&b, 1));
    assert!(reg.run_params(&a).is_none());
    assert_eq!(reg.run_params(&b).unwrap().chat_id, 7);
}

#[test]
fn finish_run_returns_what_the_run_did() {
    let mut reg = CursorMcpRegistry::new();
    let tok = reg.register_run(params(), 0);
    reg.record_tool_name(&tok, "read_file");
    reg.record_tool_name(&tok, "bash");
    let (names, _, stall) = reg.take_run_summary(&tok).unwrap();
    assert_eq!(names, vec!["read_file".to_string(), "bash".to_string()]);
    assert!(stall.is_none());
    let (stall, names, events) = reg.finish_run(&tok, vec!["post_tool_batch".into()], Some("wait".into())).unwrap();
    assert_eq!(stall.as_deref(), Some("wait"));
    assert_eq!(names, vec!["read_file".to_string(), "bash".to_string()]);
    assert_eq!(events, vec!["post_tool_batch".to_string()]);
    assert!(reg.finish_run(&tok, vec![], None).is_none());
}

fn jobj(entries: Vec<(&str, JsonValue)>) -> JsonValue {
    JsonValue::Object(entries.into_iter().map(|(k, v)| (k.to_string(), v)).collect())
}

#[test]
fn strip_auth_from_schema_removes_internal_key() {
    let schema = jobj(vec![
        ("type", JsonValue::Str("object".into())),
        (
            "properties",
            jobj(vec![
                ("path", jobj(vec![("type", JsonValue::Str("string".into()))])),
                (AUTH_CONTEXT_KEY, jobj(vec![("type", JsonValue::Str("object".into()))])),
            ]),
        ),
        ("required", JsonValue::Array(vec![JsonValue::Str("path".into()), JsonValue::Str(AUTH_CONTEXT_KEY.into())])),
    ]);
    let out = strip_auth_from_schema(&schema);
    let props = out.get("properties").unwrap().as_object().unwrap();
    assert!(!props.iter().any(|(k, _)| k == AUTH_CONTEXT_KEY));
    assert!(props.iter().any(|(k, _)| k == "path"));
    let required = out.get("required").unwrap().as_array().unwrap();
    assert!(!required.iter().any(|v| v.as_str() == Some(AUTH_CONTEXT_KEY)));
    assert_eq!(required.len(), 1);
}

#[test]
fn build_mcp_servers_config_has_http_transport() {
    let cfg = build_mcp_servers_config("http://127.0.0.1:1/internal/cursor-mcp", "tok");
    let entry = cfg.get(MCP_SERVER_NAME).unwrap();
    assert_eq!(entry.get("type").and_then(|t| t.as_str()), Some("http"));
    let auth = entry.get("headers").unwrap().get("Authorization").unwrap().as_str().unwrap();
    assert!(auth.contains("tok"));
    assert_eq!(auth, "Bearer tok");
}

#[test]
fn new_run_starts_empty_and_keeps_its_params() {
    let mut reg = CursorMcpRegistry::new();
    let tok = reg.register_run(params(), 0);
    let (names, history, stall) = reg.take_run_summary(&tok).unwrap();
    assert!(names.is_empty() && history.is_empty() && stall.is_none());
    let p = reg.run_params(&tok).unwrap();
    assert_eq!(p.run_key, "run-1");
    assert_eq!(p.chat_id, 7);
}

#[test]
fn finish_run_keeps_old_stall_without_a_new_one() {
    let mut reg = CursorMcpRegistry::new();
    let tok = reg.register_run(params(), 0);
    let other = reg.register_run(params(), 0);
    reg.record_tool_name(&other, "glob");
    let (stall, names, _) = reg.finish_run(&tok, vec![], None).unwrap();
    assert!(stall.is_none());
    assert!(names.is_empty());
    let (names, _, _) = reg.take_run_summary(&other).unwrap();
    assert_eq!(names, vec!["glob".to_string()]);
    assert!(reg.take_run_summary(&tok).is_none());
}

#[test]
fn post_checks_run_in_order_and_only_a_full_pass_is_served() {
    assert!(matches!(mcp_post_step(McpGate::Unauthorized, Err("bad"), true), McpPostStep::Unauthorized));
    match mcp_post_step(McpGate::Proceed("t".into()), Err("EOF"), true) {
        McpPostStep::ParseError(m) => assert_eq!(m, "Parse error: EOF"),
        other => panic!("unexpected {:?}", other),
    }
    assert!(matches!(mcp_post_step(McpGate::Proceed("t".into()), Ok("tools/list"), false), McpPostStep::InvalidToken));
    match mcp_post_step(McpGate::Proceed("t".into()), Ok("tools/call"), true) {
        McpPostStep::Dispatch(t, m) => {
            assert_eq!(t, "t");
            assert_eq!(m, McpMethod::ToolsCall);
        },
        other => panic!("unexpected {:?}", other),
    }
}
