use finally_a_value_bot::llm::{listed_model_ids, listed_model_ids_text, model_not_listed, model_not_listed_text};
use std::collections::HashMap;

use finally_a_value_bot::claude::{
    ContentBlock, Message, MessageContent, ResponseContentBlock, SystemContent, Usage,
};
use finally_a_value_bot::config::Config;
use finally_a_value_bot::error::FinallyAValueBotError;
use finally_a_value_bot::json::JsonValue;
use finally_a_value_bot::llm::{
    build_cached_system, build_stream_response, format_oai_error, llm_error_body_preview,
    normalize_stop_reason, oai_chat_url, oai_error_wants_max_completion_tokens, oai_resolve_base_url,
    oai_stop_reason_from_content, oai_uses_max_completion_tokens, parse_tool_input,
    plan_evaluator_provider, provider_kind, resolve_evaluator_provider_label, sanitize_messages,
    strip_tools_markup_from_content, usage_from_json, LlmSendOptions, OaiErrorDetail, ProviderKind,
    SseEventParser, StreamToolUseBlock, EVALUATOR_MAX_TOKENS,
};

fn base_config() -> Config {
    Config {
        llm_provider: "anthropic".into(),
        api_key: "key".into(),
        model: "sonnet".into(),
        max_tokens: 4096,
        llm_base_url: None,
        llm_thinking_enabled: false,
        show_thinking: false,
        orchestrator_model: String::new(),
        evaluator_model: "sonar".into(),
        evaluator_base_url: "https://api.perplexity.ai".into(),
        perplexity_api_key: None,
        hook_prompt_model: String::new(),
        hook_prompt_timeout_secs: 30,
        hook_command_timeout_secs: 30,
        workspace_dir: "/tmp".into(),
        cursor_sdk_runner_port: 3848,
        cursor_sdk_runner_url: None,
        cursor_sdk_model: "composer-2.5".into(),
        cursor_sdk_python: "python3".into(),
        cursor_sdk_auto_start: false,
        cursor_sdk_auto_install: false,
        cursor_sidecar_max_uptime_secs: 0,
        cursor_agent_cli_path: "cursor-agent".into(),
        cursor_agent_model: String::new(),
        cursor_agent_runner_url: None,
        cursor_agent_timeout_secs: 600,
        cursor_agent_tmux_enabled: false,
    }
}

fn tool_result(id: &str, content: &str) -> ContentBlock {
    ContentBlock::ToolResult { tool_use_id: id.into(), content: content.into(), is_error: None }
}

#[test]
fn test_oai_uses_max_completion_tokens() {
    assert!(oai_uses_max_completion_tokens("gpt-5.4"));
    assert!(oai_uses_max_completion_tokens("o3-mini"));
    assert!(oai_uses_max_completion_tokens("grok-4.20-0309-reasoning"));
    assert!(!oai_uses_max_completion_tokens("gpt-4o"));
    assert!(!oai_uses_max_completion_tokens("grok-4.3"));
}

#[test]
fn oai_model_name_is_trimmed_and_case_folded() {
    assert!(oai_uses_max_completion_tokens("  GPT-5-mini "));
    assert!(oai_uses_max_completion_tokens("O4-mini"));
    assert!(oai_uses_max_completion_tokens("deepseek-reasoning"));
    assert!(!oai_uses_max_completion_tokens("o2"));
}

#[test]
fn error_body_mentioning_max_completion_tokens() {
    assert!(oai_error_wants_max_completion_tokens(
        "Unsupported parameter: 'max_tokens'. Use 'max_completion_tokens' instead."
    ));
    assert!(!oai_error_wants_max_completion_tokens("rate limited"));
}

#[test]
fn test_normalize_stop_reason_stream_variants() {
    assert_eq!(normalize_stop_reason(Some("tool_calls".into())).as_deref(), Some("tool_use"));
    assert_eq!(normalize_stop_reason(Some("length".into())).as_deref(), Some("max_tokens"));
    assert_eq!(normalize_stop_reason(Some("stop".into())).as_deref(), Some("end_turn"));
}

#[test]
fn normalize_stop_reason_other_cases() {
    assert_eq!(normalize_stop_reason(None).as_deref(), Some("end_turn"));
    assert_eq!(normalize_stop_reason(Some("STOP".into())).as_deref(), Some("end_turn"));
    assert_eq!(normalize_stop_reason(Some("Completed".into())).as_deref(), Some("end_turn"));
    assert_eq!(normalize_stop_reason(Some("max_tokens".into())).as_deref(), Some("max_tokens"));
    assert_eq!(normalize_stop_reason(Some("ask_user".into())).as_deref(), Some("ask_clarification"));
    assert_eq!(
        normalize_stop_reason(Some("needs_clarification".into())).as_deref(),
        Some("ask_clarification")
    );
    assert_eq!(normalize_stop_reason(Some("content_filter".into())).as_deref(), Some("content_filter"));
    // Only `stop` and `completed` ignore case.
    assert_eq!(normalize_stop_reason(Some("Length".into())).as_deref(), Some("Length"));
}

#[test]
fn tool_calls_win_over_finish_reason() {
    assert_eq!(oai_stop_reason_from_content(Some("stop"), true).as_deref(), Some("tool_use"));
    assert_eq!(oai_stop_reason_from_content(Some("completed"), true).as_deref(), Some("tool_use"));
    assert_eq!(oai_stop_reason_from_content(Some("length"), false).as_deref(), Some("max_tokens"));
    assert_eq!(oai_stop_reason_from_content(None, false).as_deref(), Some("end_turn"));
}

#[test]
fn test_build_stream_response_tool_json_parsing() {
    let mut tool_blocks = HashMap::new();
    tool_blocks.insert(
        0,
        StreamToolUseBlock {
            id: "call_1".into(),
            name: "bash".into(),
            input_json: r#"{"command":"ls","cwd":"/tmp"}"#.into(),
            thought_signature: None,
        },
    );
    let resp = build_stream_response(vec![0], HashMap::new(), tool_blocks, Some("tool_use".into()), None);
    assert_eq!(resp.stop_reason.as_deref(), Some("tool_use"));
    match &resp.content[0] {
        ResponseContentBlock::ToolUse { id, name, input, .. } => {
            assert_eq!(id, "call_1");
            assert_eq!(name, "bash");
            let input: serde_json::Value = serde_json::from_str(input).unwrap();
            assert_eq!(input["command"], "ls");
            assert_eq!(input["cwd"], "/tmp");
        }
        _ => panic!("Expected ToolUse"),
    }
}

#[test]
fn stream_response_orders_text_then_tool_and_skips_empty_text() {
    let mut texts = HashMap::new();
    texts.insert(0usize, "Let me look.".to_string());
    texts.insert(2usize, String::new());
    let mut tools = HashMap::new();
    tools.insert(
        1usize,
        StreamToolUseBlock {
            id: "t".into(),
            name: "read_file".into(),
            input_json: "  not json ".into(),
            thought_signature: Some("sig".into()),
        },
    );
    let usage = Usage { input_tokens: 3, output_tokens: 4, cache_read_input_tokens: 0, cache_creation_input_tokens: 0 };
    let resp = build_stream_response(vec![0, 2, 1], texts, tools, Some("end_turn".into()), Some(usage));
    assert_eq!(resp.content.len(), 2);
    match &resp.content[0] {
        ResponseContentBlock::Text { text } => assert_eq!(text, "Let me look."),
        _ => panic!("Expected Text"),
    }
    match &resp.content[1] {
        ResponseContentBlock::ToolUse { input, thought_signature, .. } => {
            assert_eq!(input, "{}");
            assert_eq!(thought_signature.as_deref(), Some("sig"));
        }
        _ => panic!("Expected ToolUse"),
    }
    assert_eq!(resp.stop_reason.as_deref(), Some("tool_use"));
    assert_eq!(resp.usage.unwrap().output_tokens, 4);
}

#[test]
fn empty_stream_yields_one_empty_text_block() {
    let resp = build_stream_response(vec![], HashMap::new(), HashMap::new(), Some("length".into()), None);
    assert_eq!(resp.content.len(), 1);
    match &resp.content[0] {
        ResponseContentBlock::Text { text } => assert!(text.is_empty()),
        _ => panic!("Expected Text"),
    }
    assert_eq!(resp.stop_reason.as_deref(), Some("max_tokens"));
}

#[test]
fn tool_input_text_is_trimmed_or_empty_object() {
    assert_eq!(parse_tool_input("  {\"a\":1} \n"), "{\"a\":1}");
    assert_eq!(parse_tool_input(""), "{}");
    assert_eq!(parse_tool_input("   "), "{}");
    assert_eq!(parse_tool_input("{\"a\":"), "{}");
    assert_eq!(parse_tool_input("[1,2]"), "[1,2]");
}

#[test]
fn usage_reads_completion_tokens_and_saturates() {
    let v = JsonValue::Object(vec![
        ("input_tokens".into(), JsonValue::Number(Some(10), "10".into())),
        ("completion_tokens".into(), JsonValue::Number(Some(5_000_000_000), "5000000000".into())),
    ]);
    let u = usage_from_json(&v).unwrap();
    assert_eq!(u.input_tokens, 10);
    assert_eq!(u.output_tokens, u32::MAX);
    assert_eq!(u.cache_read_input_tokens, 0);
    let missing = JsonValue::Object(vec![("output_tokens".into(), JsonValue::Number(Some(1), "1".into()))]);
    assert!(usage_from_json(&missing).is_none());
    let no_output = JsonValue::Object(vec![("input_tokens".into(), JsonValue::Number(Some(2), "2".into()))]);
    assert_eq!(usage_from_json(&no_output).unwrap().output_tokens, 0);
}

#[test]
fn test_sanitize_messages_removes_orphaned_tool_results() {
    let msgs = vec![
        Message {
            role: "assistant".into(),
            content: MessageContent::Blocks(vec![ContentBlock::ToolUse {
                id: "t1".into(),
                name: "bash".into(),
                input: "{}".into(),
                thought_signature: None,
            }]),
        },
        Message {
            role: "user".into(),
            content: MessageContent::Blocks(vec![tool_result("t1", "ok"), tool_result("orphan", "stale")]),
        },
    ];
    let sanitized = sanitize_messages(msgs);
    assert_eq!(sanitized.len(), 2);
    if let MessageContent::Blocks(blocks) = &sanitized[1].content {
        assert_eq!(blocks.len(), 1);
        if let ContentBlock::ToolResult { tool_use_id, .. } = &blocks[0] {
            assert_eq!(tool_use_id, "t1");
        } else {
            panic!("Expected ToolResult");
        }
    } else {
        panic!("Expected Blocks");
    }
}

#[test]
fn test_sanitize_messages_drops_empty_user_message() {
    let msgs = vec![Message {
        role: "user".into(),
        content: MessageContent::Blocks(vec![tool_result("orphan", "stale")]),
    }];
    let sanitized = sanitize_messages(msgs);
    assert!(sanitized.is_empty());
}

#[test]
fn test_sanitize_messages_preserves_text_messages() {
    let msgs = vec![
        Message { role: "user".into(), content: MessageContent::Text("hello".into()) },
        Message { role: "assistant".into(), content: MessageContent::Text("hi".into()) },
    ];
    let sanitized = sanitize_messages(msgs);
    assert_eq!(sanitized.len(), 2);
}

#[test]
fn sanitize_twice_changes_nothing_more() {
    let msgs = vec![
        Message {
            role: "user".into(),
            content: MessageContent::Blocks(vec![
                ContentBlock::Text { text: "see".into() },
                tool_result("gone", "x"),
            ]),
        },
        Message {
            role: "assistant".into(),
            content: MessageContent::Blocks(vec![ContentBlock::ToolUse {
                id: "a".into(),
                name: "n".into(),
                input: "{}".into(),
                thought_signature: None,
            }]),
        },
        Message { role: "user".into(), content: MessageContent::Blocks(vec![tool_result("a", "done")]) },
    ];
    let once = sanitize_messages(msgs);
    let once_shape: Vec<usize> = once
        .iter()
        .map(|m| match &m.content {
            MessageContent::Blocks(b) => b.len(),
            MessageContent::Text(_) => 0,
        })
        .collect();
    assert_eq!(once_shape, vec![1, 1, 1]);
    let twice = sanitize_messages(once);
    let twice_shape: Vec<usize> = twice
        .iter()
        .map(|m| match &m.content {
            MessageContent::Blocks(b) => b.len(),
            MessageContent::Text(_) => 0,
        })
        .collect();
    assert_eq!(twice_shape, once_shape);
}

#[test]
fn tool_results_in_assistant_messages_are_left_alone() {
    let msgs = vec![Message {
        role: "assistant".into(),
        content: MessageContent::Blocks(vec![tool_result("nobody", "x")]),
    }];
    assert_eq!(sanitize_messages(msgs).len(), 1);
}

#[test]
fn test_sse_event_parser_multiline_data() {
    let mut parser = SseEventParser::default();
    let events =
        parser.push_chunk("event: message\n: keep-alive\ndata: {\"type\":\"x\",\ndata: \"v\":1}\n\n");
    assert_eq!(events.len(), 1);
    assert_eq!(events[0], "{\"type\":\"x\",\n\"v\":1}");
}

#[test]
fn test_sse_event_parser_finish_flushes_unterminated_event() {
    let mut parser = SseEventParser::default();
    let events = parser.push_chunk("data: hello");
    assert!(events.is_empty());
    let tail = parser.finish();
    assert_eq!(tail, vec!["hello".to_string()]);
}

#[test]
fn sse_chunking_does_not_change_events() {
    let stream = "data: a\r\n\r\ndata:b\ndata:  c\n\nid: 7\ndata\n\n:comment\n";
    let mut whole = SseEventParser::new();
    let mut expected = whole.push_chunk(stream);
    expected.extend(whole.finish());
    assert_eq!(expected, vec!["a".to_string(), "b\n c".to_string(), String::new()]);
    for split in 0..stream.len() {
        let mut p = SseEventParser::new();
        let mut got = p.push_chunk(&stream[..split]);
        got.extend(p.push_chunk(&stream[split..]));
        got.extend(p.finish());
        assert_eq!(got, expected, "split at {}", split);
    }
}

#[test]
fn sse_finish_reads_last_line_and_resets() {
    let mut p = SseEventParser::new();
    assert!(p.push_chunk("data: one\ndata: two").is_empty());
    assert_eq!(p.finish(), vec!["one\ntwo".to_string()]);
    assert!(p.finish().is_empty());
    assert_eq!(p.push_chunk("data: x\n\n"), vec!["x".to_string()]);
}

#[test]
fn send_options_set_tool_choice() {
    let o = LlmSendOptions::default();
    assert!(o.tool_choice.is_none());
    let o = o.with_tool_choice("required");
    assert_eq!(o.tool_choice.as_deref(), Some("required"));
}

#[test]
fn cached_system_only_for_long_prompts() {
    match build_cached_system("short") {
        SystemContent::Text(t) => assert_eq!(t, "short"),
        _ => panic!("expected text"),
    }
    let exact = "a".repeat(1024);
    assert!(matches!(build_cached_system(&exact), SystemContent::Text(_)));
    let long = "é".repeat(513);
    match build_cached_system(&long) {
        SystemContent::Blocks(b) => {
            assert_eq!(b.len(), 1);
            assert_eq!(b[0].block_type, "text");
            assert_eq!(b[0].text, long);
            assert_eq!(b[0].cache_control.as_ref().unwrap().control_type, "ephemeral");
        }
        _ => panic!("expected blocks"),
    }
}

#[test]
fn strip_tools_markup_removes_spans_and_trims() {
    assert_eq!(
        strip_tools_markup_from_content("Sure. <tools>{\"name\":\"x\"}</tools> Done. "),
        "Sure.  Done."
    );
    assert_eq!(strip_tools_markup_from_content("<tools>a</tools><tools>b</tools>"), "");
    assert_eq!(strip_tools_markup_from_content(" open <tools> never closed "), "open <tools> never closed");
    assert_eq!(strip_tools_markup_from_content("<to<tools>x</tools>ols>y</tools>z"), "z");
}

#[test]
fn error_preview_cuts_at_byte_budget() {
    assert_eq!(llm_error_body_preview("short", 10), "short");
    assert_eq!(llm_error_body_preview("abcdefghij", 4), "abcd...");
    assert_eq!(llm_error_body_preview("héllo", 3), "hé...");
}

#[test]
fn oai_error_message_layout() {
    let err = OaiErrorDetail {
        message: "bad key".into(),
        code: Some("invalid_api_key".into()),
        error_type: Some("auth".into()),
    };
    assert_eq!(
        format_oai_error(401, &err, "{}"),
        "HTTP 401: bad key (type=auth, code=invalid_api_key). Response: {}"
    );
    let bare = OaiErrorDetail { message: "oops".into(), code: None, error_type: None };
    let body = "x".repeat(450);
    let out = format_oai_error(500, &bare, &body);
    assert_eq!(out, format!("HTTP 500: oops. Response: {}...", "x".repeat(400)));
}

#[test]
fn provider_kind_by_name() {
    assert_eq!(provider_kind(" Anthropic "), ProviderKind::Anthropic);
    assert_eq!(provider_kind("google"), ProviderKind::Gemini);
    assert_eq!(provider_kind("GEMINI"), ProviderKind::Gemini);
    assert_eq!(provider_kind("openai"), ProviderKind::OpenAiCompatible);
    assert_eq!(provider_kind(""), ProviderKind::OpenAiCompatible);
}

#[test]
fn evaluator_label_prefers_local_endpoint() {
    let mut cfg = base_config();
    assert_eq!(resolve_evaluator_provider_label(&cfg, None), "");
    cfg.perplexity_api_key = Some("  ".into());
    assert_eq!(resolve_evaluator_provider_label(&cfg, None), "");
    cfg.perplexity_api_key = Some("pk".into());
    assert_eq!(resolve_evaluator_provider_label(&cfg, None), "perplexity · sonar");
    assert_eq!(
        resolve_evaluator_provider_label(&cfg, Some(("http://127.0.0.1:8080/v1", "qwen"))),
        "local · qwen @ http://127.0.0.1:8080/v1"
    );
}

#[test]
fn evaluator_plan_choices() {
    let mut cfg = base_config();
    match plan_evaluator_provider(&cfg, None) {
        Err(FinallyAValueBotError::Config(m)) => assert!(m.contains("PERPLEXITY_API_KEY")),
        other => panic!("unexpected {:?}", other),
    }
    cfg.perplexity_api_key = Some(" pk ".into());
    let p = plan_evaluator_provider(&cfg, None).unwrap();
    assert_eq!(p.llm_provider, "openai");
    assert_eq!(p.api_key, "pk");
    assert_eq!(p.model, "sonar");
    assert_eq!(p.base_url, "https://api.perplexity.ai");
    assert_eq!(p.max_tokens, EVALUATOR_MAX_TOKENS);
    let l = plan_evaluator_provider(&cfg, Some(("http://h/v1", " qwen "))).unwrap();
    assert_eq!(l.llm_provider, "llama");
    assert_eq!(l.api_key, "");
    assert_eq!(l.model, "qwen");
    assert_eq!(l.label, "local ·  qwen  @ http://h/v1");
}

#[test]
fn openai_base_url_and_chat_endpoint() {
    let mut cfg = base_config();
    assert_eq!(oai_resolve_base_url(&cfg, None), "https://api.openai.com/v1");
    assert_eq!(oai_resolve_base_url(&cfg, Some("https://openrouter.ai/api/v1")), "https://openrouter.ai/api/v1");
    cfg.llm_base_url = Some("  http://localhost:11434/v1/ ".into());
    assert_eq!(oai_resolve_base_url(&cfg, Some("https://x")), "http://localhost:11434/v1/");
    assert_eq!(oai_chat_url("http://localhost:11434/v1//"), "http://localhost:11434/v1/chat/completions");
}

fn mj(entries: Vec<(&str, JsonValue)>) -> JsonValue {
    JsonValue::Object(entries.into_iter().map(|(k, v)| (k.to_string(), v)).collect())
}

fn ms(x: &str) -> JsonValue {
    JsonValue::Str(x.to_string())
}

#[test]
fn model_listing_sorted_and_deduplicated() {
    let v = mj(vec![(
        "data",
        JsonValue::Array(vec![mj(vec![("id", ms("qwen"))]), mj(vec![("id", ms("llama"))]), mj(vec![("id", ms("qwen"))]), mj(vec![])]),
    )]);
    assert_eq!(listed_model_ids(&v), vec!["llama".to_string(), "qwen".to_string()]);
    let alt = mj(vec![("data", JsonValue::Array(vec![])), ("models", JsonValue::Array(vec![ms("b"), mj(vec![("id", ms("a"))])]))]);
    assert_eq!(listed_model_ids(&alt), vec!["a".to_string(), "b".to_string()]);
    assert!(listed_model_ids(&JsonValue::Null).is_empty());
}

#[test]
fn probe_reports_unlisted_model() {
    let ids: Vec<JsonValue> = (0..10).map(|i| mj(vec![("id", ms(&format!("m{i}")))])).collect();
    let v = mj(vec![("data", JsonValue::Array(ids))]);
    assert_eq!(model_not_listed(&v, " m3 "), None);
    let listed = model_not_listed(&v, "other").unwrap();
    assert_eq!(listed.len(), 8);
    assert_eq!(listed[0], "m0");
    assert_eq!(model_not_listed(&v, "  "), None);
    assert_eq!(model_not_listed(&mj(vec![("data", JsonValue::Array(vec![]))]), "x"), None);
}

#[test]
fn model_listing_is_read_from_body_text() {
    assert_eq!(
        listed_model_ids_text(r#"{"data":[{"id":"qwen"},{"id":"llama"},{"id":"qwen"}]}"#).unwrap(),
        vec!["llama".to_string(), "qwen".to_string()]
    );
    assert!(listed_model_ids_text("not json").unwrap_err().starts_with("Invalid models JSON: "));
    assert_eq!(model_not_listed_text(r#"{"data":[{"id":"m1"}]}"#, "m1"), None);
    assert_eq!(model_not_listed_text(r#"{"data":[{"id":"m1"}]}"#, "m2"), Some(vec!["m1".to_string()]));
    assert_eq!(model_not_listed_text("<html>", "m2"), None);
}
