use finally_a_value_bot::claude::{ContentBlock, Message, MessageContent, ResponseContentBlock, ToolDefinition};
use finally_a_value_bot::gemini::{
    build_gemini_request, gemini_generate_url, gemini_parse_error, gemini_stream_url, gemini_thinking_config,
    parse_gemini_response, translate_messages_to_gemini, GeminiPart, GeminiStreamState, GeminiThinkingConfig,
};
use finally_a_value_bot::json::JsonValue;

fn s(x: &str) -> JsonValue {
    JsonValue::Str(x.to_string())
}

fn num(n: u64) -> JsonValue {
    JsonValue::Number(Some(n), n.to_string())
}

fn obj(entries: Vec<(&str, JsonValue)>) -> JsonValue {
    JsonValue::Object(entries.into_iter().map(|(k, v)| (k.to_string(), v)).collect())
}

fn reply(parts: Vec<JsonValue>, finish: &str, usage: Option<(u64, u64)>) -> JsonValue {
    let candidate = obj(vec![
        ("content", obj(vec![("role", s("model")), ("parts", JsonValue::Array(parts))])),
        ("finishReason", s(finish)),
    ]);
    let mut entries = vec![("candidates", JsonValue::Array(vec![candidate]))];
    if let Some((p, c)) = usage {
        entries.push(("usageMetadata", obj(vec![("promptTokenCount", num(p)), ("candidatesTokenCount", num(c))])));
    }
    obj(entries)
}

fn call_part(name: &str, args: JsonValue, sig: Option<&str>) -> JsonValue {
    let mut entries = vec![("functionCall", obj(vec![("name", s(name)), ("args", args)]))];
    if let Some(sig) = sig {
        entries.push(("thoughtSignature", s(sig)));
    }
    obj(entries)
}

fn tool_use(id: &str, name: &str, input: &str, sig: Option<&str>) -> ContentBlock {
    ContentBlock::ToolUse { id: id.into(), name: name.into(), input: input.into(), thought_signature: sig.map(|x| x.to_string()) }
}

#[test]
fn test_translate_messages_to_gemini_text() {
    let msgs = vec![
        Message { role: "user".into(), content: MessageContent::Text("hello".into()) },
        Message { role: "assistant".into(), content: MessageContent::Text("hi".into()) },
    ];
    let out = translate_messages_to_gemini(&msgs);
    assert_eq!(out.len(), 2);
    assert_eq!(out[0].role, "user");
    assert!(matches!(&out[0].parts[0], GeminiPart::Text(t) if t == "hello"));
    assert_eq!(out[1].role, "model");
    assert!(matches!(&out[1].parts[0], GeminiPart::Text(t) if t == "hi"));
}

#[test]
fn test_translate_messages_to_gemini_tool_use_and_result() {
    let msgs = vec![
        Message {
            role: "assistant".into(),
            content: MessageContent::Blocks(vec![tool_use("t1", "bash", r#"{"command":"ls"}"#, Some("sig_abc"))]),
        },
        Message {
            role: "user".into(),
            content: MessageContent::Blocks(vec![ContentBlock::ToolResult {
                tool_use_id: "t1".into(),
                content: "file1.txt\nfile2.txt".into(),
                is_error: None,
            }]),
        },
    ];
    let out = translate_messages_to_gemini(&msgs);
    assert_eq!(out.len(), 3);
    assert_eq!(out[0].role, "user");
    assert_eq!(out[1].role, "model");
    match &out[1].parts[0] {
        GeminiPart::FunctionCall { name, args_json, thought_signature } => {
            assert_eq!(name, "bash");
            assert_eq!(args_json, r#"{"command":"ls"}"#);
            assert_eq!(thought_signature, "sig_abc");
        },
        other => panic!("expected a function call, got {:?}", other),
    }
    assert_eq!(out[2].role, "user");
    match &out[2].parts[0] {
        GeminiPart::FunctionResponse { name, is_error, content } => {
            assert_eq!(name, "bash");
            assert!(!is_error);
            assert_eq!(content, "file1.txt\nfile2.txt");
        },
        other => panic!("expected a function response, got {:?}", other),
    }
}

#[test]
fn test_translate_messages_to_gemini_preserves_thought_signature() {
    let msgs = vec![Message {
        role: "assistant".into(),
        content: MessageContent::Blocks(vec![tool_use("t1", "search", r#"{"q":"test"}"#, Some("preserved_sig"))]),
    }];
    let out = translate_messages_to_gemini(&msgs);
    match &out[1].parts[0] {
        GeminiPart::FunctionCall { thought_signature, .. } => assert_eq!(thought_signature, "preserved_sig"),
        other => panic!("expected a function call, got {:?}", other),
    }
}

#[test]
fn orphan_tool_result_is_left_out_and_empty_body_gets_stand_in() {
    let msgs = vec![Message {
        role: "user".into(),
        content: MessageContent::Blocks(vec![ContentBlock::ToolResult {
            tool_use_id: "nobody".into(),
            content: "x".into(),
            is_error: Some(true),
        }]),
    }];
    let out = translate_messages_to_gemini(&msgs);
    assert_eq!(out.len(), 1);
    assert_eq!(out[0].parts.len(), 1);
    assert!(matches!(&out[0].parts[0], GeminiPart::Text(t) if t == "."));
}

#[test]
fn test_parse_gemini_response_text() {
    let v = reply(vec![obj(vec![("text", s("Hello, world!"))])], "STOP", Some((10, 5)));
    let result = parse_gemini_response(&v, false);
    assert_eq!(result.stop_reason.as_deref(), Some("end_turn"));
    assert_eq!(result.content.len(), 1);
    match &result.content[0] {
        ResponseContentBlock::Text { text } => assert_eq!(text, "Hello, world!"),
        _ => panic!("Expected Text"),
    }
    assert_eq!(result.usage.unwrap().input_tokens, 10);
    assert_eq!(result.usage.unwrap().output_tokens, 5);
}

#[test]
fn test_parse_gemini_response_function_call() {
    let part = call_part("search_web", obj(vec![("query", s("rust programming"))]), Some("sig_xyz"));
    let v = reply(vec![part], "STOP", Some((20, 10)));
    let result = parse_gemini_response(&v, false);
    assert_eq!(result.stop_reason.as_deref(), Some("tool_use"));
    assert_eq!(result.content.len(), 1);
    match &result.content[0] {
        ResponseContentBlock::ToolUse { id, name, input, thought_signature } => {
            assert_eq!(name, "search_web");
            assert_eq!(input, r#"{"query":"rust programming"}"#);
            assert_eq!(thought_signature.as_deref(), Some("sig_xyz"));
            assert!(!id.is_empty());
        },
        _ => panic!("Expected ToolUse"),
    }
}

#[test]
fn test_parse_gemini_response_text_and_function_call() {
    let v = reply(
        vec![
            obj(vec![("text", s("Let me search for that."))]),
            call_part("search", obj(vec![("q", s("test"))]), Some("sig_abc")),
        ],
        "STOP",
        None,
    );
    let result = parse_gemini_response(&v, false);
    assert_eq!(result.stop_reason.as_deref(), Some("tool_use"));
    assert_eq!(result.content.len(), 2);
    match &result.content[0] {
        ResponseContentBlock::Text { text } => assert_eq!(text, "Let me search for that."),
        _ => panic!("Expected Text"),
    }
    match &result.content[1] {
        ResponseContentBlock::ToolUse { name, .. } => assert_eq!(name, "search"),
        _ => panic!("Expected ToolUse"),
    }
    assert!(result.usage.is_none());
}

#[test]
fn test_parse_gemini_response_empty() {
    let v = reply(vec![], "STOP", None);
    let result = parse_gemini_response(&v, false);
    assert_eq!(result.content.len(), 1);
    match &result.content[0] {
        ResponseContentBlock::Text { text } => assert_eq!(text, ""),
        _ => panic!("Expected Text"),
    }
}

#[test]
fn thoughts_are_wrapped_or_hidden() {
    let thought = obj(vec![("text", s("pondering")), ("thought", JsonValue::Bool(true))]);
    let v = reply(vec![thought, obj(vec![("text", s("answer"))])], "MAX_TOKENS", None);
    let shown = parse_gemini_response(&v, true);
    assert!(matches!(&shown.content[0], ResponseContentBlock::Text { text } if text == "<think>pondering</think>"));
    assert_eq!(shown.stop_reason.as_deref(), Some("MAX_TOKENS"));
    let hidden = parse_gemini_response(&v, false);
    assert_eq!(hidden.content.len(), 1);
    assert!(matches!(&hidden.content[0], ResponseContentBlock::Text { text } if text == "answer"));
}

#[test]
fn stream_gathers_text_and_calls() {
    let mut st = GeminiStreamState::new();
    let first = reply(vec![obj(vec![("text", s("Hel"))])], "", Some((3, 1)));
    let shown = st.process_gemini_stream_event(&first, false);
    assert_eq!(shown, vec!["Hel".to_string()]);
    let second = reply(
        vec![obj(vec![("text", s("lo"))]), call_part("ping", obj(vec![]), None)],
        "STOP",
        Some((9, 9)),
    );
    let shown2 = st.process_gemini_stream_event(&second, false);
    assert_eq!(shown2, vec!["lo".to_string()]);
    let r = st.finish_gemini_stream();
    assert_eq!(r.content.len(), 2);
    assert!(matches!(&r.content[0], ResponseContentBlock::Text { text } if text == "Hello"));
    assert!(matches!(&r.content[1], ResponseContentBlock::ToolUse { name, input, .. } if name == "ping" && input == "{}"));
    assert_eq!(r.stop_reason.as_deref(), Some("tool_use"));
    assert_eq!(r.usage.unwrap().input_tokens, 3);
}

#[test]
fn empty_stream_finishes_with_one_empty_text() {
    let r = GeminiStreamState::new().finish_gemini_stream();
    assert_eq!(r.content.len(), 1);
    assert!(matches!(&r.content[0], ResponseContentBlock::Text { text } if text.is_empty()));
}

#[test]
fn thinking_config_by_model() {
    assert_eq!(gemini_thinking_config("gemini-2.5-flash", false, false), Some(GeminiThinkingConfig::NoBudget));
    assert_eq!(gemini_thinking_config("gemini-2.5-pro", false, false), None);
    assert_eq!(
        gemini_thinking_config(" Gemini-3-Pro ", true, true),
        Some(GeminiThinkingConfig::MediumLevel { include_thoughts: true })
    );
    assert_eq!(
        gemini_thinking_config("gemini-2.5-pro", true, false),
        Some(GeminiThinkingConfig::DynamicBudget { include_thoughts: false })
    );
    assert_eq!(gemini_thinking_config("gemini-1.5", true, true), None);
}

#[test]
fn request_and_urls() {
    let msgs = vec![Message { role: "user".into(), content: MessageContent::Text("hi".into()) }];
    let tools = vec![ToolDefinition { name: "t".into(), description: "d".into(), input_schema: obj(vec![]) }];
    let r = build_gemini_request("be brief", &msgs, Some(tools), 256, "gemini-2.5-flash", false, false);
    assert_eq!(r.system_instruction.as_deref(), Some("be brief"));
    assert_eq!(r.max_output_tokens, 256);
    assert_eq!(r.function_declarations.as_ref().unwrap().len(), 1);
    assert_eq!(r.thinking, Some(GeminiThinkingConfig::NoBudget));
    let r2 = build_gemini_request("", &msgs, None, 1, "m", true, true);
    assert!(r2.system_instruction.is_none());
    assert!(r2.function_declarations.is_none());
    assert_eq!(
        gemini_generate_url("m", "k"),
        "https://generativelanguage.googleapis.com/v1beta/models/m:generateContent?key=k"
    );
    assert_eq!(
        gemini_stream_url("m", "k"),
        "https://generativelanguage.googleapis.com/v1beta/models/m:streamGenerateContent?alt=sse&key=k"
    );
    let e = gemini_parse_error("eof", "{");
    assert!(format!("{:?}", e).contains("Failed to parse Gemini response: eof"));
}

#[test]
fn gemini_body_text_is_parsed_before_it_is_read() {
    let body = r#"{"candidates":[{"content":{"parts":[{"text":"Hello"}]},"finishReason":"STOP"}]}"#;
    let r = finally_a_value_bot::gemini::parse_gemini_body(body, false).unwrap();
    assert_eq!(r.stop_reason.as_deref(), Some("end_turn"));
    assert!(matches!(&r.content[0], finally_a_value_bot::claude::ResponseContentBlock::Text { text } if text == "Hello"));
    let err = finally_a_value_bot::gemini::parse_gemini_body("oops", false).unwrap_err();
    assert!(err.message().starts_with("Failed to parse Gemini response: "));
    assert!(err.message().ends_with("\nBody: oops"));
    let mut st = finally_a_value_bot::gemini::GeminiStreamState::new();
    assert!(st.process_gemini_stream_data("[not", false).is_empty());
    assert_eq!(
        st.process_gemini_stream_data(r#"{"candidates":[{"content":{"parts":[{"text":"Hi"}]}}]}"#, false),
        vec!["Hi".to_string()]
    );
}
