use finally_a_value_bot::claude::{
    ContentBlock, ImageSource, Message, MessageContent, ResponseContentBlock, ToolDefinition,
};
use finally_a_value_bot::json::JsonValue;
use finally_a_value_bot::llm::oai_uses_max_completion_tokens;
use finally_a_value_bot::oai::{
    build_oai_chat_request_body, embedded_tool_call_ids, embedded_tool_calls, sanitize_oai_parameters, translate_messages_to_oai,
    translate_oai_response, translate_oai_response_with_fresh_ids, translate_tools_to_oai, OaiChatMessage,
    OaiChoice, OaiContent, OaiFunction, OaiMessage, OaiPart, OaiResponse, OaiToolCall, OaiUsage, TokenLimitField,
};

fn s(x: &str) -> JsonValue {
    JsonValue::Str(x.to_string())
}

fn num(n: u64) -> JsonValue {
    JsonValue::Number(Some(n), n.to_string())
}

fn obj(entries: Vec<(&str, JsonValue)>) -> JsonValue {
    JsonValue::Object(entries.into_iter().map(|(k, v)| (k.to_string(), v)).collect())
}

fn text_of(c: &OaiContent) -> &str {
    match c {
        OaiContent::Text(t) => t.as_str(),
        OaiContent::Parts(_) => panic!("expected text content"),
    }
}

fn user_text(t: &str) -> Message {
    Message { role: "user".into(), content: MessageContent::Text(t.into()) }
}

fn tool_use(id: &str, name: &str, input: &str) -> ContentBlock {
    ContentBlock::ToolUse { id: id.into(), name: name.into(), input: input.into(), thought_signature: None }
}

fn user_message_hi() -> Vec<OaiChatMessage> {
    translate_messages_to_oai("", &vec![user_text("hi")])
}

fn tool(name: &str, description: &str, schema: JsonValue) -> ToolDefinition {
    ToolDefinition { name: name.into(), description: description.into(), input_schema: schema }
}

fn choice(content: Option<&str>, calls: Option<Vec<OaiToolCall>>, finish: Option<&str>) -> OaiChoice {
    OaiChoice {
        message: OaiMessage { content: content.map(|c| c.to_string()), tool_calls: calls },
        finish_reason: finish.map(|f| f.to_string()),
    }
}

fn call(id: &str, name: &str, arguments: &str) -> OaiToolCall {
    OaiToolCall {
        id: id.into(),
        function: OaiFunction { name: name.into(), arguments: arguments.into(), thought_signature: None },
        thought_signature: None,
    }
}

#[test]
fn test_build_oai_chat_request_body_token_fields() {
    let legacy = build_oai_chat_request_body("gpt-4o", 100, user_message_hi(), None, None, false, false);
    assert_eq!(legacy.token_field, TokenLimitField::MaxTokens);
    assert_eq!(legacy.max_tokens, 100);
    let modern = build_oai_chat_request_body("gpt-5.2", 100, user_message_hi(), None, None, false, true);
    assert_eq!(modern.token_field, TokenLimitField::MaxCompletionTokens);
    assert!(oai_uses_max_completion_tokens("gpt-5.2"));
}

#[test]
fn test_build_oai_chat_request_body_tool_choice() {
    let tools = vec![tool("add", "add", obj(vec![("type", s("object"))]))];
    let body = build_oai_chat_request_body("qwen", 100, user_message_hi(), Some(&tools), Some("required"), false, false);
    assert_eq!(body.tool_choice.as_deref(), Some("required"));
    assert!(body.tools.is_some());
    assert_eq!(body.tools.as_ref().unwrap().len(), 1);
    assert_eq!(body.model, "qwen");
}

#[test]
fn tool_choice_is_dropped_without_tools() {
    let empty: Vec<ToolDefinition> = vec![];
    let body = build_oai_chat_request_body("qwen", 7, user_message_hi(), Some(&empty), Some("required"), true, false);
    assert!(body.tools.is_none());
    assert!(body.tool_choice.is_none());
    assert!(body.stream);
}

#[test]
fn test_translate_messages_system_only() {
    let msgs: Vec<Message> = vec![];
    let out = translate_messages_to_oai("You are a bot.", &msgs);
    assert_eq!(out.len(), 1);
    assert_eq!(out[0].role, "system");
    assert_eq!(text_of(&out[0].content), "You are a bot.");
}

#[test]
fn test_translate_messages_empty_system_omitted() {
    let msgs: Vec<Message> = vec![];
    let out = translate_messages_to_oai("", &msgs);
    assert!(out.is_empty());
}

#[test]
fn test_translate_messages_text_roundtrip() {
    let msgs = vec![
        user_text("hello"),
        Message { role: "assistant".into(), content: MessageContent::Text("hi".into()) },
    ];
    let out = translate_messages_to_oai("sys", &msgs);
    assert_eq!(out.len(), 3);
    assert_eq!(out[0].role, "system");
    assert_eq!(out[1].role, "user");
    assert_eq!(text_of(&out[1].content), "hello");
    assert_eq!(out[2].role, "assistant");
    assert_eq!(text_of(&out[2].content), "hi");
}

#[test]
fn test_translate_messages_assistant_tool_use() {
    let msgs = vec![Message {
        role: "assistant".into(),
        content: MessageContent::Blocks(vec![
            ContentBlock::Text { text: "Let me check.".into() },
            tool_use("t1", "bash", r#"{"command":"ls"}"#),
        ]),
    }];
    let out = translate_messages_to_oai("", &msgs);
    assert_eq!(out.len(), 2);
    assert_eq!(out[0].role, "user");
    assert_eq!(text_of(&out[0].content), ".");
    assert_eq!(out[1].role, "assistant");
    assert_eq!(text_of(&out[1].content), "Let me check.");
    let tc = &out[1].tool_calls;
    assert_eq!(tc.len(), 1);
    assert_eq!(tc[0].id, "t1");
    assert_eq!(tc[0].name, "bash");
    assert_eq!(tc[0].arguments, r#"{"command":"ls"}"#);
}

#[test]
fn test_translate_messages_tool_result() {
    let msgs = vec![
        Message { role: "assistant".into(), content: MessageContent::Blocks(vec![tool_use("t1", "glob", "{}")]) },
        Message {
            role: "user".into(),
            content: MessageContent::Blocks(vec![ContentBlock::ToolResult {
                tool_use_id: "t1".into(),
                content: "file1.rs\nfile2.rs".into(),
                is_error: None,
            }]),
        },
    ];
    let out = translate_messages_to_oai("", &msgs);
    assert_eq!(out.len(), 3);
    assert_eq!(out[0].role, "user");
    assert_eq!(text_of(&out[0].content), ".");
    assert_eq!(out[1].role, "assistant");
    assert_eq!(out[2].role, "tool");
    assert_eq!(out[2].tool_call_id.as_deref(), Some("t1"));
    assert_eq!(text_of(&out[2].content), "file1.rs\nfile2.rs");
}

#[test]
fn test_translate_messages_tool_result_error() {
    let msgs = vec![
        Message { role: "assistant".into(), content: MessageContent::Blocks(vec![tool_use("t1", "glob", "{}")]) },
        Message {
            role: "user".into(),
            content: MessageContent::Blocks(vec![ContentBlock::ToolResult {
                tool_use_id: "t1".into(),
                content: "not found".into(),
                is_error: Some(true),
            }]),
        },
    ];
    let out = translate_messages_to_oai("", &msgs);
    assert_eq!(out.len(), 3);
    assert_eq!(out[2].role, "tool");
    assert_eq!(text_of(&out[2].content), "[Error] not found");
}

#[test]
fn test_translate_messages_orphaned_tool_result_skipped() {
    let msgs = vec![Message {
        role: "user".into(),
        content: MessageContent::Blocks(vec![ContentBlock::ToolResult {
            tool_use_id: "orphan_id".into(),
            content: "stale result".into(),
            is_error: None,
        }]),
    }];
    let out = translate_messages_to_oai("", &msgs);
    assert!(out.is_empty());
}

#[test]
fn test_translate_messages_image_block() {
    let msgs = vec![Message {
        role: "user".into(),
        content: MessageContent::Blocks(vec![
            ContentBlock::Image {
                source: ImageSource {
                    source_type: "base64".into(),
                    media_type: "image/png".into(),
                    data: "AAAA".into(),
                },
            },
            ContentBlock::Text { text: "describe".into() },
        ]),
    }];
    let out = translate_messages_to_oai("", &msgs);
    assert_eq!(out.len(), 1);
    assert_eq!(out[0].role, "user");
    match &out[0].content {
        OaiContent::Parts(parts) => {
            assert_eq!(parts.len(), 2);
            match &parts[0] {
                OaiPart::ImageUrl(url) => assert!(url.starts_with("data:image/png;base64,")),
                other => panic!("expected an image part, got {:?}", other),
            }
            match &parts[1] {
                OaiPart::Text(t) => assert_eq!(t, "describe"),
                other => panic!("expected a text part, got {:?}", other),
            }
        },
        OaiContent::Text(_) => panic!("expected parts"),
    }
}

#[test]
fn test_translate_messages_user_text_blocks_no_images_no_tool_results() {
    let msgs = vec![Message {
        role: "user".into(),
        content: MessageContent::Blocks(vec![
            ContentBlock::Text { text: "first".into() },
            ContentBlock::Text { text: "second".into() },
        ]),
    }];
    let out = translate_messages_to_oai("", &msgs);
    assert_eq!(out.len(), 1);
    assert_eq!(out[0].role, "user");
    assert_eq!(text_of(&out[0].content), "first\nsecond");
}

#[test]
fn test_translate_tools_to_oai() {
    let schema = obj(vec![("type", s("object")), ("properties", obj(vec![("cmd", obj(vec![("type", s("string"))]))]))]);
    let out = translate_tools_to_oai(&vec![tool("bash", "Run bash", schema)]);
    assert_eq!(out.len(), 1);
    assert_eq!(out[0].name, "bash");
    assert_eq!(out[0].description, "Run bash");
    assert!(out[0].parameters.get("properties").unwrap().get("cmd").is_some());
}

fn required_names(v: &JsonValue) -> Vec<String> {
    match v.get("required") {
        Some(r) => r.as_array().unwrap().iter().map(|x| x.as_str().unwrap().to_string()).collect(),
        None => vec![],
    }
}

#[test]
fn test_sanitize_oai_parameters_required_filtered() {
    let schema = obj(vec![
        ("type", s("object")),
        ("properties", obj(vec![("a", obj(vec![("type", s("string"))])), ("b", obj(vec![("type", s("integer"))]))])),
        ("required", JsonValue::Array(vec![s("a"), s("missing1"), s("b"), s("missing2")])),
    ]);
    let out = sanitize_oai_parameters(&schema);
    assert_eq!(required_names(&out), vec!["a".to_string(), "b".to_string()]);
}

#[test]
fn test_sanitize_oai_parameters_no_properties_or_invalid() {
    let schema = obj(vec![("type", s("object")), ("required", JsonValue::Array(vec![s("ghost1"), s("ghost2")]))]);
    let out = sanitize_oai_parameters(&schema);
    assert!(required_names(&out).is_empty());
    assert!(out.get("properties").is_some());
}

#[test]
fn test_sanitize_oai_parameters_strips_enum_keeps_required() {
    let schema = obj(vec![
        ("type", s("object")),
        (
            "properties",
            obj(vec![
                (
                    "tier",
                    obj(vec![
                        ("type", s("integer")),
                        ("description", s("Tier")),
                        ("enum", JsonValue::Array(vec![num(1), num(2), num(3)])),
                    ]),
                ),
                ("content", obj(vec![("type", s("string")), ("description", s("Content"))])),
            ]),
        ),
        ("required", JsonValue::Array(vec![s("tier"), s("content")])),
    ]);
    let out = sanitize_oai_parameters(&schema);
    let props = out.get("properties").unwrap();
    assert!(props.get("tier").is_some());
    assert!(props.get("content").is_some());
    assert!(props.get("tier").unwrap().get("enum").is_none(), "enum should be stripped");
    let required = required_names(&out);
    assert_eq!(required.len(), 2);
    assert!(required.iter().all(|r| props.get(r).is_some()));
}

#[test]
fn sanitize_of_a_non_object_gives_an_empty_object_schema() {
    let out = sanitize_oai_parameters(&s("not a schema"));
    assert_eq!(out.get("type").and_then(|t| t.as_str()), Some("object"));
    assert!(out.get("properties").is_some());
}

fn only(c: OaiChoice, usage: Option<OaiUsage>) -> OaiResponse {
    OaiResponse { choices: vec![c], usage }
}

#[test]
fn test_translate_oai_response_text() {
    let oai = only(choice(Some("Hello!"), None, Some("stop")), Some(OaiUsage { prompt_tokens: 10, completion_tokens: 5 }));
    let resp = translate_oai_response(oai, vec![], vec![]);
    assert_eq!(resp.stop_reason.as_deref(), Some("end_turn"));
    assert_eq!(resp.content.len(), 1);
    match &resp.content[0] {
        ResponseContentBlock::Text { text } => assert_eq!(text, "Hello!"),
        _ => panic!("Expected Text"),
    }
    let usage = resp.usage.unwrap();
    assert_eq!(usage.input_tokens, 10);
    assert_eq!(usage.output_tokens, 5);
}

#[test]
fn test_translate_oai_response_tool_calls() {
    let oai = only(choice(None, Some(vec![call("call_1", "bash", r#"{"command":"ls"}"#)]), Some("tool_calls")), None);
    let resp = translate_oai_response(oai, vec![], vec![]);
    assert_eq!(resp.stop_reason.as_deref(), Some("tool_use"));
    match &resp.content[0] {
        ResponseContentBlock::ToolUse { id, name, input, .. } => {
            assert_eq!(id, "call_1");
            assert_eq!(name, "bash");
            assert_eq!(input, r#"{"command":"ls"}"#);
        },
        _ => panic!("Expected ToolUse"),
    }
}

#[test]
fn tool_call_with_broken_arguments_gets_null_input() {
    let oai = only(choice(None, Some(vec![call("c", "bash", "{oops")]), Some("tool_calls")), None);
    let resp = translate_oai_response(oai, vec![], vec![]);
    match &resp.content[0] {
        ResponseContentBlock::ToolUse { input, .. } => assert_eq!(input, "null"),
        _ => panic!("Expected ToolUse"),
    }
}

#[test]
fn test_translate_oai_response_empty_choices() {
    let oai = OaiResponse { choices: vec![], usage: None };
    let resp = translate_oai_response(oai, vec![], vec![]);
    assert_eq!(resp.stop_reason.as_deref(), Some("end_turn"));
    match &resp.content[0] {
        ResponseContentBlock::Text { text } => assert_eq!(text, "(empty response)"),
        _ => panic!("Expected Text"),
    }
}

#[test]
fn test_translate_oai_response_length_stop() {
    let oai = only(choice(Some("partial"), None, Some("length")), None);
    let resp = translate_oai_response(oai, vec![], vec![]);
    assert_eq!(resp.stop_reason.as_deref(), Some("max_tokens"));
}

#[test]
fn test_translate_oai_response_text_and_tool_calls() {
    let oai = only(
        choice(Some("thinking..."), Some(vec![call("c1", "read_file", r#"{"path":"/tmp/x"}"#)]), Some("tool_calls")),
        None,
    );
    let resp = translate_oai_response(oai, vec![], vec![]);
    assert_eq!(resp.content.len(), 2);
    match &resp.content[0] {
        ResponseContentBlock::Text { text } => assert_eq!(text, "thinking..."),
        _ => panic!("Expected Text"),
    }
    match &resp.content[1] {
        ResponseContentBlock::ToolUse { name, .. } => assert_eq!(name, "read_file"),
        _ => panic!("Expected ToolUse"),
    }
}

#[test]
fn test_translate_oai_response_xai_stop_with_tool_calls() {
    let oai = only(choice(None, Some(vec![call("call_abc", "bash", r#"{"command":"ls"}"#)]), Some("stop")), None);
    let resp = translate_oai_response(oai, vec![], vec![]);
    assert_eq!(resp.stop_reason.as_deref(), Some("tool_use"));
    assert!(resp
        .content
        .iter()
        .any(|b| matches!(b, ResponseContentBlock::ToolUse { name, .. } if name == "bash")));
}

#[test]
fn test_translate_oai_response_xai_completed_with_tool_calls() {
    let oai = only(choice(None, Some(vec![call("call_xyz", "read_file", "{}")]), Some("completed")), None);
    let resp = translate_oai_response(oai, vec![], vec![]);
    assert_eq!(resp.stop_reason.as_deref(), Some("tool_use"));
}

#[test]
fn markup_calls_come_first_and_markup_leaves_the_text() {
    let text = "Sure.\n<tools>\n{\"name\": \"add\", \"arguments\": {\"a\": 2}}\n</tools>";
    let oai = only(choice(Some(text), None, Some("stop")), None);
    let embedded = vec![("add".to_string(), r#"{"a":2}"#.to_string())];
    let resp = translate_oai_response(oai, embedded, vec!["id-0".to_string()]);
    assert_eq!(resp.stop_reason.as_deref(), Some("tool_use"));
    assert_eq!(resp.content.len(), 2);
    match &resp.content[0] {
        ResponseContentBlock::ToolUse { id, name, input, .. } => {
            assert_eq!(id, "id-0");
            assert_eq!(name, "add");
            assert_eq!(input, r#"{"a":2}"#);
        },
        _ => panic!("Expected ToolUse"),
    }
    match &resp.content[1] {
        ResponseContentBlock::Text { text } => assert_eq!(text, "Sure."),
        _ => panic!("Expected Text"),
    }
}

#[test]
fn fresh_ids_for_markup_calls_carry_their_position() {
    let ids = embedded_tool_call_ids(2);
    assert!(ids[0].starts_with("embedded_tool_0_"));
    assert!(ids[1].starts_with("embedded_tool_1_"));
    assert_ne!(ids[0], "embedded_tool_0_");
    let oai = only(choice(Some("<tools>{}</tools>"), None, None), None);
    let resp = translate_oai_response_with_fresh_ids(oai, vec![("noop".to_string(), "{}".to_string())]);
    match &resp.content[0] {
        ResponseContentBlock::ToolUse { id, .. } => assert!(id.starts_with("embedded_tool_0_")),
        _ => panic!("Expected ToolUse"),
    }
    assert_eq!(resp.content.len(), 1);
}

#[test]
fn test_parse_embedded_tool_calls_from_qwen_markup() {
    let raw = "<tools>\n{\n  \"name\": \"add\",\n  \"arguments\": { \"a\": 2, \"b\": 3 }\n}\n</tools>";
    let calls = finally_a_value_bot::oai::embedded_tool_calls_in_text(raw);
    assert_eq!(calls.len(), 1);
    assert_eq!(calls[0].0, "add");
    assert_eq!(calls[0].1, r#"{"a":2,"b":3}"#);
}

#[test]
fn markup_arrays_and_missing_arguments() {
    let arr = JsonValue::Array(vec![obj(vec![("name", s("x"))]), obj(vec![("nope", s("y"))]), obj(vec![("name", s("z")), ("arguments", s("q"))])]);
    let calls = embedded_tool_calls(&vec![arr, s("not a call")]);
    assert_eq!(calls, vec![("x".to_string(), "{}".to_string()), ("z".to_string(), "\"q\"".to_string())]);
}

#[test]
fn embedded_tool_calls_are_read_from_reply_text() {
    let raw = "before <tools>\n{\n  \"name\": \"add\",\n  \"arguments\": { \"a\": 2, \"b\": 3 }\n}\n</tools> <tools>not json</tools>";
    let calls = finally_a_value_bot::oai::embedded_tool_calls_in_text(raw);
    assert_eq!(calls, vec![("add".to_string(), r#"{"a":2,"b":3}"#.to_string())]);
    assert!(finally_a_value_bot::oai::embedded_tool_calls_in_text("no markup").is_empty());
}
