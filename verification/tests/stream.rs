use finally_a_value_bot::claude::ResponseContentBlock;
use finally_a_value_bot::json::JsonValue;
use finally_a_value_bot::llm::build_stream_response;
use finally_a_value_bot::stream::{AnthropicStreamState, OaiStreamState};

fn s(x: &str) -> JsonValue {
    JsonValue::Str(x.to_string())
}

fn num(n: u64) -> JsonValue {
    JsonValue::Number(Some(n), n.to_string())
}

fn obj(entries: Vec<(&str, JsonValue)>) -> JsonValue {
    JsonValue::Object(entries.into_iter().map(|(k, v)| (k.to_string(), v)).collect())
}

fn oai_event(delta: JsonValue, finish: Option<&str>) -> JsonValue {
    let mut c = vec![("delta", delta)];
    if let Some(f) = finish {
        c.push(("finish_reason", s(f)));
    }
    obj(vec![("choices", JsonValue::Array(vec![obj(c)]))])
}

fn tool_delta(index: u64, id: Option<&str>, name: Option<&str>, args: &str) -> JsonValue {
    let mut function = vec![("arguments", s(args))];
    if let Some(n) = name {
        function.push(("name", s(n)));
    }
    let mut tc = vec![("index", num(index)), ("function", obj(function))];
    if let Some(i) = id {
        tc.push(("id", s(i)));
    }
    obj(tc)
}

#[test]
fn openai_stream_assembles_text_and_calls_by_index() {
    let mut st = OaiStreamState::new();
    assert_eq!(st.process_openai_stream_event(&oai_event(obj(vec![("content", s("Hi "))]), None)).as_deref(), Some("Hi "));
    assert_eq!(st.process_openai_stream_event(&oai_event(obj(vec![("content", s(""))]), None)), None);
    let calls = JsonValue::Array(vec![
        tool_delta(1, Some("c2"), Some("second"), "{}"),
        tool_delta(0, Some("c1"), Some("first"), "{\"a\":"),
    ]);
    assert_eq!(st.process_openai_stream_event(&oai_event(obj(vec![("tool_calls", calls)]), None)), None);
    let more = JsonValue::Array(vec![tool_delta(0, None, None, "1}")]);
    st.process_openai_stream_event(&oai_event(obj(vec![("tool_calls", more)]), Some("tool_calls")));
    let usage = obj(vec![("input_tokens", num(4)), ("completion_tokens", num(2))]);
    st.process_openai_stream_event(&obj(vec![("usage", usage)]));
    let r = st.finish_openai_stream();
    assert_eq!(r.content.len(), 3);
    assert!(matches!(&r.content[0], ResponseContentBlock::Text { text } if text == "Hi "));
    match &r.content[1] {
        ResponseContentBlock::ToolUse { id, name, input, .. } => {
            assert_eq!(id, "c1");
            assert_eq!(name, "first");
            assert_eq!(input, "{\"a\":1}");
        },
        _ => panic!("Expected ToolUse"),
    }
    assert!(matches!(&r.content[2], ResponseContentBlock::ToolUse { id, .. } if id == "c2"));
    assert_eq!(r.stop_reason.as_deref(), Some("tool_use"));
    let u = r.usage.unwrap();
    assert_eq!((u.input_tokens, u.output_tokens), (4, 2));
}

#[test]
fn openai_stream_with_nothing_gives_one_empty_text() {
    let r = OaiStreamState::new().finish_openai_stream();
    assert_eq!(r.content.len(), 1);
    assert!(matches!(&r.content[0], ResponseContentBlock::Text { text } if text.is_empty()));
    assert_eq!(r.stop_reason.as_deref(), Some("end_turn"));
}

#[test]
fn openai_stream_length_stop() {
    let mut st = OaiStreamState::new();
    st.process_openai_stream_event(&oai_event(obj(vec![("content", s("cut"))]), Some("length")));
    let r = st.finish_openai_stream();
    assert_eq!(r.stop_reason.as_deref(), Some("max_tokens"));
}

fn anthropic(kind: &str, mut rest: Vec<(&str, JsonValue)>) -> JsonValue {
    rest.insert(0, ("type", s(kind)));
    obj(rest)
}

#[test]
fn anthropic_stream_collects_blocks_in_first_seen_order() {
    let mut st = AnthropicStreamState::new();
    let start_msg = anthropic(
        "message_start",
        vec![("message", obj(vec![("usage", obj(vec![("input_tokens", num(12)), ("output_tokens", num(1))]))]))],
    );
    assert_eq!(st.process_anthropic_stream_event(&start_msg), None);
    let text_start = anthropic(
        "content_block_start",
        vec![("index", num(0)), ("content_block", obj(vec![("type", s("text")), ("text", s(""))]))],
    );
    st.process_anthropic_stream_event(&text_start);
    let delta = anthropic(
        "content_block_delta",
        vec![("index", num(0)), ("delta", obj(vec![("type", s("text_delta")), ("text", s("Looking"))]))],
    );
    assert_eq!(st.process_anthropic_stream_event(&delta).as_deref(), Some("Looking"));
    let tool_start = anthropic(
        "content_block_start",
        vec![
            ("index", num(1)),
            ("content_block", obj(vec![("type", s("tool_use")), ("id", s("tu_1")), ("name", s("bash")), ("input", obj(vec![]))])),
        ],
    );
    st.process_anthropic_stream_event(&tool_start);
    let args = anthropic(
        "content_block_delta",
        vec![("index", num(1)), ("delta", obj(vec![("type", s("input_json_delta")), ("partial_json", s("{\"cmd\":\"ls\"}"))]))],
    );
    assert_eq!(st.process_anthropic_stream_event(&args), None);
    let stop = anthropic(
        "message_delta",
        vec![("delta", obj(vec![("stop_reason", s("tool_use"))])), ("usage", obj(vec![("input_tokens", num(12)), ("output_tokens", num(9))]))],
    );
    st.process_anthropic_stream_event(&stop);
    assert_eq!(st.ordered_indexes, vec![0, 1]);
    let r = build_stream_response(st.ordered_indexes, st.text_blocks, st.tool_blocks, st.stop_reason, st.usage);
    assert_eq!(r.content.len(), 2);
    assert!(matches!(&r.content[0], ResponseContentBlock::Text { text } if text == "Looking"));
    match &r.content[1] {
        ResponseContentBlock::ToolUse { id, name, input, .. } => {
            assert_eq!(id, "tu_1");
            assert_eq!(name, "bash");
            assert_eq!(input, "{\"cmd\":\"ls\"}");
        },
        _ => panic!("Expected ToolUse"),
    }
    assert_eq!(r.stop_reason.as_deref(), Some("tool_use"));
    assert_eq!(r.usage.unwrap().output_tokens, 9);
}

#[test]
fn anthropic_message_delta_usage_without_input_count_clears_usage() {
    let mut st = AnthropicStreamState::new();
    let start_msg = anthropic(
        "message_start",
        vec![("message", obj(vec![("usage", obj(vec![("input_tokens", num(12))]))]))],
    );
    st.process_anthropic_stream_event(&start_msg);
    assert_eq!(st.usage.unwrap().input_tokens, 12);
    let delta = anthropic("message_delta", vec![("usage", obj(vec![("output_tokens", num(9))]))]);
    st.process_anthropic_stream_event(&delta);
    assert!(st.usage.is_none());
}

#[test]
fn anthropic_unknown_events_change_nothing() {
    let mut st = AnthropicStreamState::new();
    assert_eq!(st.process_anthropic_stream_event(&anthropic("ping", vec![])), None);
    assert!(st.ordered_indexes.is_empty());
    assert!(st.stop_reason.is_none());
    assert!(st.usage.is_none());
}

#[test]
fn stream_data_text_is_parsed_before_it_is_read() {
    let mut st = OaiStreamState::new();
    assert_eq!(st.process_openai_stream_data(r#"{"choices":[{"delta":{"content":"Hel"}}]}"#).as_deref(), Some("Hel"));
    assert_eq!(st.process_openai_stream_data("not json"), None);
    assert_eq!(st.process_openai_stream_data(r#"{"choices":[{"delta":{"content":"lo"}}]}"#).as_deref(), Some("lo"));
    let r = st.finish_openai_stream();
    match &r.content[0] {
        ResponseContentBlock::Text { text } => assert_eq!(text, "Hello"),
        other => panic!("unexpected block {:?}", other),
    }
    let mut a = AnthropicStreamState::new();
    assert_eq!(a.process_anthropic_stream_data("{broken"), None);
    assert_eq!(
        a.process_anthropic_stream_data(r#"{"type":"content_block_delta","index":0,"delta":{"type":"text_delta","text":"hi"}}"#)
            .as_deref(),
        Some("hi")
    );
}
