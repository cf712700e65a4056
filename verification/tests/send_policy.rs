use finally_a_value_bot::claude::{ContentBlock, Message, MessageContent, SystemContent, ToolDefinition};
use finally_a_value_bot::error::FinallyAValueBotError;
use finally_a_value_bot::json::JsonValue;
use finally_a_value_bot::send_policy::{
    anthropic_api_error, anthropic_request, gemini_api_error, http_error, is_stream_done, reply_parse_error,
    retry_delay_secs, transient_status, AttemptAction, AttemptOutcome, SendLoopState, LLM_MAX_RETRIES,
};

fn msg(e: FinallyAValueBotError) -> String {
    e.message()
}

#[test]
fn transient_statuses() {
    for s in [429u16, 500, 502, 503, 504] {
        assert!(transient_status(s));
    }
    for s in [200u16, 400, 401, 404, 501] {
        assert!(!transient_status(s));
    }
}

#[test]
fn retries_wait_two_four_eight_then_give_up() {
    assert_eq!(retry_delay_secs(1), 2);
    assert_eq!(retry_delay_secs(3), 8);
    let mut st = SendLoopState::new(false);
    assert_eq!(st.step(AttemptOutcome::NetworkError, false), AttemptAction::RetryAfterSecs(2));
    let busy = AttemptOutcome::HttpError { status: 503, wants_max_completion_tokens: false };
    assert_eq!(st.step(busy, false), AttemptAction::RetryAfterSecs(4));
    assert_eq!(st.step(busy, false), AttemptAction::RetryAfterSecs(8));
    assert_eq!(st.retries, LLM_MAX_RETRIES);
    assert_eq!(st.step(busy, false), AttemptAction::GiveUp);
    assert_eq!(st.step(AttemptOutcome::NetworkError, false), AttemptAction::GiveUp);
    assert_eq!(st.step(AttemptOutcome::Success, false), AttemptAction::Accept);
}

#[test]
fn token_field_switches_once_on_400() {
    let mut st = SendLoopState::new(false);
    let asks = AttemptOutcome::HttpError { status: 400, wants_max_completion_tokens: true };
    assert_eq!(st.step(asks, true), AttemptAction::ResendNow);
    assert!(st.use_max_completion_tokens);
    assert!(st.token_field_retried);
    assert_eq!(st.step(asks, true), AttemptAction::GiveUp);
    let mut other = SendLoopState::new(false);
    assert_eq!(other.step(asks, false), AttemptAction::GiveUp);
    assert!(!other.use_max_completion_tokens);
}

#[test]
fn error_messages() {
    assert_eq!(msg(http_error("404 Not Found", "nope")), "HTTP 404 Not Found: nope");
    assert_eq!(msg(anthropic_api_error("overloaded_error", "busy")), "overloaded_error: busy");
    assert_eq!(msg(gemini_api_error(-3, "bad")), "Gemini API error -3: bad");
    assert_eq!(msg(gemini_api_error(400, "bad")), "Gemini API error 400: bad");
    assert_eq!(
        msg(reply_parse_error("Failed to parse response", "eof", "{")),
        "Failed to parse response: eof\nBody: {"
    );
    assert!(is_stream_done("[DONE]"));
    assert!(!is_stream_done(" [DONE]"));
}

#[test]
fn anthropic_request_marks_last_tool_and_drops_orphans() {
    let messages = vec![Message {
        role: "user".into(),
        content: MessageContent::Blocks(vec![ContentBlock::ToolResult {
            tool_use_id: "gone".into(),
            content: "x".into(),
            is_error: None,
        }]),
    }];
    let tools = vec![
        ToolDefinition { name: "a".into(), description: "".into(), input_schema: JsonValue::Null },
        ToolDefinition { name: "b".into(), description: "".into(), input_schema: JsonValue::Null },
    ];
    let r = anthropic_request("m", 10, "sys", messages, Some(tools), true);
    assert!(r.messages.is_empty());
    assert_eq!(r.cached_tool, Some(1));
    assert!(matches!(r.system, SystemContent::Text(ref t) if t == "sys"));
    assert!(r.stream);
    let none = anthropic_request("m", 10, "", vec![], Some(vec![]), false);
    assert_eq!(none.cached_tool, None);
}
