//! The decisions of the provider request loops: which failures are retried,
//! after how long, when a request is resent with the other token-limit field,
//! and the error messages a failed request ends with. The requests themselves
//! are sent outside the library, which reports each attempt's outcome here.
use vstd::prelude::*;
use crate::claude::{messages_model, Message, SystemContent, ToolDefinition};
use crate::decimal::{i64_decimal, signed_decimal_seq};
use crate::error::FinallyAValueBotError;
use crate::llm::{build_cached_system, sanitize_messages, sanitized_conversation};
use crate::text::{append_str, append_vec, byte_len, chars_of, string_of};

verus! {

broadcast use vstd::string::group_string_axioms;

/// Retries allowed for one request (network errors and transient statuses).
pub const LLM_MAX_RETRIES: u32 = 3;

/// Statuses worth retrying: 429 and 500, 502, 503, 504.
pub open spec fn is_transient_status(status: u16) -> bool {
    status == 429 || status == 500 || status == 502 || status == 503 || status == 504
}

/// Whether a failed status is worth retrying.
pub fn transient_status(status: u16) -> (r: bool)
    ensures
        r == is_transient_status(status),
{
    status == 429 || status == 500 || status == 502 || status == 503 || status == 504
}

/// `2` to the power `n`.
pub open spec fn pow2_nat(n: nat) -> nat
    decreases n,
{
    if n == 0 {
        1
    } else {
        2 * pow2_nat((n - 1) as nat)
    }
}

/// The wait before retry number `attempt`: `2^attempt` seconds.
pub fn retry_delay_secs(attempt: u32) -> (r: u64)
    requires
        attempt <= LLM_MAX_RETRIES,
    ensures
        r == pow2_nat(attempt as nat),
{
    let mut r: u64 = 1;
    let mut k: u32 = 0;
    while k < attempt
        invariant
            k <= attempt <= LLM_MAX_RETRIES,
            r == pow2_nat(k as nat),
        decreases attempt - k,
    {
        proof {
            reveal_with_fuel(pow2_nat, 4);
            assert(k == 0 || k == 1 || k == 2);
            assert(r <= 4);
        }
        k = k + 1;
        r = r * 2;
        assert(r == pow2_nat(k as nat));
    }
    r
}

/// How one attempt to send a request went.
#[derive(Debug, Clone, Copy, PartialEq, Eq, Structural)]
pub enum AttemptOutcome {
    /// The request could not be sent or no response came.
    NetworkError,
    /// A success status came back.
    Success,
    /// A failure status came back; `wants_max_completion_tokens` tells whether
    /// its body asks for `max_completion_tokens`.
    HttpError { status: u16, wants_max_completion_tokens: bool },
}

/// What the request loop does next.
#[derive(Debug, Clone, Copy, PartialEq, Eq, Structural)]
pub enum AttemptAction {
    /// Read the response.
    Accept,
    /// Wait this many seconds, then send again.
    RetryAfterSecs(u64),
    /// Send again at once, now with `max_completion_tokens`.
    ResendNow,
    /// Stop and report the failure.
    GiveUp,
}

/// The state of a request loop.
#[derive(Debug, Clone, Copy, PartialEq, Eq, Structural)]
pub struct SendLoopState {
    /// Retries made so far.
    pub retries: u32,
    /// Whether the token limit goes in `max_completion_tokens`.
    pub use_max_completion_tokens: bool,
    /// Whether the loop already switched the token-limit field once.
    pub token_field_retried: bool,
}

/// One step of the request loop. A success is accepted. A network error or a
/// transient status is retried after `2^n` seconds while fewer than
/// `LLM_MAX_RETRIES` retries were made. Otherwise, where `token_field_switch`
/// allows it, a 400 whose body asks for `max_completion_tokens` makes the loop
/// switch to that field and resend at once, once. Anything else gives up.
pub open spec fn spec_send_step(st: SendLoopState, outcome: AttemptOutcome, token_field_switch: bool) -> (
    SendLoopState,
    AttemptAction,
) {
    let retry = (
        SendLoopState { retries: (st.retries + 1) as u32, ..st },
        AttemptAction::RetryAfterSecs(pow2_nat((st.retries + 1) as nat) as u64),
    );
    match outcome {
        AttemptOutcome::Success => (st, AttemptAction::Accept),
        AttemptOutcome::NetworkError => if st.retries < LLM_MAX_RETRIES {
            retry
        } else {
            (st, AttemptAction::GiveUp)
        },
        AttemptOutcome::HttpError { status, wants_max_completion_tokens } => if is_transient_status(status)
            && st.retries < LLM_MAX_RETRIES {
            retry
        } else if token_field_switch && status == 400 && !st.token_field_retried && wants_max_completion_tokens {
            (
                SendLoopState { use_max_completion_tokens: true, token_field_retried: true, ..st },
                AttemptAction::ResendNow,
            )
        } else {
            (st, AttemptAction::GiveUp)
        },
    }
}

impl SendLoopState {
    /// A loop that has made no attempt yet.
    pub fn new(use_max_completion_tokens: bool) -> (r: Self)
        ensures
            r == (SendLoopState { retries: 0, use_max_completion_tokens, token_field_retried: false }),
    {
        SendLoopState { retries: 0, use_max_completion_tokens, token_field_retried: false }
    }

    /// Records the outcome of an attempt and says what to do next.
    pub fn step(&mut self, outcome: AttemptOutcome, token_field_switch: bool) -> (a: AttemptAction)
        requires
            old(self).retries <= LLM_MAX_RETRIES,
        ensures
            (*final(self), a) == spec_send_step(*old(self), outcome, token_field_switch),
            final(self).retries <= LLM_MAX_RETRIES,
    {
        match outcome {
            AttemptOutcome::Success => AttemptAction::Accept,
            AttemptOutcome::NetworkError => {
                if self.retries < LLM_MAX_RETRIES {
                    self.retries = self.retries + 1;
                    AttemptAction::RetryAfterSecs(retry_delay_secs(self.retries))
                } else {
                    AttemptAction::GiveUp
                }
            },
            AttemptOutcome::HttpError { status, wants_max_completion_tokens } => {
                if transient_status(status) && self.retries < LLM_MAX_RETRIES {
                    self.retries = self.retries + 1;
                    AttemptAction::RetryAfterSecs(retry_delay_secs(self.retries))
                } else if token_field_switch && status == 400 && !self.token_field_retried
                    && wants_max_completion_tokens {
                    self.use_max_completion_tokens = true;
                    self.token_field_retried = true;
                    AttemptAction::ResendNow
                } else {
                    AttemptAction::GiveUp
                }
            },
        }
    }
}

/// What is left of the loop's budget: every retry or resend uses some of it.
pub open spec fn send_budget(st: SendLoopState) -> int {
    2 * (LLM_MAX_RETRIES - st.retries) + if st.token_field_retried {
        0int
    } else {
        1int
    }
}

/// Every step that sends again uses budget, which never goes below zero, so a
/// request is sent at most `2 * LLM_MAX_RETRIES + 2` times; and the loop always
/// waits `2^n` seconds before the `n`-th retry.
pub proof fn lemma_send_loop_terminates(st: SendLoopState, outcome: AttemptOutcome, token_field_switch: bool)
    requires
        st.retries <= LLM_MAX_RETRIES,
    ensures
        ({
            let (next, a) = spec_send_step(st, outcome, token_field_switch);
            &&& next.retries <= LLM_MAX_RETRIES
            &&& send_budget(next) >= 0
            &&& (a is RetryAfterSecs || a is ResendNow) ==> send_budget(next) < send_budget(st)
            &&& (a is Accept || a is GiveUp) ==> next == st
            &&& a matches AttemptAction::RetryAfterSecs(d) ==> d == pow2_nat(next.retries as nat)
                && next.retries == st.retries + 1
        }),
{
    reveal_with_fuel(pow2_nat, 4);
}

/// Whether a server-sent event's data is the end-of-stream marker `[DONE]`.
pub fn is_stream_done(data: &str) -> (r: bool)
    ensures
        r == (data@ == "[DONE]"@),
{
    let d = chars_of(data);
    let m = chars_of("[DONE]");
    crate::text::vec_eq(&d, &m)
}

/// `HTTP <status>: <body>`, where `status_text` is how the status prints.
pub fn http_error(status_text: &str, body: &str) -> (r: FinallyAValueBotError)
    ensures
        r matches FinallyAValueBotError::LlmApi(m) && m@ == "HTTP "@ + status_text@ + ": "@ + body@,
{
    let mut v = chars_of("HTTP ");
    append_str(&mut v, status_text);
    append_str(&mut v, ": ");
    append_str(&mut v, body);
    FinallyAValueBotError::LlmApi(string_of(&v))
}

/// An Anthropic error body: `<type>: <message>`.
pub fn anthropic_api_error(error_type: &str, message: &str) -> (r: FinallyAValueBotError)
    ensures
        r matches FinallyAValueBotError::LlmApi(m) && m@ == error_type@ + ": "@ + message@,
{
    let mut v = chars_of(error_type);
    append_str(&mut v, ": ");
    append_str(&mut v, message);
    FinallyAValueBotError::LlmApi(string_of(&v))
}

/// A Gemini error body: `Gemini API error <code>: <message>`.
pub fn gemini_api_error(code: i32, message: &str) -> (r: FinallyAValueBotError)
    ensures
        r matches FinallyAValueBotError::LlmApi(m) && m@ == "Gemini API error "@ + signed_decimal_seq(code as int)
            + ": "@ + message@,
{
    let mut v = chars_of("Gemini API error ");
    append_vec(&mut v, &i64_decimal(code as i64));
    append_str(&mut v, ": ");
    append_str(&mut v, message);
    FinallyAValueBotError::LlmApi(string_of(&v))
}

/// A success body that could not be read: `<what>: <error>\nBody: <body>`,
/// where `what` names the reply (`Failed to parse response`, `Failed to parse
/// OpenAI response`).
pub fn reply_parse_error(what: &str, err: &str, body: &str) -> (r: FinallyAValueBotError)
    ensures
        r matches FinallyAValueBotError::LlmApi(m) && m@ == what@ + ": "@ + err@ + "\nBody: "@ + body@,
{
    let mut v = chars_of(what);
    append_str(&mut v, ": ");
    append_str(&mut v, err);
    append_str(&mut v, "\nBody: ");
    append_str(&mut v, body);
    FinallyAValueBotError::LlmApi(string_of(&v))
}

/// A request to the Anthropic Messages API.
#[derive(Debug)]
pub struct AnthropicRequest {
    pub model: String,
    pub max_tokens: u32,
    pub system: SystemContent,
    pub messages: Vec<Message>,
    pub tools: Option<Vec<ToolDefinition>>,
    /// The tool marked for ephemeral prompt caching: the last one offered.
    pub cached_tool: Option<usize>,
    pub stream: bool,
}

/// The Messages API request: the conversation without orphan tool results, the
/// system prompt in its cached form, the tools with the last one marked for
/// prompt caching.
pub fn anthropic_request(
    model: &str,
    max_tokens: u32,
    system: &str,
    messages: Vec<Message>,
    tools: Option<Vec<ToolDefinition>>,
    stream: bool,
) -> (r: AnthropicRequest)
    ensures
        r.model@ == model@,
        r.max_tokens == max_tokens,
        messages_model(r.messages@) == sanitized_conversation(messages_model(messages@)),
        byte_len(system@) > 1024 ==> (r.system is Blocks && r.system->Blocks_0@.len() == 1
            && r.system->Blocks_0@[0].text@ == system@ && r.system->Blocks_0@[0].cache_control is Some),
        byte_len(system@) <= 1024 ==> (r.system is Text && r.system->Text_0@ == system@),
        r.tools == tools,
        r.cached_tool == (match tools {
            Some(ts) => if ts@.len() > 0 {
                Some((ts@.len() - 1) as usize)
            } else {
                None
            },
            None => None,
        }),
        r.stream == stream,
{
    let cached_tool = match &tools {
        Some(ts) => if ts.len() > 0 {
            Some(ts.len() - 1)
        } else {
            None
        },
        None => None,
    };
    AnthropicRequest {
        model: string_of(&chars_of(model)),
        max_tokens,
        system: build_cached_system(system),
        messages: sanitize_messages(messages),
        tools,
        cached_tool,
        stream,
    }
}

} // verus!
