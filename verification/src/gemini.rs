//! The Google Gemini dialect: the conversation and request as the
//! `generateContent` API takes them, and its replies, whole or streamed.
//!
//! Requests are built as typed values; writing them out as JSON is left to the
//! HTTP client. Replies arrive as parsed JSON values.
use vstd::prelude::*;
use crate::claude::{
    blocks_model, messages_model, opt_view, response_blocks_model, BlockModel, ContentBlock, ContentModel, Message,
    MessageContent, MessageModel, MessagesResponse, ResponseBlockModel, ResponseContentBlock, ToolDefinition, Usage,
};
use crate::error::FinallyAValueBotError;
use crate::json::{json_model, json_parse, json_parsed, json_text, json_text_of, JsonModel, JsonValue};
use crate::llm::{member_u64, normalize_stop_reason, normalized_stop_reason, str_is};
use crate::oai::{minimal_parts, or_minimal, skip_thought_signature, translate_tools_to_oai, OaiToolDef};
use crate::stream::{member_str, member_str_exec};
use crate::text::{
    append_str, chars_of, contains, contains_seq, lower_seq, lower_vec, string_of, strings_view, trim_seq, trim_vec,
};

verus! {

broadcast use vstd::string::group_string_axioms;

/// One part of a Gemini message.
#[derive(Debug, Clone)]
pub enum GeminiPart {
    Text(String),
    /// A function call; `args_json` is its arguments as JSON text.
    FunctionCall { name: String, args_json: String, thought_signature: String },
    /// A function's answer, sent as `{"error": content}` or `{"result": content}`.
    FunctionResponse { name: String, is_error: bool, content: String },
    InlineData { mime_type: String, data: String },
}

/// One Gemini message.
#[derive(Debug, Clone)]
pub struct GeminiContent {
    pub role: String,
    pub parts: Vec<GeminiPart>,
}

pub ghost enum GeminiPartModel {
    Text(Seq<char>),
    FunctionCall { name: Seq<char>, args_json: Seq<char>, thought_signature: Seq<char> },
    FunctionResponse { name: Seq<char>, is_error: bool, content: Seq<char> },
    InlineData { mime_type: Seq<char>, data: Seq<char> },
}

pub ghost struct GeminiContentModel {
    pub role: Seq<char>,
    pub parts: Seq<GeminiPartModel>,
}

impl View for GeminiPart {
    type V = GeminiPartModel;

    open spec fn view(&self) -> GeminiPartModel {
        match self {
            GeminiPart::Text(t) => GeminiPartModel::Text(t@),
            GeminiPart::FunctionCall { name, args_json, thought_signature } => GeminiPartModel::FunctionCall {
                name: name@,
                args_json: args_json@,
                thought_signature: thought_signature@,
            },
            GeminiPart::FunctionResponse { name, is_error, content } => GeminiPartModel::FunctionResponse {
                name: name@,
                is_error: *is_error,
                content: content@,
            },
            GeminiPart::InlineData { mime_type, data } => GeminiPartModel::InlineData {
                mime_type: mime_type@,
                data: data@,
            },
        }
    }
}

pub open spec fn gemini_parts_model(ps: Seq<GeminiPart>) -> Seq<GeminiPartModel> {
    ps.map_values(|p: GeminiPart| p@)
}

impl View for GeminiContent {
    type V = GeminiContentModel;

    open spec fn view(&self) -> GeminiContentModel {
        GeminiContentModel { role: self.role@, parts: gemini_parts_model(self.parts@) }
    }
}

pub open spec fn gemini_contents_model(cs: Seq<GeminiContent>) -> Seq<GeminiContentModel> {
    cs.map_values(|c: GeminiContent| c@)
}

/// The (id, name) of each tool call among `bs`, in order.
pub open spec fn block_tool_names(bs: Seq<BlockModel>) -> Seq<(Seq<char>, Seq<char>)>
    decreases bs.len(),
{
    if bs.len() == 0 {
        Seq::empty()
    } else {
        let r = block_tool_names(bs.drop_last());
        match bs.last() {
            BlockModel::ToolUse { id, name, .. } => r.push((id, name)),
            _ => r,
        }
    }
}

/// The (id, name) of each tool call made in an assistant message, in order.
pub open spec fn tool_names(ms: Seq<MessageModel>) -> Seq<(Seq<char>, Seq<char>)>
    decreases ms.len(),
{
    if ms.len() == 0 {
        Seq::empty()
    } else {
        let r = tool_names(ms.drop_last());
        let m = ms.last();
        if m.role == "assistant"@ {
            match m.content {
                ContentModel::Blocks(bs) => r + block_tool_names(bs),
                ContentModel::Text(_) => r,
            }
        } else {
            r
        }
    }
}

/// The name of the tool call `id`: the last one recorded for it.
pub open spec fn name_for(pairs: Seq<(Seq<char>, Seq<char>)>, id: Seq<char>) -> Option<Seq<char>>
    decreases pairs.len(),
{
    if pairs.len() == 0 {
        None
    } else if pairs.last().0 == id {
        Some(pairs.last().1)
    } else {
        name_for(pairs.drop_last(), id)
    }
}

/// The Gemini parts for message blocks: texts, function calls (with the skip
/// signature when a call has none), answers to known calls, and inline images,
/// in order.
pub open spec fn gemini_block_parts(bs: Seq<BlockModel>, names: Seq<(Seq<char>, Seq<char>)>) -> Seq<GeminiPartModel>
    decreases bs.len(),
{
    if bs.len() == 0 {
        Seq::empty()
    } else {
        let r = gemini_block_parts(bs.drop_last(), names);
        match bs.last() {
            BlockModel::Text(t) => r.push(GeminiPartModel::Text(t)),
            BlockModel::ToolUse { name, input, thought_signature, .. } => r.push(
                GeminiPartModel::FunctionCall {
                    name,
                    args_json: input,
                    thought_signature: match thought_signature {
                        Some(s) => s,
                        None => skip_thought_signature(),
                    },
                },
            ),
            BlockModel::ToolResult { tool_use_id, content, is_error } => match name_for(names, tool_use_id) {
                Some(n) => r.push(GeminiPartModel::FunctionResponse { name: n, is_error: is_error == Some(true), content }),
                None => r,
            },
            BlockModel::Image { media_type, data, .. } => r.push(GeminiPartModel::InlineData { mime_type: media_type, data }),
        }
    }
}

/// The Gemini role of a message: `model` for the assistant, else `user`.
pub open spec fn gemini_role(role: Seq<char>) -> Seq<char> {
    if role == "assistant"@ {
        "model"@
    } else {
        "user"@
    }
}

/// One message in Gemini form; an empty body or part list gets the stand-in text.
pub open spec fn gemini_message(m: MessageModel, names: Seq<(Seq<char>, Seq<char>)>) -> GeminiContentModel {
    match m.content {
        ContentModel::Text(t) => GeminiContentModel {
            role: gemini_role(m.role),
            parts: seq![GeminiPartModel::Text(or_minimal(t))],
        },
        ContentModel::Blocks(bs) => {
            let ps = gemini_block_parts(bs, names);
            GeminiContentModel {
                role: gemini_role(m.role),
                parts: if ps.len() == 0 {
                    seq![GeminiPartModel::Text(minimal_parts())]
                } else {
                    ps
                },
            }
        },
    }
}

pub open spec fn gemini_messages(ms: Seq<MessageModel>, names: Seq<(Seq<char>, Seq<char>)>) -> Seq<GeminiContentModel>
    decreases ms.len(),
{
    if ms.len() == 0 {
        Seq::empty()
    } else {
        gemini_messages(ms.drop_last(), names).push(gemini_message(ms.last(), names))
    }
}

/// The conversation in Gemini form, each message translated in order, with a
/// user stand-in first when it would not open with a user message.
pub open spec fn gemini_conversation(ms: Seq<MessageModel>) -> Seq<GeminiContentModel> {
    let body = gemini_messages(ms, tool_names(ms));
    if body.len() > 0 && body[0].role != "user"@ {
        seq![GeminiContentModel { role: "user"@, parts: seq![GeminiPartModel::Text(minimal_parts())] }] + body
    } else {
        body
    }
}

fn push_block_names(bs: &Vec<ContentBlock>, out: &mut Vec<(String, String)>)
    ensures
        final(out)@.map_values(|p: (String, String)| (p.0@, p.1@)) == old(out)@.map_values(
            |p: (String, String)| (p.0@, p.1@),
        ) + block_tool_names(blocks_model(bs@)),
{
    let ghost bm = blocks_model(bs@);
    let ghost start = out@.map_values(|p: (String, String)| (p.0@, p.1@));
    let mut j: usize = 0;
    assert(start + block_tool_names(bm.subrange(0, 0)) =~= start);
    while j < bs.len()
        invariant
            j <= bs.len(),
            bm == blocks_model(bs@),
            out@.map_values(|p: (String, String)| (p.0@, p.1@)) == start + block_tool_names(bm.subrange(0, j as int)),
        decreases bs.len() - j,
    {
        let ghost sub = bm.subrange(0, j + 1);
        assert(sub.drop_last() =~= bm.subrange(0, j as int));
        assert(sub.last() == bs@[j as int]@);
        let ghost before = out@.map_values(|p: (String, String)| (p.0@, p.1@));
        match &bs[j] {
            ContentBlock::ToolUse { id, name, .. } => {
                out.push((id.clone(), name.clone()));
                assert(out@.map_values(|p: (String, String)| (p.0@, p.1@)) =~= before.push((id@, name@)));
            },
            _ => {},
        }
        assert(out@.map_values(|p: (String, String)| (p.0@, p.1@)) =~= start + block_tool_names(sub));
        j += 1;
    }
    assert(bm.subrange(0, bm.len() as int) =~= bm);
}

fn collect_tool_names(messages: &Vec<Message>) -> (r: Vec<(String, String)>)
    ensures
        r@.map_values(|p: (String, String)| (p.0@, p.1@)) == tool_names(messages_model(messages@)),
{
    let ghost mm = messages_model(messages@);
    let mut out: Vec<(String, String)> = Vec::new();
    let mut i: usize = 0;
    assert(out@.map_values(|p: (String, String)| (p.0@, p.1@)) =~= tool_names(mm.subrange(0, 0)));
    while i < messages.len()
        invariant
            i <= messages.len(),
            mm == messages_model(messages@),
            out@.map_values(|p: (String, String)| (p.0@, p.1@)) == tool_names(mm.subrange(0, i as int)),
        decreases messages.len() - i,
    {
        let ghost sub = mm.subrange(0, i + 1);
        assert(sub.drop_last() =~= mm.subrange(0, i as int));
        assert(sub.last() == messages@[i as int]@);
        let m = &messages[i];
        if str_is(m.role.as_str(), "assistant") {
            match &m.content {
                MessageContent::Blocks(bs) => push_block_names(bs, &mut out),
                MessageContent::Text(_) => {},
            }
        }
        i += 1;
    }
    assert(mm.subrange(0, mm.len() as int) =~= mm);
    out
}

fn name_for_exec(pairs: &Vec<(String, String)>, id: &str) -> (r: Option<String>)
    ensures
        opt_view(r) == name_for(pairs@.map_values(|p: (String, String)| (p.0@, p.1@)), id@),
{
    let ghost pm = pairs@.map_values(|p: (String, String)| (p.0@, p.1@));
    let mut k: usize = pairs.len();
    assert(pm.subrange(0, pm.len() as int) =~= pm);
    while k > 0
        invariant
            k <= pairs.len(),
            pm == pairs@.map_values(|p: (String, String)| (p.0@, p.1@)),
            name_for(pm, id@) == name_for(pm.subrange(0, k as int), id@),
        decreases k,
    {
        let ghost sub = pm.subrange(0, k as int);
        assert(sub.drop_last() =~= pm.subrange(0, k - 1));
        assert(sub.last() == (pairs@[k - 1].0@, pairs@[k - 1].1@));
        if str_is(pairs[k - 1].0.as_str(), id) {
            return Some(pairs[k - 1].1.clone());
        }
        k -= 1;
    }
    None
}

fn lit(s: &str) -> (r: String)
    ensures
        r@ == s@,
{
    String::from_str(s)
}

fn minimal_text_part() -> (r: GeminiPart)
    ensures
        r@ == GeminiPartModel::Text(minimal_parts()),
{
    let dot = lit(".");
    proof {
        reveal_strlit(".");
        assert(dot@ =~= minimal_parts());
    }
    GeminiPart::Text(dot)
}

fn gemini_parts_for(bs: &Vec<ContentBlock>, names: &Vec<(String, String)>) -> (r: Vec<GeminiPart>)
    ensures
        gemini_parts_model(r@) == gemini_block_parts(
            blocks_model(bs@),
            names@.map_values(|p: (String, String)| (p.0@, p.1@)),
        ),
{
    let ghost bm = blocks_model(bs@);
    let ghost nm = names@.map_values(|p: (String, String)| (p.0@, p.1@));
    let mut parts: Vec<GeminiPart> = Vec::new();
    let mut j: usize = 0;
    assert(gemini_parts_model(parts@) =~= gemini_block_parts(bm.subrange(0, 0), nm));
    while j < bs.len()
        invariant
            j <= bs.len(),
            bm == blocks_model(bs@),
            nm == names@.map_values(|p: (String, String)| (p.0@, p.1@)),
            gemini_parts_model(parts@) == gemini_block_parts(bm.subrange(0, j as int), nm),
        decreases bs.len() - j,
    {
        let ghost sub = bm.subrange(0, j + 1);
        assert(sub.drop_last() =~= bm.subrange(0, j as int));
        assert(sub.last() == bs@[j as int]@);
        let ghost before = gemini_parts_model(parts@);
        let part: Option<GeminiPart> = match &bs[j] {
            ContentBlock::Text { text } => Some(GeminiPart::Text(text.clone())),
            ContentBlock::ToolUse { name, input, thought_signature, .. } => {
                let sig = match thought_signature {
                    Some(s) => s.clone(),
                    None => lit("skip_thought_signature_validator"),
                };
                Some(GeminiPart::FunctionCall { name: name.clone(), args_json: input.clone(), thought_signature: sig })
            },
            ContentBlock::ToolResult { tool_use_id, content, is_error } => match name_for_exec(names, tool_use_id.as_str()) {
                Some(n) => {
                    let e = match is_error {
                        Some(b) => *b,
                        None => false,
                    };
                    Some(GeminiPart::FunctionResponse { name: n, is_error: e, content: content.clone() })
                },
                None => None,
            },
            ContentBlock::Image { source } => Some(
                GeminiPart::InlineData { mime_type: source.media_type.clone(), data: source.data.clone() },
            ),
        };
        match part {
            Some(p) => {
                parts.push(p);
                assert(gemini_parts_model(parts@) =~= before.push(p@));
            },
            None => {},
        }
        assert(gemini_parts_model(parts@) =~= gemini_block_parts(sub, nm));
        j += 1;
    }
    assert(bm.subrange(0, bm.len() as int) =~= bm);
    parts
}

/// The conversation in Gemini form: each message with role `model` (assistant)
/// or `user`; text bodies as one text part; blocks as parts, where a tool result
/// becomes a function response under the name of its call and is left out when
/// no assistant message made that call; empty bodies get the stand-in text; and
/// a user stand-in comes first when the conversation would not open with a user
/// message.
pub fn translate_messages_to_gemini(messages: &Vec<Message>) -> (r: Vec<GeminiContent>)
    ensures
        gemini_contents_model(r@) == gemini_conversation(messages_model(messages@)),
{
    let names = collect_tool_names(messages);
    let ghost mm = messages_model(messages@);
    let ghost nm = names@.map_values(|p: (String, String)| (p.0@, p.1@));
    let mut out: Vec<GeminiContent> = Vec::new();
    let mut i: usize = 0;
    assert(gemini_contents_model(out@) =~= gemini_messages(mm.subrange(0, 0), nm));
    while i < messages.len()
        invariant
            i <= messages.len(),
            mm == messages_model(messages@),
            nm == names@.map_values(|p: (String, String)| (p.0@, p.1@)),
            nm == tool_names(mm),
            gemini_contents_model(out@) == gemini_messages(mm.subrange(0, i as int), nm),
        decreases messages.len() - i,
    {
        let ghost sub = mm.subrange(0, i + 1);
        assert(sub.drop_last() =~= mm.subrange(0, i as int));
        assert(sub.last() == messages@[i as int]@);
        let m = &messages[i];
        let role = if str_is(m.role.as_str(), "assistant") {
            lit("model")
        } else {
            lit("user")
        };
        let parts = match &m.content {
            MessageContent::Text(t) => {
                let text = if t.as_str().is_empty() {
                    let dot = lit(".");
                    proof {
                        reveal_strlit(".");
                        assert(dot@ =~= minimal_parts());
                    }
                    dot
                } else {
                    t.clone()
                };
                let mut ps: Vec<GeminiPart> = Vec::new();
                ps.push(GeminiPart::Text(text));
                assert(gemini_parts_model(ps@) =~= seq![GeminiPartModel::Text(or_minimal(t@))]);
                ps
            },
            MessageContent::Blocks(bs) => {
                let mut ps = gemini_parts_for(bs, &names);
                if ps.len() == 0 {
                    ps.push(minimal_text_part());
                    assert(gemini_parts_model(ps@) =~= seq![GeminiPartModel::Text(minimal_parts())]);
                }
                ps
            },
        };
        let c = GeminiContent { role, parts };
        let ghost before = gemini_contents_model(out@);
        out.push(c);
        assert(gemini_contents_model(out@) =~= before.push(c@));
        i += 1;
    }
    assert(mm.subrange(0, mm.len() as int) =~= mm);
    let ghost body = gemini_contents_model(out@);
    if out.len() > 0 && !str_is(out[0].role.as_str(), "user") {
        assert(body[0] == out@[0]@);
        let mut ps: Vec<GeminiPart> = Vec::new();
        ps.push(minimal_text_part());
        let first = GeminiContent { role: lit("user"), parts: ps };
        assert(gemini_parts_model(ps@) =~= seq![GeminiPartModel::Text(minimal_parts())]);
        out.insert(0, first);
        assert(gemini_contents_model(out@) =~= seq![first@] + body);
    } else if out.len() > 0 {
        assert(body[0] == out@[0]@);
    }
    out
}

/// How much the model may think.
#[derive(Debug, Clone, Copy, PartialEq, Eq, Structural)]
pub enum GeminiThinkingConfig {
    /// `thinkingBudget: 0`: no thinking.
    NoBudget,
    /// `thinkingLevel: "MEDIUM"`, showing thoughts or not.
    MediumLevel { include_thoughts: bool },
    /// `thinkingBudget: -1` (the model decides), showing thoughts or not.
    DynamicBudget { include_thoughts: bool },
}

/// The thinking settings for a model (its name trimmed and lower-cased): with
/// thinking off, only 2.5 Flash models (not Pro) are told not to think; with it
/// on, Gemini 3 models think at medium level and 2.5 models with a dynamic
/// budget; other models get no setting.
pub open spec fn spec_thinking_config(model: Seq<char>, thinking_enabled: bool, include_thoughts: bool) -> Option<
    GeminiThinkingConfig,
> {
    let m = lower_seq(trim_seq(model));
    if !thinking_enabled {
        if contains_seq(m, "2.5-flash"@) && !contains_seq(m, "pro"@) {
            Some(GeminiThinkingConfig::NoBudget)
        } else {
            None
        }
    } else if contains_seq(m, "gemini-3"@) {
        Some(GeminiThinkingConfig::MediumLevel { include_thoughts })
    } else if contains_seq(m, "2.5"@) {
        Some(GeminiThinkingConfig::DynamicBudget { include_thoughts })
    } else {
        None
    }
}

/// The thinking settings for a model.
pub fn gemini_thinking_config(model: &str, thinking_enabled: bool, include_thoughts: bool) -> (r: Option<
    GeminiThinkingConfig,
>)
    ensures
        r == spec_thinking_config(model@, thinking_enabled, include_thoughts),
{
    let m = lower_vec(&trim_vec(&chars_of(model)));
    if !thinking_enabled {
        if contains(&m, &chars_of("2.5-flash")) && !contains(&m, &chars_of("pro")) {
            return Some(GeminiThinkingConfig::NoBudget);
        }
        return None;
    }
    if contains(&m, &chars_of("gemini-3")) {
        Some(GeminiThinkingConfig::MediumLevel { include_thoughts })
    } else if contains(&m, &chars_of("2.5")) {
        Some(GeminiThinkingConfig::DynamicBudget { include_thoughts })
    } else {
        None
    }
}

/// A `generateContent` request.
#[derive(Debug)]
pub struct GeminiRequest {
    pub contents: Vec<GeminiContent>,
    pub max_output_tokens: u32,
    pub thinking: Option<GeminiThinkingConfig>,
    /// Sent as `systemInstruction` only when not empty.
    pub system_instruction: Option<String>,
    /// Sent as one `functionDeclarations` tool only when some tools are offered.
    pub function_declarations: Option<Vec<OaiToolDef>>,
}

/// The request: the translated conversation, the token limit, the thinking
/// settings, the system prompt when not empty, and the tools (with sanitized
/// parameter schemas) when any are offered.
pub fn build_gemini_request(
    system: &str,
    messages: &Vec<Message>,
    tools: Option<Vec<ToolDefinition>>,
    max_tokens: u32,
    model: &str,
    thinking_enabled: bool,
    show_thinking: bool,
) -> (r: GeminiRequest)
    ensures
        gemini_contents_model(r.contents@) == gemini_conversation(messages_model(messages@)),
        r.max_output_tokens == max_tokens,
        r.thinking == spec_thinking_config(model@, thinking_enabled, show_thinking),
        system@.len() == 0 ==> r.system_instruction is None,
        system@.len() > 0 ==> r.system_instruction is Some && r.system_instruction.unwrap()@ == system@,
        match tools {
            Some(ts) => if ts@.len() > 0 {
                r.function_declarations is Some && r.function_declarations.unwrap()@.len() == ts@.len() && forall|i: int|
                    0 <= i < ts@.len() ==> #[trigger] r.function_declarations.unwrap()@[i].name@ == ts@[i].name@
                        && r.function_declarations.unwrap()@[i].description@ == ts@[i].description@
                        && crate::oai::is_sanitized_schema(
                        json_model(ts@[i].input_schema),
                        json_model(r.function_declarations.unwrap()@[i].parameters),
                    )
            } else {
                r.function_declarations is None
            },
            None => r.function_declarations is None,
        },
{
    let contents = translate_messages_to_gemini(messages);
    let thinking = gemini_thinking_config(model, thinking_enabled, show_thinking);
    let system_instruction = if system.is_empty() {
        None
    } else {
        Some(lit(system))
    };
    let function_declarations = match &tools {
        Some(ts) => if ts.len() > 0 {
            Some(translate_tools_to_oai(ts))
        } else {
            None
        },
        None => None,
    };
    GeminiRequest { contents, max_output_tokens: max_tokens, thinking, system_instruction, function_declarations }
}

/// `https://generativelanguage.googleapis.com/v1beta/models/<model>:generateContent?key=<key>`.
pub fn gemini_generate_url(model: &str, api_key: &str) -> (r: String)
    ensures
        r@ == "https://generativelanguage.googleapis.com/v1beta/models/"@ + model@ + ":generateContent?key="@ + api_key@,
{
    let mut v = chars_of("https://generativelanguage.googleapis.com/v1beta/models/");
    append_str(&mut v, model);
    append_str(&mut v, ":generateContent?key=");
    append_str(&mut v, api_key);
    string_of(&v)
}

/// `https://generativelanguage.googleapis.com/v1beta/models/<model>:streamGenerateContent?alt=sse&key=<key>`.
pub fn gemini_stream_url(model: &str, api_key: &str) -> (r: String)
    ensures
        r@ == "https://generativelanguage.googleapis.com/v1beta/models/"@ + model@
            + ":streamGenerateContent?alt=sse&key="@ + api_key@,
{
    let mut v = chars_of("https://generativelanguage.googleapis.com/v1beta/models/");
    append_str(&mut v, model);
    append_str(&mut v, ":streamGenerateContent?alt=sse&key=");
    append_str(&mut v, api_key);
    string_of(&v)
}

// ---------------------------------------------------------------------------
// Replies
// ---------------------------------------------------------------------------

/// The boolean member `key` of `v`, false when missing or not a boolean.
pub open spec fn member_flag(v: JsonValue, key: Seq<char>) -> bool {
    match v.spec_get(key) {
        Some(x) => match x.spec_as_bool() {
            Some(b) => b,
            None => false,
        },
        None => false,
    }
}

/// A part that is a thought while thoughts are hidden is skipped whole.
pub open spec fn part_skipped(part: JsonValue, show_thinking: bool) -> bool {
    member_str(part, "text"@) is Some && member_flag(part, "thought"@) && !show_thinking
}

/// The text a part shows: its text, wrapped in `<think>` tags when it is a thought.
pub open spec fn part_text(part: JsonValue) -> Option<Seq<char>> {
    match member_str(part, "text"@) {
        Some(t) => Some(
            if member_flag(part, "thought"@) {
                "<think>"@ + t + "</think>"@
            } else {
                t
            },
        ),
        None => None,
    }
}

/// The name and arguments of a part's function call, when it has both.
pub open spec fn part_call(part: JsonValue) -> Option<(Seq<char>, JsonValue)> {
    match part.spec_get("functionCall"@) {
        Some(fc) => match (member_str(fc, "name"@), fc.spec_get("args"@)) {
            (Some(n), Some(a)) => Some((n, a)),
            _ => None,
        },
        None => None,
    }
}

/// A call's thought signature: the part's, else the call's.
pub open spec fn call_signature(part: JsonValue) -> Option<Seq<char>> {
    match part.spec_get("thoughtSignature"@) {
        Some(x) => x.spec_as_str(),
        None => match part.spec_get("functionCall"@) {
            Some(fc) => member_str(fc, "thoughtSignature"@),
            None => None,
        },
    }
}

/// How many of `parts` carry a function call that becomes a tool call.
pub open spec fn call_count(parts: Seq<JsonValue>, show_thinking: bool) -> nat
    decreases parts.len(),
{
    if parts.len() == 0 {
        0
    } else {
        call_count(parts.drop_last(), show_thinking) + (if !part_skipped(parts.last(), show_thinking) && part_call(
            parts.last(),
        ) is Some {
            1nat
        } else {
            0nat
        })
    }
}

/// The tool call made by a part, with the given id.
pub open spec fn call_block(part: JsonValue, id: Seq<char>) -> ResponseBlockModel {
    ResponseBlockModel::ToolUse {
        id,
        name: part_call(part).unwrap().0,
        input: json_text_of(part_call(part).unwrap().1@),
        thought_signature: call_signature(part),
    }
}

/// The reply blocks of one part: its non-empty text, then its tool call (which
/// takes id `id`).
pub open spec fn part_blocks(part: JsonValue, show_thinking: bool, id: Seq<char>) -> Seq<ResponseBlockModel> {
    if part_skipped(part, show_thinking) {
        Seq::empty()
    } else {
        let a = match part_text(part) {
            Some(t) => if t.len() > 0 {
                seq![ResponseBlockModel::Text(t)]
            } else {
                Seq::empty()
            },
            None => Seq::empty(),
        };
        let b = if part_call(part) is Some {
            seq![call_block(part, id)]
        } else {
            Seq::empty()
        };
        a + b
    }
}

/// The reply blocks of `parts`, the `k`-th tool call taking id `ids[k]`.
pub open spec fn parts_blocks(parts: Seq<JsonValue>, show_thinking: bool, ids: Seq<Seq<char>>) -> Seq<ResponseBlockModel>
    decreases parts.len(),
{
    if parts.len() == 0 {
        Seq::empty()
    } else {
        parts_blocks(parts.drop_last(), show_thinking, ids) + part_blocks(
            parts.last(),
            show_thinking,
            ids[call_count(parts.drop_last(), show_thinking) as int],
        )
    }
}

/// Whether some part not skipped has a `functionCall` member.
pub open spec fn has_function_call(parts: Seq<JsonValue>, show_thinking: bool) -> bool {
    exists|k: int| 0 <= k < parts.len() && !part_skipped(parts[k], show_thinking) && (#[trigger] parts[k]).spec_get(
        "functionCall"@,
    ) is Some
}

/// The first candidate of a reply.
pub open spec fn first_candidate(v: JsonValue) -> Option<JsonValue> {
    match v.spec_get("candidates"@) {
        Some(c) => match c.spec_as_array() {
            Some(a) => if a.len() > 0 {
                Some(a[0])
            } else {
                None
            },
            None => None,
        },
        None => None,
    }
}

/// The parts of a candidate's content.
pub open spec fn candidate_parts(c: JsonValue) -> Option<Seq<JsonValue>> {
    match c.spec_get("content"@) {
        Some(content) => match content.spec_get("parts"@) {
            Some(p) => p.spec_as_array(),
            None => None,
        },
        None => None,
    }
}

/// The usage in a reply's `usageMetadata`: prompt and candidate token counts
/// (zero when missing), cut to 32 bits.
pub open spec fn gemini_usage(v: JsonValue) -> Option<Usage> {
    match v.spec_get("usageMetadata"@) {
        Some(m) => Some(
            Usage {
                input_tokens: (match member_u64(m, "promptTokenCount"@) {
                    Some(n) => n,
                    None => 0,
                }) as u32,
                output_tokens: (match member_u64(m, "candidatesTokenCount"@) {
                    Some(n) => n,
                    None => 0,
                }) as u32,
                cache_read_input_tokens: 0,
                cache_creation_input_tokens: 0,
            },
        ),
        None => None,
    }
}

/// The reply blocks of a whole reply, the `k`-th tool call taking id `ids[k]`;
/// one empty text block when there are none.
pub open spec fn gemini_reply_blocks(v: JsonValue, show_thinking: bool, ids: Seq<Seq<char>>) -> Seq<ResponseBlockModel> {
    let bs = match first_candidate(v) {
        Some(c) => match candidate_parts(c) {
            Some(ps) => parts_blocks(ps, show_thinking, ids),
            None => Seq::empty(),
        },
        None => Seq::empty(),
    };
    if bs.len() == 0 {
        seq![ResponseBlockModel::Text(Seq::empty())]
    } else {
        bs
    }
}

/// The reply's stop reason before normalisation: `tool_use` when a part has a
/// function call, else the first candidate's `finishReason`.
pub open spec fn gemini_raw_stop(v: JsonValue, show_thinking: bool) -> Option<Seq<char>> {
    match first_candidate(v) {
        Some(c) => {
            let reason = member_str(c, "finishReason"@);
            match candidate_parts(c) {
                Some(ps) => if has_function_call(ps, show_thinking) {
                    Some("tool_use"@)
                } else {
                    reason
                },
                None => reason,
            }
        },
        None => None,
    }
}

fn member_flag_exec(v: &JsonValue, key: &str) -> (r: bool)
    ensures
        r == member_flag(*v, key@),
{
    match v.get(key) {
        Some(x) => match x.as_bool() {
            Some(b) => b,
            None => false,
        },
        None => false,
    }
}

fn call_signature_exec(part: &JsonValue) -> (r: Option<String>)
    ensures
        opt_view(r) == call_signature(*part),
{
    match part.get("thoughtSignature") {
        Some(x) => match x.as_str() {
            Some(s) => Some(String::from_str(s)),
            None => None,
        },
        None => match part.get("functionCall") {
            Some(fc) => member_str_exec(fc, "thoughtSignature"),
            None => None,
        },
    }
}

/// What one part contributes: whether it is skipped, its shown text, its tool
/// call (name, arguments as JSON text, signature), and whether it has a
/// `functionCall` member.
fn read_part(part: &JsonValue, show_thinking: bool) -> (r: (bool, Option<String>, Option<(String, String, Option<String>)>, bool))
    ensures
        r.0 == part_skipped(*part, show_thinking),
        opt_view(r.1) == part_text(*part),
        match (r.2, part_call(*part)) {
            (Some((n, a, s)), Some((pn, pa))) => n@ == pn && a@ == json_text_of(pa@) && opt_view(s) == call_signature(*part),
            (None, None) => true,
            _ => false,
        },
        r.3 == (part.spec_get("functionCall"@) is Some),
{
    let text = member_str_exec(part, "text");
    let thought = member_flag_exec(part, "thought");
    let skipped = text.is_some() && thought && !show_thinking;
    let shown = match text {
        Some(t) => if thought {
            let mut v = chars_of("<think>");
            append_str(&mut v, t.as_str());
            append_str(&mut v, "</think>");
            Some(string_of(&v))
        } else {
            Some(t)
        },
        None => None,
    };
    let (call, has_fc) = match part.get("functionCall") {
        Some(fc) => {
            let name = member_str_exec(fc, "name");
            match (name, fc.get("args")) {
                (Some(n), Some(a)) => (Some((n, json_text(a), call_signature_exec(part))), true),
                _ => (None, true),
            }
        },
        None => (None, false),
    };
    (skipped, shown, call, has_fc)
}

/// The message for a reply body that is not JSON.
pub fn gemini_parse_error(err: &str, body: &str) -> (r: FinallyAValueBotError)
    ensures
        r matches FinallyAValueBotError::LlmApi(m) && m@ == "Failed to parse Gemini response: "@ + err@ + "\nBody: "@ + body@,
{
    let mut v = chars_of("Failed to parse Gemini response: ");
    append_str(&mut v, err);
    append_str(&mut v, "\nBody: ");
    append_str(&mut v, body);
    FinallyAValueBotError::LlmApi(string_of(&v))
}

/// The blocks of `parts` with the given call ids, and whether a part not
/// skipped has a `functionCall` member.
pub open spec fn parts_read_with_ids(
    r: (Vec<ResponseContentBlock>, bool),
    parts: Seq<JsonValue>,
    show_thinking: bool,
    ids: Seq<Seq<char>>,
) -> bool {
    &&& response_blocks_model(r.0@) == parts_blocks(parts, show_thinking, ids)
    &&& r.1 == has_function_call(parts, show_thinking)
}

/// Reads a candidate's parts: text blocks and tool calls with fresh random ids.
fn read_parts(parts: &Vec<JsonValue>, show_thinking: bool) -> (r: (Vec<ResponseContentBlock>, bool))
    ensures
        exists|ids: Seq<Seq<char>>| #[trigger] parts_read_with_ids(r, parts@, show_thinking, ids),
{
    let mut content: Vec<ResponseContentBlock> = Vec::new();
    let mut ids: Vec<String> = Vec::new();
    let ghost mut all_ids: Seq<Seq<char>> = Seq::empty();
    let mut has_fc = false;
    let mut k: usize = 0;
    assert(parts_blocks(parts@.subrange(0, 0), show_thinking, all_ids) =~= Seq::<ResponseBlockModel>::empty());
    assert(response_blocks_model(content@) =~= Seq::<ResponseBlockModel>::empty());
    while k < parts.len()
        invariant
            k <= parts.len(),
            ids@.len() == call_count(parts@.subrange(0, k as int), show_thinking),
            forall|q: int| 0 <= q < ids@.len() ==> #[trigger] ids@[q]@ == all_ids[q],
            all_ids.len() == ids@.len(),
            response_blocks_model(content@) == parts_blocks(parts@.subrange(0, k as int), show_thinking, all_ids),
            has_fc == has_function_call(parts@.subrange(0, k as int), show_thinking),
        decreases parts.len() - k,
    {
        let ghost sub = parts@.subrange(0, k + 1);
        let ghost pre = parts@.subrange(0, k as int);
        assert(sub.drop_last() =~= pre);
        assert(sub.last() == parts@[k as int]);
        let (skipped, shown, call, fc_member) = read_part(&parts[k], show_thinking);
        let ghost old_ids = all_ids;
        if !skipped {
            match shown {
                Some(t) => if !t.as_str().is_empty() {
                    content.push(ResponseContentBlock::Text { text: t });
                },
                None => {},
            }
            let ghost mid = response_blocks_model(content@);
            match call {
                Some((n, a, s)) => {
                    let id = crate::ids::new_uuid_v4();
                    proof {
                        all_ids = all_ids.push(id@);
                    }
                    let b = ResponseContentBlock::ToolUse { id: id.clone(), name: n, input: a, thought_signature: s };
                    let ghost bv = b@;
                    content.push(b);
                    ids.push(id);
                    assert(response_blocks_model(content@) =~= mid.push(bv));
                },
                None => {},
            }
            if fc_member {
                has_fc = true;
            }
        }
        proof {
            lemma_parts_blocks_extend(pre, show_thinking, old_ids, all_ids);
            assert(response_blocks_model(content@) =~= parts_blocks(sub, show_thinking, all_ids));
            assert(has_fc == has_function_call(sub, show_thinking)) by {
                if has_function_call(pre, show_thinking) {
                    let q = choose|q: int| 0 <= q < pre.len() && !part_skipped(pre[q], show_thinking)
                        && (#[trigger] pre[q]).spec_get("functionCall"@) is Some;
                    assert(sub[q] == pre[q]);
                }
                if has_function_call(sub, show_thinking) {
                    let q = choose|q: int| 0 <= q < sub.len() && !part_skipped(sub[q], show_thinking)
                        && (#[trigger] sub[q]).spec_get("functionCall"@) is Some;
                    if q < pre.len() {
                        assert(pre[q] == sub[q]);
                    }
                }
                if !skipped && fc_member {
                    assert(sub[k as int] == parts@[k as int]);
                }
            }
        }
        k += 1;
    }
    assert(parts@.subrange(0, parts@.len() as int) =~= parts@);
    let r = (content, has_fc);
    assert(parts_read_with_ids(r, parts@, show_thinking, all_ids));
    r
}

/// The parts of the first candidate of a reply, and its finish reason.
fn first_candidate_parts(v: &JsonValue) -> (r: (Option<&Vec<JsonValue>>, Option<String>))
    ensures
        match first_candidate(*v) {
            Some(c) => opt_view(r.1) == member_str(c, "finishReason"@) && match (r.0, candidate_parts(c)) {
                (Some(a), Some(b)) => a@ == b,
                (None, None) => true,
                _ => false,
            },
            None => r.0 is None && r.1 is None,
        },
{
    match v.get("candidates") {
        Some(cs) => match cs.as_array() {
            Some(arr) => if arr.len() > 0 {
                let c = &arr[0];
                let reason = member_str_exec(c, "finishReason");
                let parts = match c.get("content") {
                    Some(content_v) => match content_v.get("parts") {
                        Some(p) => p.as_array(),
                        None => None,
                    },
                    None => None,
                };
                (parts, reason)
            } else {
                (None, None)
            },
            None => (None, None),
        },
        None => (None, None),
    }
}

fn usage_exec(v: &JsonValue) -> (r: Option<Usage>)
    ensures
        r == gemini_usage(*v),
{
    match v.get("usageMetadata") {
        Some(m) => {
            let p = match m.get("promptTokenCount") {
                Some(x) => match x.as_u64() {
                    Some(n) => n,
                    None => 0,
                },
                None => 0,
            };
            let c = match m.get("candidatesTokenCount") {
                Some(x) => match x.as_u64() {
                    Some(n) => n,
                    None => 0,
                },
                None => 0,
            };
            Some(
                Usage {
                    input_tokens: #[verifier::truncate] (p as u32),
                    output_tokens: #[verifier::truncate] (c as u32),
                    cache_read_input_tokens: 0,
                    cache_creation_input_tokens: 0,
                },
            )
        },
        None => None,
    }
}

/// A parsed `generateContent` reply, with ids for its tool calls.
pub open spec fn reply_with_call_ids(r: MessagesResponse, v: JsonValue, show_thinking: bool, ids: Seq<Seq<char>>) -> bool {
    &&& response_blocks_model(r.content@) == gemini_reply_blocks(v, show_thinking, ids)
    &&& r.stop_reason is Some
    &&& r.stop_reason.unwrap()@ == normalized_stop_reason(gemini_raw_stop(v, show_thinking))
    &&& r.usage == gemini_usage(v)
}

/// Turns a `generateContent` reply into the library's reply: the first
/// candidate's parts give text blocks (thoughts wrapped in `<think>` tags, or
/// left out with their part when thoughts are hidden) and tool calls with fresh
/// random ids (their arguments as JSON text); the stop reason is `tool_use` when
/// a part calls a function, else the finish reason, normalised; the usage comes
/// from `usageMetadata`.
pub fn parse_gemini_response(v: &JsonValue, show_thinking: bool) -> (r: MessagesResponse)
    ensures
        exists|ids: Seq<Seq<char>>| #[trigger] reply_with_call_ids(r, *v, show_thinking, ids),
{
    let (parts, reason) = first_candidate_parts(v);
    let mut stop_reason = reason;
    let ghost mut ids: Seq<Seq<char>> = Seq::empty();
    let mut content: Vec<ResponseContentBlock> = match parts {
        Some(ps) => {
            let (blocks, has_fc) = read_parts(ps, show_thinking);
            proof {
                ids = choose|ids: Seq<Seq<char>>| #[trigger] parts_read_with_ids((blocks, has_fc), ps@, show_thinking, ids);
            }
            if has_fc {
                stop_reason = Some(lit("tool_use"));
            }
            blocks
        },
        None => Vec::new(),
    };
    let usage = usage_exec(v);
    if content.len() == 0 {
        content.push(ResponseContentBlock::Text { text: String::new() });
    }
    let r = MessagesResponse { content, stop_reason: normalize_stop_reason(stop_reason), usage };
    assert(response_blocks_model(r.content@) =~= gemini_reply_blocks(*v, show_thinking, ids));
    assert(opt_view(stop_reason) == gemini_raw_stop(*v, show_thinking));
    assert(reply_with_call_ids(r, *v, show_thinking, ids));
    r
}

/// The texts of the text blocks of `bs`, in order.
pub open spec fn text_pieces(bs: Seq<ResponseBlockModel>) -> Seq<Seq<char>>
    decreases bs.len(),
{
    if bs.len() == 0 {
        Seq::empty()
    } else {
        let r = text_pieces(bs.drop_last());
        match bs.last() {
            ResponseBlockModel::Text(t) => r.push(t),
            _ => r,
        }
    }
}

/// The tool-call blocks of `bs`, in order.
pub open spec fn call_pieces(bs: Seq<ResponseBlockModel>) -> Seq<ResponseBlockModel>
    decreases bs.len(),
{
    if bs.len() == 0 {
        Seq::empty()
    } else {
        let r = call_pieces(bs.drop_last());
        match bs.last() {
            ResponseBlockModel::ToolUse { .. } => r.push(bs.last()),
            _ => r,
        }
    }
}

/// What a Gemini stream has delivered so far.
pub ghost struct GeminiStreamModel {
    pub text: Seq<char>,
    pub calls: Seq<ResponseBlockModel>,
    pub stop_reason: Option<Seq<char>>,
    pub usage: Option<Usage>,
}

/// One stream event, its tool calls taking the ids `ids`: the finish reason is
/// recorded; the text pieces of the first candidate's parts are appended (and
/// passed on) and its tool calls kept; the usage is taken when none is known.
pub open spec fn gemini_stream_step(st: GeminiStreamModel, v: JsonValue, show_thinking: bool, ids: Seq<Seq<char>>) -> (
    GeminiStreamModel,
    Seq<Seq<char>>,
) {
    let (stop_reason, bs) = match first_candidate(v) {
        Some(c) => (
            match member_str(c, "finishReason"@) {
                Some(r) => Some(r),
                None => st.stop_reason,
            },
            match candidate_parts(c) {
                Some(ps) => parts_blocks(ps, show_thinking, ids),
                None => Seq::empty(),
            },
        ),
        None => (st.stop_reason, Seq::empty()),
    };
    let pieces = text_pieces(bs);
    let usage = if st.usage is None {
        gemini_usage(v)
    } else {
        st.usage
    };
    (
        GeminiStreamModel {
            text: st.text + crate::text::join_seqs(pieces),
            calls: st.calls + call_pieces(bs),
            stop_reason,
            usage,
        },
        pieces,
    )
}

/// The state of a Gemini stream being read.
#[derive(Debug)]
pub struct GeminiStreamState {
    text: Vec<char>,
    calls: Vec<ResponseContentBlock>,
    stop_reason: Option<String>,
    usage: Option<Usage>,
}

/// A step of a stream with ids for its tool calls.
pub open spec fn stream_step_with_ids(
    before: GeminiStreamModel,
    after: GeminiStreamModel,
    shown: Seq<Seq<char>>,
    v: JsonValue,
    show_thinking: bool,
    ids: Seq<Seq<char>>,
) -> bool {
    &&& after == gemini_stream_step(before, v, show_thinking, ids).0
    &&& shown == gemini_stream_step(before, v, show_thinking, ids).1
}

impl GeminiStreamState {
    pub closed spec fn model(&self) -> GeminiStreamModel {
        GeminiStreamModel {
            text: self.text@,
            calls: response_blocks_model(self.calls@),
            stop_reason: opt_view(self.stop_reason),
            usage: self.usage,
        }
    }

    /// A stream that has delivered nothing.
    pub fn new() -> (r: Self)
        ensures
            r.model() == (GeminiStreamModel { text: Seq::empty(), calls: Seq::empty(), stop_reason: None, usage: None }),
    {
        let r = GeminiStreamState { text: Vec::new(), calls: Vec::new(), stop_reason: None, usage: None };
        assert(response_blocks_model(r.calls@) =~= Seq::<ResponseBlockModel>::empty());
        r
    }

    /// Reads one stream event; returns the text pieces to show, in order.
    pub fn process_gemini_stream_event(&mut self, v: &JsonValue, show_thinking: bool) -> (shown: Vec<String>)
        ensures
            exists|ids: Seq<Seq<char>>| #[trigger] stream_step_with_ids(
                old(self).model(),
                final(self).model(),
                strings_view(shown@),
                *v,
                show_thinking,
                ids,
            ),
    {
        let ghost st = self.model();
        let (parts, reason) = first_candidate_parts(v);
        match reason {
            Some(r) => {
                self.stop_reason = Some(r);
            },
            None => {},
        }
        let ghost mut ids: Seq<Seq<char>> = Seq::empty();
        let blocks: Vec<ResponseContentBlock> = match parts {
            Some(ps) => {
                let (blocks, has_fc) = read_parts(ps, show_thinking);
                proof {
                    ids = choose|ids: Seq<Seq<char>>| #[trigger] parts_read_with_ids((blocks, has_fc), ps@, show_thinking, ids);
                }
                blocks
            },
            None => Vec::new(),
        };
        let ghost bm = response_blocks_model(blocks@);
        let mut shown: Vec<String> = Vec::new();
        let mut blocks = blocks;
        let ghost mut k: int = 0;
        let ghost text0 = self.text@;
        let ghost calls0 = response_blocks_model(self.calls@);
        assert(bm.subrange(0, 0) =~= Seq::<ResponseBlockModel>::empty());
        assert(strings_view(shown@) =~= text_pieces(bm.subrange(0, 0)));
        assert(self.text@ =~= text0 + crate::text::join_seqs(text_pieces(bm.subrange(0, 0))));
        assert(response_blocks_model(self.calls@) =~= calls0 + call_pieces(bm.subrange(0, 0)));
        while blocks.len() > 0
            invariant
                0 <= k <= bm.len(),
                response_blocks_model(blocks@) == bm.subrange(k, bm.len() as int),
                strings_view(shown@) == text_pieces(bm.subrange(0, k)),
                self.text@ == text0 + crate::text::join_seqs(text_pieces(bm.subrange(0, k))),
                response_blocks_model(self.calls@) == calls0 + call_pieces(bm.subrange(0, k)),
                opt_view(self.stop_reason) == gemini_stream_step(st, *v, show_thinking, ids).0.stop_reason,
                self.usage == st.usage,
            decreases blocks.len(),
        {
            let ghost rest_before = blocks@;
            assert(response_blocks_model(rest_before).len() == rest_before.len());
            assert(bm.subrange(k, bm.len() as int)[0] == bm[k]);
            let b = blocks.remove(0);
            let ghost sub = bm.subrange(0, k + 1);
            assert(response_blocks_model(rest_before)[0] == rest_before[0]@);
            assert(b@ == bm[k]);
            assert(sub.drop_last() =~= bm.subrange(0, k));
            assert(sub.last() == b@);
            let ghost s0 = strings_view(shown@);
            let ghost c0 = response_blocks_model(self.calls@);
            match b {
                ResponseContentBlock::Text { text } => {
                    let ghost tv = text@;
                    let ghost p = text_pieces(bm.subrange(0, k));
                    assert(text_pieces(sub) == p.push(tv));
                    assert(p.push(tv).drop_last() =~= p);
                    assert(crate::text::join_seqs(p.push(tv)) == crate::text::join_seqs(p) + tv);
                    crate::text::append_str(&mut self.text, text.as_str());
                    shown.push(text);
                    assert(strings_view(shown@) =~= s0.push(sub.last()->Text_0));
                },
                ResponseContentBlock::ToolUse { id, name, input, thought_signature } => {
                    let c = ResponseContentBlock::ToolUse { id, name, input, thought_signature };
                    let ghost cv = c@;
                    self.calls.push(c);
                    assert(response_blocks_model(self.calls@) =~= c0.push(cv));
                },
            }
            assert(self.text@ =~= text0 + crate::text::join_seqs(text_pieces(sub)));
            assert(response_blocks_model(self.calls@) =~= calls0 + call_pieces(sub));
            assert forall|i: int| 0 <= i < blocks@.len() implies #[trigger] blocks@[i]@ == bm[k + 1 + i] by {
                assert(blocks@[i] == rest_before[i + 1]);
                assert(response_blocks_model(rest_before)[i + 1] == bm[k + 1 + i]);
            }
            assert(response_blocks_model(blocks@) =~= bm.subrange(k + 1, bm.len() as int));
            proof {
                k = k + 1;
            }
        }
        assert(bm.subrange(0, bm.len() as int) =~= bm);
        if self.usage.is_none() {
            self.usage = usage_exec(v);
        }
        assert(self.model() == gemini_stream_step(st, *v, show_thinking, ids).0);
        assert(stream_step_with_ids(st, self.model(), strings_view(shown@), *v, show_thinking, ids));
        shown
    }

    /// The reply once the stream has ended: its text when not empty, then its
    /// tool calls (one empty text block when there is nothing); the stop reason is
    /// `tool_use` when there are calls, else the reported one, normalised.
    pub fn finish_gemini_stream(self) -> (r: MessagesResponse)
        ensures
            response_blocks_model(r.content@) == ({
                let t = if self.model().text.len() > 0 {
                    seq![ResponseBlockModel::Text(self.model().text)]
                } else {
                    Seq::<ResponseBlockModel>::empty()
                };
                let all = t + self.model().calls;
                if all.len() == 0 {
                    seq![ResponseBlockModel::Text(Seq::empty())]
                } else {
                    all
                }
            }),
            r.stop_reason is Some,
            r.stop_reason.unwrap()@ == normalized_stop_reason(
                if self.model().calls.len() > 0 {
                    Some("tool_use"@)
                } else {
                    self.model().stop_reason
                },
            ),
            r.usage == self.model().usage,
    {
        let ghost m = self.model();
        let has_calls = self.calls.len() > 0;
        let mut content: Vec<ResponseContentBlock> = Vec::new();
        if self.text.len() > 0 {
            content.push(ResponseContentBlock::Text { text: string_of(&self.text) });
        }
        let ghost head = response_blocks_model(content@);
        let mut calls = self.calls;
        let ghost cm = response_blocks_model(calls@);
        let mut rest: Vec<ResponseContentBlock> = Vec::new();
        std::mem::swap(&mut rest, &mut calls);
        let ghost mut k: int = 0;
        assert(response_blocks_model(content@) =~= head + cm.subrange(0, 0));
        assert(response_blocks_model(rest@) =~= cm.subrange(0, cm.len() as int));
        while rest.len() > 0
            invariant
                0 <= k <= cm.len(),
                response_blocks_model(rest@) == cm.subrange(k, cm.len() as int),
                response_blocks_model(content@) == head + cm.subrange(0, k),
            decreases rest.len(),
        {
            let ghost rb = rest@;
            assert(response_blocks_model(rb).len() == rb.len());
            assert(cm.subrange(k, cm.len() as int)[0] == cm[k]);
            let b = rest.remove(0);
            assert(response_blocks_model(rb)[0] == rb[0]@);
            assert(b@ == cm[k]);
            let ghost c0 = response_blocks_model(content@);
            let ghost bv = b@;
            content.push(b);
            assert(response_blocks_model(content@) =~= c0.push(bv));
            assert(cm.subrange(0, k + 1) =~= cm.subrange(0, k).push(bv));
            assert forall|i: int| 0 <= i < rest@.len() implies #[trigger] rest@[i]@ == cm[k + 1 + i] by {
                assert(rest@[i] == rb[i + 1]);
                assert(response_blocks_model(rb)[i + 1] == cm[k + 1 + i]);
            }
            assert(response_blocks_model(rest@) =~= cm.subrange(k + 1, cm.len() as int));
            proof {
                k = k + 1;
            }
        }
        assert(cm.subrange(0, cm.len() as int) =~= cm);
        if content.len() == 0 {
            content.push(ResponseContentBlock::Text { text: String::new() });
        }
        let stop = if has_calls {
            Some(lit("tool_use"))
        } else {
            self.stop_reason
        };
        MessagesResponse { content, stop_reason: normalize_stop_reason(stop), usage: self.usage }
    }
}

/// Extending the id list does not change the blocks already determined.
proof fn lemma_parts_blocks_extend(parts: Seq<JsonValue>, show_thinking: bool, ids: Seq<Seq<char>>, more: Seq<Seq<char>>)
    requires
        ids.len() >= call_count(parts, show_thinking),
        more.len() >= ids.len(),
        forall|q: int| 0 <= q < ids.len() ==> more[q] == ids[q],
    ensures
        parts_blocks(parts, show_thinking, more) == parts_blocks(parts, show_thinking, ids),
    decreases parts.len(),
{
    if parts.len() > 0 {
        lemma_parts_blocks_extend(parts.drop_last(), show_thinking, ids, more);
        let n = call_count(parts.drop_last(), show_thinking);
        if part_call(parts.last()) is Some && !part_skipped(parts.last(), show_thinking) {
            assert(more[n as int] == ids[n as int]);
        } else {
            assert(part_blocks(parts.last(), show_thinking, more[n as int]) == part_blocks(parts.last(), show_thinking, ids[n as int]));
        }
    }
}

/// One Gemini stream event given as the parsed form of its `data` text.
pub open spec fn gemini_event_taken(
    before: GeminiStreamModel,
    after: GeminiStreamModel,
    shown: Seq<Seq<char>>,
    m: JsonModel,
    show_thinking: bool,
) -> bool {
    exists|v: JsonValue, ids: Seq<Seq<char>>|
        #![trigger stream_step_with_ids(before, after, shown, v, show_thinking, ids)]
        v@ == m && stream_step_with_ids(before, after, shown, v, show_thinking, ids)
}

/// A Gemini reply read from the parsed form of its body.
pub open spec fn gemini_reply_of(r: MessagesResponse, m: JsonModel, show_thinking: bool) -> bool {
    exists|v: JsonValue, ids: Seq<Seq<char>>|
        #![trigger reply_with_call_ids(r, v, show_thinking, ids)]
        v@ == m && reply_with_call_ids(r, v, show_thinking, ids)
}

impl GeminiStreamState {
    /// Takes the `data` text of one stream event: JSON that parses is processed as
    /// an event; anything else is skipped, shows nothing and changes nothing.
    pub fn process_gemini_stream_data(&mut self, data: &str, show_thinking: bool) -> (shown: Vec<String>)
        ensures
            match json_parsed(data@) {
                Ok(m) => gemini_event_taken(old(self).model(), final(self).model(), strings_view(shown@), m, show_thinking),
                Err(_) => final(self).model() == old(self).model() && shown@.len() == 0,
            },
    {
        match json_parse(data) {
            Ok(v) => {
                let ghost before = self.model();
                let shown = self.process_gemini_stream_event(&v, show_thinking);
                proof {
                    let ids = choose|ids: Seq<Seq<char>>| #[trigger] stream_step_with_ids(
                        before,
                        self.model(),
                        strings_view(shown@),
                        v,
                        show_thinking,
                        ids,
                    );
                    assert(stream_step_with_ids(before, self.model(), strings_view(shown@), v, show_thinking, ids));
                }
                shown
            },
            Err(_) => Vec::new(),
        }
    }
}

/// Reads a whole (non-streamed) Gemini reply from its body text; a body that is
/// not JSON is an API error quoting the parser's message and the body.
pub fn parse_gemini_body(body: &str, show_thinking: bool) -> (r: Result<MessagesResponse, FinallyAValueBotError>)
    ensures
        match json_parsed(body@) {
            Ok(m) => r matches Ok(resp) && gemini_reply_of(resp, m, show_thinking),
            Err(e) => r matches Err(FinallyAValueBotError::LlmApi(msg)) && msg@ == "Failed to parse Gemini response: "@
                + e + "\nBody: "@ + body@,
        },
{
    match json_parse(body) {
        Ok(v) => {
            let resp = parse_gemini_response(&v, show_thinking);
            proof {
                let ids = choose|ids: Seq<Seq<char>>| #[trigger] reply_with_call_ids(resp, v, show_thinking, ids);
                assert(reply_with_call_ids(resp, v, show_thinking, ids));
            }
            Ok(resp)
        },
        Err(e) => Err(gemini_parse_error(e.as_str(), body)),
    }
}

} // verus!
