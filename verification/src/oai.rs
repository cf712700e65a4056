//! The OpenAI Chat Completions dialect: the conversation as that API takes it.
//!
//! The messages are built as typed values; writing them out as JSON is left to
//! the HTTP client.
use vstd::prelude::*;
use crate::claude::{
    blocks_model, messages_model, opt_view, response_blocks_model, BlockModel, ContentBlock, ContentModel, Message,
    MessageContent, MessageModel, MessagesResponse, ResponseBlockModel, ResponseContentBlock, ToolDefinition, Usage,
};
use crate::decimal::{decimal_seq, u64_decimal};
use crate::json::{
    json_text, json_text_of, entries_model, items_model, json_check, json_model, json_parse, json_parse_error,
    json_value_of, lemma_entries_model, lemma_items_model, lemma_model_get, model_get, JsonModel, JsonValue,
};
use crate::stream::{member_str, member_str_exec};
use crate::llm::{
    assistant_tool_use_ids, clone_opt_string, collect_tool_use_ids, has_tool_use, known_id, normalized_stop_reason,
    oai_stop_reason_from_content, str_is, strip_tools_markup_from_content, strip_tools_spans,
};
use crate::text::{
    append_str, append_vec, chars_of, has_prefix, join_lines, join_seqs, join_strings, join_with_newlines, string_of,
    strings_view, trim_seq, insert_sorted_text, strictly_ascending, vec_eq,
};

verus! {

broadcast use vstd::string::group_string_axioms;

/// One part of a multi-part user message.
#[derive(Debug, Clone)]
pub enum OaiPart {
    Text(String),
    /// An image given by URL (here always a `data:` URL).
    ImageUrl(String),
}

/// A message body: text or parts.
#[derive(Debug, Clone)]
pub enum OaiContent {
    Text(String),
    Parts(Vec<OaiPart>),
}

/// A function call made by the assistant. The thought signature is sent both at
/// the call and inside its function, under both spellings.
#[derive(Debug, Clone)]
pub struct OaiRequestToolCall {
    pub id: String,
    pub name: String,
    /// The call's arguments as JSON text.
    pub arguments: String,
    pub thought_signature: String,
}

/// One Chat Completions message.
#[derive(Debug, Clone)]
pub struct OaiChatMessage {
    pub role: String,
    pub content: OaiContent,
    /// Sent only when not empty.
    pub tool_calls: Vec<OaiRequestToolCall>,
    pub tool_call_id: Option<String>,
}

pub ghost enum OaiPartModel {
    Text(Seq<char>),
    ImageUrl(Seq<char>),
}

pub ghost enum OaiContentModel {
    Text(Seq<char>),
    Parts(Seq<OaiPartModel>),
}

pub ghost struct OaiRequestToolCallModel {
    pub id: Seq<char>,
    pub name: Seq<char>,
    pub arguments: Seq<char>,
    pub thought_signature: Seq<char>,
}

pub ghost struct OaiMessageModel {
    pub role: Seq<char>,
    pub content: OaiContentModel,
    pub tool_calls: Seq<OaiRequestToolCallModel>,
    pub tool_call_id: Option<Seq<char>>,
}

impl View for OaiPart {
    type V = OaiPartModel;

    open spec fn view(&self) -> OaiPartModel {
        match self {
            OaiPart::Text(t) => OaiPartModel::Text(t@),
            OaiPart::ImageUrl(u) => OaiPartModel::ImageUrl(u@),
        }
    }
}

pub open spec fn parts_model(ps: Seq<OaiPart>) -> Seq<OaiPartModel> {
    ps.map_values(|p: OaiPart| p@)
}

impl View for OaiContent {
    type V = OaiContentModel;

    open spec fn view(&self) -> OaiContentModel {
        match self {
            OaiContent::Text(t) => OaiContentModel::Text(t@),
            OaiContent::Parts(ps) => OaiContentModel::Parts(parts_model(ps@)),
        }
    }
}

impl View for OaiRequestToolCall {
    type V = OaiRequestToolCallModel;

    open spec fn view(&self) -> OaiRequestToolCallModel {
        OaiRequestToolCallModel {
            id: self.id@,
            name: self.name@,
            arguments: self.arguments@,
            thought_signature: self.thought_signature@,
        }
    }
}

pub open spec fn tool_calls_model(cs: Seq<OaiRequestToolCall>) -> Seq<OaiRequestToolCallModel> {
    cs.map_values(|c: OaiRequestToolCall| c@)
}

impl View for OaiChatMessage {
    type V = OaiMessageModel;

    open spec fn view(&self) -> OaiMessageModel {
        OaiMessageModel {
            role: self.role@,
            content: self.content@,
            tool_calls: tool_calls_model(self.tool_calls@),
            tool_call_id: match self.tool_call_id {
                Some(i) => Some(i@),
                None => None,
            },
        }
    }
}

pub open spec fn oai_messages_model(ms: Seq<OaiChatMessage>) -> Seq<OaiMessageModel> {
    ms.map_values(|m: OaiChatMessage| m@)
}

/// The stand-in text for an empty body: some gateways reject a message without content.
pub open spec fn minimal_parts() -> Seq<char> {
    seq!['.']
}

/// The signature sent with a tool call that has none, so that the gateway skips
/// its validation.
pub open spec fn skip_thought_signature() -> Seq<char> {
    "skip_thought_signature_validator"@
}

/// `t`, or the stand-in text when `t` is empty.
pub open spec fn or_minimal(t: Seq<char>) -> Seq<char> {
    if t.len() == 0 {
        minimal_parts()
    } else {
        t
    }
}

/// The texts of the text blocks of `bs`, in order.
pub open spec fn block_texts(bs: Seq<BlockModel>) -> Seq<Seq<char>>
    decreases bs.len(),
{
    if bs.len() == 0 {
        Seq::empty()
    } else {
        let rest = block_texts(bs.drop_last());
        match bs.last() {
            BlockModel::Text(t) => rest.push(t),
            _ => rest,
        }
    }
}

/// The function calls of the tool-use blocks of `bs`, in order.
pub open spec fn block_tool_calls(bs: Seq<BlockModel>) -> Seq<OaiRequestToolCallModel>
    decreases bs.len(),
{
    if bs.len() == 0 {
        Seq::empty()
    } else {
        let rest = block_tool_calls(bs.drop_last());
        match bs.last() {
            BlockModel::ToolUse { id, name, input, thought_signature } => rest.push(
                OaiRequestToolCallModel {
                    id,
                    name,
                    arguments: input,
                    thought_signature: match thought_signature {
                        Some(s) => s,
                        None => skip_thought_signature(),
                    },
                },
            ),
            _ => rest,
        }
    }
}

pub open spec fn has_tool_result(bs: Seq<BlockModel>) -> bool {
    exists|j: int| 0 <= j < bs.len() && bs[j] is ToolResult
}

pub open spec fn has_image(bs: Seq<BlockModel>) -> bool {
    exists|j: int| 0 <= j < bs.len() && bs[j] is Image
}

/// The `tool` messages for the tool results of `bs` whose call is in `known`, in
/// order; an error result is prefixed with `[Error] `.
pub open spec fn tool_result_messages(bs: Seq<BlockModel>, known: Seq<Seq<char>>) -> Seq<OaiMessageModel>
    decreases bs.len(),
{
    if bs.len() == 0 {
        Seq::empty()
    } else {
        let rest = tool_result_messages(bs.drop_last(), known);
        match bs.last() {
            BlockModel::ToolResult { tool_use_id, content, is_error } => if known.contains(tool_use_id) {
                rest.push(
                    OaiMessageModel {
                        role: "tool"@,
                        content: OaiContentModel::Text(
                            if is_error == Some(true) {
                                "[Error] "@ + content
                            } else {
                                content
                            },
                        ),
                        tool_calls: Seq::empty(),
                        tool_call_id: Some(tool_use_id),
                    },
                )
            } else {
                rest
            },
            _ => rest,
        }
    }
}

/// The parts of a user message with images: its texts and its images as
/// `data:<media type>;base64,<data>` URLs, in order.
pub open spec fn image_message_parts(bs: Seq<BlockModel>) -> Seq<OaiPartModel>
    decreases bs.len(),
{
    if bs.len() == 0 {
        Seq::empty()
    } else {
        let rest = image_message_parts(bs.drop_last());
        match bs.last() {
            BlockModel::Text(t) => rest.push(OaiPartModel::Text(t)),
            BlockModel::Image { media_type, data, .. } => rest.push(
                OaiPartModel::ImageUrl("data:"@ + media_type + ";base64,"@ + data),
            ),
            _ => rest,
        }
    }
}

pub open spec fn plain_message(role: Seq<char>, text: Seq<char>) -> OaiMessageModel {
    OaiMessageModel { role, content: OaiContentModel::Text(text), tool_calls: Seq::empty(), tool_call_id: None }
}

/// The Chat Completions messages for one conversation message: text keeps its
/// role (the stand-in text when empty); an assistant's blocks become one message
/// with its texts joined and its tool calls; other block messages become one
/// `tool` message per answered tool result when they hold results, else one user
/// message with parts when they hold images, else one user message with the
/// texts joined by newlines.
pub open spec fn oai_for_message(m: MessageModel, known: Seq<Seq<char>>) -> Seq<OaiMessageModel> {
    match m.content {
        ContentModel::Text(t) => seq![plain_message(m.role, or_minimal(t))],
        ContentModel::Blocks(bs) => if m.role == "assistant"@ {
            seq![
                OaiMessageModel {
                    role: "assistant"@,
                    content: OaiContentModel::Text(or_minimal(join_seqs(block_texts(bs)))),
                    tool_calls: block_tool_calls(bs),
                    tool_call_id: None,
                },
            ]
        } else if has_tool_result(bs) {
            tool_result_messages(bs, known)
        } else if has_image(bs) {
            let parts = image_message_parts(bs);
            seq![
                OaiMessageModel {
                    role: "user"@,
                    content: OaiContentModel::Parts(
                        if parts.len() == 0 {
                            seq![OaiPartModel::Text(minimal_parts())]
                        } else {
                            parts
                        },
                    ),
                    tool_calls: Seq::empty(),
                    tool_call_id: None,
                },
            ]
        } else {
            seq![plain_message("user"@, or_minimal(join_lines(block_texts(bs))))]
        },
    }
}

/// The messages for a whole conversation, in order.
pub open spec fn oai_for_messages(ms: Seq<MessageModel>, known: Seq<Seq<char>>) -> Seq<OaiMessageModel>
    decreases ms.len(),
{
    if ms.len() == 0 {
        Seq::empty()
    } else {
        oai_for_messages(ms.drop_last(), known) + oai_for_message(ms.last(), known)
    }
}

/// Whether a user stand-in must open the request: the first message is an
/// assistant or tool message.
pub open spec fn needs_user_opening(out: Seq<OaiMessageModel>) -> bool {
    out.len() > 0 && (out[0].role == "assistant"@ || out[0].role == "tool"@)
}

/// The Chat Completions conversation: the system prompt when not empty, then each
/// message translated, with tool results whose call is in no assistant message
/// left out; a user stand-in is put first when the conversation would otherwise
/// open with an assistant or tool message.
pub open spec fn oai_conversation(system: Seq<char>, ms: Seq<MessageModel>) -> Seq<OaiMessageModel> {
    let head = if system.len() > 0 {
        seq![plain_message("system"@, system)]
    } else {
        Seq::empty()
    };
    let body = head + oai_for_messages(ms, assistant_tool_use_ids(ms));
    if needs_user_opening(body) {
        seq![plain_message("user"@, minimal_parts())] + body
    } else {
        body
    }
}

fn lit(s: &str) -> (r: String)
    ensures
        r@ == s@,
{
    String::from_str(s)
}

fn or_minimal_exec(t: String) -> (r: String)
    ensures
        r@ == or_minimal(t@),
{
    if t.as_str().is_empty() {
        let r = lit(".");
        proof {
            reveal_strlit(".");
            assert(r@ =~= minimal_parts());
        }
        r
    } else {
        t
    }
}

fn plain(role: String, text: String) -> (r: OaiChatMessage)
    ensures
        r@ == plain_message(role@, text@),
{
    let r = OaiChatMessage { role, content: OaiContent::Text(text), tool_calls: Vec::new(), tool_call_id: None };
    assert(tool_calls_model(r.tool_calls@) =~= Seq::<OaiRequestToolCallModel>::empty());
    r
}

/// Texts and tool calls of an assistant's blocks.
fn assistant_parts(bs: &Vec<ContentBlock>) -> (r: (Vec<String>, Vec<OaiRequestToolCall>))
    ensures
        strings_view(r.0@) == block_texts(blocks_model(bs@)),
        tool_calls_model(r.1@) == block_tool_calls(blocks_model(bs@)),
{
    let ghost bm = blocks_model(bs@);
    let mut texts: Vec<String> = Vec::new();
    let mut calls: Vec<OaiRequestToolCall> = Vec::new();
    let mut j: usize = 0;
    assert(strings_view(texts@) =~= block_texts(bm.subrange(0, 0)));
    assert(tool_calls_model(calls@) =~= block_tool_calls(bm.subrange(0, 0)));
    while j < bs.len()
        invariant
            j <= bs.len(),
            bm == blocks_model(bs@),
            strings_view(texts@) == block_texts(bm.subrange(0, j as int)),
            tool_calls_model(calls@) == block_tool_calls(bm.subrange(0, j as int)),
        decreases bs.len() - j,
    {
        let ghost sub = bm.subrange(0, j + 1);
        assert(sub.drop_last() =~= bm.subrange(0, j as int));
        assert(sub.last() == bs@[j as int]@);
        let ghost t0 = texts@;
        let ghost c0 = calls@;
        match &bs[j] {
            ContentBlock::Text { text } => {
                texts.push(text.clone());
                assert(strings_view(texts@) =~= strings_view(t0).push(text@));
            },
            ContentBlock::ToolUse { id, name, input, thought_signature } => {
                let sig = match thought_signature {
                    Some(s) => s.clone(),
                    None => {
                        let s = lit("skip_thought_signature_validator");
                        s
                    },
                };
                calls.push(OaiRequestToolCall { id: id.clone(), name: name.clone(), arguments: input.clone(), thought_signature: sig });
                assert(tool_calls_model(calls@) =~= tool_calls_model(c0).push(calls@[calls@.len() - 1]@));
            },
            _ => {},
        }
        assert(strings_view(texts@) =~= block_texts(sub));
        assert(tool_calls_model(calls@) =~= block_tool_calls(sub));
        j += 1;
    }
    assert(bm.subrange(0, bm.len() as int) =~= bm);
    (texts, calls)
}

/// Whether any block is a tool result, and whether any is an image.
fn block_kinds(bs: &Vec<ContentBlock>) -> (r: (bool, bool))
    ensures
        r.0 == has_tool_result(blocks_model(bs@)),
        r.1 == has_image(blocks_model(bs@)),
{
    let ghost bm = blocks_model(bs@);
    let mut results = false;
    let mut images = false;
    let mut j: usize = 0;
    while j < bs.len()
        invariant
            j <= bs.len(),
            bm == blocks_model(bs@),
            results == exists|k: int| 0 <= k < j && bm[k] is ToolResult,
            images == exists|k: int| 0 <= k < j && bm[k] is Image,
        decreases bs.len() - j,
    {
        assert(bm[j as int] == bs@[j as int]@);
        match &bs[j] {
            ContentBlock::ToolResult { .. } => {
                results = true;
            },
            ContentBlock::Image { .. } => {
                images = true;
            },
            _ => {},
        }
        proof {
            assert(results == exists|k: int| 0 <= k < j + 1 && bm[k] is ToolResult) by {
                if results && !(bm[j as int] is ToolResult) {
                    let k = choose|k: int| 0 <= k < j && bm[k] is ToolResult;
                    assert(0 <= k < j + 1 && bm[k] is ToolResult);
                }
                if bm[j as int] is ToolResult {
                    assert(0 <= j < j + 1 && bm[j as int] is ToolResult);
                }
            }
            assert(images == exists|k: int| 0 <= k < j + 1 && bm[k] is Image) by {
                if images && !(bm[j as int] is Image) {
                    let k = choose|k: int| 0 <= k < j && bm[k] is Image;
                    assert(0 <= k < j + 1 && bm[k] is Image);
                }
                if bm[j as int] is Image {
                    assert(0 <= j < j + 1 && bm[j as int] is Image);
                }
            }
        }
        j += 1;
    }
    (results, images)
}

/// Appends the `tool` messages for the answered tool results of `bs`.
fn push_tool_results(out: &mut Vec<OaiChatMessage>, bs: &Vec<ContentBlock>, known: &Vec<String>)
    ensures
        oai_messages_model(final(out)@) == oai_messages_model(old(out)@) + tool_result_messages(
            blocks_model(bs@),
            strings_view(known@),
        ),
{
    let ghost bm = blocks_model(bs@);
    let ghost kv = strings_view(known@);
    let ghost start = oai_messages_model(out@);
    let mut j: usize = 0;
    assert(tool_result_messages(bm.subrange(0, 0), kv) =~= Seq::<OaiMessageModel>::empty());
    assert(oai_messages_model(out@) =~= start + Seq::<OaiMessageModel>::empty());
    while j < bs.len()
        invariant
            j <= bs.len(),
            bm == blocks_model(bs@),
            kv == strings_view(known@),
            oai_messages_model(out@) == start + tool_result_messages(bm.subrange(0, j as int), kv),
        decreases bs.len() - j,
    {
        let ghost sub = bm.subrange(0, j + 1);
        assert(sub.drop_last() =~= bm.subrange(0, j as int));
        assert(sub.last() == bs@[j as int]@);
        let ghost o0 = oai_messages_model(out@);
        match &bs[j] {
            ContentBlock::ToolResult { tool_use_id, content, is_error } => {
                if known_id(known, tool_use_id.as_str()) {
                    let is_err = match is_error {
                        Some(e) => *e,
                        None => false,
                    };
                    let text = if is_err {
                        let mut v = chars_of("[Error] ");
                        append_str(&mut v, content.as_str());
                        string_of(&v)
                    } else {
                        content.clone()
                    };
                    let m = OaiChatMessage {
                        role: lit("tool"),
                        content: OaiContent::Text(text),
                        tool_calls: Vec::new(),
                        tool_call_id: Some(tool_use_id.clone()),
                    };
                    assert(tool_calls_model(m.tool_calls@) =~= Seq::<OaiRequestToolCallModel>::empty());
                    out.push(m);
                    assert(oai_messages_model(out@) =~= o0.push(m@));
                }
            },
            _ => {},
        }
        assert(oai_messages_model(out@) =~= start + tool_result_messages(sub, kv));
        j += 1;
    }
    assert(bm.subrange(0, bm.len() as int) =~= bm);
}

/// The parts of a user message with images.
fn image_parts(bs: &Vec<ContentBlock>) -> (r: Vec<OaiPart>)
    ensures
        parts_model(r@) == image_message_parts(blocks_model(bs@)),
{
    let ghost bm = blocks_model(bs@);
    let mut parts: Vec<OaiPart> = Vec::new();
    let mut j: usize = 0;
    assert(parts_model(parts@) =~= image_message_parts(bm.subrange(0, 0)));
    while j < bs.len()
        invariant
            j <= bs.len(),
            bm == blocks_model(bs@),
            parts_model(parts@) == image_message_parts(bm.subrange(0, j as int)),
        decreases bs.len() - j,
    {
        let ghost sub = bm.subrange(0, j + 1);
        assert(sub.drop_last() =~= bm.subrange(0, j as int));
        assert(sub.last() == bs@[j as int]@);
        let ghost p0 = parts_model(parts@);
        match &bs[j] {
            ContentBlock::Text { text } => {
                parts.push(OaiPart::Text(text.clone()));
                assert(parts_model(parts@) =~= p0.push(OaiPartModel::Text(text@)));
            },
            ContentBlock::Image { source } => {
                let mut v = chars_of("data:");
                append_str(&mut v, source.media_type.as_str());
                append_str(&mut v, ";base64,");
                append_str(&mut v, source.data.as_str());
                let url = string_of(&v);
                parts.push(OaiPart::ImageUrl(url));
                assert(parts_model(parts@) =~= p0.push(OaiPartModel::ImageUrl(url@)));
            },
            _ => {},
        }
        assert(parts_model(parts@) =~= image_message_parts(sub));
        j += 1;
    }
    assert(bm.subrange(0, bm.len() as int) =~= bm);
    parts
}

/// Appends the Chat Completions messages for one conversation message.
fn push_message(out: &mut Vec<OaiChatMessage>, msg: &Message, known: &Vec<String>)
    ensures
        oai_messages_model(final(out)@) == oai_messages_model(old(out)@) + oai_for_message(msg@, strings_view(known@)),
{
    let ghost o0 = oai_messages_model(out@);
    match &msg.content {
        MessageContent::Text(text) => {
            let m = plain(msg.role.clone(), or_minimal_exec(text.clone()));
            out.push(m);
            assert(oai_messages_model(out@) =~= o0 + seq![m@]);
        },
        MessageContent::Blocks(bs) => {
            if str_is(msg.role.as_str(), "assistant") {
                let (texts, calls) = assistant_parts(bs);
                let text = or_minimal_exec(join_strings(&texts));
                let m = OaiChatMessage { role: lit("assistant"), content: OaiContent::Text(text), tool_calls: calls, tool_call_id: None };
                out.push(m);
                assert(oai_messages_model(out@) =~= o0 + seq![m@]);
            } else {
                let (results, images) = block_kinds(bs);
                if results {
                    push_tool_results(out, bs, known);
                } else if images {
                    let mut parts = image_parts(bs);
                    if parts.len() == 0 {
                        let dot = lit(".");
                        proof {
                            reveal_strlit(".");
                            assert(dot@ =~= minimal_parts());
                        }
                        parts.push(OaiPart::Text(dot));
                        assert(parts_model(parts@) =~= seq![OaiPartModel::Text(minimal_parts())]);
                    }
                    let m = OaiChatMessage { role: lit("user"), content: OaiContent::Parts(parts), tool_calls: Vec::new(), tool_call_id: None };
                    assert(tool_calls_model(m.tool_calls@) =~= Seq::<OaiRequestToolCallModel>::empty());
                    out.push(m);
                    assert(oai_messages_model(out@) =~= o0 + seq![m@]);
                } else {
                    let (texts, _) = assistant_parts(bs);
                    let m = plain(lit("user"), or_minimal_exec(join_with_newlines(&texts)));
                    out.push(m);
                    assert(oai_messages_model(out@) =~= o0 + seq![m@]);
                }
            }
        },
    }
}

/// The conversation as Chat Completions messages: the system prompt (when not
/// empty), each message translated in order with orphaned tool results left out,
/// and a user stand-in first when the conversation would open with an assistant
/// or tool message.
pub fn translate_messages_to_oai(system: &str, messages: &Vec<Message>) -> (r: Vec<OaiChatMessage>)
    ensures
        oai_messages_model(r@) == oai_conversation(system@, messages_model(messages@)),
{
    let known = collect_tool_use_ids(messages);
    let ghost mm = messages_model(messages@);
    let ghost kv = strings_view(known@);
    let mut out: Vec<OaiChatMessage> = Vec::new();
    if !system.is_empty() {
        let m = plain(lit("system"), lit(system));
        out.push(m);
    }
    let ghost head = oai_messages_model(out@);
    assert(head =~= (if system@.len() > 0 { seq![plain_message("system"@, system@)] } else { Seq::<OaiMessageModel>::empty() }));
    let mut i: usize = 0;
    assert(oai_for_messages(mm.subrange(0, 0), kv) =~= Seq::<OaiMessageModel>::empty());
    assert(oai_messages_model(out@) =~= head + oai_for_messages(mm.subrange(0, 0), kv));
    while i < messages.len()
        invariant
            i <= messages.len(),
            mm == messages_model(messages@),
            kv == strings_view(known@),
            oai_messages_model(out@) == head + oai_for_messages(mm.subrange(0, i as int), kv),
        decreases messages.len() - i,
    {
        let ghost sub = mm.subrange(0, i + 1);
        assert(sub.drop_last() =~= mm.subrange(0, i as int));
        assert(sub.last() == messages@[i as int]@);
        push_message(&mut out, &messages[i], &known);
        assert(oai_messages_model(out@) =~= head + oai_for_messages(sub, kv));
        i += 1;
    }
    assert(mm.subrange(0, mm.len() as int) =~= mm);
    let ghost body = oai_messages_model(out@);
    if out.len() > 0 {
        let first_assistant = str_is(out[0].role.as_str(), "assistant");
        let first_tool = str_is(out[0].role.as_str(), "tool");
        assert(body[0] == out@[0]@);
        if first_assistant || first_tool {
            let dot = lit(".");
            proof {
                reveal_strlit(".");
                assert(dot@ =~= minimal_parts());
            }
            let m = plain(lit("user"), dot);
            out.insert(0, m);
            assert(oai_messages_model(out@) =~= seq![m@] + body);
        }
    }
    out
}

// ---------------------------------------------------------------------------
// Replies
// ---------------------------------------------------------------------------

/// The function named by a tool call in a reply.
#[derive(Debug, Clone)]
pub struct OaiFunction {
    pub name: String,
    /// The arguments as JSON text.
    pub arguments: String,
    pub thought_signature: Option<String>,
}

/// A tool call in a reply.
#[derive(Debug, Clone)]
pub struct OaiToolCall {
    pub id: String,
    pub function: OaiFunction,
    pub thought_signature: Option<String>,
}

/// The message of a reply choice.
#[derive(Debug, Clone)]
pub struct OaiMessage {
    pub content: Option<String>,
    pub tool_calls: Option<Vec<OaiToolCall>>,
}

/// One choice of a reply.
#[derive(Debug, Clone)]
pub struct OaiChoice {
    pub message: OaiMessage,
    pub finish_reason: Option<String>,
}

/// Token counts of a reply.
#[derive(Debug, Clone, Copy)]
pub struct OaiUsage {
    pub prompt_tokens: u32,
    pub completion_tokens: u32,
}

/// A Chat Completions reply.
#[derive(Debug, Clone)]
pub struct OaiResponse {
    pub choices: Vec<OaiChoice>,
    pub usage: Option<OaiUsage>,
}

/// The start of the id given to the `k`-th tool call found as markup.
pub open spec fn embedded_id_prefix(k: int) -> Seq<char> {
    "embedded_tool_"@ + decimal_seq(k as nat) + "_"@
}

/// Ids for `n` tool calls found as markup in a reply's text:
/// `embedded_tool_<k>_<random UUID>`.
pub fn embedded_tool_call_ids(n: usize) -> (r: Vec<String>)
    ensures
        r@.len() == n,
        forall|k: int| 0 <= k < n ==> has_prefix(#[trigger] r@[k]@, embedded_id_prefix(k)),
{
    let mut out: Vec<String> = Vec::new();
    let mut k: usize = 0;
    while k < n
        invariant
            k <= n,
            out@.len() == k,
            forall|j: int| 0 <= j < k ==> has_prefix(#[trigger] out@[j]@, embedded_id_prefix(j)),
        decreases n - k,
    {
        let mut v = chars_of("embedded_tool_");
        append_vec(&mut v, &u64_decimal(k as u64));
        append_str(&mut v, "_");
        let ghost p = v@;
        assert(p =~= embedded_id_prefix(k as int));
        let u = crate::ids::new_uuid_v4();
        append_str(&mut v, u.as_str());
        assert(v@.subrange(0, p.len() as int) =~= p);
        out.push(string_of(&v));
        k += 1;
    }
    out
}

/// The input of a tool call from the API: its arguments when they are one JSON
/// document, else `null`.
pub open spec fn api_arguments_text(arguments: Seq<char>) -> Seq<char> {
    if json_parse_error(arguments) is None {
        arguments
    } else {
        "null"@
    }
}

/// The reply blocks for the tool calls the API returned, in order; the call's
/// own thought signature wins over its function's.
pub open spec fn api_tool_blocks(calls: Seq<OaiToolCall>) -> Seq<ResponseBlockModel>
    decreases calls.len(),
{
    if calls.len() == 0 {
        Seq::empty()
    } else {
        let c = calls.last();
        api_tool_blocks(calls.drop_last()).push(
            ResponseBlockModel::ToolUse {
                id: c.id@,
                name: c.function.name@,
                input: api_arguments_text(c.function.arguments@),
                thought_signature: match opt_view(c.thought_signature) {
                    Some(s) => Some(s),
                    None => opt_view(c.function.thought_signature),
                },
            },
        )
    }
}

/// The reply blocks for tool calls written as markup (name, arguments as JSON
/// text), with the given ids, in order.
pub open spec fn embedded_blocks(embedded: Seq<(String, String)>, ids: Seq<String>) -> Seq<ResponseBlockModel>
    decreases embedded.len(),
{
    if embedded.len() == 0 {
        Seq::empty()
    } else {
        let k = embedded.len() - 1;
        embedded_blocks(embedded.drop_last(), ids).push(
            ResponseBlockModel::ToolUse {
                id: ids[k]@,
                name: embedded[k].0@,
                input: embedded[k].1@,
                thought_signature: None,
            },
        )
    }
}

/// The blocks of a reply from its first choice: when the API returned no tool
/// calls but the text holds calls written as markup, those calls come first and
/// the markup is removed from the text; then the text, when not empty; then the
/// API's tool calls. A reply with none of these is one empty text block.
pub open spec fn oai_reply_blocks(choice: OaiChoice, embedded: Seq<(String, String)>, ids: Seq<String>) -> Seq<
    ResponseBlockModel,
> {
    let from_api = choice.message.tool_calls is Some;
    let text0 = match choice.message.content {
        Some(t) => t@,
        None => Seq::empty(),
    };
    let use_markup = !from_api && embedded.len() > 0;
    let text = if use_markup {
        trim_seq(strip_tools_spans(text0))
    } else {
        text0
    };
    let e = if use_markup {
        embedded_blocks(embedded, ids)
    } else {
        Seq::empty()
    };
    let t = if text.len() > 0 {
        seq![ResponseBlockModel::Text(text)]
    } else {
        Seq::empty()
    };
    let a = match choice.message.tool_calls {
        Some(cs) => api_tool_blocks(cs@),
        None => Seq::empty(),
    };
    let all = e + t + a;
    if all.len() == 0 {
        seq![ResponseBlockModel::Text(Seq::empty())]
    } else {
        all
    }
}

pub open spec fn oai_usage(u: Option<OaiUsage>) -> Option<Usage> {
    match u {
        Some(x) => Some(
            Usage {
                input_tokens: x.prompt_tokens,
                output_tokens: x.completion_tokens,
                cache_read_input_tokens: 0,
                cache_creation_input_tokens: 0,
            },
        ),
        None => None,
    }
}

fn push_block(content: &mut Vec<ResponseContentBlock>, b: ResponseContentBlock)
    ensures
        response_blocks_model(final(content)@) == response_blocks_model(old(content)@).push(b@),
{
    let ghost before = response_blocks_model(content@);
    content.push(b);
    assert(response_blocks_model(content@) =~= before.push(b@));
}

/// Turns a Chat Completions reply into the library's reply. `embedded` holds the
/// tool calls written as `<tools>` markup in the first choice's text (name, and
/// arguments as JSON text) and `embedded_ids` an id for each.
pub fn translate_oai_response(oai: OaiResponse, embedded: Vec<(String, String)>, embedded_ids: Vec<String>) -> (r:
    MessagesResponse)
    requires
        embedded_ids@.len() == embedded@.len(),
    ensures
        oai.choices@.len() == 0 ==> response_blocks_model(r.content@) == seq![
            ResponseBlockModel::Text("(empty response)"@),
        ] && r.stop_reason is Some && r.stop_reason.unwrap()@ == "end_turn"@ && r.usage is None,
        oai.choices@.len() > 0 ==> {
            let blocks = oai_reply_blocks(oai.choices@[0], embedded@, embedded_ids@);
            &&& response_blocks_model(r.content@) == blocks
            &&& r.stop_reason is Some
            &&& r.stop_reason.unwrap()@ == (if has_tool_use(blocks) {
                "tool_use"@
            } else {
                normalized_stop_reason(opt_view(oai.choices@[0].finish_reason))
            })
            &&& r.usage == oai_usage(oai.usage)
        },
{
    let ghost choices0 = oai.choices@;
    let mut choices = oai.choices;
    if choices.len() == 0 {
        let mut content: Vec<ResponseContentBlock> = Vec::new();
        push_block(&mut content, ResponseContentBlock::Text { text: String::from_str("(empty response)") });
        return MessagesResponse { content, stop_reason: Some(String::from_str("end_turn")), usage: None };
    }
    let choice = choices.remove(0);
    assert(choice == choices0[0]);
    let ghost ch = choice;
    let from_api = choice.message.tool_calls.is_some();
    let text0 = match &choice.message.content {
        Some(t) => t.clone(),
        None => String::new(),
    };
    let use_markup = !from_api && embedded.len() > 0;
    let text = if use_markup {
        strip_tools_markup_from_content(text0.as_str())
    } else {
        text0
    };
    let mut content: Vec<ResponseContentBlock> = Vec::new();
    let ghost e = if use_markup { embedded_blocks(embedded@, embedded_ids@) } else { Seq::<ResponseBlockModel>::empty() };
    if use_markup {
        let mut k: usize = 0;
        assert(embedded_blocks(embedded@.subrange(0, 0), embedded_ids@) =~= Seq::<ResponseBlockModel>::empty());
        assert(response_blocks_model(content@) =~= Seq::<ResponseBlockModel>::empty());
        while k < embedded.len()
            invariant
                k <= embedded.len(),
                embedded_ids@.len() == embedded@.len(),
                response_blocks_model(content@) == embedded_blocks(embedded@.subrange(0, k as int), embedded_ids@),
            decreases embedded.len() - k,
        {
            let ghost sub = embedded@.subrange(0, k + 1);
            assert(sub.drop_last() =~= embedded@.subrange(0, k as int));
            push_block(
                &mut content,
                ResponseContentBlock::ToolUse {
                    id: embedded_ids[k].clone(),
                    name: embedded[k].0.clone(),
                    input: embedded[k].1.clone(),
                    thought_signature: None,
                },
            );
            k += 1;
        }
        assert(embedded@.subrange(0, embedded@.len() as int) =~= embedded@);
    } else {
        assert(response_blocks_model(content@) =~= e);
    }
    let ghost after_e = response_blocks_model(content@);
    let ghost tv = text@;
    if !text.as_str().is_empty() {
        push_block(&mut content, ResponseContentBlock::Text { text: text });
    }
    let ghost after_t = response_blocks_model(content@);
    match &choice.message.tool_calls {
        Some(calls) => {
            let mut j: usize = 0;
            assert(api_tool_blocks(calls@.subrange(0, 0)) =~= Seq::<ResponseBlockModel>::empty());
            assert(response_blocks_model(content@) =~= after_t + Seq::<ResponseBlockModel>::empty());
            while j < calls.len()
                invariant
                    j <= calls.len(),
                    response_blocks_model(content@) == after_t + api_tool_blocks(calls@.subrange(0, j as int)),
                decreases calls.len() - j,
            {
                let ghost sub = calls@.subrange(0, j + 1);
                assert(sub.drop_last() =~= calls@.subrange(0, j as int));
                let c = &calls[j];
                let input = match json_check(c.function.arguments.as_str()) {
                    None => c.function.arguments.clone(),
                    Some(_) => String::from_str("null"),
                };
                let sig = match &c.thought_signature {
                    Some(s) => Some(s.clone()),
                    None => clone_opt_string(&c.function.thought_signature),
                };
                push_block(&mut content, ResponseContentBlock::ToolUse { id: c.id.clone(), name: c.function.name.clone(), input, thought_signature: sig });
                assert(response_blocks_model(content@) =~= after_t + api_tool_blocks(sub));
                j += 1;
            }
            assert(calls@.subrange(0, calls@.len() as int) =~= calls@);
        },
        None => {
            assert(response_blocks_model(content@) =~= after_t + Seq::<ResponseBlockModel>::empty());
        },
    }
    let ghost a = match ch.message.tool_calls {
        Some(cs) => api_tool_blocks(cs@),
        None => Seq::<ResponseBlockModel>::empty(),
    };
    let ghost tt = if tv.len() > 0 { seq![ResponseBlockModel::Text(tv)] } else { Seq::<ResponseBlockModel>::empty() };
    assert(after_t =~= e + tt);
    assert(response_blocks_model(content@) =~= e + tt + a);
    if content.len() == 0 {
        push_block(&mut content, ResponseContentBlock::Text { text: String::new() });
    }
    assert(response_blocks_model(content@) =~= oai_reply_blocks(ch, embedded@, embedded_ids@));
    let ghost blocks = response_blocks_model(content@);
    let has_tool = any_tool_use(&content);
    let finish = match &choice.finish_reason {
        Some(f) => Some(f.as_str()),
        None => None,
    };
    let stop = oai_stop_reason_from_content(finish, has_tool);
    let usage = match oai.usage {
        Some(u) => Some(
            Usage {
                input_tokens: u.prompt_tokens,
                output_tokens: u.completion_tokens,
                cache_read_input_tokens: 0,
                cache_creation_input_tokens: 0,
            },
        ),
        None => None,
    };
    MessagesResponse { content, stop_reason: stop, usage }
}

/// Whether any block is a tool call.
pub fn any_tool_use(content: &Vec<ResponseContentBlock>) -> (r: bool)
    ensures
        r == has_tool_use(response_blocks_model(content@)),
{
    let ghost bm = response_blocks_model(content@);
    let mut j: usize = 0;
    while j < content.len()
        invariant
            j <= content.len(),
            bm == response_blocks_model(content@),
            forall|k: int| 0 <= k < j ==> !(bm[k] is ToolUse),
        decreases content.len() - j,
    {
        assert(bm[j as int] == content@[j as int]@);
        match &content[j] {
            ResponseContentBlock::ToolUse { .. } => {
                return true;
            },
            _ => {},
        }
        j += 1;
    }
    false
}

/// `ids` are ids of the markup calls, each with its expected prefix, and the reply
/// is the one they give.
pub open spec fn reply_with_ids(
    r: MessagesResponse,
    choices: Seq<OaiChoice>,
    embedded: Seq<(String, String)>,
    ids: Seq<String>,
) -> bool {
    &&& ids.len() == embedded.len()
    &&& forall|k: int| 0 <= k < ids.len() ==> has_prefix(#[trigger] ids[k]@, embedded_id_prefix(k))
    &&& choices.len() > 0 ==> response_blocks_model(r.content@) == oai_reply_blocks(choices[0], embedded, ids)
    &&& choices.len() > 0 ==> r.stop_reason is Some && r.stop_reason.unwrap()@ == (if has_tool_use(
        oai_reply_blocks(choices[0], embedded, ids),
    ) {
        "tool_use"@
    } else {
        normalized_stop_reason(opt_view(choices[0].finish_reason))
    })
}

/// Translates a reply, giving each tool call found as markup a fresh id
/// `embedded_tool_<k>_<random UUID>`; apart from those ids the reply is the one
/// `translate_oai_response` gives.
pub fn translate_oai_response_with_fresh_ids(oai: OaiResponse, embedded: Vec<(String, String)>) -> (r: MessagesResponse)
    ensures
        exists|ids: Seq<String>| #[trigger] reply_with_ids(r, oai.choices@, embedded@, ids),
        oai.choices@.len() == 0 ==> response_blocks_model(r.content@) == seq![
            ResponseBlockModel::Text("(empty response)"@),
        ] && r.stop_reason is Some && r.stop_reason.unwrap()@ == "end_turn"@,
        r.usage == (if oai.choices@.len() == 0 { None } else { oai_usage(oai.usage) }),
{
    let ids = embedded_tool_call_ids(embedded.len());
    let ghost idv = ids@;
    let ghost ev = embedded@;
    let ghost ch = oai.choices@;
    let r = translate_oai_response(oai, embedded, ids);
    assert(reply_with_ids(r, ch, ev, idv));
    r
}

/// The call written as one markup object: its `name` and its `arguments` as
/// JSON text (`{}` when absent); none without a string `name`.
pub open spec fn markup_call(v: JsonValue) -> Option<(Seq<char>, Seq<char>)> {
    match member_str(v, "name"@) {
        Some(n) => Some(
            (
                n,
                match v.spec_get("arguments"@) {
                    Some(a) => json_text_of(a@),
                    None => "{}"@,
                },
            ),
        ),
        None => None,
    }
}

/// The calls among the elements of a markup array, in order.
pub open spec fn markup_item_calls(items: Seq<JsonValue>) -> Seq<(Seq<char>, Seq<char>)>
    decreases items.len(),
{
    if items.len() == 0 {
        Seq::empty()
    } else {
        let rest = markup_item_calls(items.drop_last());
        match markup_call(items.last()) {
            Some(c) => rest.push(c),
            None => rest,
        }
    }
}

/// The calls written in one `<tools>` span: one object with a `name`, or an
/// array of such objects.
pub open spec fn markup_span_calls(v: JsonValue) -> Seq<(Seq<char>, Seq<char>)> {
    match markup_call(v) {
        Some(c) => seq![c],
        None => match v.spec_as_array() {
            Some(items) => markup_item_calls(items),
            None => Seq::empty(),
        },
    }
}

/// The calls of all spans, in order.
pub open spec fn markup_calls(spans: Seq<JsonValue>) -> Seq<(Seq<char>, Seq<char>)>
    decreases spans.len(),
{
    if spans.len() == 0 {
        Seq::empty()
    } else {
        markup_calls(spans.drop_last()) + markup_span_calls(spans.last())
    }
}

pub open spec fn pairs_view(ps: Seq<(String, String)>) -> Seq<(Seq<char>, Seq<char>)> {
    ps.map_values(|p: (String, String)| (p.0@, p.1@))
}

fn markup_call_exec(v: &JsonValue) -> (r: Option<(String, String)>)
    ensures
        match (r, markup_call(*v)) {
            (Some(x), Some(y)) => x.0@ == y.0 && x.1@ == y.1,
            (None, None) => true,
            _ => false,
        },
{
    match member_str_exec(v, "name") {
        Some(n) => {
            let args = match v.get("arguments") {
                Some(a) => json_text(a),
                None => String::from_str("{}"),
            };
            Some((n, args))
        },
        None => None,
    }
}

fn push_call(out: &mut Vec<(String, String)>, c: (String, String))
    ensures
        pairs_view(final(out)@) == pairs_view(old(out)@).push((c.0@, c.1@)),
{
    let ghost before = pairs_view(out@);
    let ghost cv = (c.0@, c.1@);
    out.push(c);
    assert(pairs_view(out@) =~= before.push(cv));
}

/// The tool calls written as `<tools>` markup, from the JSON values of the
/// spans that parsed (see `embedded_tool_spans`): each span holds one object
/// with a string `name`, or an array of such objects; a call's input is its
/// `arguments` written as JSON text, `{}` when it has none. Other values give
/// no call.
pub fn embedded_tool_calls(spans: &Vec<JsonValue>) -> (r: Vec<(String, String)>)
    ensures
        pairs_view(r@) == markup_calls(spans@),
{
    let mut out: Vec<(String, String)> = Vec::new();
    let mut i: usize = 0;
    assert(pairs_view(out@) =~= markup_calls(spans@.subrange(0, 0)));
    while i < spans.len()
        invariant
            i <= spans.len(),
            pairs_view(out@) == markup_calls(spans@.subrange(0, i as int)),
        decreases spans.len() - i,
    {
        let ghost sub = spans@.subrange(0, i + 1);
        assert(sub.drop_last() =~= spans@.subrange(0, i as int));
        let ghost before = pairs_view(out@);
        let v = &spans[i];
        match markup_call_exec(v) {
            Some(c) => {
                push_call(&mut out, c);
                assert(pairs_view(out@) =~= before + markup_span_calls(*v));
            },
            None => {
                match v.as_array() {
                    Some(items) => {
                        let mut j: usize = 0;
                        assert(pairs_view(out@) =~= before + markup_item_calls(items@.subrange(0, 0)));
                        while j < items.len()
                            invariant
                                j <= items.len(),
                                pairs_view(out@) == before + markup_item_calls(items@.subrange(0, j as int)),
                            decreases items.len() - j,
                        {
                            let ghost isub = items@.subrange(0, j + 1);
                            assert(isub.drop_last() =~= items@.subrange(0, j as int));
                            match markup_call_exec(&items[j]) {
                                Some(c) => {
                                    push_call(&mut out, c);
                                },
                                None => {},
                            }
                            assert(pairs_view(out@) =~= before + markup_item_calls(isub));
                            j += 1;
                        }
                        assert(items@.subrange(0, items@.len() as int) =~= items@);
                    },
                    None => {
                        assert(pairs_view(out@) =~= before + markup_span_calls(*v));
                    },
                }
            },
        }
        assert(pairs_view(out@) =~= markup_calls(sub));
        i += 1;
    }
    assert(spans@.subrange(0, spans@.len() as int) =~= spans@);
    out
}

// ---------------------------------------------------------------------------
// Tools and the request body
// ---------------------------------------------------------------------------

/// Object entries other than `enum`, in order.
pub open spec fn without_enum(es: Seq<(Seq<char>, JsonModel)>) -> Seq<(Seq<char>, JsonModel)>
    decreases es.len(),
{
    if es.len() == 0 {
        Seq::empty()
    } else {
        let r = without_enum(es.drop_last());
        if es.last().0 == "enum"@ {
            r
        } else {
            r.push(es.last())
        }
    }
}

/// A property schema with its `enum` removed (some gateways drop properties
/// that have one).
pub open spec fn strip_enum(v: JsonModel) -> JsonModel {
    match v {
        JsonModel::Object(es) => JsonModel::Object(without_enum(es)),
        _ => v,
    }
}

/// Each property with `enum` removed from its schema, in order.
pub open spec fn stripped_props(es: Seq<(Seq<char>, JsonModel)>) -> Seq<(Seq<char>, JsonModel)>
    decreases es.len(),
{
    if es.len() == 0 {
        Seq::empty()
    } else {
        stripped_props(es.drop_last()).push((es.last().0, strip_enum(es.last().1)))
    }
}

/// The properties of a tool schema as sent: its `properties` object with each
/// `enum` removed, or no properties when it has no such object.
pub open spec fn schema_props(schema: JsonModel) -> Seq<(Seq<char>, JsonModel)> {
    match model_get(schema, "properties"@) {
        Some(JsonModel::Object(es)) => stripped_props(es),
        _ => Seq::empty(),
    }
}

/// The strings among `items`, in order.
pub open spec fn str_items(items: Seq<JsonModel>) -> Seq<Seq<char>>
    decreases items.len(),
{
    if items.len() == 0 {
        Seq::empty()
    } else {
        let r = str_items(items.drop_last());
        match items.last() {
            JsonModel::Str(s) => r.push(s),
            _ => r,
        }
    }
}

/// The names listed under `required`.
pub open spec fn required_candidates(schema: JsonModel) -> Seq<Seq<char>> {
    match model_get(schema, "required"@) {
        Some(JsonModel::Array(items)) => str_items(items),
        _ => Seq::empty(),
    }
}

/// The names of `cands` that are among `keys`.
pub open spec fn kept_names(cands: Seq<Seq<char>>, keys: Seq<Seq<char>>) -> Set<Seq<char>>
    decreases cands.len(),
{
    if cands.len() == 0 {
        Set::empty()
    } else {
        let r = kept_names(cands.drop_last(), keys);
        if keys.contains(cands.last()) {
            r.insert(cands.last())
        } else {
            r
        }
    }
}

/// The property names.
pub open spec fn prop_keys(es: Seq<(Seq<char>, JsonModel)>) -> Seq<Seq<char>> {
    es.map_values(|e: (Seq<char>, JsonModel)| e.0)
}

/// The required names that name a property.
pub open spec fn kept_required(schema: JsonModel) -> Set<Seq<char>> {
    kept_names(required_candidates(schema), prop_keys(schema_props(schema)))
}

/// The schema's `type`, or `"object"`.
pub open spec fn schema_type(schema: JsonModel) -> JsonModel {
    match model_get(schema, "type"@) {
        Some(t) => t,
        None => JsonModel::Str("object"@),
    }
}

/// The names as JSON strings.
pub open spec fn str_models(names: Seq<Seq<char>>) -> Seq<JsonModel> {
    names.map_values(|n: Seq<char>| JsonModel::Str(n))
}

/// `out` is the parameters schema sent for `schema`: its properties (each
/// without `enum`); its required names that name a property, once each and
/// sorted, left out when there are none; and its type (`object` when it has
/// none).
pub open spec fn is_sanitized_schema(schema: JsonModel, out: JsonModel) -> bool {
    let req = kept_required(schema);
    match out {
        JsonModel::Object(es) => {
            &&& es.len() >= 2
            &&& es[0] == ("properties"@, JsonModel::Object(schema_props(schema)))
            &&& es[es.len() - 1] == ("type"@, schema_type(schema))
            &&& req == Set::<Seq<char>>::empty() ==> es.len() == 2
            &&& req != Set::<Seq<char>>::empty() ==> es.len() == 3 && es[1].0 == "required"@ && exists|names: Seq<Seq<char>>|
                strictly_ascending(names) && names.to_set() == req && #[trigger] str_models(names) == es[1].1->Array_0
                && es[1].1 is Array
        },
        _ => false,
    }
}

proof fn lemma_entries_model_prefix(s: Seq<(String, JsonValue)>, i: int)
    requires
        0 <= i <= s.len(),
    ensures
        entries_model(s.subrange(0, i)) == entries_model(s).subrange(0, i),
{
    lemma_entries_model(s);
    lemma_entries_model(s.subrange(0, i));
    assert(entries_model(s.subrange(0, i)) =~= entries_model(s).subrange(0, i));
}

proof fn lemma_items_model_prefix(s: Seq<JsonValue>, i: int)
    requires
        0 <= i <= s.len(),
    ensures
        items_model(s.subrange(0, i)) == items_model(s).subrange(0, i),
{
    lemma_items_model(s);
    lemma_items_model(s.subrange(0, i));
    assert(items_model(s.subrange(0, i)) =~= items_model(s).subrange(0, i));
}

/// A property schema without its `enum`.
fn strip_enum_exec(v: &JsonValue) -> (r: JsonValue)
    ensures
        json_model(r) == strip_enum(json_model(*v)),
{
    match v.as_object() {
        Some(inner) => {
            let ghost im = entries_model(inner@);
            proof {
                lemma_entries_model(inner@);
            }
            assert(json_model(*v) == JsonModel::Object(im));
            let mut out: Vec<(String, JsonValue)> = Vec::new();
            let mut k: usize = 0;
            assert(entries_model(out@) =~= without_enum(im.subrange(0, 0)));
            while k < inner.len()
                invariant
                    k <= inner.len(),
                    im == entries_model(inner@),
                    im.len() == inner@.len(),
                    entries_model(out@) == without_enum(im.subrange(0, k as int)),
                decreases inner.len() - k,
            {
                proof {
                    lemma_entries_model(inner@);
                    lemma_entries_model_prefix(inner@, k + 1);
                    assert(im.subrange(0, k + 1).drop_last() =~= im.subrange(0, k as int));
                }
                let ghost before = out@;
                assert(im[k as int] == (inner@[k as int].0@, json_model(inner@[k as int].1)));
                assert(im.subrange(0, k + 1).last() == im[k as int]);
                if !str_is(inner[k].0.as_str(), "enum") {
                    let c = inner[k].1.deep_clone();
                    out.push((inner[k].0.clone(), c));
                    assert(out@.drop_last() =~= before);
                    assert(entries_model(out@) == entries_model(before).push((inner@[k as int].0@, json_model(c))));
                }
                k += 1;
            }
            assert(im.subrange(0, im.len() as int) =~= im);
            let r = JsonValue::Object(out);
            assert(json_model(r) == JsonModel::Object(entries_model(out@)));
            r
        },
        None => {
            assert(!(json_model(*v) is Object));
            v.deep_clone()
        },
    }
}

/// The parameters schema sent to OpenAI-compatible APIs for a tool's input
/// schema: `required` keeps only names that are properties (once each, sorted,
/// omitted when empty), each property loses its `enum`, and the type defaults to
/// `object`. Gateways to Gemini reject a `required` name that is not a property.
pub fn sanitize_oai_parameters(schema: &JsonValue) -> (r: JsonValue)
    ensures
        is_sanitized_schema(json_model(*schema), json_model(r)),
{
    let ghost sm = json_model(*schema);
    proof {
        lemma_model_get(*schema, "properties"@);
        lemma_model_get(*schema, "required"@);
        lemma_model_get(*schema, "type"@);
    }
    let mut props: Vec<(String, JsonValue)> = Vec::new();
    let mut keys: Vec<Vec<char>> = Vec::new();
    match schema.get("properties") {
        Some(p) => match p.as_object() {
            Some(es) => {
                let ghost em = entries_model(es@);
                proof {
                    lemma_entries_model(es@);
                }
                assert(json_model(*p) == JsonModel::Object(em));
                let mut i: usize = 0;
                assert(entries_model(props@) =~= stripped_props(em.subrange(0, 0)));
                assert(keys@.map_values(|v: Vec<char>| v@) =~= prop_keys(stripped_props(em.subrange(0, 0))));
                while i < es.len()
                    invariant
                        i <= es.len(),
                        em == entries_model(es@),
                        em.len() == es@.len(),
                        entries_model(props@) == stripped_props(em.subrange(0, i as int)),
                        keys@.map_values(|v: Vec<char>| v@) == prop_keys(stripped_props(em.subrange(0, i as int))),
                    decreases es.len() - i,
                {
                    proof {
                        lemma_entries_model(es@);
                        assert(em.subrange(0, i + 1).drop_last() =~= em.subrange(0, i as int));
                        assert(em.subrange(0, i + 1).last() == em[i as int]);
                    }
                    let cleaned = strip_enum_exec(&es[i].1);
                    let ghost cm = json_model(cleaned);
                    let ghost before = props@;
                    let ghost kbefore = keys@;
                    assert(em[i as int] == (es@[i as int].0@, json_model(es@[i as int].1)));
                    props.push((es[i].0.clone(), cleaned));
                    keys.push(chars_of(es[i].0.as_str()));
                    assert(props@.drop_last() =~= before);
                    assert(entries_model(props@) == entries_model(before).push((es@[i as int].0@, cm)));
                    assert(prop_keys(stripped_props(em.subrange(0, i + 1))) =~= prop_keys(stripped_props(em.subrange(0, i as int))).push(es@[i as int].0@));
                    assert(keys@.map_values(|v: Vec<char>| v@) =~= kbefore.map_values(|v: Vec<char>| v@).push(es@[i as int].0@));
                    i += 1;
                }
                assert(em.subrange(0, em.len() as int) =~= em);
            },
            None => {
                assert(!(json_model(*p) is Object));
                assert(entries_model(props@) =~= Seq::<(Seq<char>, JsonModel)>::empty());
                assert(keys@.map_values(|v: Vec<char>| v@) =~= Seq::<Seq<char>>::empty());
            },
        },
        None => {
            assert(entries_model(props@) =~= Seq::<(Seq<char>, JsonModel)>::empty());
            assert(keys@.map_values(|v: Vec<char>| v@) =~= Seq::<Seq<char>>::empty());
        },
    }
    let ghost pk = prop_keys(schema_props(sm));
    assert(entries_model(props@) == schema_props(sm));
    let mut req: Vec<Vec<char>> = Vec::new();
    assert(req@.map_values(|v: Vec<char>| v@) =~= Seq::<Seq<char>>::empty());
    assert(req@.map_values(|v: Vec<char>| v@).to_set() =~= Set::<Seq<char>>::empty());
    match schema.get("required") {
        Some(rq) => match rq.as_array() {
            Some(items) => {
                let ghost imod = items_model(items@);
                proof {
                    lemma_items_model(items@);
                }
                assert(json_model(*rq) == JsonModel::Array(imod));
                let mut k: usize = 0;
                assert(str_items(imod.subrange(0, 0)) =~= Seq::<Seq<char>>::empty());
                while k < items.len()
                    invariant
                        k <= items.len(),
                        imod == items_model(items@),
                        imod.len() == items@.len(),
                        pk == keys@.map_values(|v: Vec<char>| v@),
                        strictly_ascending(req@.map_values(|v: Vec<char>| v@)),
                        req@.map_values(|v: Vec<char>| v@).to_set() == kept_names(str_items(imod.subrange(0, k as int)), pk),
                    decreases items.len() - k,
                {
                    proof {
                        lemma_items_model(items@);
                        assert(imod.subrange(0, k + 1).drop_last() =~= imod.subrange(0, k as int));
                        assert(imod.subrange(0, k + 1).last() == json_model(items@[k as int]));
                    }
                    let ghost c = str_items(imod.subrange(0, k as int));
                    let ghost kset = req@.map_values(|v: Vec<char>| v@).to_set();
                    match items[k].as_str() {
                        Some(name) => {
                            assert(imod[k as int] == JsonModel::Str(name@));
                            assert(str_items(imod.subrange(0, k + 1)) == c.push(name@));
                            assert(c.push(name@).drop_last() =~= c);
                            let nv = chars_of(name);
                            let mut found = false;
                            let mut j: usize = 0;
                            while j < keys.len()
                                invariant
                                    j <= keys.len(),
                                    pk == keys@.map_values(|v: Vec<char>| v@),
                                    found == exists|q: int| 0 <= q < j && pk[q] == nv@,
                                decreases keys.len() - j,
                            {
                                if vec_eq(&keys[j], &nv) {
                                    found = true;
                                    assert(pk[j as int] == nv@);
                                }
                                proof {
                                    if found && !(pk[j as int] == nv@) {
                                        let q = choose|q: int| 0 <= q < j && pk[q] == nv@;
                                        assert(0 <= q < j + 1 && pk[q] == nv@);
                                    }
                                    if exists|q: int| 0 <= q < j + 1 && pk[q] == nv@ {
                                        let q = choose|q: int| 0 <= q < j + 1 && pk[q] == nv@;
                                        if q < j {
                                            assert(exists|q2: int| 0 <= q2 < j && pk[q2] == nv@);
                                        }
                                    }
                                }
                                j += 1;
                            }
                            assert(found == pk.contains(nv@));
                            if found {
                                insert_sorted_text(&mut req, nv);
                            }
                        },
                        None => {
                            assert(!(imod[k as int] is Str));
                            assert(str_items(imod.subrange(0, k + 1)) == c);
                        },
                    }
                    k += 1;
                }
                assert(imod.subrange(0, imod.len() as int) =~= imod);
            },
            None => {
                assert(!(json_model(*rq) is Array));
            },
        },
        None => {},
    }
    assert(req@.map_values(|v: Vec<char>| v@).to_set() == kept_required(sm));
    let mut out: Vec<(String, JsonValue)> = Vec::new();
    out.push((String::from_str("properties"), JsonValue::Object(props)));
    let ghost names = req@.map_values(|v: Vec<char>| v@);
    if req.len() > 0 {
        let mut arr: Vec<JsonValue> = Vec::new();
        let mut k: usize = 0;
        while k < req.len()
            invariant
                k <= req.len(),
                names == req@.map_values(|v: Vec<char>| v@),
                names.len() == req@.len(),
                items_model(arr@) == str_models(names.subrange(0, k as int)),
            decreases req.len() - k,
        {
            let ghost before = arr@;
            let item = JsonValue::Str(string_of(&req[k]));
            assert(json_model(item) == JsonModel::Str(names[k as int]));
            arr.push(item);
            assert(arr@.drop_last() =~= before);
            assert(items_model(arr@) == items_model(before).push(json_model(item)));
            assert(str_models(names.subrange(0, k + 1)) =~= str_models(names.subrange(0, k as int)).push(JsonModel::Str(names[k as int])));
            k += 1;
        }
        assert(names.subrange(0, names.len() as int) =~= names);
        out.push((String::from_str("required"), JsonValue::Array(arr)));
        assert(names.to_set().contains(names[0]));
    } else {
        assert(names.to_set() =~= Set::<Seq<char>>::empty());
    }
    let ty = match schema.get("type") {
        Some(t) => t.deep_clone(),
        None => JsonValue::Str(String::from_str("object")),
    };
    out.push((String::from_str("type"), ty));
    proof {
        lemma_entries_model(out@);
    }
    JsonValue::Object(out)
}

/// A tool as offered to OpenAI-compatible APIs (a `function` tool).
#[derive(Debug)]
pub struct OaiToolDef {
    pub name: String,
    pub description: String,
    pub parameters: JsonValue,
}

/// The tools as offered to OpenAI-compatible APIs, in order, each with its
/// sanitized parameters schema.
pub fn translate_tools_to_oai(tools: &Vec<ToolDefinition>) -> (r: Vec<OaiToolDef>)
    ensures
        r@.len() == tools@.len(),
        forall|i: int| 0 <= i < r@.len() ==> #[trigger] r@[i].name@ == tools@[i].name@ && r@[i].description@
            == tools@[i].description@ && is_sanitized_schema(json_model(tools@[i].input_schema), json_model(r@[i].parameters)),
{
    let mut out: Vec<OaiToolDef> = Vec::new();
    let mut i: usize = 0;
    while i < tools.len()
        invariant
            i <= tools.len(),
            out@.len() == i,
            forall|k: int| 0 <= k < i ==> #[trigger] out@[k].name@ == tools@[k].name@ && out@[k].description@
                == tools@[k].description@ && is_sanitized_schema(json_model(tools@[k].input_schema), json_model(out@[k].parameters)),
        decreases tools.len() - i,
    {
        let t = &tools[i];
        out.push(OaiToolDef { name: t.name.clone(), description: t.description.clone(), parameters: sanitize_oai_parameters(&t.input_schema) });
        i += 1;
    }
    out
}

/// Which field carries the output token limit.
#[derive(Debug, Clone, Copy, PartialEq, Eq, Structural)]
pub enum TokenLimitField {
    MaxTokens,
    MaxCompletionTokens,
}

/// A Chat Completions request body.
#[derive(Debug)]
pub struct OaiChatRequest {
    pub model: String,
    pub messages: Vec<OaiChatMessage>,
    pub max_tokens: u32,
    pub token_field: TokenLimitField,
    /// `stream: true` is sent only when set.
    pub stream: bool,
    /// Sent only when some tools are offered.
    pub tools: Option<Vec<OaiToolDef>>,
    /// Sent only with tools.
    pub tool_choice: Option<String>,
}

/// The request body: the model and messages; the token limit under
/// `max_completion_tokens` or `max_tokens`; `stream` when streaming; the tools
/// when any are offered, with the tool choice when one is given.
pub fn build_oai_chat_request_body(
    model: &str,
    max_tokens: u32,
    oai_messages: Vec<OaiChatMessage>,
    tools: Option<&Vec<ToolDefinition>>,
    tool_choice: Option<&str>,
    stream: bool,
    use_max_completion_tokens: bool,
) -> (r: OaiChatRequest)
    ensures
        r.model@ == model@,
        r.messages@ == oai_messages@,
        r.max_tokens == max_tokens,
        r.token_field == (if use_max_completion_tokens {
            TokenLimitField::MaxCompletionTokens
        } else {
            TokenLimitField::MaxTokens
        }),
        r.stream == stream,
        match tools {
            Some(ts) => if ts@.len() > 0 {
                r.tools is Some && r.tools.unwrap()@.len() == ts@.len() && (forall|i: int|
                    0 <= i < ts@.len() ==> #[trigger] r.tools.unwrap()@[i].name@ == ts@[i].name@
                        && r.tools.unwrap()@[i].description@ == ts@[i].description@ && is_sanitized_schema(
                        json_model(ts@[i].input_schema),
                        json_model(r.tools.unwrap()@[i].parameters),
                    )) && match tool_choice {
                    Some(c) => r.tool_choice is Some && r.tool_choice.unwrap()@ == c@,
                    None => r.tool_choice is None,
                }
            } else {
                r.tools is None && r.tool_choice is None
            },
            None => r.tools is None && r.tool_choice is None,
        },
{
    let token_field = if use_max_completion_tokens {
        TokenLimitField::MaxCompletionTokens
    } else {
        TokenLimitField::MaxTokens
    };
    let (tool_defs, choice) = match tools {
        Some(ts) => if ts.len() > 0 {
            let defs = translate_tools_to_oai(ts);
            let c = match tool_choice {
                Some(c) => Some(String::from_str(c)),
                None => None,
            };
            (Some(defs), c)
        } else {
            (None, None)
        },
        None => (None, None),
    };
    OaiChatRequest {
        model: String::from_str(model),
        messages: oai_messages,
        max_tokens,
        token_field,
        stream,
        tools: tool_defs,
        tool_choice: choice,
    }
}

/// The spans that parse as JSON, as the content they parse into, in order.
pub open spec fn parsed_spans(spans: Seq<Seq<char>>) -> Seq<JsonModel>
    decreases spans.len(),
{
    if spans.len() == 0 {
        Seq::empty()
    } else {
        let rest = parsed_spans(spans.drop_last());
        match json_value_of(spans.last()) {
            Some(m) => rest.push(m),
            None => rest,
        }
    }
}

/// The tool calls written as `<tools>` markup in a reply's text: each span between
/// the tags that parses as JSON, read as calls; spans that do not parse are skipped.
pub fn embedded_tool_calls_in_text(text: &str) -> (r: Vec<(String, String)>)
    ensures
        exists|vs: Seq<JsonValue>|
            #![trigger markup_calls(vs)]
            vs.map_values(|v: JsonValue| v@) == parsed_spans(crate::llm::tools_spans(text@)) && pairs_view(r@)
                == markup_calls(vs),
{
    let spans = crate::llm::embedded_tool_spans(text);
    let ghost sv = strings_view(spans@);
    let mut parsed: Vec<JsonValue> = Vec::new();
    let mut i: usize = 0;
    assert(parsed@.map_values(|v: JsonValue| v@) =~= parsed_spans(sv.subrange(0, 0)));
    while i < spans.len()
        invariant
            i <= spans.len(),
            sv == strings_view(spans@),
            parsed@.map_values(|v: JsonValue| v@) == parsed_spans(sv.subrange(0, i as int)),
        decreases spans.len() - i,
    {
        let ghost sub = sv.subrange(0, i + 1);
        assert(sub.drop_last() =~= sv.subrange(0, i as int));
        assert(sub.last() == spans@[i as int]@);
        let ghost before = parsed@;
        match json_parse(spans[i].as_str()) {
            Ok(v) => {
                let ghost vm = v@;
                parsed.push(v);
                assert(parsed@.map_values(|v: JsonValue| v@) =~= before.map_values(|v: JsonValue| v@).push(vm));
            },
            Err(_) => {},
        }
        i += 1;
    }
    assert(sv.subrange(0, spans@.len() as int) =~= sv);
    let r = embedded_tool_calls(&parsed);
    assert(pairs_view(r@) == markup_calls(parsed@));
    r
}

} // verus!
