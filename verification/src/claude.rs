//! The message and response shapes exchanged with the language-model providers.
//!
//! A tool call's input is carried as JSON text; turning it into a document is
//! left to the code that sends or inspects it.
use vstd::prelude::*;
use crate::json::JsonValue;

verus! {

/// Where an image block's bytes come from.
#[derive(Debug, Clone)]
pub struct ImageSource {
    pub source_type: String,
    pub media_type: String,
    pub data: String,
}

/// One block of a conversation message.
#[derive(Debug, Clone)]
pub enum ContentBlock {
    Text { text: String },
    Image { source: ImageSource },
    /// A tool call; `input` is the call's arguments as JSON text.
    ToolUse { id: String, name: String, input: String, thought_signature: Option<String> },
    ToolResult { tool_use_id: String, content: String, is_error: Option<bool> },
}

/// A message body: plain text or a list of blocks.
#[derive(Debug, Clone)]
pub enum MessageContent {
    Text(String),
    Blocks(Vec<ContentBlock>),
}

/// One conversation message.
#[derive(Debug, Clone)]
pub struct Message {
    pub role: String,
    pub content: MessageContent,
}

/// One block of a model's reply.
#[derive(Debug, Clone)]
pub enum ResponseContentBlock {
    Text { text: String },
    /// A tool call; `input` is the call's arguments as JSON text.
    ToolUse { id: String, name: String, input: String, thought_signature: Option<String> },
}

/// Token counts reported with a reply.
#[derive(Debug, Clone, Copy)]
pub struct Usage {
    pub input_tokens: u32,
    pub output_tokens: u32,
    pub cache_read_input_tokens: u32,
    pub cache_creation_input_tokens: u32,
}

/// A model's reply.
#[derive(Debug, Clone)]
pub struct MessagesResponse {
    pub content: Vec<ResponseContentBlock>,
    pub stop_reason: Option<String>,
    pub usage: Option<Usage>,
}

/// Prompt-cache marker on a system block.
#[derive(Debug, Clone)]
pub struct CacheControl {
    pub control_type: String,
}

/// One block of a system prompt.
#[derive(Debug, Clone)]
pub struct SystemBlock {
    pub block_type: String,
    pub text: String,
    pub cache_control: Option<CacheControl>,
}

/// A system prompt: plain text or blocks.
#[derive(Debug, Clone)]
pub enum SystemContent {
    Text(String),
    Blocks(Vec<SystemBlock>),
}


/// A tool offered to the model: its name, description and JSON Schema for its input.
#[derive(Debug)]
pub struct ToolDefinition {
    pub name: String,
    pub description: String,
    pub input_schema: JsonValue,
}

/// The text content of a content block.
pub ghost enum BlockModel {
    Text(Seq<char>),
    Image { source_type: Seq<char>, media_type: Seq<char>, data: Seq<char> },
    ToolUse { id: Seq<char>, name: Seq<char>, input: Seq<char>, thought_signature: Option<Seq<char>> },
    ToolResult { tool_use_id: Seq<char>, content: Seq<char>, is_error: Option<bool> },
}

/// The text content of a message body.
pub ghost enum ContentModel {
    Text(Seq<char>),
    Blocks(Seq<BlockModel>),
}

/// The text content of a message.
pub ghost struct MessageModel {
    pub role: Seq<char>,
    pub content: ContentModel,
}

pub open spec fn opt_view(o: Option<String>) -> Option<Seq<char>> {
    match o {
        Some(s) => Some(s@),
        None => None,
    }
}

impl View for ContentBlock {
    type V = BlockModel;

    open spec fn view(&self) -> BlockModel {
        match self {
            ContentBlock::Text { text } => BlockModel::Text(text@),
            ContentBlock::Image { source } => BlockModel::Image {
                source_type: source.source_type@,
                media_type: source.media_type@,
                data: source.data@,
            },
            ContentBlock::ToolUse { id, name, input, thought_signature } => BlockModel::ToolUse {
                id: id@,
                name: name@,
                input: input@,
                thought_signature: opt_view(*thought_signature),
            },
            ContentBlock::ToolResult { tool_use_id, content, is_error } => BlockModel::ToolResult {
                tool_use_id: tool_use_id@,
                content: content@,
                is_error: *is_error,
            },
        }
    }
}

/// The models of a list of blocks.
pub open spec fn blocks_model(bs: Seq<ContentBlock>) -> Seq<BlockModel> {
    bs.map_values(|b: ContentBlock| b@)
}

impl View for MessageContent {
    type V = ContentModel;

    open spec fn view(&self) -> ContentModel {
        match self {
            MessageContent::Text(t) => ContentModel::Text(t@),
            MessageContent::Blocks(bs) => ContentModel::Blocks(blocks_model(bs@)),
        }
    }
}

impl View for Message {
    type V = MessageModel;

    open spec fn view(&self) -> MessageModel {
        MessageModel { role: self.role@, content: self.content@ }
    }
}

/// The models of a list of messages.
pub open spec fn messages_model(ms: Seq<Message>) -> Seq<MessageModel> {
    ms.map_values(|m: Message| m@)
}

/// The text content of a reply block.
pub ghost enum ResponseBlockModel {
    Text(Seq<char>),
    ToolUse { id: Seq<char>, name: Seq<char>, input: Seq<char>, thought_signature: Option<Seq<char>> },
}

impl View for ResponseContentBlock {
    type V = ResponseBlockModel;

    open spec fn view(&self) -> ResponseBlockModel {
        match self {
            ResponseContentBlock::Text { text } => ResponseBlockModel::Text(text@),
            ResponseContentBlock::ToolUse { id, name, input, thought_signature } => ResponseBlockModel::ToolUse {
                id: id@,
                name: name@,
                input: input@,
                thought_signature: opt_view(*thought_signature),
            },
        }
    }
}

/// The models of a list of reply blocks.
pub open spec fn response_blocks_model(bs: Seq<ResponseContentBlock>) -> Seq<ResponseBlockModel> {
    bs.map_values(|b: ResponseContentBlock| b@)
}

} // verus!
