//! Provider-independent logic of the language-model client: conversation
//! clean-up before a request, server-sent-event framing, stop-reason
//! normalisation, assembling a streamed reply, and the choices made when a
//! provider is configured. The HTTP exchanges themselves run outside the library.
use vstd::prelude::*;
use crate::claude::{
    blocks_model, messages_model, opt_view, response_blocks_model, BlockModel, CacheControl, ContentBlock,
    ContentModel, Message, MessageContent, MessageModel, MessagesResponse, ResponseBlockModel,
    ResponseContentBlock, SystemBlock, SystemContent, Usage,
};
use crate::json::{json_check, json_parse_error, JsonValue};
use crate::config::Config;
use crate::decimal::{decimal_seq, u64_decimal};
use crate::error::FinallyAValueBotError;
use std::collections::HashMap;
use crate::text::{
    byte_len, byte_len_capped, contains, contains_seq, find, find_seq, has_prefix, lemma_find_seq, lower_seq,
    lower_vec, starts_with, subvec as sub_chars, trim_seq, trim_vec, concat, append_str, append_vec, lemma_byte_len_prefix,
    trim_end_set, trim_end_set_vec, utf8_width,
    chars_of, first_in_set, first_in_set_from, join_lines, join_with_newlines, lemma_first_in_set_bounds,
    string_of, strings_view, strip_cr, subvec, vec_eq,
};

verus! {

broadcast use {vstd::string::group_string_axioms, vstd::std_specs::hash::group_hash_axioms};

// ---------------------------------------------------------------------------
// Conversation clean-up
// ---------------------------------------------------------------------------

/// Ids of the tool calls among `bs`, in order.
pub open spec fn block_tool_use_ids(bs: Seq<BlockModel>) -> Seq<Seq<char>>
    decreases bs.len(),
{
    if bs.len() == 0 {
        Seq::empty()
    } else {
        let rest = block_tool_use_ids(bs.drop_last());
        match bs.last() {
            BlockModel::ToolUse { id, .. } => rest.push(id),
            _ => rest,
        }
    }
}

/// The tool-call ids of one message: those of its blocks when it is an
/// assistant message with blocks, none otherwise.
pub open spec fn message_tool_use_ids(m: MessageModel) -> Seq<Seq<char>> {
    if m.role == "assistant"@ {
        match m.content {
            ContentModel::Blocks(bs) => block_tool_use_ids(bs),
            ContentModel::Text(_) => Seq::empty(),
        }
    } else {
        Seq::empty()
    }
}

/// Ids of every tool call made in an assistant message, in order.
pub open spec fn assistant_tool_use_ids(ms: Seq<MessageModel>) -> Seq<Seq<char>>
    decreases ms.len(),
{
    if ms.len() == 0 {
        Seq::empty()
    } else {
        assistant_tool_use_ids(ms.drop_last()) + message_tool_use_ids(ms.last())
    }
}

/// A block survives clean-up unless it is a tool result for an unknown call.
pub open spec fn keeps_block(b: BlockModel, known: Seq<Seq<char>>) -> bool {
    match b {
        BlockModel::ToolResult { tool_use_id, .. } => known.contains(tool_use_id),
        _ => true,
    }
}

/// The blocks of `bs` that survive clean-up, in order.
pub open spec fn kept_blocks(bs: Seq<BlockModel>, known: Seq<Seq<char>>) -> Seq<BlockModel>
    decreases bs.len(),
{
    if bs.len() == 0 {
        Seq::empty()
    } else {
        let rest = kept_blocks(bs.drop_last(), known);
        if keeps_block(bs.last(), known) {
            rest.push(bs.last())
        } else {
            rest
        }
    }
}

/// One message after clean-up: user block messages lose their orphaned tool
/// results and vanish when nothing is left; every other message is kept.
pub open spec fn cleaned_message(m: MessageModel, known: Seq<Seq<char>>) -> Option<MessageModel> {
    if m.role != "user"@ {
        Some(m)
    } else {
        match m.content {
            ContentModel::Text(_) => Some(m),
            ContentModel::Blocks(bs) => {
                let k = kept_blocks(bs, known);
                if k.len() == 0 {
                    None
                } else {
                    Some(MessageModel { role: m.role, content: ContentModel::Blocks(k) })
                }
            },
        }
    }
}

/// The messages of `ms` after clean-up against the ids `known`, in order.
pub open spec fn cleaned_messages(ms: Seq<MessageModel>, known: Seq<Seq<char>>) -> Seq<MessageModel>
    decreases ms.len(),
{
    if ms.len() == 0 {
        Seq::empty()
    } else {
        let rest = cleaned_messages(ms.drop_last(), known);
        match cleaned_message(ms.last(), known) {
            Some(m) => rest.push(m),
            None => rest,
        }
    }
}

/// A conversation with every tool result whose call does not appear in an
/// assistant message removed, and user messages left empty by that dropped.
pub open spec fn sanitized_conversation(ms: Seq<MessageModel>) -> Seq<MessageModel> {
    cleaned_messages(ms, assistant_tool_use_ids(ms))
}

/// No user message of `ms` has an empty block list or a tool result outside `known`.
pub open spec fn no_orphan_results(ms: Seq<MessageModel>, known: Seq<Seq<char>>) -> bool {
    forall|i: int| 0 <= i < ms.len() && (#[trigger] ms[i]).role == "user"@ ==> match ms[i].content {
        ContentModel::Blocks(bs) => bs.len() > 0 && forall|j: int| 0 <= j < bs.len() ==> keeps_block(#[trigger] bs[j], known),
        ContentModel::Text(_) => true,
    }
}

proof fn lemma_kept_blocks_keep(bs: Seq<BlockModel>, known: Seq<Seq<char>>)
    ensures
        forall|j: int| 0 <= j < kept_blocks(bs, known).len() ==> keeps_block(#[trigger] kept_blocks(bs, known)[j], known),
        kept_blocks(kept_blocks(bs, known), known) == kept_blocks(bs, known),
    decreases bs.len(),
{
    if bs.len() > 0 {
        lemma_kept_blocks_keep(bs.drop_last(), known);
        let r = kept_blocks(bs.drop_last(), known);
        if keeps_block(bs.last(), known) {
            let k = r.push(bs.last());
            assert(k.drop_last() =~= r);
            assert forall|j: int| 0 <= j < k.len() implies keeps_block(#[trigger] k[j], known) by {
                if j < r.len() {
                    assert(k[j] == r[j]);
                }
            }
        }
    }
}

proof fn lemma_user_role_not_assistant()
    ensures
        "user"@ != "assistant"@,
{
    reveal_strlit("user");
    reveal_strlit("assistant");
    assert("user"@.len() != "assistant"@.len());
}

proof fn lemma_cleaned_messages(ms: Seq<MessageModel>, known: Seq<Seq<char>>)
    ensures
        assistant_tool_use_ids(cleaned_messages(ms, known)) == assistant_tool_use_ids(ms),
        no_orphan_results(cleaned_messages(ms, known), known),
        cleaned_messages(cleaned_messages(ms, known), known) == cleaned_messages(ms, known),
        cleaned_messages(ms, known).len() <= ms.len(),
    decreases ms.len(),
{
    lemma_user_role_not_assistant();
    if ms.len() > 0 {
        let prev = ms.drop_last();
        lemma_cleaned_messages(prev, known);
        let r = cleaned_messages(prev, known);
        let m = ms.last();
        match cleaned_message(m, known) {
            Some(c) => {
                let out = r.push(c);
                assert(out.drop_last() =~= r);
                if m.role == "user"@ {
                    assert(message_tool_use_ids(c) =~= Seq::<Seq<char>>::empty());
                    assert(message_tool_use_ids(m) =~= Seq::<Seq<char>>::empty());
                    match m.content {
                        ContentModel::Blocks(bs) => {
                            lemma_kept_blocks_keep(bs, known);
                        },
                        ContentModel::Text(_) => {},
                    }
                }
                assert(assistant_tool_use_ids(out) =~= assistant_tool_use_ids(ms));
                assert(cleaned_message(c, known) == Some(c));
                assert forall|i: int| 0 <= i < out.len() && (#[trigger] out[i]).role == "user"@ implies match out[i].content {
                    ContentModel::Blocks(bs) => bs.len() > 0 && forall|j: int| 0 <= j < bs.len() ==> keeps_block(#[trigger] bs[j], known),
                    ContentModel::Text(_) => true,
                } by {
                    if i < r.len() {
                        assert(out[i] == r[i]);
                    }
                }
            },
            None => {
                assert(message_tool_use_ids(m) =~= Seq::<Seq<char>>::empty());
                assert(assistant_tool_use_ids(ms) =~= assistant_tool_use_ids(prev) + Seq::<Seq<char>>::empty());
            },
        }
    }
}

/// Clean-up leaves no orphaned tool result and no empty user message behind,
/// keeps every tool call, never lengthens the conversation, and changes nothing
/// when run a second time.
pub proof fn lemma_sanitize_messages_law(ms: Seq<MessageModel>)
    ensures
        assistant_tool_use_ids(sanitized_conversation(ms)) == assistant_tool_use_ids(ms),
        no_orphan_results(sanitized_conversation(ms), assistant_tool_use_ids(sanitized_conversation(ms))),
        sanitized_conversation(ms).len() <= ms.len(),
        sanitized_conversation(sanitized_conversation(ms)) == sanitized_conversation(ms),
{
    lemma_cleaned_messages(ms, assistant_tool_use_ids(ms));
}

/// Appends the ids of the tool calls among `bs` to `out`.
fn push_tool_use_ids(bs: &Vec<ContentBlock>, out: &mut Vec<String>)
    ensures
        strings_view(final(out)@) == strings_view(old(out)@) + block_tool_use_ids(blocks_model(bs@)),
{
    let ghost bm = blocks_model(bs@);
    let ghost start = strings_view(out@);
    let mut j: usize = 0;
    assert(block_tool_use_ids(bm.subrange(0, 0)) =~= Seq::<Seq<char>>::empty());
    assert(strings_view(out@) =~= start + Seq::<Seq<char>>::empty());
    while j < bs.len()
        invariant
            j <= bs.len(),
            bm == blocks_model(bs@),
            strings_view(out@) == start + block_tool_use_ids(bm.subrange(0, j as int)),
        decreases bs.len() - j,
    {
        let ghost sub = bm.subrange(0, j + 1);
        assert(sub.drop_last() =~= bm.subrange(0, j as int));
        assert(sub.last() == bs@[j as int]@);
        match &bs[j] {
            ContentBlock::ToolUse { id, .. } => {
                let c = id.clone();
                assert(block_tool_use_ids(sub) == block_tool_use_ids(bm.subrange(0, j as int)).push(id@));
                let ghost prev = out@;
                out.push(c);
                assert(strings_view(out@) =~= strings_view(prev).push(c@));
                assert(strings_view(out@) =~= start + block_tool_use_ids(sub));
            },
            _ => {
                assert(strings_view(out@) =~= start + block_tool_use_ids(sub));
            },
        }
        j += 1;
    }
    assert(bm.subrange(0, bm.len() as int) =~= bm);
}

/// Whether `s` is exactly the text `lit`.
pub(crate) fn str_is(s: &str, lit: &str) -> (r: bool)
    ensures
        r == (s@ == lit@),
{
    vec_eq(&chars_of(s), &chars_of(lit))
}

/// Ids of every tool call made in an assistant message, in order.
pub(crate) fn collect_tool_use_ids(messages: &Vec<Message>) -> (r: Vec<String>)
    ensures
        strings_view(r@) == assistant_tool_use_ids(messages_model(messages@)),
{
    let ghost mm = messages_model(messages@);
    let mut out: Vec<String> = Vec::new();
    let mut i: usize = 0;
    assert(strings_view(out@) =~= assistant_tool_use_ids(mm.subrange(0, 0)));
    while i < messages.len()
        invariant
            i <= messages.len(),
            mm == messages_model(messages@),
            strings_view(out@) == assistant_tool_use_ids(mm.subrange(0, i as int)),
        decreases messages.len() - i,
    {
        let ghost sub = mm.subrange(0, i + 1);
        assert(sub.drop_last() =~= mm.subrange(0, i as int));
        assert(sub.last() == messages@[i as int]@);
        let m = &messages[i];
        if str_is(m.role.as_str(), "assistant") {
            match &m.content {
                MessageContent::Blocks(bs) => {
                    push_tool_use_ids(bs, &mut out);
                },
                MessageContent::Text(_) => {
                    assert(strings_view(out@) =~= assistant_tool_use_ids(mm.subrange(0, i as int)) + Seq::<Seq<char>>::empty());
                },
            }
        } else {
            assert(strings_view(out@) =~= assistant_tool_use_ids(mm.subrange(0, i as int)) + Seq::<Seq<char>>::empty());
        }
        i += 1;
    }
    assert(mm.subrange(0, mm.len() as int) =~= mm);
    out
}

/// Whether `id` is one of `known`.
pub(crate) fn known_id(known: &Vec<String>, id: &str) -> (r: bool)
    ensures
        r == strings_view(known@).contains(id@),
{
    let idv = chars_of(id);
    let mut i: usize = 0;
    while i < known.len()
        invariant
            i <= known.len(),
            idv@ == id@,
            forall|k: int| 0 <= k < i ==> known@[k]@ != id@,
        decreases known.len() - i,
    {
        if vec_eq(&chars_of(known[i].as_str()), &idv) {
            assert(strings_view(known@)[i as int] == id@);
            return true;
        }
        i += 1;
    }
    assert(!strings_view(known@).contains(id@)) by {
        if strings_view(known@).contains(id@) {
            let k = choose|k: int| 0 <= k < strings_view(known@).len() && strings_view(known@)[k] == id@;
            assert(known@[k]@ == id@);
        }
    }
    false
}

/// The blocks that survive clean-up, in order.
fn keep_known_blocks(blocks: Vec<ContentBlock>, known: &Vec<String>) -> (r: Vec<ContentBlock>)
    ensures
        blocks_model(r@) == kept_blocks(blocks_model(blocks@), strings_view(known@)),
{
    let ghost bm = blocks_model(blocks@);
    let ghost kv = strings_view(known@);
    let mut rest = blocks;
    let mut out: Vec<ContentBlock> = Vec::new();
    let ghost mut k: int = 0;
    assert(blocks_model(out@) =~= kept_blocks(bm.subrange(0, 0), kv));
    assert(blocks_model(rest@) =~= bm.subrange(0, bm.len() as int));
    while rest.len() > 0
        invariant
            0 <= k <= bm.len(),
            kv == strings_view(known@),
            blocks_model(rest@) == bm.subrange(k, bm.len() as int),
            blocks_model(out@) == kept_blocks(bm.subrange(0, k), kv),
        decreases rest.len(),
    {
        let ghost before = rest@;
        assert(blocks_model(before).len() == before.len());
        let b = rest.remove(0);
        let ghost sub = bm.subrange(0, k + 1);
        assert(blocks_model(before)[0] == before[0]@);
        assert(sub.drop_last() =~= bm.subrange(0, k));
        assert(sub.last() == b@);
        let keep = match &b {
            ContentBlock::ToolResult { tool_use_id, .. } => known_id(known, tool_use_id.as_str()),
            _ => true,
        };
        assert(keep == keeps_block(b@, kv));
        if keep {
            out.push(b);
        }
        assert(blocks_model(out@) =~= kept_blocks(sub, kv));
        assert forall|i: int| 0 <= i < rest@.len() implies #[trigger] rest@[i]@ == bm[k + 1 + i] by {
            assert(rest@[i] == before[i + 1]);
            assert(blocks_model(before)[i + 1] == bm[k + 1 + i]);
        }
        assert(blocks_model(rest@) =~= bm.subrange(k + 1, bm.len() as int));
        proof {
            k = k + 1;
        }
    }
    assert(bm.subrange(0, bm.len() as int) =~= bm);
    out
}

pub open spec fn opt_message_model(o: Option<Message>) -> Option<MessageModel> {
    match o {
        Some(m) => Some(m@),
        None => None,
    }
}

/// One message after clean-up against `known`.
fn clean_message(msg: Message, known: &Vec<String>) -> (r: Option<Message>)
    ensures
        opt_message_model(r) == cleaned_message(msg@, strings_view(known@)),
{
    if !str_is(msg.role.as_str(), "user") {
        return Some(msg);
    }
    let role = msg.role;
    match msg.content {
        MessageContent::Blocks(blocks) => {
            let kept = keep_known_blocks(blocks, known);
            if kept.len() == 0 {
                None
            } else {
                Some(Message { role, content: MessageContent::Blocks(kept) })
            }
        },
        MessageContent::Text(t) => Some(Message { role, content: MessageContent::Text(t) }),
    }
}

/// Removes tool results whose call does not appear in any assistant message
/// (as happens when compaction separates a call from its result), and drops
/// user messages that are left with no blocks. Other messages pass unchanged,
/// in order.
pub fn sanitize_messages(messages: Vec<Message>) -> (r: Vec<Message>)
    ensures
        messages_model(r@) == sanitized_conversation(messages_model(messages@)),
        r@.len() <= messages@.len(),
        sanitized_conversation(messages_model(r@)) == messages_model(r@),
{
    proof {
        lemma_sanitize_messages_law(messages_model(messages@));
    }
    let known = collect_tool_use_ids(&messages);
    let ghost mm = messages_model(messages@);
    let ghost kv = strings_view(known@);
    let mut rest = messages;
    let mut out: Vec<Message> = Vec::new();
    let ghost mut k: int = 0;
    assert(messages_model(out@) =~= cleaned_messages(mm.subrange(0, 0), kv));
    assert(messages_model(rest@) =~= mm.subrange(0, mm.len() as int));
    while rest.len() > 0
        invariant
            0 <= k <= mm.len(),
            kv == strings_view(known@),
            kv == assistant_tool_use_ids(mm),
            messages_model(rest@) == mm.subrange(k, mm.len() as int),
            messages_model(out@) == cleaned_messages(mm.subrange(0, k), kv),
        decreases rest.len(),
    {
        let ghost before = rest@;
        assert(messages_model(before).len() == before.len());
        let m = rest.remove(0);
        let ghost sub = mm.subrange(0, k + 1);
        assert(messages_model(before)[0] == before[0]@);
        assert(sub.drop_last() =~= mm.subrange(0, k));
        assert(sub.last() == m@);
        match clean_message(m, &known) {
            Some(c) => {
                out.push(c);
            },
            None => {},
        }
        assert(messages_model(out@) =~= cleaned_messages(sub, kv));
        assert forall|i: int| 0 <= i < rest@.len() implies #[trigger] rest@[i]@ == mm[k + 1 + i] by {
            assert(rest@[i] == before[i + 1]);
            assert(messages_model(before)[i + 1] == mm[k + 1 + i]);
        }
        assert(messages_model(rest@) =~= mm.subrange(k + 1, mm.len() as int));
        proof {
            k = k + 1;
        }
    }
    assert(mm.subrange(0, mm.len() as int) =~= mm);
    out
}


// ---------------------------------------------------------------------------
// Server-sent events
// ---------------------------------------------------------------------------

/// Position of the first `':'` of a line, or its length.
pub open spec fn colon_index(line: Seq<char>) -> int {
    first_in_set(line, seq![':'])
}

/// The field name of an event-stream line: the text before its first `':'`,
/// or the whole line.
pub open spec fn sse_field(line: Seq<char>) -> Seq<char> {
    line.subrange(0, colon_index(line))
}

/// The field value of an event-stream line: the text after its first `':'`
/// without one leading space, or nothing when the line has no `':'`.
pub open spec fn sse_value(line: Seq<char>) -> Seq<char> {
    let i = colon_index(line);
    if i < line.len() {
        let v = line.subrange(i + 1, line.len() as int);
        if v.len() > 0 && v[0] == ' ' {
            v.drop_first()
        } else {
            v
        }
    } else {
        Seq::empty()
    }
}

/// What one line does to the data lines gathered so far: a blank line ends the
/// event (their newline-joined text, when there is any), a line starting with
/// `':'` is a comment, a `data` field adds its value, other fields are ignored.
pub open spec fn sse_line(data: Seq<Seq<char>>, line: Seq<char>) -> (Seq<Seq<char>>, Option<Seq<char>>) {
    if line.len() == 0 {
        if data.len() == 0 {
            (data, None)
        } else {
            (Seq::empty(), Some(join_lines(data)))
        }
    } else if line[0] == ':' {
        (data, None)
    } else if sse_field(line) == "data"@ {
        (data.push(sse_value(line)), None)
    } else {
        (data, None)
    }
}

/// The state of an event-stream reader: the unfinished line and the data lines
/// of the unfinished event.
#[verifier::ext_equal]
pub ghost struct SseState {
    pub pending: Seq<char>,
    pub data: Seq<Seq<char>>,
}

pub open spec fn sse_initial() -> SseState {
    SseState { pending: Seq::empty(), data: Seq::empty() }
}

pub open spec fn opt_event(e: Option<Seq<char>>) -> Seq<Seq<char>> {
    match e {
        Some(x) => seq![x],
        None => Seq::empty(),
    }
}

/// One character of the stream: a newline completes the pending line (one
/// carriage return before it dropped), any other character extends it.
pub open spec fn sse_step(st: SseState, c: char) -> (SseState, Seq<Seq<char>>) {
    if c == '\n' {
        let (d, e) = sse_line(st.data, strip_cr(st.pending));
        (SseState { pending: Seq::empty(), data: d }, opt_event(e))
    } else {
        (SseState { pending: st.pending.push(c), data: st.data }, Seq::empty())
    }
}

/// The state after reading `s`, and the events completed on the way, in order.
pub open spec fn sse_feed(st: SseState, s: Seq<char>) -> (SseState, Seq<Seq<char>>)
    decreases s.len(),
{
    if s.len() == 0 {
        (st, Seq::empty())
    } else {
        let (a, e1) = sse_feed(st, s.drop_last());
        let (b, e2) = sse_step(a, s.last());
        (b, e1 + e2)
    }
}

/// The events the end of the stream completes: the pending line is read as a
/// last line, then the pending event is ended.
pub open spec fn sse_finish(st: SseState) -> Seq<Seq<char>> {
    let (d, e1) = if st.pending.len() > 0 {
        sse_line(st.data, strip_cr(st.pending))
    } else {
        (st.data, None)
    };
    let e2 = if d.len() > 0 {
        Some(join_lines(d))
    } else {
        None
    };
    opt_event(e1) + opt_event(e2)
}

/// Reading a stream in two pieces yields the same events and the same state as
/// reading it in one: how the network splits the stream does not matter.
pub proof fn lemma_sse_feed_split(st: SseState, a: Seq<char>, b: Seq<char>)
    ensures
        sse_feed(st, a + b).0 == sse_feed(sse_feed(st, a).0, b).0,
        sse_feed(st, a + b).1 == sse_feed(st, a).1 + sse_feed(sse_feed(st, a).0, b).1,
    decreases b.len(),
{
    if b.len() == 0 {
        assert(a + b =~= a);
    } else {
        lemma_sse_feed_split(st, a, b.drop_last());
        assert((a + b).drop_last() =~= a + b.drop_last());
        assert((a + b).last() == b.last());
        let mid = sse_feed(st, a);
        let (x, e1) = sse_feed(mid.0, b.drop_last());
        let (y, e2) = sse_step(x, b.last());
        assert(sse_feed(st, a + b).1 =~= mid.1 + (e1 + e2));
    }
}

/// Reassembles server-sent events from chunks of an HTTP body: each completed
/// event is the newline-joined text of its `data` lines.
#[derive(Debug)]
pub struct SseEventParser {
    pending: Vec<char>,
    data_lines: Vec<String>,
}

impl SseEventParser {
    pub closed spec fn state(&self) -> SseState {
        SseState { pending: self.pending@, data: strings_view(self.data_lines@) }
    }

    /// A reader that has read nothing.
    pub fn new() -> (p: Self)
        ensures
            p.state() == sse_initial(),
    {
        let p = SseEventParser { pending: Vec::new(), data_lines: Vec::new() };
        assert(p.state() =~= sse_initial());
        p
    }

    /// Ends the pending event: its data lines joined by newlines, if it has any.
    fn flush_event(&mut self) -> (r: Option<String>)
        ensures
            final(self).pending@ == old(self).pending@,
            old(self).data_lines.len() == 0 ==> r is None && strings_view(final(self).data_lines@) == strings_view(old(self).data_lines@),
            old(self).data_lines.len() > 0 ==> r is Some && r.unwrap()@ == join_lines(strings_view(old(self).data_lines@))
                && final(self).data_lines@.len() == 0,
    {
        if self.data_lines.len() == 0 {
            return None;
        }
        let data = join_with_newlines(&self.data_lines);
        self.data_lines = Vec::new();
        Some(data)
    }

    /// Reads one complete line.
    fn handle_line(&mut self, line: &Vec<char>) -> (r: Option<String>)
        ensures
            final(self).pending@ == old(self).pending@,
            strings_view(final(self).data_lines@) == sse_line(strings_view(old(self).data_lines@), line@).0,
            opt_string_view(r) == sse_line(strings_view(old(self).data_lines@), line@).1,
    {
        let ghost d = strings_view(self.data_lines@);
        if line.len() == 0 {
            let r = self.flush_event();
            assert(strings_view(self.data_lines@) =~= sse_line(d, line@).0);
            return r;
        }
        if line[0] == ':' {
            return None;
        }
        let colon = vec![':'];
        let i = first_in_set_from(line, 0, &colon);
        proof {
            assert(line@.subrange(0, line@.len() as int) =~= line@);
            assert(colon@ =~= seq![':']);
            lemma_first_in_set_bounds(line@, colon@);
            assert(i as int == colon_index(line@));
        }
        let field = subvec(line, 0, i);
        let value = if i < line.len() {
            let v = subvec(line, i + 1, line.len());
            if v.len() > 0 && v[0] == ' ' {
                subvec(&v, 1, v.len())
            } else {
                v
            }
        } else {
            Vec::new()
        };
        proof {
            if i < line.len() {
                let v = line@.subrange(i + 1, line@.len() as int);
                if v.len() > 0 && v[0] == ' ' {
                    assert(v.subrange(1, v.len() as int) =~= v.drop_first());
                }
            }
        }
        assert(value@ =~= sse_value(line@));
        if vec_eq(&field, &chars_of("data")) {
            let ghost prev = self.data_lines@;
            self.data_lines.push(string_of(&value));
            assert(strings_view(self.data_lines@) =~= strings_view(prev).push(value@));
        }
        None
    }

    /// Reads one character.
    fn step(&mut self, c: char) -> (r: Option<String>)
        ensures
            final(self).state() == sse_step(old(self).state(), c).0,
            opt_event(opt_string_view(r)) == sse_step(old(self).state(), c).1,
    {
        if c == '\n' {
            let mut line: Vec<char> = Vec::new();
            std::mem::swap(&mut line, &mut self.pending);
            if line.len() > 0 && line[line.len() - 1] == '\r' {
                line.pop();
            }
            assert(line@ =~= strip_cr(old(self).pending@));
            let r = self.handle_line(&line);
            assert(self.state() =~= sse_step(old(self).state(), c).0);
            r
        } else {
            self.pending.push(c);
            assert(self.state() =~= sse_step(old(self).state(), c).0);
            None
        }
    }

    /// Reads a chunk of the stream and returns the events it completes, in order.
    pub fn push_chunk(&mut self, chunk: &str) -> (events: Vec<String>)
        ensures
            final(self).state() == sse_feed(old(self).state(), chunk@).0,
            strings_view(events@) == sse_feed(old(self).state(), chunk@).1,
    {
        let cv = chars_of(chunk);
        let ghost st0 = self.state();
        let mut events: Vec<String> = Vec::new();
        let mut i: usize = 0;
        assert(cv@.subrange(0, 0) =~= Seq::<char>::empty());
        assert(strings_view(events@) =~= Seq::<Seq<char>>::empty());
        while i < cv.len()
            invariant
                i <= cv.len(),
                cv@ == chunk@,
                self.state() == sse_feed(st0, cv@.subrange(0, i as int)).0,
                strings_view(events@) == sse_feed(st0, cv@.subrange(0, i as int)).1,
            decreases cv.len() - i,
        {
            let ghost sub = cv@.subrange(0, i + 1);
            assert(sub.drop_last() =~= cv@.subrange(0, i as int));
            assert(sub.last() == cv@[i as int]);
            let ghost prev = events@;
            let r = self.step(cv[i]);
            match r {
                Some(e) => {
                    events.push(e);
                },
                None => {},
            }
            assert(strings_view(events@) =~= strings_view(prev) + opt_event(opt_string_view(r)));
            i += 1;
        }
        assert(cv@.subrange(0, cv@.len() as int) =~= chunk@);
        events
    }

    /// Ends the stream: reads the pending line, ends the pending event, and
    /// returns the events that completes. The reader is left empty.
    pub fn finish(&mut self) -> (events: Vec<String>)
        ensures
            strings_view(events@) == sse_finish(old(self).state()),
            final(self).state() == sse_initial(),
    {
        let mut events: Vec<String> = Vec::new();
        let ghost st = self.state();
        if self.pending.len() > 0 {
            let mut line: Vec<char> = Vec::new();
            std::mem::swap(&mut line, &mut self.pending);
            if line.len() > 0 && line[line.len() - 1] == '\r' {
                line.pop();
            }
            assert(line@ =~= strip_cr(st.pending));
            match self.handle_line(&line) {
                Some(e) => {
                    events.push(e);
                },
                None => {},
            }
        }
        let ghost mid = events@;
        match self.flush_event() {
            Some(e) => {
                events.push(e);
            },
            None => {},
        }
        let ghost sd = if st.pending.len() > 0 { sse_line(st.data, strip_cr(st.pending)).0 } else { st.data };
        assert(strings_view(events@) =~= sse_finish(st));
        if self.data_lines.len() > 0 {
            self.data_lines = Vec::new();
        }
        assert(self.state() =~= sse_initial());
        events
    }
}

impl Default for SseEventParser {
    fn default() -> (p: Self)
        ensures
            p.state() == sse_initial(),
    {
        SseEventParser::new()
    }
}

pub open spec fn opt_string_view(o: Option<String>) -> Option<Seq<char>> {
    match o {
        Some(s) => Some(s@),
        None => None,
    }
}

// ---------------------------------------------------------------------------
// Request options and stop reasons
// ---------------------------------------------------------------------------

/// Per-request options (OpenAI-compatible tiers use `tool_choice`).
#[derive(Debug, Clone)]
pub struct LlmSendOptions {
    /// OpenAI `tool_choice`: `"required"`, `"auto"`, `"none"`, or a function name.
    pub tool_choice: Option<String>,
}

impl Default for LlmSendOptions {
    fn default() -> (r: Self)
        ensures
            r.tool_choice is None,
    {
        LlmSendOptions { tool_choice: None }
    }
}

impl LlmSendOptions {
    /// The options with `tool_choice` set to `choice`.
    pub fn with_tool_choice(self, choice: &str) -> (r: Self)
        ensures
            r.tool_choice is Some,
            r.tool_choice.unwrap()@ == choice@,
    {
        LlmSendOptions { tool_choice: Some(String::from_str(choice)) }
    }
}

/// The provider-independent stop reason for a provider's finish reason: a
/// missing reason, `end_turn`, and `stop` or `completed` in any ASCII case end
/// the turn; `tool_use`/`tool_calls` ask for tools; `max_tokens`/`length` hit
/// the limit; `clarification`, `ask_user` and `needs_clarification` ask the
/// user; any other reason is kept as it is.
pub open spec fn normalized_stop_reason(reason: Option<Seq<char>>) -> Seq<char> {
    match reason {
        None => "end_turn"@,
        Some(r) => if r == "tool_use"@ || r == "tool_calls"@ {
            "tool_use"@
        } else if r == "max_tokens"@ || r == "length"@ {
            "max_tokens"@
        } else if r == "end_turn"@ {
            "end_turn"@
        } else if lower_seq(r) == lower_seq("stop"@) || lower_seq(r) == lower_seq("completed"@) {
            "end_turn"@
        } else if r == "clarification"@ || r == "ask_user"@ || r == "needs_clarification"@ {
            "ask_clarification"@
        } else {
            r
        },
    }
}

fn is_lit(v: &Vec<char>, lit: &str) -> (r: bool)
    ensures
        r == (v@ == lit@),
{
    vec_eq(v, &chars_of(lit))
}

fn same_ignoring_ascii_case(v: &Vec<char>, lit: &str) -> (r: bool)
    ensures
        r == (lower_seq(v@) == lower_seq(lit@)),
{
    vec_eq(&lower_vec(v), &lower_vec(&chars_of(lit)))
}

/// Maps a provider's finish reason to the stop reason the agent loop uses.
pub fn normalize_stop_reason(reason: Option<String>) -> (r: Option<String>)
    ensures
        r is Some,
        r.unwrap()@ == normalized_stop_reason(opt_view(reason)),
{
    match reason {
        None => Some(String::from_str("end_turn")),
        Some(r) => {
            let v = chars_of(r.as_str());
            if is_lit(&v, "tool_use") || is_lit(&v, "tool_calls") {
                Some(String::from_str("tool_use"))
            } else if is_lit(&v, "max_tokens") || is_lit(&v, "length") {
                Some(String::from_str("max_tokens"))
            } else if is_lit(&v, "end_turn") {
                Some(String::from_str("end_turn"))
            } else if same_ignoring_ascii_case(&v, "stop") || same_ignoring_ascii_case(&v, "completed") {
                Some(String::from_str("end_turn"))
            } else if is_lit(&v, "clarification") || is_lit(&v, "ask_user") || is_lit(&v, "needs_clarification") {
                Some(String::from_str("ask_clarification"))
            } else {
                Some(r)
            }
        },
    }
}

/// The stop reason of an OpenAI-compatible reply: tool calls win over the
/// finish reason (some servers report `stop` while returning tool calls).
pub fn oai_stop_reason_from_content(finish_reason: Option<&str>, has_tool_calls: bool) -> (r: Option<String>)
    ensures
        r is Some,
        has_tool_calls ==> r.unwrap()@ == "tool_use"@,
        !has_tool_calls ==> r.unwrap()@ == normalized_stop_reason(
            match finish_reason {
                Some(f) => Some(f@),
                None => None,
            },
        ),
{
    if has_tool_calls {
        return Some(String::from_str("tool_use"));
    }
    match finish_reason {
        Some(f) => normalize_stop_reason(Some(String::from_str(f))),
        None => normalize_stop_reason(None),
    }
}

// ---------------------------------------------------------------------------
// Usage and streamed replies
// ---------------------------------------------------------------------------

/// `n` saturated to `u32`.
pub open spec fn saturate_u32(n: u64) -> u32 {
    if n <= u32::MAX as u64 {
        n as u32
    } else {
        u32::MAX
    }
}

/// The non-negative integer member `key` of `v`.
pub open spec fn member_u64(v: JsonValue, key: Seq<char>) -> Option<u64> {
    match v.spec_get(key) {
        Some(x) => x.spec_as_u64(),
        None => None,
    }
}

/// Token usage read from a usage object: `input_tokens` is required; the output
/// count is `output_tokens`, else `completion_tokens`, else zero; both are
/// saturated to `u32`; cache counts are zero.
pub open spec fn usage_of(v: JsonValue) -> Option<Usage> {
    match member_u64(v, "input_tokens"@) {
        None => None,
        Some(i) => Some(
            Usage {
                input_tokens: saturate_u32(i),
                output_tokens: saturate_u32(
                    match member_u64(v, "output_tokens"@) {
                        Some(o) => o,
                        None => match member_u64(v, "completion_tokens"@) {
                            Some(o) => o,
                            None => 0,
                        },
                    },
                ),
                cache_read_input_tokens: 0,
                cache_creation_input_tokens: 0,
            },
        ),
    }
}

fn member_u64_exec(v: &JsonValue, key: &str) -> (r: Option<u64>)
    ensures
        r == member_u64(*v, key@),
{
    match v.get(key) {
        Some(x) => x.as_u64(),
        None => None,
    }
}

fn saturate(n: u64) -> (r: u32)
    ensures
        r == saturate_u32(n),
{
    if n <= u32::MAX as u64 {
        n as u32
    } else {
        u32::MAX
    }
}

/// Reads token usage from a provider's usage object.
pub fn usage_from_json(v: &JsonValue) -> (r: Option<Usage>)
    ensures
        r == usage_of(*v),
{
    let input = match member_u64_exec(v, "input_tokens") {
        Some(i) => i,
        None => return None,
    };
    let output = match member_u64_exec(v, "output_tokens") {
        Some(o) => o,
        None => match member_u64_exec(v, "completion_tokens") {
            Some(o) => o,
            None => 0,
        },
    };
    Some(
        Usage {
            input_tokens: saturate(input),
            output_tokens: saturate(output),
            cache_read_input_tokens: 0,
            cache_creation_input_tokens: 0,
        },
    )
}

/// The input of a streamed tool call as JSON text: the trimmed accumulated
/// text when it is one JSON document, else the empty object `{}`.
pub open spec fn tool_input_text(input_json: Seq<char>) -> Seq<char> {
    let t = trim_seq(input_json);
    if t.len() == 0 || json_parse_error(t) is Some {
        "{}"@
    } else {
        t
    }
}

/// Normalises the accumulated argument text of a streamed tool call.
pub fn parse_tool_input(input_json: &str) -> (r: String)
    ensures
        r@ == tool_input_text(input_json@),
{
    let t = string_of(&trim_vec(&chars_of(input_json)));
    if t.as_str().is_empty() {
        return String::from_str("{}");
    }
    match json_check(t.as_str()) {
        Some(_) => String::from_str("{}"),
        None => t,
    }
}

/// A tool call being assembled from stream deltas.
#[derive(Debug, Clone)]
pub struct StreamToolUseBlock {
    pub id: String,
    pub name: String,
    pub input_json: String,
    pub thought_signature: Option<String>,
}

/// The reply blocks a stream index contributes: its text, when non-empty, then
/// its tool call, when there is one.
pub open spec fn stream_block_at(
    i: usize,
    texts: Map<usize, String>,
    tools: Map<usize, StreamToolUseBlock>,
) -> Seq<ResponseBlockModel> {
    let a = if texts.contains_key(i) && texts[i]@.len() > 0 {
        seq![ResponseBlockModel::Text(texts[i]@)]
    } else {
        Seq::empty()
    };
    let b = if tools.contains_key(i) {
        seq![
            ResponseBlockModel::ToolUse {
                id: tools[i].id@,
                name: tools[i].name@,
                input: tool_input_text(tools[i].input_json@),
                thought_signature: opt_view(tools[i].thought_signature),
            },
        ]
    } else {
        Seq::empty()
    };
    a + b
}

/// The reply blocks of the stream indexes in `order`, in that order.
pub open spec fn stream_blocks(
    order: Seq<usize>,
    texts: Map<usize, String>,
    tools: Map<usize, StreamToolUseBlock>,
) -> Seq<ResponseBlockModel>
    decreases order.len(),
{
    if order.len() == 0 {
        Seq::empty()
    } else {
        stream_blocks(order.drop_last(), texts, tools) + stream_block_at(order.last(), texts, tools)
    }
}

pub open spec fn has_tool_use(bs: Seq<ResponseBlockModel>) -> bool {
    exists|j: int| 0 <= j < bs.len() && bs[j] is ToolUse
}

/// The blocks of a streamed reply: those of `stream_blocks`, or one empty text
/// block when there are none.
pub open spec fn stream_reply_blocks(
    order: Seq<usize>,
    texts: Map<usize, String>,
    tools: Map<usize, StreamToolUseBlock>,
) -> Seq<ResponseBlockModel> {
    let b = stream_blocks(order, texts, tools);
    if b.len() == 0 {
        seq![ResponseBlockModel::Text(Seq::empty())]
    } else {
        b
    }
}

/// The stop reason of a streamed reply: `tool_use` when it holds a tool call,
/// else the normalised reported reason.
pub open spec fn stream_reply_stop(
    order: Seq<usize>,
    texts: Map<usize, String>,
    tools: Map<usize, StreamToolUseBlock>,
    stop: Option<Seq<char>>,
) -> Seq<char> {
    if has_tool_use(stream_blocks(order, texts, tools)) {
        "tool_use"@
    } else {
        normalized_stop_reason(stop)
    }
}

pub(crate) fn clone_opt_string(o: &Option<String>) -> (r: Option<String>)
    ensures
        opt_view(r) == opt_view(*o),
{
    match o {
        Some(s) => Some(s.clone()),
        None => None,
    }
}

/// Assembles a reply from what a stream delivered: for each index in the order
/// it first appeared, its text (when non-empty) and then its tool call.
pub fn build_stream_response(
    ordered_indexes: Vec<usize>,
    text_blocks: HashMap<usize, String>,
    tool_blocks: HashMap<usize, StreamToolUseBlock>,
    stop_reason: Option<String>,
    usage: Option<Usage>,
) -> (r: MessagesResponse)
    ensures
        response_blocks_model(r.content@) == stream_reply_blocks(ordered_indexes@, text_blocks@, tool_blocks@),
        r.stop_reason is Some,
        r.stop_reason.unwrap()@ == stream_reply_stop(
            ordered_indexes@,
            text_blocks@,
            tool_blocks@,
            opt_view(stop_reason),
        ),
        r.usage == usage,
{
    let ghost order = ordered_indexes@;
    let ghost texts = text_blocks@;
    let ghost tools = tool_blocks@;
    let mut content: Vec<ResponseContentBlock> = Vec::new();
    let mut has_tool = false;
    let mut k: usize = 0;
    assert(response_blocks_model(content@) =~= stream_blocks(order.subrange(0, 0), texts, tools));
    while k < ordered_indexes.len()
        invariant
            k <= ordered_indexes.len(),
            order == ordered_indexes@,
            texts == text_blocks@,
            tools == tool_blocks@,
            response_blocks_model(content@) == stream_blocks(order.subrange(0, k as int), texts, tools),
            has_tool == has_tool_use(response_blocks_model(content@)),
        decreases ordered_indexes.len() - k,
    {
        let index = ordered_indexes[k];
        let ghost sub = order.subrange(0, k + 1);
        assert(sub.drop_last() =~= order.subrange(0, k as int));
        assert(sub.last() == index);
        let ghost before = response_blocks_model(content@);
        match text_blocks.get(&index) {
            Some(text) => {
                if !text.as_str().is_empty() {
                    content.push(ResponseContentBlock::Text { text: text.clone() });
                } else {
                    assert(text@.len() == 0);
                }
            },
            None => {},
        }
        let ghost mid = response_blocks_model(content@);
        match tool_blocks.get(&index) {
            Some(tool) => {
                content.push(
                    ResponseContentBlock::ToolUse {
                        id: tool.id.clone(),
                        name: tool.name.clone(),
                        input: parse_tool_input(tool.input_json.as_str()),
                        thought_signature: clone_opt_string(&tool.thought_signature),
                    },
                );
                has_tool = true;
            },
            None => {},
        }
        assert(response_blocks_model(content@) =~= before + stream_block_at(index, texts, tools));
        proof {
            let now = response_blocks_model(content@);
            if has_tool {
                if !has_tool_use(before) {
                    assert(now[now.len() - 1] is ToolUse);
                }
                if has_tool_use(before) {
                    let j = choose|j: int| 0 <= j < before.len() && before[j] is ToolUse;
                    assert(now[j] == before[j]);
                }
            } else {
                assert(!tools.contains_key(index));
                if has_tool_use(now) {
                    let j = choose|j: int| 0 <= j < now.len() && now[j] is ToolUse;
                    if j < before.len() {
                        assert(now[j] == before[j]);
                    } else {
                        assert(now[j] is Text);
                    }
                }
            }
        }
        k += 1;
    }
    assert(order.subrange(0, order.len() as int) =~= order);
    if content.len() == 0 {
        content.push(ResponseContentBlock::Text { text: String::new() });
        assert(response_blocks_model(content@) =~= stream_reply_blocks(order, texts, tools));
    }
    let stop = if has_tool {
        Some(String::from_str("tool_use"))
    } else {
        normalize_stop_reason(stop_reason)
    };
    MessagesResponse { content, stop_reason: stop, usage }
}

/// The system prompt as sent to Anthropic: prompts longer than 1024 bytes go as
/// one text block marked for ephemeral prompt caching, shorter ones as text.
pub fn build_cached_system(text: &str) -> (r: SystemContent)
    ensures
        byte_len(text@) > 1024 ==> (r is Blocks && r->Blocks_0@.len() == 1
            && r->Blocks_0@[0].block_type@ == "text"@ && r->Blocks_0@[0].text@ == text@
            && r->Blocks_0@[0].cache_control is Some
            && r->Blocks_0@[0].cache_control.unwrap().control_type@ == "ephemeral"@),
        byte_len(text@) <= 1024 ==> (r is Text && r->Text_0@ == text@),
{
    let n = byte_len_capped(&chars_of(text), 1024);
    if n > 1024 {
        let block = SystemBlock {
            block_type: String::from_str("text"),
            text: String::from_str(text),
            cache_control: Some(CacheControl { control_type: String::from_str("ephemeral") }),
        };
        let mut blocks: Vec<SystemBlock> = Vec::new();
        blocks.push(block);
        SystemContent::Blocks(blocks)
    } else {
        SystemContent::Text(String::from_str(text))
    }
}

// ---------------------------------------------------------------------------
// OpenAI-compatible request details
// ---------------------------------------------------------------------------

/// Models that take `max_completion_tokens` instead of `max_tokens` on Chat
/// Completions: after trimming and ASCII lower-casing, names starting with
/// `gpt-5`, `o1`, `o3` or `o4`, or containing `grok-4.20` or `-reasoning`.
pub open spec fn uses_max_completion_tokens(model: Seq<char>) -> bool {
    let m = lower_seq(trim_seq(model));
    has_prefix(m, "gpt-5"@) || has_prefix(m, "o1"@) || has_prefix(m, "o3"@) || has_prefix(m, "o4"@)
        || contains_seq(m, "grok-4.20"@) || contains_seq(m, "-reasoning"@)
}

/// Whether the model's token limit goes in `max_completion_tokens`.
pub fn oai_uses_max_completion_tokens(model: &str) -> (r: bool)
    ensures
        r == uses_max_completion_tokens(model@),
{
    let m = lower_vec(&trim_vec(&chars_of(model)));
    starts_with(&m, &chars_of("gpt-5")) || starts_with(&m, &chars_of("o1")) || starts_with(&m, &chars_of("o3"))
        || starts_with(&m, &chars_of("o4")) || contains(&m, &chars_of("grok-4.20")) || contains(
        &m,
        &chars_of("-reasoning"),
    )
}

/// Whether an error body asks for `max_completion_tokens`.
pub fn oai_error_wants_max_completion_tokens(body: &str) -> (r: bool)
    ensures
        r == contains_seq(body@, "max_completion_tokens"@),
{
    contains(&chars_of(body), &chars_of("max_completion_tokens"))
}

pub open spec fn tools_open_tag() -> Seq<char> {
    seq!['<', 't', 'o', 'o', 'l', 's', '>']
}

pub open spec fn tools_close_tag() -> Seq<char> {
    seq!['<', '/', 't', 'o', 'o', 'l', 's', '>']
}

/// `s` with every `<tools>…</tools>` span removed, leftmost first, searching
/// again from the start after each removal; an opening tag with no closing tag
/// after it stops the removal.
pub open spec fn strip_tools_spans(s: Seq<char>) -> Seq<char>
    decreases s.len(),
{
    let i = find_seq(s, tools_open_tag());
    if i < 0 || i > s.len() {
        s
    } else {
        let j = find_seq(s.subrange(i, s.len() as int), tools_close_tag());
        if j < 0 || i + j + tools_close_tag().len() > s.len() {
            s
        } else {
            strip_tools_spans(s.subrange(0, i) + s.subrange(i + j + tools_close_tag().len(), s.len() as int))
        }
    }
}

/// Removes `<tools>…</tools>` markup that some local models put in their text,
/// then trims the result.
pub fn strip_tools_markup_from_content(text: &str) -> (r: String)
    ensures
        r@ == trim_seq(strip_tools_spans(text@)),
{
    let open = chars_of("<tools>");
    let close = chars_of("</tools>");
    proof {
        reveal_strlit("<tools>");
        reveal_strlit("</tools>");
        assert(open@ =~= tools_open_tag());
        assert(close@ =~= tools_close_tag());
    }
    let mut out = chars_of(text);
    loop
        invariant
            open@ == tools_open_tag(),
            close@ == tools_close_tag(),
            strip_tools_spans(out@) == strip_tools_spans(text@),
        ensures
            strip_tools_spans(out@) == out@,
            strip_tools_spans(out@) == strip_tools_spans(text@),
        decreases out.len(),
    {
        let start = match find(&out, &open) {
            Some(i) => i,
            None => break,
        };
        proof {
            lemma_find_seq(out@, open@);
        }
        let tail = sub_chars(&out, start, out.len());
        let rel = match find(&tail, &close) {
            Some(j) => j,
            None => break,
        };
        proof {
            lemma_find_seq(tail@, close@);
        }
        let end = start + rel + close.len();
        let head = sub_chars(&out, 0, start);
        let rest = sub_chars(&out, end, out.len());
        out = concat(&head, &rest);
    }
    string_of(&trim_vec(&out))
}

/// The trimmed insides of the `<tools>…</tools>` spans of `s`, scanning left to
/// right and going on after each closing tag; an opening tag with no closing tag
/// after it ends the scan.
pub open spec fn tools_spans(s: Seq<char>) -> Seq<Seq<char>>
    decreases s.len(),
{
    let i = find_seq(s, tools_open_tag());
    if i < 0 || i + tools_open_tag().len() > s.len() {
        Seq::empty()
    } else {
        let after = s.subrange(i + tools_open_tag().len(), s.len() as int);
        let j = find_seq(after, tools_close_tag());
        if j < 0 || j + tools_close_tag().len() > after.len() {
            Seq::empty()
        } else {
            seq![trim_seq(after.subrange(0, j))] + tools_spans(
                after.subrange(j + tools_close_tag().len(), after.len() as int),
            )
        }
    }
}

/// The texts inside the `<tools>…</tools>` spans some local models write
/// instead of tool calls, trimmed, in order.
pub fn embedded_tool_spans(text: &str) -> (r: Vec<String>)
    ensures
        strings_view(r@) == tools_spans(text@),
{
    let open = chars_of("<tools>");
    let close = chars_of("</tools>");
    proof {
        reveal_strlit("<tools>");
        reveal_strlit("</tools>");
        assert(open@ =~= tools_open_tag());
        assert(close@ =~= tools_close_tag());
    }
    let mut rest = chars_of(text);
    let mut out: Vec<String> = Vec::new();
    assert(strings_view(out@) =~= Seq::<Seq<char>>::empty());
    loop
        invariant
            open@ == tools_open_tag(),
            close@ == tools_close_tag(),
            strings_view(out@) + tools_spans(rest@) == tools_spans(text@),
        ensures
            strings_view(out@) == tools_spans(text@),
        decreases rest.len(),
    {
        let start = match find(&rest, &open) {
            Some(i) => i,
            None => {
                assert(strings_view(out@) + Seq::<Seq<char>>::empty() =~= strings_view(out@));
                break;
            },
        };
        proof {
            lemma_find_seq(rest@, open@);
        }
        let after = sub_chars(&rest, start + open.len(), rest.len());
        let rel = match find(&after, &close) {
            Some(j) => j,
            None => {
                assert(strings_view(out@) + Seq::<Seq<char>>::empty() =~= strings_view(out@));
                break;
            },
        };
        proof {
            lemma_find_seq(after@, close@);
        }
        let inner = trim_vec(&sub_chars(&after, 0, rel));
        let ghost before = strings_view(out@);
        out.push(string_of(&inner));
        let next = sub_chars(&after, rel + close.len(), after.len());
        assert(strings_view(out@) =~= before.push(inner@));
        assert(before + tools_spans(rest@) =~= strings_view(out@) + tools_spans(next@));
        rest = next;
    }
    out
}

// ---------------------------------------------------------------------------
// Error previews
// ---------------------------------------------------------------------------

/// The first `k` characters of `s` take exactly `n` bytes.
pub open spec fn is_byte_prefix(s: Seq<char>, k: int, n: int) -> bool {
    0 <= k <= s.len() && byte_len(s.subrange(0, k)) == n
}

/// Whether cutting `s` after `n` bytes is possible: it is no longer than that,
/// or `n` bytes end on a character boundary.
pub open spec fn can_cut_at(s: Seq<char>, n: int) -> bool {
    byte_len(s) <= n || exists|k: int| is_byte_prefix(s, k, n)
}

proof fn lemma_byte_len_grows(s: Seq<char>, a: int, b: int)
    requires
        0 <= a < b <= s.len(),
    ensures
        byte_len(s.subrange(0, a)) < byte_len(s.subrange(0, b)),
{
    let t = s.subrange(0, b);
    lemma_byte_len_prefix(t, a + 1);
    assert(t.subrange(0, a + 1) =~= s.subrange(0, a + 1));
    assert(s.subrange(0, a + 1).drop_last() =~= s.subrange(0, a));
}

/// A response body for an error message: kept whole when it is at most
/// `max_len` bytes, else its first `max_len` bytes followed by `...`.
pub fn llm_error_body_preview(body: &str, max_len: usize) -> (r: String)
    requires
        can_cut_at(body@, max_len as int),
    ensures
        byte_len(body@) <= max_len ==> r@ == body@,
        byte_len(body@) > max_len ==> forall|k: int| #[trigger] is_byte_prefix(body@, k, max_len as int)
            ==> r@ == body@.subrange(0, k) + "..."@,
{
    let v = chars_of(body);
    let mut i: usize = 0;
    let mut total: usize = 0;
    let mut crossed = false;
    assert(v@.subrange(0, 0) =~= Seq::<char>::empty());
    while i < v.len() && !crossed
        invariant
            i <= v.len(),
            total == byte_len(v@.subrange(0, i as int)),
            total <= max_len,
            crossed ==> i < v.len() && total + utf8_width(v@[i as int]) > max_len,
        decreases v.len() - i + (if crossed { 0int } else { 1int }),
    {
        let u = v[i] as u32;
        let w: usize = if u < 0x80 { 1 } else if u < 0x800 { 2 } else if u < 0x10000 { 3 } else { 4 };
        if w > max_len - total {
            crossed = true;
        } else {
            assert(v@.subrange(0, i + 1).drop_last() =~= v@.subrange(0, i as int));
            total = total + w;
            i += 1;
        }
    }
    if !crossed {
        assert(v@.subrange(0, v@.len() as int) =~= body@);
        return String::from_str(body);
    }
    proof {
        assert(v@.subrange(0, i + 1).drop_last() =~= v@.subrange(0, i as int));
        assert(byte_len(v@.subrange(0, i + 1)) > max_len);
        lemma_byte_len_prefix(body@, i + 1);
        assert(v@.subrange(0, v@.len() as int) =~= body@);
        let k = choose|k: int| is_byte_prefix(body@, k, max_len as int);
        if k < i {
            lemma_byte_len_grows(body@, k, i as int);
        } else if k > i {
            if k > i + 1 {
                lemma_byte_len_grows(body@, i + 1, k);
            }
        }
        assert(k == i);
        assert forall|k2: int| #[trigger] is_byte_prefix(body@, k2, max_len as int) implies k2 == i by {
            if k2 < i {
                lemma_byte_len_grows(body@, k2, i as int);
            } else if k2 > i + 1 {
                lemma_byte_len_grows(body@, i + 1, k2);
            }
        }
    }
    let mut out = sub_chars(&v, 0, i);
    append_str(&mut out, "...");
    string_of(&out)
}

/// The error detail of an OpenAI-compatible error body.
#[derive(Debug, Clone)]
pub struct OaiErrorDetail {
    pub message: String,
    pub code: Option<String>,
    pub error_type: Option<String>,
}

/// The parenthesised `type=…, code=…` part of an error message, empty when
/// neither is known.
pub open spec fn oai_error_extra(error_type: Option<Seq<char>>, code: Option<Seq<char>>) -> Seq<char> {
    match (error_type, code) {
        (None, None) => Seq::empty(),
        (Some(t), None) => " (type="@ + t + ")"@,
        (None, Some(c)) => " (code="@ + c + ")"@,
        (Some(t), Some(c)) => " (type="@ + t + ", code="@ + c + ")"@,
    }
}

/// `HTTP <status>: <message><extra>. Response: <preview>`.
pub open spec fn oai_error_text(
    status: u16,
    message: Seq<char>,
    error_type: Option<Seq<char>>,
    code: Option<Seq<char>>,
    preview: Seq<char>,
) -> Seq<char> {
    "HTTP "@ + decimal_seq(status as nat) + ": "@ + message + oai_error_extra(error_type, code) + ". Response: "@
        + preview
}

/// The message for a failed OpenAI-compatible request: status, the server's
/// message, its type and code when given, and the body cut to 400 bytes.
pub fn format_oai_error(status: u16, err: &OaiErrorDetail, body: &str) -> (r: String)
    requires
        can_cut_at(body@, 400),
    ensures
        byte_len(body@) <= 400 ==> r@ == oai_error_text(status, err.message@, opt_view(err.error_type), opt_view(err.code), body@),
        byte_len(body@) > 400 ==> forall|k: int| #[trigger] is_byte_prefix(body@, k, 400) ==> r@ == oai_error_text(
            status,
            err.message@,
            opt_view(err.error_type),
            opt_view(err.code),
            body@.subrange(0, k) + "..."@,
        ),
{
    let preview = llm_error_body_preview(body, 400);
    let mut out = chars_of("HTTP ");
    let digits = u64_decimal(status as u64);
    append_vec(&mut out, &digits);
    append_str(&mut out, ": ");
    append_str(&mut out, err.message.as_str());
    let ghost head = out@;
    match (&err.error_type, &err.code) {
        (None, None) => {},
        (Some(t), None) => {
            append_str(&mut out, " (type=");
            append_str(&mut out, t.as_str());
            append_str(&mut out, ")");
        },
        (None, Some(c)) => {
            append_str(&mut out, " (code=");
            append_str(&mut out, c.as_str());
            append_str(&mut out, ")");
        },
        (Some(t), Some(c)) => {
            append_str(&mut out, " (type=");
            append_str(&mut out, t.as_str());
            append_str(&mut out, ", code=");
            append_str(&mut out, c.as_str());
            append_str(&mut out, ")");
        },
    }
    assert(out@ =~= head + oai_error_extra(opt_view(err.error_type), opt_view(err.code)));
    append_str(&mut out, ". Response: ");
    append_str(&mut out, preview.as_str());
    string_of(&out)
}

// ---------------------------------------------------------------------------
// Provider configuration
// ---------------------------------------------------------------------------

/// Which client serves a configured provider.
#[derive(Debug, Clone, Copy, PartialEq, Eq, Structural)]
pub enum ProviderKind {
    Anthropic,
    Gemini,
    OpenAiCompatible,
}

/// The client for a provider name, compared after trimming and lower-casing:
/// `anthropic`, `google` or `gemini`, and OpenAI-compatible for anything else.
/// (ASCII lower-casing decides these names as full Unicode lower-casing does:
/// no other character lower-cases to a letter of them.)
pub open spec fn spec_provider_kind(name: Seq<char>) -> ProviderKind {
    let n = lower_seq(trim_seq(name));
    if n == "anthropic"@ {
        ProviderKind::Anthropic
    } else if n == "google"@ || n == "gemini"@ {
        ProviderKind::Gemini
    } else {
        ProviderKind::OpenAiCompatible
    }
}

/// The client that serves `llm_provider`.
pub fn provider_kind(llm_provider: &str) -> (r: ProviderKind)
    ensures
        r == spec_provider_kind(llm_provider@),
{
    let n = lower_vec(&trim_vec(&chars_of(llm_provider)));
    if is_lit(&n, "anthropic") {
        ProviderKind::Anthropic
    } else if is_lit(&n, "google") || is_lit(&n, "gemini") {
        ProviderKind::Gemini
    } else {
        ProviderKind::OpenAiCompatible
    }
}

/// `Some` of the trimmed text when it is not empty.
pub open spec fn nonempty_trimmed(o: Option<Seq<char>>) -> Option<Seq<char>> {
    match o {
        Some(s) => if trim_seq(s).len() > 0 {
            Some(trim_seq(s))
        } else {
            None
        },
        None => None,
    }
}

pub(crate) fn nonempty_trimmed_exec(o: &Option<String>) -> (r: Option<String>)
    ensures
        opt_view(r) == nonempty_trimmed(opt_view(*o)),
{
    match o {
        Some(s) => {
            let t = trim_vec(&chars_of(s.as_str()));
            if t.len() > 0 {
                Some(string_of(&t))
            } else {
                None
            }
        },
        None => None,
    }
}

/// `local · <model> @ <base_url>`.
pub open spec fn local_label(base_url: Seq<char>, model: Seq<char>) -> Seq<char> {
    "local · "@ + model + " @ "@ + base_url
}

/// `perplexity · <model>`.
pub open spec fn perplexity_label(model: Seq<char>) -> Seq<char> {
    "perplexity · "@ + model
}

/// The label of the evaluator backend: the local endpoint (base URL, model)
/// when the multi-model settings resolve one, else Perplexity when its key is
/// set, else nothing.
pub open spec fn evaluator_label(config: Config, local_evaluator: Option<(Seq<char>, Seq<char>)>) -> Seq<char> {
    match local_evaluator {
        Some((base_url, model)) => local_label(base_url, model),
        None => if nonempty_trimmed(opt_view(config.perplexity_api_key)) is Some {
            perplexity_label(config.evaluator_model@)
        } else {
            Seq::empty()
        },
    }
}

pub open spec fn endpoint_view(e: Option<(&str, &str)>) -> Option<(Seq<char>, Seq<char>)> {
    match e {
        Some((b, m)) => Some((b@, m@)),
        None => None,
    }
}

fn local_label_exec(base_url: &str, model: &str) -> (r: String)
    ensures
        r@ == local_label(base_url@, model@),
{
    let mut out = chars_of("local · ");
    append_str(&mut out, model);
    append_str(&mut out, " @ ");
    append_str(&mut out, base_url);
    string_of(&out)
}

fn perplexity_label_exec(model: &str) -> (r: String)
    ensures
        r@ == perplexity_label(model@),
{
    let mut out = chars_of("perplexity · ");
    append_str(&mut out, model);
    string_of(&out)
}

/// Human-readable label of the evaluator backend for history and the UI.
/// `local_evaluator` is the (base URL, model) endpoint the multi-model settings
/// resolve for the evaluator, if any.
pub fn resolve_evaluator_provider_label(config: &Config, local_evaluator: Option<(&str, &str)>) -> (r: String)
    ensures
        r@ == evaluator_label(*config, endpoint_view(local_evaluator)),
{
    match local_evaluator {
        Some((base_url, model)) => local_label_exec(base_url, model),
        None => {
            if nonempty_trimmed_exec(&config.perplexity_api_key).is_some() {
                perplexity_label_exec(config.evaluator_model.as_str())
            } else {
                String::new()
            }
        },
    }
}

/// Output token cap of evaluator calls.
pub const EVALUATOR_MAX_TOKENS: u32 = 512;

/// Request timeout of evaluator calls, in seconds.
pub const EVALUATOR_TIMEOUT_SECS: u64 = 120;

/// The client settings chosen for the evaluator.
#[derive(Debug, Clone)]
pub struct EvaluatorPlan {
    pub llm_provider: String,
    pub api_key: String,
    pub model: String,
    pub base_url: String,
    pub max_tokens: u32,
    pub label: String,
}

/// The message when no evaluator backend is configured.
pub open spec fn no_evaluator_text() -> Seq<char> {
    "No evaluator provider: configure local multimodel (MULTIMODEL_LOCAL_* or tier URLs) or set PERPLEXITY_API_KEY"@
}

/// What the evaluator plan is for a configuration and a resolved local endpoint
/// (see `plan_evaluator_provider`).
pub open spec fn evaluator_plan_outcome(
    config: Config,
    ep: Option<(Seq<char>, Seq<char>)>,
    r: Result<EvaluatorPlan, FinallyAValueBotError>,
) -> bool {
        match (ep, nonempty_trimmed(opt_view(config.perplexity_api_key))) {
            (Some((base_url, model)), _) => r is Ok && r->Ok_0.llm_provider@ == "llama"@
                && r->Ok_0.api_key@.len() == 0 && r->Ok_0.model@ == trim_seq(model)
                && r->Ok_0.base_url@ == base_url && r->Ok_0.max_tokens == EVALUATOR_MAX_TOKENS
                && r->Ok_0.label@ == local_label(base_url, model),
            (None, Some(key)) => r is Ok && r->Ok_0.llm_provider@ == "openai"@ && r->Ok_0.api_key@ == key
                && r->Ok_0.model@ == config.evaluator_model@ && r->Ok_0.base_url@ == config.evaluator_base_url@
                && r->Ok_0.max_tokens == EVALUATOR_MAX_TOKENS
                && r->Ok_0.label@ == perplexity_label(config.evaluator_model@),
            (None, None) => r is Err && r->Err_0 is Config && r->Err_0->Config_0@ == no_evaluator_text(),
        }
}

/// The label shown for the evaluator is the label of the provider it is built
/// with, never empty; when no evaluator can be built the label is empty.
pub proof fn lemma_evaluator_label_matches_plan(
    config: Config,
    ep: Option<(Seq<char>, Seq<char>)>,
    r: Result<EvaluatorPlan, FinallyAValueBotError>,
)
    requires
        evaluator_plan_outcome(config, ep, r),
    ensures
        match r {
            Ok(p) => p.label@ == evaluator_label(config, ep) && p.label@.len() > 0,
            Err(_) => evaluator_label(config, ep).len() == 0,
        },
{
    reveal_strlit("local · ");
    reveal_strlit("perplexity · ");
}

/// Chooses the evaluator backend: the local OpenAI-compatible endpoint when one
/// is resolved (provider `llama`, no key, the trimmed model), else Perplexity
/// through the OpenAI-compatible client (the trimmed key, the evaluator model and
/// base URL); both capped at `EVALUATOR_MAX_TOKENS`. Fails with a configuration
/// error when neither is available.
pub fn plan_evaluator_provider(config: &Config, local_evaluator: Option<(&str, &str)>) -> (r: Result<
    EvaluatorPlan,
    FinallyAValueBotError,
>)
    ensures
        evaluator_plan_outcome(*config, endpoint_view(local_evaluator), r),
{
    match local_evaluator {
        Some((base_url, model)) => {
            return Ok(
                EvaluatorPlan {
                    llm_provider: String::from_str("llama"),
                    api_key: String::new(),
                    model: string_of(&trim_vec(&chars_of(model))),
                    base_url: String::from_str(base_url),
                    max_tokens: EVALUATOR_MAX_TOKENS,
                    label: local_label_exec(base_url, model),
                },
            );
        },
        None => {},
    }
    match nonempty_trimmed_exec(&config.perplexity_api_key) {
        Some(key) => Ok(
            EvaluatorPlan {
                llm_provider: String::from_str("openai"),
                api_key: key,
                model: config.evaluator_model.clone(),
                base_url: config.evaluator_base_url.clone(),
                max_tokens: EVALUATOR_MAX_TOKENS,
                label: perplexity_label_exec(config.evaluator_model.as_str()),
            },
        ),
        None => Err(
            FinallyAValueBotError::Config(
                String::from_str(
                    "No evaluator provider: configure local multimodel (MULTIMODEL_LOCAL_* or tier URLs) or set PERPLEXITY_API_KEY",
                ),
            ),
        ),
    }
}

/// The base URL of an OpenAI-compatible provider: the configured one when set
/// and not blank (trimmed), else the provider's catalogue default, else the
/// OpenAI API.
pub open spec fn spec_oai_base_url(config: Config, catalog_default: Option<Seq<char>>) -> Seq<char> {
    match nonempty_trimmed(opt_view(config.llm_base_url)) {
        Some(u) => u,
        None => match catalog_default {
            Some(d) => d,
            None => "https://api.openai.com/v1"@,
        },
    }
}

/// The base URL of an OpenAI-compatible provider. `catalog_default` is the
/// catalogue's default URL for `config.llm_provider`, if it has one.
pub fn oai_resolve_base_url(config: &Config, catalog_default: Option<&str>) -> (r: String)
    ensures
        r@ == spec_oai_base_url(
            *config,
            match catalog_default {
                Some(d) => Some(d@),
                None => None,
            },
        ),
{
    match nonempty_trimmed_exec(&config.llm_base_url) {
        Some(u) => u,
        None => match catalog_default {
            Some(d) => String::from_str(d),
            None => String::from_str("https://api.openai.com/v1"),
        },
    }
}

/// The chat-completions endpoint under a base URL (trailing slashes removed).
pub open spec fn spec_chat_url(base: Seq<char>) -> Seq<char> {
    trim_end_set(base, seq!['/']) + "/chat/completions"@
}

/// The chat-completions endpoint under `base`.
pub fn oai_chat_url(base: &str) -> (r: String)
    ensures
        r@ == spec_chat_url(base@),
{
    let slash = vec!['/'];
    assert(slash@ =~= seq!['/']);
    let mut out = trim_end_set_vec(&chars_of(base), &slash);
    append_str(&mut out, "/chat/completions");
    string_of(&out)
}


// ---------------------------------------------------------------------------
// Model listings of OpenAI-compatible servers
// ---------------------------------------------------------------------------

/// The string `id`s of the entries of a `data` listing, in order.
pub open spec fn data_model_ids(items: Seq<JsonValue>) -> Seq<Seq<char>>
    decreases items.len(),
{
    if items.len() == 0 {
        Seq::empty()
    } else {
        let rest = data_model_ids(items.drop_last());
        match crate::stream::member_str(items.last(), "id"@) {
            Some(id) => rest.push(id),
            None => rest,
        }
    }
}

/// The ids of a `models` listing: an entry's string `id`, else the entry itself
/// when it is a string.
pub open spec fn models_model_ids(items: Seq<JsonValue>) -> Seq<Seq<char>>
    decreases items.len(),
{
    if items.len() == 0 {
        Seq::empty()
    } else {
        let rest = models_model_ids(items.drop_last());
        match crate::stream::member_str(items.last(), "id"@) {
            Some(id) => rest.push(id),
            None => match items.last().spec_as_str() {
                Some(id) => rest.push(id),
                None => rest,
            },
        }
    }
}

/// The ids a `/models` reply lists: those under `data` when there are any,
/// else those under `models`.
pub open spec fn listed_ids(v: JsonValue) -> Seq<Seq<char>> {
    let d = match v.spec_get("data"@) {
        Some(x) => match x.spec_as_array() {
            Some(a) => data_model_ids(a),
            None => Seq::empty(),
        },
        None => Seq::empty(),
    };
    if d.len() > 0 {
        d
    } else {
        match v.spec_get("models"@) {
            Some(x) => match x.spec_as_array() {
                Some(a) => models_model_ids(a),
                None => Seq::empty(),
            },
            None => Seq::empty(),
        }
    }
}

fn collect_listed(items: &Vec<JsonValue>, bare_strings: bool, out: &mut Vec<Vec<char>>)
    requires
        crate::text::strictly_ascending(old(out)@.map_values(|v: Vec<char>| v@)),
    ensures
        crate::text::strictly_ascending(final(out)@.map_values(|v: Vec<char>| v@)),
        final(out)@.map_values(|v: Vec<char>| v@).to_set() == old(out)@.map_values(|v: Vec<char>| v@).to_set()
            + (if bare_strings {
            models_model_ids(items@)
        } else {
            data_model_ids(items@)
        }).to_set(),
{
    let ghost start = out@.map_values(|v: Vec<char>| v@).to_set();
    let mut i: usize = 0;
    assert(items@.subrange(0, 0) =~= Seq::<JsonValue>::empty());
    assert(start + Seq::<Seq<char>>::empty().to_set() =~= start);
    while i < items.len()
        invariant
            i <= items.len(),
            crate::text::strictly_ascending(out@.map_values(|v: Vec<char>| v@)),
            out@.map_values(|v: Vec<char>| v@).to_set() == start + (if bare_strings {
                models_model_ids(items@.subrange(0, i as int))
            } else {
                data_model_ids(items@.subrange(0, i as int))
            }).to_set(),
        decreases items.len() - i,
    {
        let ghost sub = items@.subrange(0, i + 1);
        assert(sub.drop_last() =~= items@.subrange(0, i as int));
        assert(sub.last() == items@[i as int]);
        let ghost prev = if bare_strings {
            models_model_ids(items@.subrange(0, i as int))
        } else {
            data_model_ids(items@.subrange(0, i as int))
        };
        let e = &items[i];
        let id = match crate::stream::member_str_exec(e, "id") {
            Some(id) => Some(id),
            None => if bare_strings {
                match e.as_str() {
                    Some(t) => Some(String::from_str(t)),
                    None => None,
                }
            } else {
                None
            },
        };
        match id {
            Some(x) => {
                let ghost xv = x@;
                insert_sorted_text_into(out, chars_of(x.as_str()));
                proof { prev.lemma_push_to_set_commute(xv); }
                assert(start + prev.push(xv).to_set() =~= (start + prev.to_set()).insert(xv));
            },
            None => {},
        }
        i += 1;
    }
    assert(items@.subrange(0, items@.len() as int) =~= items@);
}

fn insert_sorted_text_into(out: &mut Vec<Vec<char>>, x: Vec<char>)
    requires
        crate::text::strictly_ascending(old(out)@.map_values(|v: Vec<char>| v@)),
    ensures
        crate::text::strictly_ascending(final(out)@.map_values(|v: Vec<char>| v@)),
        final(out)@.map_values(|v: Vec<char>| v@).to_set() == old(out)@.map_values(|v: Vec<char>| v@).to_set().insert(x@),
{
    crate::text::insert_sorted_text(out, x);
}

/// The model ids a `/models` reply lists (under `data`, else under `models`),
/// sorted and without repeats.
pub fn listed_model_ids(v: &JsonValue) -> (r: Vec<String>)
    ensures
        crate::text::strictly_ascending(strings_view(r@)),
        strings_view(r@).to_set() == listed_ids(*v).to_set(),
{
    let mut out: Vec<Vec<char>> = Vec::new();
    assert(out@.map_values(|w: Vec<char>| w@) =~= Seq::<Seq<char>>::empty());
    let ghost d = match v.spec_get("data"@) {
        Some(x) => match x.spec_as_array() {
            Some(a) => data_model_ids(a),
            None => Seq::<Seq<char>>::empty(),
        },
        None => Seq::<Seq<char>>::empty(),
    };
    let data = match v.get("data") {
        Some(x) => x.as_array(),
        None => None,
    };
    match data {
        Some(a) => {
            collect_listed(a, false, &mut out);
            assert(Seq::<Seq<char>>::empty().to_set() + d.to_set() =~= d.to_set());
        },
        None => {
            assert(d =~= Seq::<Seq<char>>::empty());
        },
    }
    assert(out@.map_values(|w: Vec<char>| w@).to_set() =~= d.to_set());
    if out.len() == 0 {
        assert(out@.map_values(|w: Vec<char>| w@) =~= Seq::<Seq<char>>::empty());
        assert(d.len() == 0) by {
            if d.len() > 0 {
                assert(d.to_set().contains(d[0]));
            }
        }
        let ghost e = match v.spec_get("models"@) {
            Some(x) => match x.spec_as_array() {
                Some(a) => models_model_ids(a),
                None => Seq::<Seq<char>>::empty(),
            },
            None => Seq::<Seq<char>>::empty(),
        };
        let models = match v.get("models") {
            Some(x) => x.as_array(),
            None => None,
        };
        match models {
            Some(a) => {
                collect_listed(a, true, &mut out);
                assert(Seq::<Seq<char>>::empty().to_set() + e.to_set() =~= e.to_set());
            },
            None => {
                assert(e =~= Seq::<Seq<char>>::empty());
            },
        }
        assert(out@.map_values(|w: Vec<char>| w@).to_set() =~= e.to_set());
    } else {
        let ghost m = out@.map_values(|w: Vec<char>| w@);
        assert(m[0] == out@[0]@);
        assert(m.to_set().contains(m[0]));
    }
    let ghost m = out@.map_values(|w: Vec<char>| w@);
    let mut r: Vec<String> = Vec::new();
    let mut k: usize = 0;
    while k < out.len()
        invariant
            k <= out.len(),
            m == out@.map_values(|w: Vec<char>| w@),
            strings_view(r@) == m.subrange(0, k as int),
        decreases out.len() - k,
    {
        let t = string_of(&out[k]);
        assert(t@ == m[k as int]);
        let ghost before = strings_view(r@);
        r.push(t);
        assert(strings_view(r@) =~= before.push(t@));
        assert(m.subrange(0, k + 1) =~= m.subrange(0, k as int).push(m[k as int]));
        k += 1;
    }
    assert(strings_view(r@) =~= m);
    r
}

/// When a `/models` reply has a non-empty `data` list whose string `id`s do
/// not include the trimmed `model` (itself not empty): the first eight of
/// those ids, for the message. `None` otherwise.
pub open spec fn unlisted_model(v: JsonValue, model: Seq<char>) -> Option<Seq<Seq<char>>> {
    match v.spec_get("data"@) {
        Some(x) => match x.spec_as_array() {
            Some(a) => {
                let ids = data_model_ids(a);
                if a.len() > 0 && trim_seq(model).len() > 0 && !ids.contains(trim_seq(model)) {
                    Some(ids.take(if ids.len() < 8 { ids.len() as int } else { 8 }))
                } else {
                    None
                }
            },
            None => None,
        },
        None => None,
    }
}

/// Checks that a probed server lists `model`; see `unlisted_model`.
pub fn model_not_listed(v: &JsonValue, model: &str) -> (r: Option<Vec<String>>)
    ensures
        match (r, unlisted_model(*v, model@)) {
            (Some(x), Some(y)) => strings_view(x@) == y,
            (None, None) => true,
            _ => false,
        },
{
    let items = match v.get("data") {
        Some(x) => match x.as_array() {
            Some(a) => a,
            None => return None,
        },
        None => return None,
    };
    let m = trim_vec(&chars_of(model));
    if items.len() == 0 || m.len() == 0 {
        return None;
    }
    let ghost all = data_model_ids(items@);
    let mut ids: Vec<String> = Vec::new();
    let mut found = false;
    let mut i: usize = 0;
    assert(items@.subrange(0, 0) =~= Seq::<JsonValue>::empty());
    while i < items.len()
        invariant
            i <= items.len(),
            m@ == trim_seq(model@),
            strings_view(ids@) == data_model_ids(items@.subrange(0, i as int)),
            found == data_model_ids(items@.subrange(0, i as int)).contains(m@),
        decreases items.len() - i,
    {
        let ghost sub = items@.subrange(0, i + 1);
        assert(sub.drop_last() =~= items@.subrange(0, i as int));
        assert(sub.last() == items@[i as int]);
        let ghost before = strings_view(ids@);
        match crate::stream::member_str_exec(&items[i], "id") {
            Some(id) => {
                let idc = chars_of(id.as_str());
                if vec_eq(&idc, &m) {
                    found = true;
                }
                let ghost iv = id@;
                ids.push(id);
                assert(strings_view(ids@) =~= before.push(iv));
                assert(before.push(iv).contains(m@) == (before.contains(m@) || iv == m@)) by {
                    if before.push(iv).contains(m@) {
                        let k = choose|k: int| 0 <= k < before.push(iv).len() && before.push(iv)[k] == m@;
                        if k < before.len() {
                            assert(before[k] == m@);
                        }
                    }
                    if before.contains(m@) {
                        let k = choose|k: int| 0 <= k < before.len() && before[k] == m@;
                        assert(before.push(iv)[k] == m@);
                    }
                    if iv == m@ {
                        assert(before.push(iv)[before.len() as int] == m@);
                    }
                }
            },
            None => {},
        }
        i += 1;
    }
    assert(items@.subrange(0, items@.len() as int) =~= items@);
    if found {
        return None;
    }
    let n: usize = if ids.len() < 8 { ids.len() } else { 8 };
    let mut out: Vec<String> = Vec::new();
    let mut k: usize = 0;
    while k < n
        invariant
            k <= n <= ids.len(),
            strings_view(out@) == strings_view(ids@).take(k as int),
        decreases n - k,
    {
        let ghost before = strings_view(out@);
        let t = ids[k].clone();
        assert(t@ == ids@[k as int]@);
        let ghost tv = t@;
        out.push(t);
        assert(strings_view(out@) =~= before.push(tv));
        assert(strings_view(ids@).take(k + 1) =~= strings_view(ids@).take(k as int).push(tv));
        k += 1;
    }
    Some(out)
}

/// The model ids a `/models` reply lists, read from its body text: sorted and each
/// once, as `listed_model_ids` reads them; a body that is not JSON is the error
/// `Invalid models JSON: ` and the parser's message.
pub fn listed_model_ids_text(text: &str) -> (r: Result<Vec<String>, String>)
    ensures
        match crate::json::json_parsed(text@) {
            Ok(m) => r matches Ok(ids) && crate::text::strictly_ascending(strings_view(ids@)) && (exists|v: JsonValue|
                #![trigger listed_ids(v)]
                v@ == m && strings_view(ids@).to_set() == listed_ids(v).to_set()),
            Err(e) => r matches Err(msg) && msg@ == "Invalid models JSON: "@ + e,
        },
{
    match crate::json::json_parse(text) {
        Ok(v) => {
            let ids = listed_model_ids(&v);
            assert(strings_view(ids@).to_set() == listed_ids(v).to_set());
            Ok(ids)
        },
        Err(e) => {
            let mut m = chars_of("Invalid models JSON: ");
            crate::text::append_str(&mut m, e.as_str());
            Err(crate::text::string_of(&m))
        },
    }
}

/// The listed models when a `/models` reply, read from its body text, does not
/// list `model` (see `model_not_listed`); `None` as well when the body is not JSON.
pub fn model_not_listed_text(text: &str, model: &str) -> (r: Option<Vec<String>>)
    ensures
        match crate::json::json_parsed(text@) {
            Ok(m) => exists|v: JsonValue|
                #![trigger unlisted_model(v, model@)]
                v@ == m && match (r, unlisted_model(v, model@)) {
                    (Some(x), Some(y)) => strings_view(x@) == y,
                    (None, None) => true,
                    _ => false,
                },
            Err(_) => r is None,
        },
{
    match crate::json::json_parse(text) {
        Ok(v) => {
            let r = model_not_listed(&v, model);
            assert(match (r, unlisted_model(v, model@)) {
                (Some(x), Some(y)) => strings_view(x@) == y,
                (None, None) => true,
                _ => false,
            });
            r
        },
        Err(_) => None,
    }
}

} // verus!
