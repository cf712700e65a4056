//! Assembling a reply from the events of a streamed OpenAI-compatible or
//! Anthropic response. Each event arrives as a parsed JSON value; the text
//! pieces to show the user as they come are handed back to the caller.
use vstd::prelude::*;
use crate::claude::{opt_view, response_blocks_model, MessagesResponse, ResponseBlockModel, ResponseContentBlock, Usage};
use crate::json::{json_parse, json_parsed, json_text, json_text_of, JsonModel, JsonValue};
use crate::llm::{
    clone_opt_string, has_tool_use, member_u64, normalized_stop_reason, oai_stop_reason_from_content,
    parse_tool_input, tool_input_text, usage_from_json, usage_of, StreamToolUseBlock,
};
use crate::text::{append_str, chars_of, string_of};
use std::collections::HashMap;

verus! {

broadcast use {vstd::string::group_string_axioms, vstd::std_specs::hash::group_hash_axioms};

/// The text content of a tool call being assembled.
pub ghost struct ToolModel {
    pub id: Seq<char>,
    pub name: Seq<char>,
    pub input_json: Seq<char>,
    pub thought_signature: Option<Seq<char>>,
}

pub open spec fn tool_model(t: StreamToolUseBlock) -> ToolModel {
    ToolModel {
        id: t.id@,
        name: t.name@,
        input_json: t.input_json@,
        thought_signature: opt_view(t.thought_signature),
    }
}

/// A call nothing is known of yet.
pub open spec fn empty_tool() -> ToolModel {
    ToolModel { id: Seq::empty(), name: Seq::empty(), input_json: Seq::empty(), thought_signature: None }
}

/// The string member `key` of `v`.
pub open spec fn member_str(v: JsonValue, key: Seq<char>) -> Option<Seq<char>> {
    match v.spec_get(key) {
        Some(x) => x.spec_as_str(),
        None => None,
    }
}

/// A thought signature, under `thought_signature` or, when that member is
/// absent, `thoughtSignature`.
pub open spec fn signature_of(v: JsonValue) -> Option<Seq<char>> {
    match v.spec_get("thought_signature"@) {
        Some(x) => x.spec_as_str(),
        None => member_str(v, "thoughtSignature"@),
    }
}

pub(crate) fn member_str_exec(v: &JsonValue, key: &str) -> (r: Option<String>)
    ensures
        opt_view(r) == member_str(*v, key@),
{
    match v.get(key) {
        Some(x) => match x.as_str() {
            Some(s) => Some(String::from_str(s)),
            None => None,
        },
        None => None,
    }
}

fn signature_exec(v: &JsonValue) -> (r: Option<String>)
    ensures
        opt_view(r) == signature_of(*v),
{
    match v.get("thought_signature") {
        Some(x) => match x.as_str() {
            Some(s) => Some(String::from_str(s)),
            None => None,
        },
        None => member_str_exec(v, "thoughtSignature"),
    }
}

// ---------------------------------------------------------------------------
// OpenAI-compatible streams
// ---------------------------------------------------------------------------

/// One tool-call delta applied to the call it continues: a new id, name or
/// signature replaces the old one, argument text is appended, and the
/// function's own signature is used only while the call has none.
pub open spec fn apply_tool_delta(t: ToolModel, tc: JsonValue) -> ToolModel {
    let t1 = match member_str(tc, "id"@) {
        Some(id) => ToolModel { id, ..t },
        None => t,
    };
    let t2 = match signature_of(tc) {
        Some(s) => ToolModel { thought_signature: Some(s), ..t1 },
        None => t1,
    };
    match tc.spec_get("function"@) {
        Some(f) => {
            let t3 = match member_str(f, "name"@) {
                Some(n) => ToolModel { name: n, ..t2 },
                None => t2,
            };
            let t4 = match member_str(f, "arguments"@) {
                Some(a) => ToolModel { input_json: t3.input_json + a, ..t3 },
                None => t3,
            };
            if t4.thought_signature is None {
                match signature_of(f) {
                    Some(s) => ToolModel { thought_signature: Some(s), ..t4 },
                    None => t4,
                }
            } else {
                t4
            }
        },
        None => t2,
    }
}

/// The call at stream index `idx`, or an empty one.
pub open spec fn call_at(calls: Seq<(usize, ToolModel)>, idx: usize) -> ToolModel
    decreases calls.len(),
{
    if calls.len() == 0 {
        empty_tool()
    } else if calls[0].0 == idx {
        calls[0].1
    } else {
        call_at(calls.drop_first(), idx)
    }
}

/// `calls` with the call at `idx` set to `t`: replaced where the first index not
/// below `idx` is `idx`, else inserted before it (so calls stay in index order).
pub open spec fn set_call(calls: Seq<(usize, ToolModel)>, idx: usize, t: ToolModel) -> Seq<(usize, ToolModel)>
    decreases calls.len(),
{
    if calls.len() == 0 {
        seq![(idx, t)]
    } else if calls[0].0 == idx {
        seq![(idx, t)] + calls.drop_first()
    } else if calls[0].0 > idx {
        seq![(idx, t)] + calls
    } else {
        seq![calls[0]] + set_call(calls.drop_first(), idx, t)
    }
}

/// One tool-call delta applied to the call at its `index`; a delta without a
/// valid `index` is skipped.
pub open spec fn tool_delta_step(calls: Seq<(usize, ToolModel)>, tc: JsonValue) -> Seq<(usize, ToolModel)> {
    match member_u64(tc, "index"@) {
        Some(n) => if n <= usize::MAX {
            set_call(calls, n as usize, apply_tool_delta(call_at(calls, n as usize), tc))
        } else {
            calls
        },
        None => calls,
    }
}

/// Tool-call deltas applied in order.
pub open spec fn apply_tool_deltas(calls: Seq<(usize, ToolModel)>, tcs: Seq<JsonValue>) -> Seq<(usize, ToolModel)>
    decreases tcs.len(),
{
    if tcs.len() == 0 {
        calls
    } else {
        tool_delta_step(apply_tool_deltas(calls, tcs.drop_last()), tcs.last())
    }
}

/// What an OpenAI-compatible stream has delivered so far.
pub ghost struct OaiStreamModel {
    pub text: Seq<char>,
    pub stop_reason: Option<Seq<char>>,
    pub usage: Option<Usage>,
    pub calls: Seq<(usize, ToolModel)>,
}

/// The first element of the `choices` array of an event.
pub open spec fn first_choice(v: JsonValue) -> Option<JsonValue> {
    match v.spec_get("choices"@) {
        Some(c) => match c.spec_as_array() {
            Some(a) => if a.len() > 0 {
                Some(a[0])
            } else {
                None
            },
            None => None,
        },
        None => None,
    }
}

/// One stream event: the usage is taken when none is known yet; then, from the
/// first choice, its finish reason, its non-empty text piece (which is also
/// passed on) and its tool-call deltas.
pub open spec fn oai_stream_step(st: OaiStreamModel, v: JsonValue) -> (OaiStreamModel, Option<Seq<char>>) {
    let usage = if st.usage is None {
        match v.spec_get("usage"@) {
            Some(u) => usage_of(u),
            None => None,
        }
    } else {
        st.usage
    };
    match first_choice(v) {
        None => (OaiStreamModel { usage, ..st }, None),
        Some(c) => {
            let stop_reason = match member_str(c, "finish_reason"@) {
                Some(r) => Some(r),
                None => st.stop_reason,
            };
            match c.spec_get("delta"@) {
                None => (OaiStreamModel { usage, stop_reason, ..st }, None),
                Some(d) => {
                    let piece = member_str(d, "content"@);
                    let (text, passed) = if piece is Some && piece.unwrap().len() > 0 {
                        (st.text + piece.unwrap(), piece)
                    } else {
                        (st.text, None)
                    };
                    let calls = match d.spec_get("tool_calls"@) {
                        Some(x) => match x.spec_as_array() {
                            Some(tcs) => apply_tool_deltas(st.calls, tcs),
                            None => st.calls,
                        },
                        None => st.calls,
                    };
                    (OaiStreamModel { text, stop_reason, usage, calls }, passed)
                },
            }
        },
    }
}

/// The reply blocks for assembled calls, in order.
pub open spec fn call_blocks(calls: Seq<(usize, ToolModel)>) -> Seq<ResponseBlockModel>
    decreases calls.len(),
{
    if calls.len() == 0 {
        Seq::empty()
    } else {
        let t = calls.last().1;
        call_blocks(calls.drop_last()).push(
            ResponseBlockModel::ToolUse {
                id: t.id,
                name: t.name,
                input: tool_input_text(t.input_json),
                thought_signature: t.thought_signature,
            },
        )
    }
}

/// The blocks of a finished OpenAI-compatible stream: its text when not empty,
/// then its calls in index order; one empty text block when there is nothing.
pub open spec fn oai_stream_blocks(st: OaiStreamModel) -> Seq<ResponseBlockModel> {
    let t = if st.text.len() > 0 {
        seq![ResponseBlockModel::Text(st.text)]
    } else {
        Seq::empty()
    };
    let all = t + call_blocks(st.calls);
    if all.len() == 0 {
        seq![ResponseBlockModel::Text(Seq::empty())]
    } else {
        all
    }
}

/// The state of an OpenAI-compatible stream being read.
#[derive(Debug)]
pub struct OaiStreamState {
    text: Vec<char>,
    stop_reason: Option<String>,
    usage: Option<Usage>,
    calls: Vec<(usize, StreamToolUseBlock)>,
}

pub open spec fn calls_model(cs: Seq<(usize, StreamToolUseBlock)>) -> Seq<(usize, ToolModel)> {
    cs.map_values(|c: (usize, StreamToolUseBlock)| (c.0, tool_model(c.1)))
}

fn apply_tool_delta_exec(t: StreamToolUseBlock, tc: &JsonValue) -> (r: StreamToolUseBlock)
    ensures
        tool_model(r) == apply_tool_delta(tool_model(t), *tc),
{
    let mut t = t;
    match member_str_exec(tc, "id") {
        Some(id) => {
            t.id = id;
        },
        None => {},
    }
    match signature_exec(tc) {
        Some(s) => {
            t.thought_signature = Some(s);
        },
        None => {},
    }
    match tc.get("function") {
        Some(f) => {
            match member_str_exec(f, "name") {
                Some(n) => {
                    t.name = n;
                },
                None => {},
            }
            match member_str_exec(f, "arguments") {
                Some(a) => {
                    let mut v = chars_of(t.input_json.as_str());
                    append_str(&mut v, a.as_str());
                    t.input_json = string_of(&v);
                },
                None => {},
            }
            if t.thought_signature.is_none() {
                match signature_exec(f) {
                    Some(s) => {
                        t.thought_signature = Some(s);
                    },
                    None => {},
                }
            }
        },
        None => {},
    }
    t
}

fn empty_block() -> (r: StreamToolUseBlock)
    ensures
        tool_model(r) == empty_tool(),
{
    let r = StreamToolUseBlock { id: String::new(), name: String::new(), input_json: String::new(), thought_signature: None };
    assert(tool_model(r) =~~= empty_tool());
    r
}

proof fn lemma_set_call_at(calls: Seq<(usize, ToolModel)>, idx: usize, t: ToolModel, p: int)
    requires
        calls_in_order(calls),
        0 <= p <= calls.len(),
        forall|k: int| 0 <= k < p ==> calls[k].0 < idx,
        p < calls.len() ==> calls[p].0 >= idx,
    ensures
        p < calls.len() && calls[p].0 == idx ==> set_call(calls, idx, t) == calls.subrange(0, p) + seq![(idx, t)]
            + calls.subrange(p + 1, calls.len() as int),
        p < calls.len() && calls[p].0 == idx ==> call_at(calls, idx) == calls[p].1,
        !(p < calls.len() && calls[p].0 == idx) ==> set_call(calls, idx, t) == calls.subrange(0, p) + seq![(idx, t)]
            + calls.subrange(p, calls.len() as int),
        !(p < calls.len() && calls[p].0 == idx) ==> call_at(calls, idx) == empty_tool(),
    decreases calls.len(),
{
    if calls.len() == 0 {
        assert(calls.subrange(0, 0) + seq![(idx, t)] + calls.subrange(0, 0) =~= seq![(idx, t)]);
    } else if p == 0 {
        if calls[0].0 == idx {
            assert(calls.subrange(0, 0) + seq![(idx, t)] + calls.subrange(1, calls.len() as int) =~= seq![(idx, t)]
                + calls.drop_first());
        } else {
            assert(calls.subrange(0, 0) + seq![(idx, t)] + calls.subrange(0, calls.len() as int) =~= seq![(idx, t)]
                + calls);
            lemma_call_at_absent(calls, idx);
        }
    } else {
        let rest = calls.drop_first();
        assert forall|k: int| 0 <= k < p - 1 implies rest[k].0 < idx by {
            assert(rest[k] == calls[k + 1]);
        }
        assert forall|i: int, j: int| 0 <= i < j < rest.len() implies rest[i].0 < rest[j].0 by {
            assert(rest[i] == calls[i + 1] && rest[j] == calls[j + 1]);
        }
        if p < calls.len() {
            assert(rest[p - 1] == calls[p]);
        }
        lemma_set_call_at(rest, idx, t, p - 1);
        assert(calls[0].0 < idx);
        if p < calls.len() && calls[p].0 == idx {
            assert(seq![calls[0]] + (rest.subrange(0, p - 1) + seq![(idx, t)] + rest.subrange(p, rest.len() as int))
                =~= calls.subrange(0, p) + seq![(idx, t)] + calls.subrange(p + 1, calls.len() as int));
        } else {
            assert(seq![calls[0]] + (rest.subrange(0, p - 1) + seq![(idx, t)] + rest.subrange(p - 1, rest.len() as int))
                =~= calls.subrange(0, p) + seq![(idx, t)] + calls.subrange(p, calls.len() as int));
        }
    }
}

proof fn lemma_call_at_absent(calls: Seq<(usize, ToolModel)>, idx: usize)
    requires
        calls.len() > 0,
        calls[0].0 > idx,
        forall|i: int, j: int| 0 <= i < j < calls.len() ==> calls[i].0 < calls[j].0,
    ensures
        call_at(calls, idx) == empty_tool(),
    decreases calls.len(),
{
    let rest = calls.drop_first();
    if rest.len() == 0 {
        assert(call_at(rest, idx) == empty_tool());
    } else {
        assert(rest[0] == calls[1]);
        assert forall|i: int, j: int| 0 <= i < j < rest.len() implies rest[i].0 < rest[j].0 by {
            assert(rest[i] == calls[i + 1] && rest[j] == calls[j + 1]);
        }
        lemma_call_at_absent(rest, idx);
    }
}

/// Calls in strictly increasing index order.
pub open spec fn calls_in_order(calls: Seq<(usize, ToolModel)>) -> bool {
    forall|i: int, j: int| 0 <= i < j < calls.len() ==> calls[i].0 < calls[j].0
}

proof fn lemma_set_call_keeps_order(calls: Seq<(usize, ToolModel)>, idx: usize, t: ToolModel, p: int)
    requires
        calls_in_order(calls),
        0 <= p <= calls.len(),
        forall|k: int| 0 <= k < p ==> calls[k].0 < idx,
        p < calls.len() ==> calls[p].0 >= idx,
    ensures
        calls_in_order(set_call(calls, idx, t)),
{
    lemma_set_call_at(calls, idx, t, p);
    let r = set_call(calls, idx, t);
    if p < calls.len() && calls[p].0 == idx {
        assert forall|i: int, j: int| 0 <= i < j < r.len() implies r[i].0 < r[j].0 by {
            if i < p {
                assert(r[i] == calls[i]);
            } else if i == p {
                assert(r[i].0 == calls[p].0);
            } else {
                assert(r[i] == calls[i]);
            }
            if j < p {
                assert(r[j] == calls[j]);
            } else if j == p {
                assert(r[j].0 == calls[p].0);
            } else {
                assert(r[j] == calls[j]);
            }
        }
    } else {
        assert forall|i: int, j: int| 0 <= i < j < r.len() implies r[i].0 < r[j].0 by {
            if i < p {
                assert(r[i] == calls[i]);
            } else if i == p {
                assert(r[i].0 == idx);
            } else {
                assert(r[i] == calls[i - 1]);
            }
            if j < p {
                assert(r[j] == calls[j]);
            } else if j == p {
                assert(r[j].0 == idx);
            } else {
                assert(r[j] == calls[j - 1]);
            }
        }
    }
}

impl OaiStreamState {
    pub closed spec fn model(&self) -> OaiStreamModel {
        OaiStreamModel {
            text: self.text@,
            stop_reason: opt_view(self.stop_reason),
            usage: self.usage,
            calls: calls_model(self.calls@),
        }
    }

    /// The calls are kept in strictly increasing index order.
    pub closed spec fn wf(&self) -> bool {
        calls_in_order(calls_model(self.calls@))
    }

    /// A stream that has delivered nothing.
    pub fn new() -> (r: Self)
        ensures
            r.wf(),
            r.model() == (OaiStreamModel {
                text: Seq::empty(),
                stop_reason: None,
                usage: None,
                calls: Seq::empty(),
            }),
    {
        let r = OaiStreamState { text: Vec::new(), stop_reason: None, usage: None, calls: Vec::new() };
        assert(calls_model(r.calls@) =~= Seq::<(usize, ToolModel)>::empty());
        r
    }

    /// Applies one tool-call delta.
    fn apply_delta(&mut self, tc: &JsonValue)
        requires
            old(self).wf(),
        ensures
            final(self).wf(),
            final(self).text@ == old(self).text@,
            final(self).stop_reason == old(self).stop_reason,
            final(self).usage == old(self).usage,
            calls_model(final(self).calls@) == tool_delta_step(calls_model(old(self).calls@), *tc),
    {
        let ghost cm = calls_model(self.calls@);
        let n = match tc.get("index") {
            Some(x) => match x.as_u64() {
                Some(n) => n,
                None => {
                    return;
                },
            },
            None => {
                return;
            },
        };
        if n > usize::MAX as u64 {
            return;
        }
        let idx = n as usize;
        let mut p: usize = 0;
        while p < self.calls.len() && self.calls[p].0 < idx
            invariant
                p <= self.calls.len(),
                cm == calls_model(self.calls@),
                forall|k: int| 0 <= k < p ==> cm[k].0 < idx,
            decreases self.calls.len() - p,
        {
            assert(cm[p as int].0 == self.calls@[p as int].0);
            p += 1;
        }
        proof {
            if p < self.calls.len() {
                assert(cm[p as int].0 == self.calls@[p as int].0);
            }
            lemma_set_call_at(cm, idx, apply_tool_delta(call_at(cm, idx), *tc), p as int);
            lemma_set_call_keeps_order(cm, idx, apply_tool_delta(call_at(cm, idx), *tc), p as int);
        }
        if p < self.calls.len() && self.calls[p].0 == idx {
            let (_, old_block) = self.calls.remove(p);
            assert(tool_model(old_block) == cm[p as int].1);
            let updated = apply_tool_delta_exec(old_block, tc);
            self.calls.insert(p, (idx, updated));
        } else {
            let updated = apply_tool_delta_exec(empty_block(), tc);
            self.calls.insert(p, (idx, updated));
        }
        assert(calls_model(self.calls@) =~= set_call(cm, idx, apply_tool_delta(call_at(cm, idx), *tc)));
    }

    /// Reads one stream event and returns the text piece to show, if any.
    pub fn process_openai_stream_event(&mut self, v: &JsonValue) -> (shown: Option<String>)
        requires
            old(self).wf(),
        ensures
            final(self).wf(),
            final(self).model() == oai_stream_step(old(self).model(), *v).0,
            opt_view(shown) == oai_stream_step(old(self).model(), *v).1,
    {
        let ghost st = self.model();
        if self.usage.is_none() {
            self.usage = match v.get("usage") {
                Some(u) => usage_from_json(u),
                None => None,
            };
        }
        let choice = match v.get("choices") {
            Some(c) => match c.as_array() {
                Some(a) => if a.len() > 0 {
                    &a[0]
                } else {
                    assert(self.model() =~~= oai_stream_step(st, *v).0);
                    return None;
                },
                None => {
                    assert(self.model() =~~= oai_stream_step(st, *v).0);
                    return None;
                },
            },
            None => {
                assert(self.model() =~~= oai_stream_step(st, *v).0);
                return None;
            },
        };
        match member_str_exec(choice, "finish_reason") {
            Some(r) => {
                self.stop_reason = Some(r);
            },
            None => {},
        }
        let delta = match choice.get("delta") {
            Some(d) => d,
            None => {
                assert(self.model() =~~= oai_stream_step(st, *v).0);
                return None;
            },
        };
        let mut shown: Option<String> = None;
        match member_str_exec(delta, "content") {
            Some(piece) => {
                if !piece.as_str().is_empty() {
                    append_str(&mut self.text, piece.as_str());
                    shown = Some(piece);
                }
            },
            None => {},
        }
        let ghost mid_calls = calls_model(self.calls@);
        assert(mid_calls == st.calls);
        match delta.get("tool_calls") {
            Some(x) => match x.as_array() {
                Some(tcs) => {
                    let mut i: usize = 0;
                    assert(tcs@.subrange(0, 0) =~= Seq::<JsonValue>::empty());
                    while i < tcs.len()
                        invariant
                            i <= tcs.len(),
                            self.wf(),
                            calls_model(self.calls@) == apply_tool_deltas(mid_calls, tcs@.subrange(0, i as int)),
                            self.text@ == old(self).text@ + (match opt_view(shown) { Some(p) => p, None => Seq::empty() }),
                            opt_view(self.stop_reason) == oai_stream_step(st, *v).0.stop_reason,
                            self.usage == oai_stream_step(st, *v).0.usage,
                        decreases tcs.len() - i,
                    {
                        let ghost before = calls_model(self.calls@);
                        let ghost sub = tcs@.subrange(0, i + 1);
                        assert(sub.drop_last() =~= tcs@.subrange(0, i as int));
                        assert(sub.last() == tcs@[i as int]);
                        self.apply_delta(&tcs[i]);
                        i += 1;
                    }
                    assert(tcs@.subrange(0, tcs@.len() as int) =~= tcs@);
                },
                None => {},
            },
            None => {},
        }
        proof {
            if opt_view(shown) is None {
                assert(self.text@ =~= old(self).text@);
            }
        }
        assert(self.model() =~~= oai_stream_step(st, *v).0);
        shown
    }

    /// The reply once the stream has ended: its text when not empty, then its
    /// tool calls in index order (one empty text block when there is nothing);
    /// the stop reason is `tool_use` when there are calls, else the normalised
    /// reported reason.
    pub fn finish_openai_stream(self) -> (r: MessagesResponse)
        ensures
            response_blocks_model(r.content@) == oai_stream_blocks(self.model()),
            r.stop_reason is Some,
            r.stop_reason.unwrap()@ == (if has_tool_use(oai_stream_blocks(self.model())) {
                "tool_use"@
            } else {
                normalized_stop_reason(self.model().stop_reason)
            }),
            r.usage == self.model().usage,
    {
        let ghost m = self.model();
        let mut content: Vec<ResponseContentBlock> = Vec::new();
        if self.text.len() > 0 {
            content.push(ResponseContentBlock::Text { text: string_of(&self.text) });
        }
        let ghost head = response_blocks_model(content@);
        assert(head =~= (if m.text.len() > 0 { seq![ResponseBlockModel::Text(m.text)] } else { Seq::<ResponseBlockModel>::empty() }));
        let ghost cm = calls_model(self.calls@);
        let mut i: usize = 0;
        assert(call_blocks(cm.subrange(0, 0)) =~= Seq::<ResponseBlockModel>::empty());
        assert(response_blocks_model(content@) =~= head + Seq::<ResponseBlockModel>::empty());
        while i < self.calls.len()
            invariant
                i <= self.calls.len(),
                cm == calls_model(self.calls@),
                response_blocks_model(content@) == head + call_blocks(cm.subrange(0, i as int)),
            decreases self.calls.len() - i,
        {
            let ghost sub = cm.subrange(0, i + 1);
            assert(sub.drop_last() =~= cm.subrange(0, i as int));
            let t = &self.calls[i].1;
            assert(sub.last().1 == tool_model(*t));
            let ghost before = response_blocks_model(content@);
            let b = ResponseContentBlock::ToolUse {
                id: t.id.clone(),
                name: t.name.clone(),
                input: parse_tool_input(t.input_json.as_str()),
                thought_signature: clone_opt_string(&t.thought_signature),
            };
            content.push(b);
            assert(response_blocks_model(content@) =~= before.push(b@));
            i += 1;
        }
        assert(cm.subrange(0, cm.len() as int) =~= cm);
        if content.len() == 0 {
            content.push(ResponseContentBlock::Text { text: String::new() });
        }
        assert(response_blocks_model(content@) =~= oai_stream_blocks(m));
        let has_tool = crate::oai::any_tool_use(&content);
        let stop = match &self.stop_reason {
            Some(s) => oai_stop_reason_from_content(Some(s.as_str()), has_tool),
            None => oai_stop_reason_from_content(None, has_tool),
        };
        MessagesResponse { content, stop_reason: stop, usage: self.usage }
    }
}

// ---------------------------------------------------------------------------
// Anthropic streams
// ---------------------------------------------------------------------------

/// What an Anthropic stream has delivered so far: the stop reason, the usage,
/// the text and the tool call of each content block, and the block indexes in
/// the order they started.
pub ghost struct AnthropicStreamModel {
    pub stop_reason: Option<Seq<char>>,
    pub usage: Option<Usage>,
    pub texts: Map<usize, Seq<char>>,
    pub tools: Map<usize, ToolModel>,
    pub order: Seq<usize>,
}

/// The stream index named by an event: its `index` when that is a
/// non-negative integer that fits `usize`.
pub open spec fn event_index(v: JsonValue) -> Option<usize> {
    match member_u64(v, "index"@) {
        Some(n) => if n <= usize::MAX {
            Some(n as usize)
        } else {
            None
        },
        None => None,
    }
}

/// The starting argument text of a tool-use block: empty when it has no
/// `input` or an empty object, else that input written as JSON text.
pub open spec fn start_input_json(block: JsonValue) -> Seq<char> {
    match block.spec_get("input"@) {
        None => Seq::empty(),
        Some(i) => match i.spec_as_object() {
            Some(es) => if es.len() == 0 {
                Seq::empty()
            } else {
                json_text_of(i@)
            },
            None => json_text_of(i@),
        },
    }
}

/// `member_str` with the empty text for a missing member.
pub open spec fn str_or_empty(v: JsonValue, key: Seq<char>) -> Seq<char> {
    match member_str(v, key) {
        Some(s) => s,
        None => Seq::empty(),
    }
}

/// One Anthropic stream event. `content_block_start` records the block's index
/// (once) and starts its text or tool call; `content_block_delta` appends a
/// non-empty text piece (which is also passed on) or argument piece;
/// `message_delta` records the stop reason and, when the event carries usage,
/// the usage; `message_start` records the usage of its message. Other events
/// change nothing.
pub open spec fn anthropic_stream_step(st: AnthropicStreamModel, v: JsonValue) -> (
    AnthropicStreamModel,
    Option<Seq<char>>,
) {
    let kind = str_or_empty(v, "type"@);
    if kind == "content_block_start"@ {
        match event_index(v) {
            None => (st, None),
            Some(i) => {
                let order = if st.order.contains(i) {
                    st.order
                } else {
                    st.order.push(i)
                };
                match v.spec_get("content_block"@) {
                    None => (AnthropicStreamModel { order, ..st }, None),
                    Some(b) => {
                        let bt = member_str(b, "type"@);
                        if bt == Some("text"@) {
                            (AnthropicStreamModel { order, texts: st.texts.insert(i, str_or_empty(b, "text"@)), ..st }, None)
                        } else if bt == Some("tool_use"@) {
                            let t = ToolModel {
                                id: str_or_empty(b, "id"@),
                                name: str_or_empty(b, "name"@),
                                input_json: start_input_json(b),
                                thought_signature: signature_of(b),
                            };
                            (AnthropicStreamModel { order, tools: st.tools.insert(i, t), ..st }, None)
                        } else {
                            (AnthropicStreamModel { order, ..st }, None)
                        }
                    },
                }
            },
        }
    } else if kind == "content_block_delta"@ {
        match (event_index(v), v.spec_get("delta"@)) {
            (Some(i), Some(d)) => {
                let dt = member_str(d, "type"@);
                if dt == Some("text_delta"@) {
                    let piece = str_or_empty(d, "text"@);
                    if piece.len() > 0 {
                        let cur = if st.texts.contains_key(i) {
                            st.texts[i]
                        } else {
                            Seq::empty()
                        };
                        (AnthropicStreamModel { texts: st.texts.insert(i, cur + piece), ..st }, Some(piece))
                    } else {
                        (st, None)
                    }
                } else if dt == Some("input_json_delta"@) {
                    let piece = str_or_empty(d, "partial_json"@);
                    if piece.len() > 0 {
                        let cur = if st.tools.contains_key(i) {
                            st.tools[i]
                        } else {
                            empty_tool()
                        };
                        (
                            AnthropicStreamModel {
                                tools: st.tools.insert(i, ToolModel { input_json: cur.input_json + piece, ..cur }),
                                ..st
                            },
                            None,
                        )
                    } else {
                        (st, None)
                    }
                } else {
                    (st, None)
                }
            },
            _ => (st, None),
        }
    } else if kind == "message_delta"@ {
        let stop_reason = match v.spec_get("delta"@) {
            Some(d) => match member_str(d, "stop_reason"@) {
                Some(r) => Some(r),
                None => st.stop_reason,
            },
            None => st.stop_reason,
        };
        let usage = match v.spec_get("usage"@) {
            Some(u) => usage_of(u),
            None => st.usage,
        };
        (AnthropicStreamModel { stop_reason, usage, ..st }, None)
    } else if kind == "message_start"@ {
        let usage = match v.spec_get("message"@) {
            Some(m) => match m.spec_get("usage"@) {
                Some(u) => usage_of(u),
                None => st.usage,
            },
            None => st.usage,
        };
        (AnthropicStreamModel { usage, ..st }, None)
    } else {
        (st, None)
    }
}

/// The state of an Anthropic stream being read.
#[derive(Debug)]
pub struct AnthropicStreamState {
    pub stop_reason: Option<String>,
    pub usage: Option<Usage>,
    pub text_blocks: HashMap<usize, String>,
    pub tool_blocks: HashMap<usize, StreamToolUseBlock>,
    pub ordered_indexes: Vec<usize>,
}

impl AnthropicStreamState {
    pub open spec fn model(&self) -> AnthropicStreamModel {
        AnthropicStreamModel {
            stop_reason: opt_view(self.stop_reason),
            usage: self.usage,
            texts: self.text_blocks@.map_values(|s: String| s@),
            tools: self.tool_blocks@.map_values(|t: StreamToolUseBlock| tool_model(t)),
            order: self.ordered_indexes@,
        }
    }

    /// A stream that has delivered nothing.
    pub fn new() -> (r: Self)
        ensures
            r.stop_reason is None,
            r.usage is None,
            r.text_blocks@ == Map::<usize, String>::empty(),
            r.tool_blocks@ == Map::<usize, StreamToolUseBlock>::empty(),
            r.ordered_indexes@.len() == 0,
    {
        AnthropicStreamState {
            stop_reason: None,
            usage: None,
            text_blocks: HashMap::new(),
            tool_blocks: HashMap::new(),
            ordered_indexes: Vec::new(),
        }
    }

    fn note_index(&mut self, i: usize)
        ensures
            final(self).ordered_indexes@ == (if old(self).ordered_indexes@.contains(i) {
                old(self).ordered_indexes@
            } else {
                old(self).ordered_indexes@.push(i)
            }),
            final(self).text_blocks@ == old(self).text_blocks@,
            final(self).tool_blocks@ == old(self).tool_blocks@,
            final(self).stop_reason == old(self).stop_reason,
            final(self).usage == old(self).usage,
    {
        let mut k: usize = 0;
        while k < self.ordered_indexes.len()
            invariant
                k <= self.ordered_indexes.len(),
                forall|j: int| 0 <= j < k ==> self.ordered_indexes@[j] != i,
            decreases self.ordered_indexes.len() - k,
        {
            if self.ordered_indexes[k] == i {
                assert(self.ordered_indexes@[k as int] == i);
                return;
            }
            k += 1;
        }
        self.ordered_indexes.push(i);
    }

    /// Reads one stream event and returns the text piece to show, if any.
    pub fn process_anthropic_stream_event(&mut self, v: &JsonValue) -> (shown: Option<String>)
        ensures
            final(self).model() == anthropic_stream_step(old(self).model(), *v).0,
            opt_view(shown) == anthropic_stream_step(old(self).model(), *v).1,
    {
        let ghost st = self.model();
        let kind = match member_str_exec(v, "type") {
            Some(k) => k,
            None => String::new(),
        };
        let kv = chars_of(kind.as_str());
        if crate::text::vec_eq(&kv, &chars_of("content_block_start")) {
            let i = match event_index_exec(v) {
                Some(i) => i,
                None => {
                    return None;
                },
            };
            self.note_index(i);
            let b = match v.get("content_block") {
                Some(b) => b,
                None => {
                    assert(self.model() =~~= anthropic_stream_step(st, *v).0);
                    return None;
                },
            };
            let bt = member_str_exec(b, "type");
            let is_text = match &bt {
                Some(t) => crate::llm::str_is(t.as_str(), "text"),
                None => false,
            };
            let is_tool = match &bt {
                Some(t) => crate::llm::str_is(t.as_str(), "tool_use"),
                None => false,
            };
            if is_text {
                let text = match member_str_exec(b, "text") {
                    Some(t) => t,
                    None => String::new(),
                };
                let ghost tv = text@;
                let ghost before = self.text_blocks@;
                self.text_blocks.insert(i, text);
                assert(self.text_blocks@ == before.insert(i, text));
                assert(self.text_blocks@.map_values(|s: String| s@) =~= before.map_values(|s: String| s@).insert(i, tv));
                assert(self.model() =~~= anthropic_stream_step(st, *v).0);
            } else if is_tool {
                let input_json = match b.get("input") {
                    None => String::new(),
                    Some(inp) => match inp.as_object() {
                        Some(es) => if es.len() == 0 {
                            String::new()
                        } else {
                            json_text(inp)
                        },
                        None => json_text(inp),
                    },
                };
                let t = StreamToolUseBlock {
                    id: match member_str_exec(b, "id") {
                        Some(x) => x,
                        None => String::new(),
                    },
                    name: match member_str_exec(b, "name") {
                        Some(x) => x,
                        None => String::new(),
                    },
                    input_json,
                    thought_signature: signature_exec(b),
                };
                let ghost tm = tool_model(t);
                let ghost before = self.tool_blocks@;
                self.tool_blocks.insert(i, t);
                assert(self.tool_blocks@.map_values(|t: StreamToolUseBlock| tool_model(t)) =~= before.map_values(
                    |t: StreamToolUseBlock| tool_model(t),
                ).insert(i, tm));
                assert(self.model() =~~= anthropic_stream_step(st, *v).0);
            } else {
                assert(self.model() =~~= anthropic_stream_step(st, *v).0);
            }
            return None;
        }
        if crate::text::vec_eq(&kv, &chars_of("content_block_delta")) {
            let i = match event_index_exec(v) {
                Some(i) => i,
                None => {
                    return None;
                },
            };
            let d = match v.get("delta") {
                Some(d) => d,
                None => {
                    return None;
                },
            };
            let dt = member_str_exec(d, "type");
            let is_text = match &dt {
                Some(t) => crate::llm::str_is(t.as_str(), "text_delta"),
                None => false,
            };
            let is_json = match &dt {
                Some(t) => crate::llm::str_is(t.as_str(), "input_json_delta"),
                None => false,
            };
            if is_text {
                let piece = match member_str_exec(d, "text") {
                    Some(x) => x,
                    None => String::new(),
                };
                if piece.as_str().is_empty() {
                    return None;
                }
                let cur = match self.text_blocks.get(&i) {
                    Some(c) => c.clone(),
                    None => String::new(),
                };
                let mut cv = chars_of(cur.as_str());
                append_str(&mut cv, piece.as_str());
                let joined = string_of(&cv);
                let ghost jv = joined@;
                let ghost before = self.text_blocks@;
                assert(cur@ == (if st.texts.contains_key(i) { st.texts[i] } else { Seq::<char>::empty() }));
                self.text_blocks.insert(i, joined);
                assert(self.text_blocks@.map_values(|s: String| s@) =~= before.map_values(|s: String| s@).insert(i, jv));
                assert(self.model() =~~= anthropic_stream_step(st, *v).0);
                return Some(piece);
            }
            if is_json {
                let piece = match member_str_exec(d, "partial_json") {
                    Some(x) => x,
                    None => String::new(),
                };
                if piece.as_str().is_empty() {
                    return None;
                }
                let cur = match self.tool_blocks.get(&i) {
                    Some(c) => StreamToolUseBlock {
                        id: c.id.clone(),
                        name: c.name.clone(),
                        input_json: c.input_json.clone(),
                        thought_signature: clone_opt_string(&c.thought_signature),
                    },
                    None => empty_block(),
                };
                let mut jv = chars_of(cur.input_json.as_str());
                append_str(&mut jv, piece.as_str());
                let t = StreamToolUseBlock { input_json: string_of(&jv), ..cur };
                let ghost tm = tool_model(t);
                let ghost before = self.tool_blocks@;
                assert(tool_model(cur) == (if st.tools.contains_key(i) { st.tools[i] } else { empty_tool() }));
                self.tool_blocks.insert(i, t);
                assert(self.tool_blocks@.map_values(|t: StreamToolUseBlock| tool_model(t)) =~= before.map_values(
                    |t: StreamToolUseBlock| tool_model(t),
                ).insert(i, tm));
                assert(self.model() =~~= anthropic_stream_step(st, *v).0);
                return None;
            }
            return None;
        }
        if crate::text::vec_eq(&kv, &chars_of("message_delta")) {
            match v.get("delta") {
                Some(d) => match member_str_exec(d, "stop_reason") {
                    Some(r) => {
                        self.stop_reason = Some(r);
                    },
                    None => {},
                },
                None => {},
            }
            match v.get("usage") {
                Some(u) => {
                    self.usage = usage_from_json(u);
                },
                None => {},
            }
            assert(self.model() =~~= anthropic_stream_step(st, *v).0);
            return None;
        }
        if crate::text::vec_eq(&kv, &chars_of("message_start")) {
            match v.get("message") {
                Some(m) => match m.get("usage") {
                    Some(u) => {
                        self.usage = usage_from_json(u);
                    },
                    None => {},
                },
                None => {},
            }
            assert(self.model() =~~= anthropic_stream_step(st, *v).0);
            return None;
        }
        None
    }
}

fn event_index_exec(v: &JsonValue) -> (r: Option<usize>)
    ensures
        r == event_index(*v),
{
    match v.get("index") {
        Some(x) => match x.as_u64() {
            Some(n) => if n <= usize::MAX as u64 {
                Some(n as usize)
            } else {
                None
            },
            None => None,
        },
        None => None,
    }
}

/// One OpenAI stream event given as the parsed form of its `data` text.
pub open spec fn oai_event_taken(before: OaiStreamModel, after: OaiStreamModel, shown: Option<Seq<char>>, m: JsonModel) -> bool {
    exists|v: JsonValue|
        #![trigger oai_stream_step(before, v)]
        v@ == m && after == oai_stream_step(before, v).0 && shown == oai_stream_step(before, v).1
}

/// One Anthropic stream event given as the parsed form of its `data` text.
pub open spec fn anthropic_event_taken(
    before: AnthropicStreamModel,
    after: AnthropicStreamModel,
    shown: Option<Seq<char>>,
    m: JsonModel,
) -> bool {
    exists|v: JsonValue|
        #![trigger anthropic_stream_step(before, v)]
        v@ == m && after == anthropic_stream_step(before, v).0 && shown == anthropic_stream_step(before, v).1
}

impl OaiStreamState {
    /// Takes the `data` text of one stream event: JSON that parses is processed as
    /// an event; anything else is skipped and changes nothing.
    pub fn process_openai_stream_data(&mut self, data: &str) -> (shown: Option<String>)
        requires
            old(self).wf(),
        ensures
            final(self).wf(),
            match json_parsed(data@) {
                Ok(m) => oai_event_taken(old(self).model(), final(self).model(), opt_view(shown), m),
                Err(_) => final(self).model() == old(self).model() && shown is None,
            },
    {
        match json_parse(data) {
            Ok(v) => {
                let ghost before = self.model();
                let shown = self.process_openai_stream_event(&v);
                assert(oai_event_taken(before, self.model(), opt_view(shown), v@));
                shown
            },
            Err(_) => None,
        }
    }
}

impl AnthropicStreamState {
    /// Takes the `data` text of one stream event: JSON that parses is processed as
    /// an event; anything else is skipped and changes nothing.
    pub fn process_anthropic_stream_data(&mut self, data: &str) -> (shown: Option<String>)
        ensures
            match json_parsed(data@) {
                Ok(m) => anthropic_event_taken(old(self).model(), final(self).model(), opt_view(shown), m),
                Err(_) => final(self).model() == old(self).model() && shown is None,
            },
    {
        match json_parse(data) {
            Ok(v) => {
                let ghost before = self.model();
                let shown = self.process_anthropic_stream_event(&v);
                assert(anthropic_event_taken(before, self.model(), opt_view(shown), v@));
                shown
            },
            Err(_) => None,
        }
    }
}

} // verus!
