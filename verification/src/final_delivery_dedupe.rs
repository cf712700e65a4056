//! Helpers for splitting agent final replies (e.g. memory tail after a horizontal rule).
use vstd::prelude::*;
use vstd::string::StrSliceExecFns;
use crate::db::StoredMessage;
use crate::text::{
    byte_len, chars_of, find, lemma_trim_end_skip, lemma_trim_start_skip, lower_seq, lower_vec,
    rfind, rfind_seq, find_seq, starts_with, subvec, trim_bounds, trim_end_seq, trim_end_vec,
    trim_seq, trim_start_seq, has_prefix, utf8_width, lemma_find_seq, occurs_at,
};

verus! {

broadcast use vstd::string::group_string_axioms;

/// After persona normalization, what to actually deliver to the user.
#[derive(Debug, Clone, PartialEq, Eq)]
pub enum AgentFinalDeliveryPlan {
    /// Deliver the full proposed final (default).
    DeliverFull,
    /// Deliver only this suffix (raw text, no persona prefix).
    DeliverSuffixOnly(String),
    /// Nothing new to show.
    Skip,
}

/// Longest byte length of a `[Tag]` transport prefix.
pub const MAX_PERSONA_TOKEN_BYTES: usize = 64;

/// `s` with leading `[Tag] ` transport prefixes removed: after trimming leading
/// whitespace, a bracketed token up to the first `]` is dropped as long as it is
/// non-empty, at most 64 bytes long and on one line.
pub open spec fn strip_persona_tokens_seq(s: Seq<char>) -> Seq<char>
    decreases s.len(),
{
    let r = trim_start_seq(s);
    let c = find_seq(r, seq![']']);
    if r.len() > 0 && r[0] == '[' && c >= 1 && c < r.len() && r.len() <= s.len() {
        let token = r.subrange(1, c);
        if token.len() == 0 || byte_len(token) > 64 || token.contains('\n') {
            r
        } else {
            strip_persona_tokens_seq(r.subrange(c + 1, r.len() as int))
        }
    } else {
        r
    }
}

/// Whether the UTF-8 length of `v[a..b]` exceeds `limit`.
pub fn byte_len_exceeds(v: &Vec<char>, a: usize, b: usize, limit: usize) -> (r: bool)
    requires
        a <= b <= v.len(),
        limit < 0x1000_0000,
    ensures
        r == (byte_len(v@.subrange(a as int, b as int)) > limit),
{
    let mut total: usize = 0;
    let mut i = a;
    while i < b
        invariant
            a <= i <= b <= v.len(),
            total == byte_len(v@.subrange(a as int, i as int)),
            total <= limit,
            limit < 0x1000_0000,
        decreases b - i,
    {
        let u = v[i] as u32;
        let w: usize = if u < 0x80 {
            1
        } else if u < 0x800 {
            2
        } else if u < 0x10000 {
            3
        } else {
            4
        };
        assert(v@.subrange(a as int, i + 1).drop_last() =~= v@.subrange(a as int, i as int));
        assert(w == utf8_width(v@[i as int]));
        total = total + w;
        i += 1;
        if total > limit {
            proof {
                lemma_byte_len_prefix_mono(v@.subrange(a as int, b as int), i - a);
                assert(v@.subrange(a as int, b as int).subrange(0, i - a) =~= v@.subrange(
                    a as int,
                    i as int,
                ));
            }
            return true;
        }
    }
    false
}

pub proof fn lemma_byte_len_prefix_mono(s: Seq<char>, k: int)
    requires
        0 <= k <= s.len(),
    ensures
        byte_len(s.subrange(0, k)) <= byte_len(s),
    decreases s.len() - k,
{
    if k < s.len() {
        lemma_byte_len_prefix_mono(s, k + 1);
        assert(s.subrange(0, k + 1).drop_last() =~= s.subrange(0, k));
    } else {
        assert(s.subrange(0, k) =~= s);
    }
}

/// Whether any of `v[a..b]` is a newline.
fn has_newline(v: &Vec<char>, a: usize, b: usize) -> (r: bool)
    requires
        a <= b <= v.len(),
    ensures
        r == v@.subrange(a as int, b as int).contains('\n'),
{
    let mut i = a;
    while i < b
        invariant
            a <= i <= b <= v.len(),
            forall|k: int| a <= k < i ==> v@[k] != '\n',
        decreases b - i,
    {
        if v[i] == '\n' {
            assert(v@.subrange(a as int, b as int)[i - a] == '\n');
            return true;
        }
        i += 1;
    }
    assert forall|k: int| 0 <= k < b - a implies v@.subrange(a as int, b as int)[k] != '\n' by {
        assert(v@.subrange(a as int, b as int)[k] == v@[a + k]);
    }
    false
}

/// Strip leading `[Tag] ` transport prefixes.
pub fn strip_leading_persona_tokens(text: &str) -> (r: &str)
    ensures
        r@ == strip_persona_tokens_seq(text@),
{
    let v = chars_of(text);
    let close = vec![']'];
    let mut p: usize = 0;
    assert(v@.subrange(0, v@.len() as int) =~= v@);
    loop
        invariant
            p <= v.len(),
            v@ == text@,
            close@ == seq![']'],
            strip_persona_tokens_seq(v@) == strip_persona_tokens_seq(v@.subrange(p as int, v@.len() as int)),
        decreases v.len() - p,
    {
        let rest = subvec(&v, p, v.len());
        let (q0, _) = trim_bounds(&rest);
        let q = p + q0;
        let r = subvec(&v, q, v.len());
        proof {
            assert(rest@.subrange(q0 as int, rest@.len() as int) =~= r@);
            assert(trim_start_seq(rest@) == r@);
            crate::text::lemma_trim_start_len(rest@);
        }
        let c = find(&r, &close);
        proof {
            lemma_find_seq(r@, close@);
        }
        let go_on = if r.len() > 0 && r[0] == '[' {
            match c {
                Some(ci) => {
                    if ci >= 1 && ci < r.len() {
                        let empty = ci == 1;
                        let too_long = byte_len_exceeds(&r, 1, ci, MAX_PERSONA_TOKEN_BYTES);
                        let nl = has_newline(&r, 1, ci);
                        if empty || too_long || nl {
                            None
                        } else {
                            Some(ci)
                        }
                    } else {
                        None
                    }
                },
                None => None,
            }
        } else {
            None
        };
        match go_on {
            Some(ci) => {
                proof {
                    let s = v@.subrange(p as int, v@.len() as int);
                    assert(s == rest@);
                    assert(r@.subrange(ci + 1, r@.len() as int) =~= v@.subrange(
                        q + ci + 1,
                        v@.len() as int,
                    ));
                }
                p = q + ci + 1;
            },
            None => {
                proof {
                    let s = v@.subrange(p as int, v@.len() as int);
                    assert(s == rest@);
                    assert(strip_persona_tokens_seq(s) == r@);
                }
                return text.substring_char(q, v.len());
            },
        }
    }
}

/// The text of a reply split into its main part and an optional memory tail.
pub open spec fn split_memory_tail_seq(body: Seq<char>) -> (Seq<char>, Option<Seq<char>>) {
    let trimmed = trim_end_seq(body);
    let i1 = rfind_seq(trimmed, "\n\n---\n"@);
    let i2 = rfind_seq(trimmed, "\n---\n"@);
    if i1 < 0 && i2 < 0 {
        (trimmed, None)
    } else {
        let idx = if i1 >= 0 { i1 } else { i2 };
        let nl = if i1 >= 0 { "\n\n---\n"@.len() } else { "\n---\n"@.len() };
        let tail = trim_start_seq(trimmed.subrange(idx + nl, trimmed.len() as int));
        let head = trim_end_seq(trimmed.subrange(0, idx));
        let tl = lower_seq(tail);
        if has_prefix(tl, "**memory"@) || has_prefix(tl, "memory update"@) || has_prefix(
            tl,
            "# memory"@,
        ) {
            (head, Some(tail))
        } else {
            (trimmed, None)
        }
    }
}

/// Split `(main, memory_tail)` when the final ends with a horizontal rule and Memory heading.
pub fn split_memory_tail(proposed_body: &str) -> (r: (&str, Option<&str>))
    ensures
        r.0@ == split_memory_tail_seq(proposed_body@).0,
        match (r.1, split_memory_tail_seq(proposed_body@).1) {
            (Some(a), Some(b)) => a@ == b,
            (None, None) => true,
            _ => false,
        },
{
    let v = chars_of(proposed_body);
    let trimmed = trim_end_vec(&v);
    let b = trimmed.len();
    proof {
        crate::text::lemma_trim_end_prefix(v@);
    }
    let n1 = chars_of("\n\n---\n");
    let n2 = chars_of("\n---\n");
    let i1 = rfind(&trimmed, &n1);
    let i2 = rfind(&trimmed, &n2);
    let (idx, nl) = match i1 {
        Some(i) => (i, n1.len()),
        None => match i2 {
            Some(i) => (i, n2.len()),
            None => {
                return (proposed_body.substring_char(0, b), None);
            },
        },
    };
    proof {
        crate::text::lemma_rfind_seq(trimmed@, n1@);
        crate::text::lemma_rfind_seq(trimmed@, n2@);
    }
    let after = subvec(&trimmed, idx + nl, b);
    let (t0, _) = trim_bounds(&after);
    let t = idx + nl + t0;
    let before = subvec(&trimmed, 0, idx);
    let head_vec = trim_end_vec(&before);
    let h = head_vec.len();
    let tail = subvec(&trimmed, t, b);
    proof {
        assert(after@.subrange(t0 as int, after@.len() as int) =~= tail@);
        crate::text::lemma_trim_end_prefix(before@);
        assert(before@.subrange(0, h as int) =~= trimmed@.subrange(0, h as int));
    }
    let tl = lower_vec(&tail);
    let m1 = chars_of("**memory");
    let m2 = chars_of("memory update");
    let m3 = chars_of("# memory");
    if starts_with(&tl, &m1) || starts_with(&tl, &m2) || starts_with(&tl, &m3) {
        (proposed_body.substring_char(0, h), Some(proposed_body.substring_char(t, b)))
    } else {
        (proposed_body.substring_char(0, b), None)
    }
}

/// The plan for a proposed final reply: nothing to show when the body is empty
/// once transport prefixes are stripped, otherwise the full reply.
pub open spec fn spec_plan(proposed: Seq<char>) -> AgentFinalDeliveryPlan {
    if trim_seq(strip_persona_tokens_seq(proposed)).len() == 0 {
        AgentFinalDeliveryPlan::Skip
    } else {
        AgentFinalDeliveryPlan::DeliverFull
    }
}

/// Decide how to deliver `proposed_final_indicated`: the full final unless its body is
/// empty after stripping persona prefixes.
pub fn plan_agent_final_delivery(
    _send_message_anchor: Option<&StoredMessage>,
    proposed_final_indicated: &str,
) -> (r: AgentFinalDeliveryPlan)
    ensures
        r == spec_plan(proposed_final_indicated@),
{
    let stripped = strip_leading_persona_tokens(proposed_final_indicated);
    let sv = chars_of(stripped);
    let (a, b) = trim_bounds(&sv);
    if a == b {
        AgentFinalDeliveryPlan::Skip
    } else {
        AgentFinalDeliveryPlan::DeliverFull
    }
}

/// Nothing of a reply is lost in the split: without a memory tail the main part
/// is the whole reply with trailing whitespace removed; with one, the tail starts
/// (ignoring ASCII case) with a Memory heading (`**memory`, `memory update` or
/// `# memory`) and the main part is the start of the trimmed reply, shorter than it.
pub proof fn lemma_split_memory_tail_keeps_reply(body: Seq<char>)
    ensures
        split_memory_tail_seq(body).1 is None ==> split_memory_tail_seq(body).0 == trim_end_seq(body),
        split_memory_tail_seq(body).1 matches Some(t) ==> (has_prefix(lower_seq(t), "**memory"@) || has_prefix(
            lower_seq(t),
            "memory update"@,
        ) || has_prefix(lower_seq(t), "# memory"@)) && split_memory_tail_seq(body).0.len() < trim_end_seq(body).len()
            && split_memory_tail_seq(body).0 == trim_end_seq(body).subrange(0, split_memory_tail_seq(body).0.len() as int),
{
    let trimmed = trim_end_seq(body);
    let i1 = rfind_seq(trimmed, "\n\n---\n"@);
    let i2 = rfind_seq(trimmed, "\n---\n"@);
    crate::text::lemma_rfind_seq(trimmed, "\n\n---\n"@);
    crate::text::lemma_rfind_seq(trimmed, "\n---\n"@);
    if !(i1 < 0 && i2 < 0) {
        let idx = if i1 >= 0 { i1 } else { i2 };
        reveal_strlit("\n\n---\n");
        reveal_strlit("\n---\n");
        assert(occurs_at(trimmed, if i1 >= 0 { "\n\n---\n"@ } else { "\n---\n"@ }, idx));
        assert(idx < trimmed.len());
        let before = trimmed.subrange(0, idx);
        crate::text::lemma_trim_end_prefix(before);
        let head = trim_end_seq(before);
        assert(head == trimmed.subrange(0, head.len() as int)) by {
            assert(before.subrange(0, head.len() as int) =~= trimmed.subrange(0, head.len() as int));
        }
    }
}

} // verus!
