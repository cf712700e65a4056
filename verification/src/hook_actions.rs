//! Memory hygiene after hooks: post ids that reached a terminal state and the
//! recent-focus lines they clear. Reading and writing the persona memory is done
//! outside.
use vstd::prelude::*;
use crate::hook_runtime::HookMemoryEffects;
use crate::pattern::{matches_view, regex_captures, regex_matches};
use crate::text::{
    append_str, chars_of, contains, contains_seq, dedup_seq, dedup_strings, lemma_dedup_seq, lower_seq, lower_vec,
    string_of, strings_view,
};

verus! {

broadcast use vstd::string::group_string_axioms;

/// A line that reports a finished post: it mentions publishing, scrapping,
/// completion or cancellation (ASCII case ignored).
pub open spec fn spec_terminal_focus_line(text: Seq<char>) -> bool {
    let l = lower_seq(text);
    contains_seq(l, "published"@) || contains_seq(l, "scrapped"@) || contains_seq(l, "completed"@) || contains_seq(
        l,
        "cancelled"@,
    ) || contains_seq(l, "canceled"@)
}

pub fn is_terminal_focus_line(text: &str) -> (r: bool)
    ensures
        r == spec_terminal_focus_line(text@),
{
    let l = lower_vec(&chars_of(text));
    contains(&l, &chars_of("published")) || contains(&l, &chars_of("scrapped")) || contains(&l, &chars_of("completed"))
        || contains(&l, &chars_of("cancelled")) || contains(&l, &chars_of("canceled"))
}

/// A post id: `PZ-` and eight digits, optionally followed by `-` and a word.
pub open spec fn pz_post_id_pattern() -> Seq<char> {
    "PZ-\\d{8}(?:-[A-Za-z0-9_]+)?"@
}

/// The whole texts of a list of matches.
pub open spec fn match_texts(ms: Seq<(Seq<char>, Option<Seq<char>>)>) -> Seq<Seq<char>> {
    ms.map_values(|m: (Seq<char>, Option<Seq<char>>)| m.0)
}

/// The post ids mentioned in `text`, each once, in order of first mention.
pub fn extract_pz_post_ids(text: &str) -> (r: Vec<String>)
    ensures
        strings_view(r@) == dedup_seq(match_texts(regex_matches(pz_post_id_pattern(), text@))),
        strings_view(r@).no_duplicates(),
{
    let ms = regex_captures("PZ-\\d{8}(?:-[A-Za-z0-9_]+)?", text);
    let ghost mv = matches_view(ms@);
    let mut all: Vec<String> = Vec::new();
    let mut i: usize = 0;
    while i < ms.len()
        invariant
            i <= ms.len(),
            mv == matches_view(ms@),
            all@.len() == i,
            forall|k: int| 0 <= k < i ==> #[trigger] all@[k]@ == mv[k].0,
        decreases ms.len() - i,
    {
        all.push(ms[i].0.clone());
        i += 1;
    }
    assert(strings_view(all@) =~= match_texts(mv));
    proof {
        lemma_dedup_seq(strings_view(all@));
    }
    dedup_strings(&all)
}

/// The post ids that reached a terminal state in a successful tool call: none for a
/// failed call or when nothing in the call reports a finished post; otherwise the
/// ids mentioned in the tool name, its input (as JSON text) and its result.
pub open spec fn terminal_ids_seq(tool_name: Seq<char>, input_json: Seq<char>, result: Seq<char>, is_error: bool) -> Seq<Seq<char>> {
    let combined = tool_name + seq!['\n'] + input_json + seq!['\n'] + result;
    if is_error || !spec_terminal_focus_line(combined) {
        Seq::empty()
    } else {
        dedup_seq(match_texts(regex_matches(pz_post_id_pattern(), combined)))
    }
}

pub fn extract_terminal_pz_post_ids(tool_name: &str, input_json: &str, result_content: &str, is_error: bool) -> (r: Vec<
    String,
>)
    ensures
        strings_view(r@) == terminal_ids_seq(tool_name@, input_json@, result_content@, is_error),
{
    if is_error {
        let v: Vec<String> = Vec::new();
        assert(strings_view(v@) =~= Seq::<Seq<char>>::empty());
        return v;
    }
    let mut combined = chars_of(tool_name);
    combined.push('\n');
    append_str(&mut combined, input_json);
    combined.push('\n');
    append_str(&mut combined, result_content);
    assert(combined@ =~= tool_name@ + seq!['\n'] + input_json@ + seq!['\n'] + result_content@);
    let c = string_of(&combined);
    if !is_terminal_focus_line(c.as_str()) {
        let v: Vec<String> = Vec::new();
        assert(strings_view(v@) =~= Seq::<Seq<char>>::empty());
        return v;
    }
    extract_pz_post_ids(c.as_str())
}

/// A focus line that mentions one of the ids.
pub open spec fn mentions_any(line: Seq<char>, ids: Seq<Seq<char>>) -> bool {
    exists|k: int| 0 <= k < ids.len() && contains_seq(line, #[trigger] ids[k])
}

/// The focus lines kept: those that neither report a finished post nor mention one
/// of the ids, in order.
pub open spec fn kept_focus(lines: Seq<Seq<char>>, ids: Seq<Seq<char>>) -> Seq<Seq<char>>
    decreases lines.len(),
{
    if lines.len() == 0 {
        Seq::empty()
    } else {
        let k = kept_focus(lines.drop_last(), ids);
        let l = lines.last();
        if spec_terminal_focus_line(l) || mentions_any(l, ids) {
            k
        } else {
            k.push(l)
        }
    }
}

/// The recent-focus lines after hygiene, when they changed: with a bulletin present
/// or terminal ids known, lines that report a finished post or mention a terminal
/// id are dropped; `None` when nothing was dropped (no write is needed).
pub open spec fn hygiene_seq(lines: Seq<Seq<char>>, ids: Seq<Seq<char>>, bulletin_present: bool) -> Option<Seq<Seq<char>>> {
    if bulletin_present || ids.len() > 0 {
        let k = kept_focus(lines, ids);
        if k.len() != lines.len() {
            Some(k)
        } else {
            None
        }
    } else {
        None
    }
}

fn mentions_any_exec(line: &Vec<char>, ids: &Vec<String>) -> (r: bool)
    ensures
        r == mentions_any(line@, strings_view(ids@)),
{
    let ghost iv = strings_view(ids@);
    let mut i: usize = 0;
    while i < ids.len()
        invariant
            i <= ids.len(),
            iv == strings_view(ids@),
            forall|k: int| 0 <= k < i ==> !contains_seq(line@, #[trigger] iv[k]),
        decreases ids.len() - i,
    {
        if contains(line, &chars_of(ids[i].as_str())) {
            assert(contains_seq(line@, iv[i as int]));
            return true;
        }
        i += 1;
    }
    false
}

proof fn lemma_kept_len(lines: Seq<Seq<char>>, ids: Seq<Seq<char>>)
    ensures
        kept_focus(lines, ids).len() <= lines.len(),
    decreases lines.len(),
{
    if lines.len() > 0 {
        lemma_kept_len(lines.drop_last(), ids);
    }
}

/// Recent-focus hygiene after a turn: the focus lines to write back, or `None` when
/// nothing changes.
pub fn apply_deterministic_persona_memory_hygiene(
    recent_focus: &Vec<String>,
    terminal_post_ids: &Vec<String>,
    bulletin_present: bool,
) -> (r: Option<Vec<String>>)
    ensures
        match r {
            Some(v) => hygiene_seq(strings_view(recent_focus@), strings_view(terminal_post_ids@), bulletin_present)
                == Some(strings_view(v@)),
            None => hygiene_seq(strings_view(recent_focus@), strings_view(terminal_post_ids@), bulletin_present) is None,
        },
{
    if !bulletin_present && terminal_post_ids.len() == 0 {
        return None;
    }
    let ghost lv = strings_view(recent_focus@);
    let ghost iv = strings_view(terminal_post_ids@);
    let mut kept: Vec<String> = Vec::new();
    let mut i: usize = 0;
    assert(strings_view(kept@) =~= kept_focus(lv.subrange(0, 0), iv));
    while i < recent_focus.len()
        invariant
            i <= recent_focus.len(),
            lv == strings_view(recent_focus@),
            iv == strings_view(terminal_post_ids@),
            strings_view(kept@) == kept_focus(lv.subrange(0, i as int), iv),
        decreases recent_focus.len() - i,
    {
        let ghost sub = lv.subrange(0, i + 1);
        assert(sub.drop_last() =~= lv.subrange(0, i as int));
        let line = chars_of(recent_focus[i].as_str());
        let drop = is_terminal_focus_line(recent_focus[i].as_str()) || mentions_any_exec(&line, terminal_post_ids);
        if !drop {
            let ghost before = strings_view(kept@);
            kept.push(recent_focus[i].clone());
            assert(strings_view(kept@) =~= before.push(lv[i as int]));
        }
        i += 1;
    }
    assert(lv.subrange(0, lv.len() as int) =~= lv);
    proof {
        lemma_kept_len(lv, iv);
    }
    if kept.len() != recent_focus.len() {
        Some(kept)
    } else {
        None
    }
}

/// Applies validated hook memory effects: the focus lines to write back, or `None`
/// when there is nothing to clear.
pub fn apply_hook_memory_effects(recent_focus: &Vec<String>, effects: &HookMemoryEffects) -> (r: Option<Vec<String>>)
    ensures
        effects.terminal_pz_post_ids@.len() == 0 ==> r is None,
        match r {
            Some(v) => hygiene_seq(strings_view(recent_focus@), strings_view(effects.terminal_pz_post_ids@), false)
                == Some(strings_view(v@)),
            None => hygiene_seq(strings_view(recent_focus@), strings_view(effects.terminal_pz_post_ids@), false) is None,
        },
{
    if effects.terminal_pz_post_ids.len() == 0 {
        return None;
    }
    apply_deterministic_persona_memory_hygiene(recent_focus, &effects.terminal_pz_post_ids, false)
}

/// Every line that hygiene keeps neither reports a finished post nor mentions a
/// terminal id.
pub proof fn lemma_kept_focus_clean(lines: Seq<Seq<char>>, ids: Seq<Seq<char>>)
    ensures
        forall|k: int| 0 <= k < kept_focus(lines, ids).len() ==> !spec_terminal_focus_line(
            #[trigger] kept_focus(lines, ids)[k],
        ) && !mentions_any(kept_focus(lines, ids)[k], ids),
    decreases lines.len(),
{
    if lines.len() > 0 {
        lemma_kept_focus_clean(lines.drop_last(), ids);
        let k = kept_focus(lines.drop_last(), ids);
        let l = lines.last();
        if !(spec_terminal_focus_line(l) || mentions_any(l, ids)) {
            assert forall|j: int| 0 <= j < k.push(l).len() implies !spec_terminal_focus_line(#[trigger] k.push(l)[j])
                && !mentions_any(k.push(l)[j], ids) by {
                if j < k.len() {
                    assert(k.push(l)[j] == k[j]);
                }
            }
        }
    }
}

/// Hygiene keeps every clean line: a line that neither reports a finished post nor
/// mentions a terminal id is never dropped, so applying hygiene to its own result
/// changes nothing.
pub proof fn lemma_hygiene_idempotent(lines: Seq<Seq<char>>, ids: Seq<Seq<char>>, bulletin_present: bool)
    requires
        hygiene_seq(lines, ids, bulletin_present) is Some,
    ensures
        hygiene_seq(hygiene_seq(lines, ids, bulletin_present).unwrap(), ids, bulletin_present) is None,
{
    let k = kept_focus(lines, ids);
    lemma_kept_focus_clean(lines, ids);
    lemma_kept_all_clean(k, ids);
}

proof fn lemma_kept_all_clean(lines: Seq<Seq<char>>, ids: Seq<Seq<char>>)
    requires
        forall|k: int| 0 <= k < lines.len() ==> !spec_terminal_focus_line(#[trigger] lines[k]) && !mentions_any(
            lines[k],
            ids,
        ),
    ensures
        kept_focus(lines, ids) == lines,
    decreases lines.len(),
{
    if lines.len() > 0 {
        let t = lines.drop_last();
        assert forall|k: int| 0 <= k < t.len() implies !spec_terminal_focus_line(#[trigger] t[k]) && !mentions_any(
            t[k],
            ids,
        ) by {
            assert(t[k] == lines[k]);
        }
        lemma_kept_all_clean(t, ids);
        assert(lines.last() == lines[lines.len() - 1]);
        assert(t.push(lines.last()) =~= lines);
    }
}

proof fn lemma_kept_shorter(lines: Seq<Seq<char>>, ids: Seq<Seq<char>>, i: int)
    requires
        0 <= i < lines.len(),
        spec_terminal_focus_line(lines[i]),
    ensures
        kept_focus(lines, ids).len() < lines.len(),
    decreases lines.len(),
{
    let d = lines.drop_last();
    lemma_kept_len(d, ids);
    if i < lines.len() - 1 {
        assert(d[i] == lines[i]);
        lemma_kept_shorter(d, ids, i);
    } else {
        assert(lines.last() == lines[i]);
    }
}

/// With a bulletin present (or terminal ids known), hygiene rewrites the focus
/// whenever a line reports a finished post, whatever the ids: the lines written
/// back report no published, scrapped, completed or cancelled post.
pub proof fn lemma_hygiene_drops_finished_posts(lines: Seq<Seq<char>>, ids: Seq<Seq<char>>, bulletin_present: bool)
    ensures
        (bulletin_present || ids.len() > 0) && (exists|i: int|
            0 <= i < lines.len() && ({
                let l = lower_seq(#[trigger] lines[i]);
                contains_seq(l, "published"@) || contains_seq(l, "scrapped"@) || contains_seq(l, "completed"@)
                    || contains_seq(l, "cancelled"@) || contains_seq(l, "canceled"@)
            })) ==> (hygiene_seq(lines, ids, bulletin_present) matches Some(k) && forall|j: int|
            0 <= j < k.len() ==> !({
                let l = lower_seq(#[trigger] k[j]);
                contains_seq(l, "published"@) || contains_seq(l, "scrapped"@) || contains_seq(l, "completed"@)
                    || contains_seq(l, "cancelled"@) || contains_seq(l, "canceled"@)
            })),
{
    if (bulletin_present || ids.len() > 0) && (exists|i: int|
        0 <= i < lines.len() && spec_terminal_focus_line(#[trigger] lines[i])) {
        let i = choose|i: int| 0 <= i < lines.len() && spec_terminal_focus_line(#[trigger] lines[i]);
        lemma_kept_shorter(lines, ids, i);
        lemma_kept_focus_clean(lines, ids);
    }
}

} // verus!
