//! Stored records of the bot and the decisions taken on them before or after
//! they reach storage. The storage engine itself lives outside the library.
use vstd::prelude::*;
use crate::decimal::{all_digits, digits_value, i64_decimal, parse_u64, signed_decimal_seq};
use crate::error::FinallyAValueBotError;
use crate::hook_runtime::{action_kind, spec_action_kind, HookActionKind};
use crate::json::{items_model, json_check, json_parse, json_parse_error, json_value_of, lemma_items_model, JsonModel, JsonValue};
use crate::text::{append_str, append_vec, chars_of, lower_seq, lower_vec, string_of, strings_view, subvec, trim_seq, trim_vec, vec_eq};

verus! {

/// Origin marker of an interactive message.
pub open spec fn spec_origin_interactive() -> Seq<char> {
    seq!['i', 'n', 't', 'e', 'r', 'a', 'c', 't', 'i', 'v', 'e']
}

/// Origin marker of a scheduler final delivery.
pub open spec fn spec_origin_scheduled() -> Seq<char> {
    seq!['s', 'c', 'h', 'e', 'd', 'u', 'l', 'e', 'd']
}

/// `"interactive"`.
pub fn message_origin_interactive() -> (r: String)
    ensures
        r@ == spec_origin_interactive(),
{
    let r = String::from_str("interactive");
    proof {
        reveal_strlit("interactive");
    }
    r
}

/// `"scheduled"`.
pub fn message_origin_scheduled() -> (r: String)
    ensures
        r@ == spec_origin_scheduled(),
{
    let r = String::from_str("scheduled");
    proof {
        reveal_strlit("scheduled");
    }
    r
}

/// A message row. `origin` is `interactive` (default) or `scheduled`.
#[derive(Debug, Clone)]
pub struct StoredMessage {
    pub id: String,
    pub chat_id: i64,
    pub persona_id: i64,
    pub session_id: Option<String>,
    pub sender_name: String,
    pub content: String,
    pub is_from_bot: bool,
    pub timestamp: String,
    pub origin: String,
}

/// The origin a message is stored and read with: a missing or blank origin is
/// `interactive`.
pub open spec fn spec_stored_origin(origin: Option<Seq<char>>) -> Seq<char> {
    match origin {
        Some(o) => if trim_seq(o).len() > 0 {
            o
        } else {
            spec_origin_interactive()
        },
        None => spec_origin_interactive(),
    }
}

pub fn stored_origin(origin: Option<&str>) -> (r: String)
    ensures
        r@ == spec_stored_origin(
            match origin {
                Some(o) => Some(o@),
                None => None,
            },
        ),
{
    match origin {
        Some(o) => if trim_vec(&chars_of(o)).len() > 0 {
            o.to_string()
        } else {
            message_origin_interactive()
        },
        None => message_origin_interactive(),
    }
}

/// A final delivery repeats the chat's latest message when that message came from
/// the bot with the same content no more than `max_age_secs` seconds ago; the age
/// is `None` when the latest message's time could not be read, and then nothing
/// is skipped.
pub fn duplicate_final_delivery(
    last_is_from_bot: bool,
    last_content: &str,
    content: &str,
    age_secs: Option<i64>,
    max_age_secs: i64,
) -> (r: bool)
    ensures
        r == (last_is_from_bot && last_content@ == content@ && (age_secs matches Some(a) && 0 <= a
            <= max_age_secs)),
{
    if !last_is_from_bot || !vec_eq(&chars_of(last_content), &chars_of(content)) {
        return false;
    }
    match age_secs {
        Some(a) => 0 <= a && a <= max_age_secs,
        None => false,
    }
}

/// A focused chat session.
#[derive(Debug, Clone)]
pub struct ChatSession {
    pub id: String,
    pub chat_id: i64,
    pub persona_id: i64,
    pub title: String,
    pub intent: String,
    pub status: String,
    pub created_at: String,
    pub last_active_at: String,
    pub archived_at: Option<String>,
    pub ttl_hours: i64,
    pub bootstrap_context_json: Option<String>,
    pub mirror_main_chat: bool,
}

/// A persona of a chat, with its dense-delivery settings.
#[derive(Debug, Clone)]
pub struct Persona {
    pub id: i64,
    pub chat_id: i64,
    pub name: String,
    pub model_override: Option<String>,
    pub recent_history_min_user: Option<i64>,
    pub recent_history_min_assistant: Option<i64>,
    pub operator_memo: Option<String>,
    pub dense_delivery_enabled: bool,
    pub dense_delivery_messaging_max_chars: Option<i64>,
    pub dense_delivery_web_max_chars: Option<i64>,
    pub dense_delivery_summary_chars: Option<i64>,
    pub agent_engine_override: Option<String>,
}

/// Maximum `operator_memo` length in characters.
pub const OPERATOR_MEMO_MAX_CHARS: usize = 4000;

#[derive(Debug, Clone)]
pub struct ChatSummary {
    pub chat_id: i64,
    pub chat_title: Option<String>,
    pub chat_type: String,
    pub last_message_time: String,
    pub last_message_preview: Option<String>,
}

#[derive(Debug, Clone)]
pub struct TaskRunLog {
    pub id: i64,
    pub task_id: i64,
    pub chat_id: i64,
    pub started_at: String,
    pub finished_at: String,
    pub duration_ms: i64,
    pub success: bool,
    pub result_summary: Option<String>,
}

#[derive(Debug, Clone)]
pub struct SocialOAuthToken {
    pub platform: String,
    pub chat_id: i64,
    pub access_token: String,
    pub refresh_token: Option<String>,
    pub expires_at: Option<String>,
}

/// A scheduled task; `schedule_type` is `cron` or `once`.
#[derive(Debug, Clone)]
pub struct ScheduledTask {
    pub id: i64,
    pub chat_id: i64,
    pub persona_id: i64,
    pub prompt: String,
    pub schedule_type: String,
    pub schedule_value: String,
    pub next_run: String,
    pub last_run: Option<String>,
    pub status: String,
    pub created_at: String,
}

/// Channel identity `0` is the web channel.
pub const BOT_INSTANCE_WEB: i64 = 0;
pub const BOT_INSTANCE_TELEGRAM_PRIMARY: i64 = 1;
pub const BOT_INSTANCE_DISCORD_PRIMARY: i64 = 2;
pub const BOT_INSTANCE_WHATSAPP_PRIMARY: i64 = 3;

#[derive(Debug, Clone)]
pub struct ChannelBotInstance {
    pub id: i64,
    pub platform: String,
    pub label: String,
    pub token: String,
    pub created_at: String,
}

#[derive(Debug, Clone)]
pub struct ChannelBinding {
    pub canonical_chat_id: i64,
    pub bot_instance_id: i64,
    pub channel_type: String,
    pub channel_handle: String,
}

#[derive(Debug, Clone)]
pub struct ContactChannelIntegrationRow {
    pub bot_instance_id: i64,
    pub platform: String,
    pub label: String,
    pub channel_handle: Option<String>,
    pub linked: bool,
    pub persona_mode: ChannelPersonaMode,
    pub persona_id: Option<i64>,
}

#[derive(Debug, Clone)]
pub struct AppSetting {
    pub key: String,
    pub value: String,
    pub updated_at: String,
}

/// A hook definition; `scoped_persona_ids == None` means global scope.
#[derive(Debug, Clone)]
pub struct HookDefinitionRecord {
    pub id: i64,
    pub name: String,
    pub event_name: String,
    pub matcher: Option<String>,
    pub action_type: String,
    pub action_payload_json: String,
    pub scoped_persona_ids: Option<Vec<i64>>,
    pub enabled: bool,
    pub updated_at: String,
}

/// Whether a hook with scope `scope` applies to `persona_id`.
pub open spec fn spec_scoped_for(scope: Option<Seq<i64>>, persona_id: i64) -> bool {
    match scope {
        None => true,
        Some(ids) => ids.contains(persona_id),
    }
}

/// Whether `ids` holds `x`.
pub fn vec_contains_i64(ids: &Vec<i64>, x: i64) -> (r: bool)
    ensures
        r == ids@.contains(x),
{
    let mut i: usize = 0;
    while i < ids.len()
        invariant
            i <= ids.len(),
            forall|k: int| 0 <= k < i ==> ids@[k] != x,
        decreases ids.len() - i,
    {
        if ids[i] == x {
            return true;
        }
        i += 1;
    }
    false
}

impl HookDefinitionRecord {
    pub open spec fn spec_scope(&self) -> Option<Seq<i64>> {
        match self.scoped_persona_ids {
            None => None,
            Some(v) => Some(v@),
        }
    }

    /// Global hooks apply to every persona; scoped hooks only to listed ones.
    pub fn scoped_for_persona(&self, persona_id: i64) -> (r: bool)
        ensures
            r == spec_scoped_for(self.spec_scope(), persona_id),
    {
        match &self.scoped_persona_ids {
            None => true,
            Some(ids) => vec_contains_i64(ids, persona_id),
        }
    }
}

#[derive(Debug, Clone)]
pub struct PersonaHookSkillPolicy {
    pub chat_id: i64,
    pub persona_id: i64,
    pub allowed_hook_ids: Option<Vec<i64>>,
    pub allowed_skill_names: Option<Vec<String>>,
    pub updated_at: String,
}

/// Whether a channel serves all personas or a single one.
#[derive(Debug, Clone, Copy, PartialEq, Eq)]
pub enum ChannelPersonaMode {
    All,
    Single,
}

impl ChannelPersonaMode {
    pub open spec fn spec_str(self) -> Seq<char> {
        match self {
            ChannelPersonaMode::All => seq!['a', 'l', 'l'],
            ChannelPersonaMode::Single => seq!['s', 'i', 'n', 'g', 'l', 'e'],
        }
    }

    /// Storage name of the mode.
    pub fn as_str(self) -> (r: &'static str)
        ensures
            r@ == self.spec_str(),
    {
        match self {
            ChannelPersonaMode::All => {
                proof {
                    reveal_strlit("all");
                }
                "all"
            },
            ChannelPersonaMode::Single => {
                proof {
                    reveal_strlit("single");
                }
                "single"
            },
        }
    }

    /// Parses a storage name; anything but `all` / `single` is rejected.
    pub fn parse(value: &str) -> (r: Result<ChannelPersonaMode, crate::error::FinallyAValueBotError>)
        ensures
            value@ == seq!['a', 'l', 'l'] ==> r == Ok::<ChannelPersonaMode, crate::error::FinallyAValueBotError>(ChannelPersonaMode::All),
            value@ == seq!['s', 'i', 'n', 'g', 'l', 'e'] ==> r == Ok::<ChannelPersonaMode, crate::error::FinallyAValueBotError>(ChannelPersonaMode::Single),
            value@ != seq!['a', 'l', 'l'] && value@ != seq!['s', 'i', 'n', 'g', 'l', 'e'] ==> r is Err,
            r matches Ok(m) ==> m.spec_str() == value@,
    {
        let v = chars_of(value);
        let all = chars_of("all");
        let single = chars_of("single");
        proof {
            reveal_strlit("all");
            reveal_strlit("single");
            assert(all@ =~= seq!['a', 'l', 'l']);
            assert(single@ =~= seq!['s', 'i', 'n', 'g', 'l', 'e']);
        }
        if vec_eq(&v, &all) {
            Ok(ChannelPersonaMode::All)
        } else if vec_eq(&v, &single) {
            Ok(ChannelPersonaMode::Single)
        } else {
            let mut msg = chars_of("Invalid channel persona mode: ");
            append_vec(&mut msg, &v);
            Err(crate::error::FinallyAValueBotError::ToolExecution(string_of(&msg)))
        }
    }
}

#[derive(Debug, Clone)]
pub struct ChannelPersonaPolicy {
    pub canonical_chat_id: i64,
    pub bot_instance_id: i64,
    pub mode: ChannelPersonaMode,
    pub persona_id: Option<i64>,
    pub updated_at: String,
}

/// A background job; `job_kind` is `agent` (default) or `shell`.
#[derive(Debug, Clone)]
pub struct BackgroundJob {
    pub id: String,
    pub chat_id: i64,
    pub persona_id: i64,
    pub prompt: String,
    pub status: String,
    pub trigger_reason: String,
    pub created_at: String,
    pub started_at: Option<String>,
    pub finished_at: Option<String>,
    pub result_text: Option<String>,
    pub error_text: Option<String>,
    pub lease_owner: Option<String>,
    pub lease_expires_at: Option<String>,
    pub last_progress_at: Option<String>,
    pub last_stage: Option<String>,
    pub job_kind: String,
    pub shell_command: Option<String>,
    pub workdir: Option<String>,
    pub tmux_session: Option<String>,
    pub output_path: Option<String>,
    pub exit_code: Option<i32>,
    pub label: Option<String>,
}

#[derive(Debug, Clone)]
pub struct JobHeartbeat {
    pub run_key: String,
    pub chat_id: i64,
    pub persona_id: i64,
    pub job_type: String,
    pub stage: String,
    pub message: String,
    pub active: bool,
    pub updated_at: String,
}

#[derive(Debug, Clone)]
pub struct ProjectRecord {
    pub id: i64,
    pub owner_chat_id: i64,
    pub title: String,
    pub project_type: String,
    pub status: String,
    pub canonical_path: Option<String>,
    pub metadata_json: String,
    pub updated_at: String,
}

#[derive(Debug, Clone)]
pub struct RunTimelineEvent {
    pub id: i64,
    pub run_key: String,
    pub chat_id: i64,
    pub persona_id: i64,
    pub event_type: String,
    pub payload_json: String,
    pub created_at: String,
}

#[derive(Debug, Clone)]
pub struct PersonaBulletinEvent {
    pub id: i64,
    pub chat_id: i64,
    pub persona_id: i64,
    pub run_key: Option<String>,
    pub event_type: String,
    pub title: String,
    pub detail: Option<String>,
    pub created_at: String,
}

#[derive(Debug, Clone)]
pub struct PersonaBulletinFocus {
    pub chat_id: i64,
    pub persona_id: i64,
    pub title: Option<String>,
    pub content: String,
    pub updated_at: String,
}

#[derive(Debug, Clone)]
pub struct PersonaMessageBookmark {
    pub chat_id: i64,
    pub persona_id: i64,
    pub message_id: String,
    pub role: String,
    pub content_preview: String,
    pub note: Option<String>,
    pub created_at: String,
    pub updated_at: String,
}

#[derive(Debug, Clone)]
pub struct CursorAgentRun {
    pub id: i64,
    pub chat_id: i64,
    pub channel: String,
    pub prompt_preview: String,
    pub workdir: Option<String>,
    pub started_at: String,
    pub finished_at: String,
    pub success: bool,
    pub exit_code: Option<i32>,
    pub output_preview: Option<String>,
    pub output_path: Option<String>,
    pub tmux_session: Option<String>,
}


// ---------------------------------------------------------------------------
// Hook and skill policies
// ---------------------------------------------------------------------------

/// `serde_json`'s `as_i64` on a number, read from the number's text:
/// `serde_json` writes an integer as its decimal digits, with `-` before a negative
/// one, and any other number with a `.` or an exponent, so a number is an `i64`
/// exactly when its text is such digits with a value in range.
pub open spec fn i64_of_number_text(t: Seq<char>) -> Option<i64> {
    if t.len() > 0 && t[0] == '-' {
        let d = t.drop_first();
        if d.len() > 0 && all_digits(d) && digits_value(d) <= 0x8000_0000_0000_0000 {
            Some((0 - digits_value(d)) as i64)
        } else {
            None
        }
    } else if t.len() > 0 && all_digits(t) && digits_value(t) <= i64::MAX {
        Some(digits_value(t) as i64)
    } else {
        None
    }
}

/// The integer a JSON value holds, as `serde_json`'s `as_i64` reads it.
pub open spec fn model_as_i64(m: JsonModel) -> Option<i64> {
    match m {
        JsonModel::Number(_, t) => i64_of_number_text(t),
        _ => None,
    }
}

/// The text a JSON value holds, when it is a string.
pub open spec fn model_as_str(m: JsonModel) -> Option<Seq<char>> {
    match m {
        JsonModel::Str(s) => Some(s),
        _ => None,
    }
}

/// What a stored id list reads as: missing is no list; otherwise the trimmed text
/// must be a JSON array of integers, and each other outcome is an error whose text
/// names the column `label`.
pub open spec fn stored_id_list(raw: Option<Seq<char>>, label: Seq<char>) -> Result<Option<Seq<i64>>, Seq<char>> {
    match raw {
        None => Ok(None),
        Some(t) => match json_value_of(trim_seq(t)) {
            None => Err("Invalid "@ + label + ": "@ + json_parse_error(trim_seq(t)).unwrap()),
            Some(JsonModel::Array(items)) => if forall|i: int| 0 <= i < items.len() ==> #[trigger] model_as_i64(items[i]) is Some {
                Ok(Some(items.map_values(|m: JsonModel| model_as_i64(m).unwrap())))
            } else {
                Err("Invalid "@ + label + ": array must contain integers"@)
            },
            Some(_) => Err("Invalid "@ + label + ": expected JSON array"@),
        },
    }
}

/// What a stored name list reads as: missing is no list; otherwise the trimmed
/// text must be a JSON array of strings, each kept trimmed, and each other outcome
/// is an error whose text names the column `label`.
pub open spec fn stored_name_list(raw: Option<Seq<char>>, label: Seq<char>) -> Result<Option<Seq<Seq<char>>>, Seq<char>> {
    match raw {
        None => Ok(None),
        Some(t) => match json_value_of(trim_seq(t)) {
            None => Err("Invalid "@ + label + ": "@ + json_parse_error(trim_seq(t)).unwrap()),
            Some(JsonModel::Array(items)) => if forall|i: int| 0 <= i < items.len() ==> #[trigger] model_as_str(items[i]) is Some {
                Ok(Some(items.map_values(|m: JsonModel| trim_seq(model_as_str(m).unwrap()))))
            } else {
                Err("Invalid "@ + label + ": array must contain strings"@)
            },
            Some(_) => Err("Invalid "@ + label + ": expected JSON array"@),
        },
    }
}

/// `as_i64` on a number's text.
fn number_text_i64(t: &Vec<char>) -> (r: Option<i64>)
    ensures
        r == i64_of_number_text(t@),
{
    let neg = t.len() > 0 && t[0] == '-';
    let d = if neg {
        subvec(t, 1, t.len())
    } else {
        subvec(t, 0, t.len())
    };
    assert(neg ==> d@ =~= t@.drop_first());
    assert(!neg ==> d@ =~= t@);
    if d.len() == 0 {
        return None;
    }
    let mut i: usize = 0;
    while i < d.len()
        invariant
            i <= d.len(),
            d@.len() > 0,
            neg == (t@.len() > 0 && t@[0] == '-'),
            neg ==> d@ == t@.drop_first(),
            !neg ==> d@ == t@,
            forall|k: int| 0 <= k < i ==> crate::decimal::is_digit(#[trigger] d@[k]),
        decreases d.len() - i,
    {
        if !('0' <= d[i] && d[i] <= '9') {
            assert(!crate::decimal::is_digit(d@[i as int]));
            assert(!all_digits(d@));
            return None;
        }
        i += 1;
    }
    assert(all_digits(d@));
    match parse_u64(&d) {
        None => None,
        Some(v) => {
            assert(v == digits_value(d@));
            if neg {
                if v < 0x8000_0000_0000_0000u64 {
                    Some(0 - (v as i64))
                } else if v == 0x8000_0000_0000_0000u64 {
                    Some(i64::MIN)
                } else {
                    None
                }
            } else if v <= 0x7fff_ffff_ffff_ffffu64 {
                Some(v as i64)
            } else {
                None
            }
        },
    }
}

fn invalid_column(label: &str, detail: &str) -> (r: FinallyAValueBotError)
    ensures
        r matches FinallyAValueBotError::ToolExecution(m) && m@ == "Invalid "@ + label@ + detail@,
{
    let mut v = chars_of("Invalid ");
    append_str(&mut v, label);
    append_str(&mut v, detail);
    FinallyAValueBotError::ToolExecution(string_of(&v))
}

/// Reads a stored JSON list of hook ids (`allowed_hook_ids_json`).
pub fn parse_i64_array_json(raw: Option<&str>) -> (r: Result<Option<Vec<i64>>, FinallyAValueBotError>)
    ensures
        match stored_id_list(
            match raw {
                Some(t) => Some(t@),
                None => None,
            },
            "allowed_hook_ids_json"@,
        ) {
            Ok(None) => r matches Ok(None),
            Ok(Some(ids)) => r matches Ok(Some(v)) && v@ == ids,
            Err(e) => r matches Err(FinallyAValueBotError::ToolExecution(m)) && m@ == e,
        },
{
    let raw_text = match raw {
        None => {
            return Ok(None);
        },
        Some(t) => t,
    };
    let text = string_of(&trim_vec(&chars_of(raw_text)));
    let parsed = match json_parse(text.as_str()) {
        Ok(v) => v,
        Err(e) => {
            let mut d = chars_of(": ");
            append_str(&mut d, e.as_str());
            return Err(invalid_column("allowed_hook_ids_json", string_of(&d).as_str()));
        },
    };
    let items = match &parsed {
        JsonValue::Array(items) => items,
        _ => {
            return Err(invalid_column("allowed_hook_ids_json", ": expected JSON array"));
        },
    };
    let ghost m = items_model(items@);
    proof {
        lemma_items_model(items@);
        assert(text@ == trim_seq(raw_text@));
        assert(json_value_of(trim_seq(raw_text@)) == Some(JsonModel::Array(m)));
    }
    let mut out: Vec<i64> = Vec::new();
    let mut i: usize = 0;
    while i < items.len()
        invariant
            i <= items.len(),
            m.len() == items@.len(),
            json_value_of(trim_seq(raw_text@)) == Some(JsonModel::Array(m)),
            raw == Some(raw_text),
            forall|k: int| 0 <= k < items@.len() ==> #[trigger] m[k] == crate::json::json_model(items@[k]),
            out@.len() == i,
            forall|k: int| 0 <= k < i ==> #[trigger] model_as_i64(m[k]) == Some(out@[k]),
        decreases items.len() - i,
    {
        let n = match &items[i] {
            JsonValue::Number(_, t) => number_text_i64(&chars_of(t.as_str())),
            _ => None,
        };
        assert(n == model_as_i64(m[i as int]));
        match n {
            Some(x) => out.push(x),
            None => {
                assert(model_as_i64(m[i as int]) is None);
                return Err(invalid_column("allowed_hook_ids_json", ": array must contain integers"));
            },
        }
        i += 1;
    }
    assert(out@ =~= m.map_values(|x: JsonModel| model_as_i64(x).unwrap()));
    Ok(Some(out))
}

/// Reads a stored JSON list of skill names (`allowed_skill_names_json`); each name
/// is kept trimmed.
pub fn parse_string_array_json(raw: Option<&str>) -> (r: Result<Option<Vec<String>>, FinallyAValueBotError>)
    ensures
        match stored_name_list(
            match raw {
                Some(t) => Some(t@),
                None => None,
            },
            "allowed_skill_names_json"@,
        ) {
            Ok(None) => r matches Ok(None),
            Ok(Some(names)) => r matches Ok(Some(v)) && strings_view(v@) == names,
            Err(e) => r matches Err(FinallyAValueBotError::ToolExecution(m)) && m@ == e,
        },
{
    let raw_text = match raw {
        None => {
            return Ok(None);
        },
        Some(t) => t,
    };
    let text = string_of(&trim_vec(&chars_of(raw_text)));
    let parsed = match json_parse(text.as_str()) {
        Ok(v) => v,
        Err(e) => {
            let mut d = chars_of(": ");
            append_str(&mut d, e.as_str());
            return Err(invalid_column("allowed_skill_names_json", string_of(&d).as_str()));
        },
    };
    let items = match &parsed {
        JsonValue::Array(items) => items,
        _ => {
            return Err(invalid_column("allowed_skill_names_json", ": expected JSON array"));
        },
    };
    let ghost m = items_model(items@);
    proof {
        lemma_items_model(items@);
        assert(text@ == trim_seq(raw_text@));
        assert(json_value_of(trim_seq(raw_text@)) == Some(JsonModel::Array(m)));
    }
    let mut out: Vec<String> = Vec::new();
    let mut i: usize = 0;
    while i < items.len()
        invariant
            i <= items.len(),
            m.len() == items@.len(),
            json_value_of(trim_seq(raw_text@)) == Some(JsonModel::Array(m)),
            raw == Some(raw_text),
            forall|k: int| 0 <= k < items@.len() ==> #[trigger] m[k] == crate::json::json_model(items@[k]),
            out@.len() == i,
            forall|k: int| 0 <= k < i ==> (#[trigger] model_as_str(m[k])) is Some && out@[k]@ == trim_seq(
                model_as_str(m[k]).unwrap(),
            ),
        decreases items.len() - i,
    {
        match &items[i] {
            JsonValue::Str(s) => {
                out.push(string_of(&trim_vec(&chars_of(s.as_str()))));
            },
            _ => {
                assert(model_as_str(m[i as int]) is None);
                return Err(invalid_column("allowed_skill_names_json", ": array must contain strings"));
            },
        }
        i += 1;
    }
    assert(strings_view(out@) =~= m.map_values(|x: JsonModel| trim_seq(model_as_str(x).unwrap())));
    Ok(Some(out))
}

/// A persona's policy allows a hook: no policy or no hook list allows all; a list
/// allows the hooks it names.
pub open spec fn spec_hook_allowed(policy: Option<PersonaHookSkillPolicy>, hook_id: i64) -> bool {
    match policy {
        None => true,
        Some(p) => match p.allowed_hook_ids {
            None => true,
            Some(ids) => ids@.contains(hook_id),
        },
    }
}

pub fn hook_allowed_by_policy(policy: Option<&PersonaHookSkillPolicy>, hook_id: i64) -> (r: bool)
    ensures
        r == spec_hook_allowed(match policy { Some(p) => Some(*p), None => None }, hook_id),
{
    match policy {
        None => true,
        Some(p) => match &p.allowed_hook_ids {
            None => true,
            Some(ids) => vec_contains_i64(ids, hook_id),
        },
    }
}

/// A persona's policy allows a skill: no policy or no skill list allows all; a list
/// allows the skills it names, without regard to ASCII case.
pub open spec fn spec_skill_allowed(policy: Option<PersonaHookSkillPolicy>, skill: Seq<char>) -> bool {
    match policy {
        None => true,
        Some(p) => match p.allowed_skill_names {
            None => true,
            Some(names) => exists|k: int| 0 <= k < names@.len() && lower_seq(#[trigger] names@[k]@) == lower_seq(skill),
        },
    }
}

pub fn skill_allowed_by_policy(policy: Option<&PersonaHookSkillPolicy>, skill_name: &str) -> (r: bool)
    ensures
        r == spec_skill_allowed(match policy { Some(p) => Some(*p), None => None }, skill_name@),
{
    match policy {
        None => true,
        Some(p) => match &p.allowed_skill_names {
            None => true,
            Some(names) => any_name_matches(names, skill_name),
        },
    }
}

fn any_name_matches(names: &Vec<String>, skill_name: &str) -> (r: bool)
    ensures
        r == exists|k: int| 0 <= k < names@.len() && lower_seq(#[trigger] names@[k]@) == lower_seq(skill_name@),
{
    let s = lower_vec(&chars_of(skill_name));
    let mut i: usize = 0;
    while i < names.len()
        invariant
            i <= names.len(),
            s@ == lower_seq(skill_name@),
            forall|k: int| 0 <= k < i ==> lower_seq(#[trigger] names@[k]@) != lower_seq(skill_name@),
        decreases names.len() - i,
    {
        if vec_eq(&lower_vec(&chars_of(names[i].as_str())), &s) {
            assert(lower_seq(names@[i as int]@) == lower_seq(skill_name@));
            return true;
        }
        i += 1;
    }
    false
}

/// A hook's standing for a persona: whether it is scoped to the persona, whether the
/// persona's policy allows it, and whether it is active (enabled, scoped and
/// allowed).
pub fn hook_persona_status(record: &HookDefinitionRecord, persona_id: i64, allowed_for_persona: bool) -> (r: (
    bool,
    bool,
    bool,
))
    ensures
        r.0 == spec_scoped_for(record.spec_scope(), persona_id),
        r.1 == allowed_for_persona,
        r.2 == (record.enabled && r.0 && allowed_for_persona),
{
    let scoped = record.scoped_for_persona(persona_id);
    (scoped, allowed_for_persona, record.enabled && scoped && allowed_for_persona)
}

// ---------------------------------------------------------------------------
// Hook definitions as written
// ---------------------------------------------------------------------------

/// Each element is smaller than every later one.
pub open spec fn strictly_sorted(s: Seq<i64>) -> bool {
    forall|i: int, j: int| 0 <= i < j < s.len() ==> s[i] < s[j]
}

/// The persona ids a hook is scoped to, as stored: the positive ones, ascending,
/// each once.
pub fn normalize_scoped_ids(ids: &Vec<i64>) -> (r: Vec<i64>)
    ensures
        strictly_sorted(r@),
        forall|x: i64| r@.contains(x) <==> (ids@.contains(x) && x > 0),
{
    let mut out: Vec<i64> = Vec::new();
    let mut i: usize = 0;
    while i < ids.len()
        invariant
            i <= ids.len(),
            strictly_sorted(out@),
            forall|x: i64| out@.contains(x) <==> (ids@.subrange(0, i as int).contains(x) && x > 0),
        decreases ids.len() - i,
    {
        let x = ids[i];
        let ghost before = out@;
        if x > 0 {
            insert_sorted(&mut out, x);
        }
        assert forall|y: i64| out@.contains(y) <==> (ids@.subrange(0, i + 1).contains(y) && y > 0) by {
            assert(ids@.subrange(0, i + 1) =~= ids@.subrange(0, i as int).push(x));
            let pre = ids@.subrange(0, i as int);
            let pre1 = ids@.subrange(0, i + 1);
            if pre.contains(y) {
                let j = choose|j: int| 0 <= j < pre.len() && #[trigger] pre[j] == y;
                assert(pre1[j] == y);
            }
            if pre1.contains(y) && y != x {
                let j = choose|j: int| 0 <= j < pre1.len() && #[trigger] pre1[j] == y;
                assert(pre[j] == y);
            }
            if y == x {
                assert(ids@.subrange(0, i + 1)[i as int] == y);
            }
        }
        i += 1;
    }
    assert(ids@.subrange(0, ids@.len() as int) =~= ids@);
    out
}

#[verifier::spinoff_prover]
fn insert_sorted(out: &mut Vec<i64>, x: i64)
    requires
        strictly_sorted(old(out)@),
    ensures
        strictly_sorted(final(out)@),
        forall|y: i64| #[trigger] final(out)@.contains(y) <==> (old(out)@.contains(y) || y == x),
{
    let ghost before = out@;
    let mut k: usize = 0;
    while k < out.len() && out[k] < x
        invariant
            k <= out.len(),
            out@ == before,
            forall|j: int| 0 <= j < k ==> before[j] < x,
        decreases out.len() - k,
    {
        k += 1;
    }
    if k < out.len() && out[k] == x {
        assert(before[k as int] == x);
        assert(out@.contains(x));
        return;
    }
    assert(k < before.len() ==> before[k as int] > x);
    out.insert(k, x);
    assert(out@ == before.insert(k as int, x));
    assert forall|a: int, b: int| 0 <= a < b < out@.len() implies out@[a] < out@[b] by {
        if b < k {
            assert(out@[a] == before[a] && out@[b] == before[b]);
        } else if b == k {
            assert(out@[a] == before[a]);
        } else if a < k {
            assert(out@[a] == before[a] && out@[b] == before[b - 1]);
            assert(before[k as int] > x);
            if b - 1 > k {
                assert(before[k as int] < before[b - 1]);
            }
        } else if a == k {
            assert(out@[b] == before[b - 1]);
            if b - 1 > k {
                assert(before[k as int] < before[b - 1]);
            }
        } else {
            assert(out@[a] == before[a - 1] && out@[b] == before[b - 1]);
        }
    }
    assert forall|y: i64| out@.contains(y) <==> (before.contains(y) || y == x) by {
        if before.contains(y) {
            let j = choose|j: int| 0 <= j < before.len() && before[j] == y;
            if j < k {
                assert(out@[j] == y);
                assert(out@.contains(y));
            } else {
                assert(out@[j + 1] == y);
                assert(out@.contains(y));
            }
        }
        if y == x {
            assert(out@[k as int] == x);
            assert(out@.contains(y));
        }
        if out@.contains(y) && y != x {
            let j = choose|j: int| 0 <= j < out@.len() && out@[j] == y;
            if j < k {
                assert(before[j] == y);
            } else if j == k {
                assert(out@[j] == x);
            } else {
                assert(before[j - 1] == y);
            }
        }
    }
    assert(before == old(out)@);
    assert(forall|y: i64| #[trigger] out@.contains(y) <==> (old(out)@.contains(y) || y == x));
    assert(strictly_sorted(out@));
}

/// A list of numbers as a JSON array: `[1,2,3]`.
pub open spec fn ids_json_seq(ids: Seq<i64>) -> Seq<char>
    decreases ids.len(),
{
    if ids.len() == 0 {
        "[]"@
    } else {
        seq!['['] + ids_body(ids) + seq![']']
    }
}

/// The numbers of a JSON array, comma-separated.
pub open spec fn ids_body(ids: Seq<i64>) -> Seq<char>
    decreases ids.len(),
{
    if ids.len() == 0 {
        Seq::empty()
    } else if ids.len() == 1 {
        signed_decimal_seq(ids[0] as int)
    } else {
        ids_body(ids.drop_last()) + seq![','] + signed_decimal_seq(ids.last() as int)
    }
}

pub fn ids_json(ids: &Vec<i64>) -> (r: String)
    ensures
        r@ == ids_json_seq(ids@),
{
    if ids.len() == 0 {
        return String::from_str("[]");
    }
    let mut body: Vec<char> = Vec::new();
    let mut i: usize = 0;
    assert(body@ =~= ids_body(ids@.subrange(0, 0)));
    while i < ids.len()
        invariant
            i <= ids.len(),
            body@ == ids_body(ids@.subrange(0, i as int)),
        decreases ids.len() - i,
    {
        let ghost sub = ids@.subrange(0, i + 1);
        assert(sub.drop_last() =~= ids@.subrange(0, i as int));
        if i > 0 {
            body.push(',');
        } else {
            assert(body@ =~= Seq::<char>::empty());
        }
        append_vec(&mut body, &i64_decimal(ids[i]));
        i += 1;
    }
    assert(ids@.subrange(0, ids@.len() as int) =~= ids@);
    let mut out = vec!['['];
    append_vec(&mut out, &body);
    out.push(']');
    assert(out@ =~= seq!['['] + ids_body(ids@) + seq![']']);
    string_of(&out)
}

/// A hook definition as it is written to storage.
#[derive(Debug, Clone)]
pub struct HookDefinitionWrite {
    pub name: String,
    pub event_name: String,
    pub matcher: Option<String>,
    pub action_type: String,
    pub action_payload_json: String,
    pub scoped_persona_ids_json: Option<String>,
    pub enabled: i64,
}

/// Why a hook definition is refused, if it is: a blank name, event or action type;
/// an action type the runtime does not know; a payload that is not JSON.
pub open spec fn hook_definition_error(name: Seq<char>, event_name: Seq<char>, action_type: Seq<char>, payload: Seq<char>) -> Option<
    Seq<char>,
> {
    let at = lower_seq(trim_seq(action_type));
    if trim_seq(name).len() == 0 || trim_seq(event_name).len() == 0 || at.len() == 0 {
        Some("name, event_name, and action_type are required"@)
    } else if spec_action_kind(action_type) == HookActionKind::Unknown {
        Some(
            "Unsupported action_type '"@ + at
                + "'. Expected one of: block, add_context, command, prompt, builtin_persona_focus_sync, builtin_scheduler_policy_context, builtin_turn_skill_gate, builtin_deferred_commitment_guard, builtin_loop_guard"@,
        )
    } else {
        match json_parse_error(payload) {
            Some(e) => Some("Invalid action_payload_json: "@ + e),
            None => None,
        }
    }
}

/// Validates and normalizes a hook definition before it is inserted or updated:
/// name and event trimmed, action type trimmed and lower-cased, a blank matcher
/// dropped, scoped persona ids stored as a sorted JSON array of the positive ids.
pub fn prepare_hook_definition(
    name: &str,
    event_name: &str,
    matcher: Option<&str>,
    action_type: &str,
    action_payload_json: &str,
    scoped_persona_ids: Option<&Vec<i64>>,
    enabled: bool,
) -> (r: Result<HookDefinitionWrite, FinallyAValueBotError>)
    ensures
        match hook_definition_error(name@, event_name@, action_type@, action_payload_json@) {
            Some(msg) => r matches Err(FinallyAValueBotError::ToolExecution(m)) && m@ == msg,
            None => r matches Ok(w) && {
                &&& w.name@ == trim_seq(name@)
                &&& w.event_name@ == trim_seq(event_name@)
                &&& w.action_type@ == lower_seq(trim_seq(action_type@))
                &&& w.action_payload_json@ == action_payload_json@
                &&& match matcher {
                    Some(m) => if trim_seq(m@).len() > 0 {
                        w.matcher matches Some(x) && x@ == trim_seq(m@)
                    } else {
                        w.matcher is None
                    },
                    None => w.matcher is None,
                }
                &&& match scoped_persona_ids {
                    Some(ids) => w.scoped_persona_ids_json matches Some(j) && exists|s: Seq<i64>|
                        strictly_sorted(s) && (forall|x: i64| s.contains(x) <==> (ids@.contains(x) && x > 0)) && j@
                            == ids_json_seq(s),
                    None => w.scoped_persona_ids_json is None,
                }
                &&& w.enabled == (if enabled { 1i64 } else { 0i64 })
            },
        },
{
    let n = trim_vec(&chars_of(name));
    let e = trim_vec(&chars_of(event_name));
    let at = lower_vec(&trim_vec(&chars_of(action_type)));
    if n.len() == 0 || e.len() == 0 || at.len() == 0 {
        return Err(FinallyAValueBotError::ToolExecution(String::from_str("name, event_name, and action_type are required")));
    }
    if action_kind(action_type) == HookActionKind::Unknown {
        let mut v = chars_of("Unsupported action_type '");
        append_vec(&mut v, &at);
        append_str(
            &mut v,
            "'. Expected one of: block, add_context, command, prompt, builtin_persona_focus_sync, builtin_scheduler_policy_context, builtin_turn_skill_gate, builtin_deferred_commitment_guard, builtin_loop_guard",
        );
        return Err(FinallyAValueBotError::ToolExecution(string_of(&v)));
    }
    match json_check(action_payload_json) {
        Some(err) => {
            let mut v = chars_of("Invalid action_payload_json: ");
            append_str(&mut v, err.as_str());
            return Err(FinallyAValueBotError::ToolExecution(string_of(&v)));
        },
        None => {},
    }
    let matcher_norm = match matcher {
        Some(m) => {
            let t = trim_vec(&chars_of(m));
            if t.len() > 0 {
                Some(string_of(&t))
            } else {
                None
            }
        },
        None => None,
    };
    let scoped = match scoped_persona_ids {
        Some(ids) => {
            let norm = normalize_scoped_ids(ids);
            Some(ids_json(&norm))
        },
        None => None,
    };
    Ok(HookDefinitionWrite {
        name: string_of(&n),
        event_name: string_of(&e),
        matcher: matcher_norm,
        action_type: string_of(&at),
        action_payload_json: string_of(&chars_of(action_payload_json)),
        scoped_persona_ids_json: scoped,
        enabled: if enabled { 1 } else { 0 },
    })
}

/// The error when an update names a hook definition that does not exist.
pub fn hook_definition_not_found(id: i64) -> (r: FinallyAValueBotError)
    ensures
        r matches FinallyAValueBotError::ToolExecution(m) && m@ == "Hook definition "@ + signed_decimal_seq(id as int)
            + " not found"@,
{
    let mut v = chars_of("Hook definition ");
    append_vec(&mut v, &i64_decimal(id));
    append_str(&mut v, " not found");
    FinallyAValueBotError::ToolExecution(string_of(&v))
}

} // verus!
