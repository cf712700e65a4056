//! Command and prompt hooks: where a hook command may live, what a hook's output
//! means, and how each way a hook run can end turns into a hook verdict. Running
//! the process or the model is done outside.
use vstd::prelude::*;
use crate::config::Config;
use crate::error::FinallyAValueBotError;
use crate::json::JsonValue;
use crate::paths::{is_path_under, path_join, path_join_seq, path_join_str, path_under};
use crate::safety_redaction::{redact_seq, EnvSecretRedactor};
use crate::text::{
    append_str, append_vec, byte_len, byte_len_capped, chars_of, find, find_seq, has_char, lemma_find_seq,
    lemma_rfind_seq, replace_all_seq, replace_all_vec, rfind, rfind_seq, split_char, split_vec, string_of,
    subvec, take_chars, take_vec, trim_seq, trim_vec, vec_eq,
};

verus! {

broadcast use vstd::string::group_string_axioms;

/// Largest hook output read, in bytes.
pub const HOOK_OUTPUT_MAX_BYTES: usize = 65536;

#[derive(Debug, Clone)]
pub struct HookOutputMemoryTier3Prune {
    pub terminal_pz_post_ids: Vec<String>,
}

#[derive(Debug, Clone)]
pub struct HookOutputEffects {
    pub memory_tier3_prune: Option<HookOutputMemoryTier3Prune>,
}

/// What a hook answered.
#[derive(Debug)]
pub struct HookOutput {
    pub permission: Option<String>,
    pub reason: Option<String>,
    pub user_message: Option<String>,
    pub agent_message: Option<String>,
    pub additional_context: Option<String>,
    pub updated_tool_input: Option<JsonValue>,
    pub effects: Option<HookOutputEffects>,
}

/// A hook output that says nothing.
pub open spec fn is_silent(o: HookOutput) -> bool {
    &&& o.permission is None
    &&& o.reason is None
    &&& o.user_message is None
    &&& o.agent_message is None
    &&& o.additional_context is None
    &&& o.updated_tool_input is None
    &&& o.effects is None
}

/// A hook output that denies with `reason` and says nothing else.
pub open spec fn is_denial(o: HookOutput, reason: Seq<char>) -> bool {
    &&& o.permission matches Some(p) && p@ == "deny"@
    &&& o.reason matches Some(r) && r@ == reason
    &&& o.user_message is None
    &&& o.agent_message is None
    &&& o.additional_context is None
    &&& o.updated_tool_input is None
    &&& o.effects is None
}

impl HookOutput {
    /// The output that says nothing (allow, no context).
    pub fn silent() -> (r: Self)
        ensures
            is_silent(r),
    {
        HookOutput {
            permission: None,
            reason: None,
            user_message: None,
            agent_message: None,
            additional_context: None,
            updated_tool_input: None,
            effects: None,
        }
    }

    /// A denial with the given reason.
    pub fn deny(reason: String) -> (r: Self)
        ensures
            is_denial(r, reason@),
    {
        HookOutput {
            permission: Some(String::from_str("deny")),
            reason: Some(reason),
            user_message: None,
            agent_message: None,
            additional_context: None,
            updated_tool_input: None,
            effects: None,
        }
    }
}

impl Default for HookOutput {
    fn default() -> (r: Self)
        ensures
            is_silent(r),
    {
        HookOutput::silent()
    }
}

#[derive(Debug, Clone)]
pub struct HookCommandPayload {
    pub command: String,
    pub timeout_secs: Option<u64>,
    pub fail_closed: Option<bool>,
    pub cwd: Option<String>,
}

#[derive(Debug, Clone)]
pub struct HookPromptPayload {
    pub prompt: String,
    pub timeout_secs: Option<u64>,
    pub fail_closed: Option<bool>,
    pub model: Option<String>,
}

/// The trimmed text, when present and not blank.
pub open spec fn nonempty_trimmed_seq(input: Option<Seq<char>>) -> Option<Seq<char>> {
    match input {
        Some(s) => if trim_seq(s).len() > 0 {
            Some(trim_seq(s))
        } else {
            None
        },
        None => None,
    }
}

pub fn nonempty_trimmed(input: Option<&str>) -> (r: Option<String>)
    ensures
        match r { Some(x) => Some(x@), None => None } == nonempty_trimmed_seq(
            match input { Some(s) => Some(s@), None => None },
        ),
{
    match input {
        Some(s) => {
            let t = trim_vec(&chars_of(s));
            if t.len() > 0 {
                Some(string_of(&t))
            } else {
                None
            }
        },
        None => None,
    }
}

/// The directories searched for hook commands: the workspace's `hooks` directory,
/// then the built-in hooks directory when there is one.
pub fn candidate_hook_roots(workspace_root: &str, builtin_hooks_dir: Option<&str>) -> (r: Vec<String>)
    ensures
        r@.len() == (if builtin_hooks_dir is Some { 2int } else { 1int }),
        r@[0]@ == path_join_seq(workspace_root@, "hooks"@),
        builtin_hooks_dir matches Some(b) ==> r@[1]@ == b@,
{
    let mut roots: Vec<String> = Vec::new();
    roots.push(string_of(&path_join_str(&chars_of(workspace_root), "hooks")));
    match builtin_hooks_dir {
        Some(b) => roots.push(string_of(&chars_of(b))),
        None => {},
    }
    roots
}

/// The path names a parent directory (`..`) in one of its components.
pub open spec fn has_parent_component(rel: Seq<char>) -> bool {
    split_char(rel, '/').contains(".."@)
}

/// Why a hook command is refused before any file is looked at, if it is.
pub open spec fn hook_command_lexical_error(command: Seq<char>) -> Option<Seq<char>> {
    let c = trim_seq(command);
    if c.len() == 0 {
        Some("hook command is required"@)
    } else if c.contains('\n') {
        Some("hook command must be a single relative file path"@)
    } else if c[0] == '/' {
        Some("hook command must be relative to workspace hooks or builtin_hooks"@)
    } else if has_parent_component(c) {
        Some("hook command cannot contain '..'"@)
    } else {
        None
    }
}

fn has_parent(rel: &Vec<char>) -> (r: bool)
    ensures
        r == has_parent_component(rel@),
{
    let parts = split_vec(rel, '/');
    let ghost pv = parts@.map_values(|l: Vec<char>| l@);
    let dots = chars_of("..");
    let mut i: usize = 0;
    while i < parts.len()
        invariant
            i <= parts.len(),
            pv == parts@.map_values(|l: Vec<char>| l@),
            pv == split_char(rel@, '/'),
            dots@ == ".."@,
            forall|k: int| 0 <= k < i ==> pv[k] != ".."@,
        decreases parts.len() - i,
    {
        if vec_eq(&parts[i], &dots) {
            assert(pv[i as int] == ".."@);
            return true;
        }
        i += 1;
    }
    assert(!pv.contains(".."@)) by {
        if pv.contains(".."@) {
            let k = choose|k: int| 0 <= k < pv.len() && pv[k] == ".."@;
            assert(pv[k] != ".."@);
        }
    }
    false
}

/// Where a hook command may be found: after the lexical checks (not blank, one
/// line, relative, no `..` component) the command joined to each hook root, in
/// order. The first candidate that is a file inside its root is used.
pub fn resolve_hook_command_path(command: &str, roots: &Vec<String>) -> (r: Result<Vec<String>, FinallyAValueBotError>)
    ensures
        match hook_command_lexical_error(command@) {
            Some(msg) => r matches Err(FinallyAValueBotError::ToolExecution(m)) && m@ == msg,
            None => r matches Ok(cands) && cands@.len() == roots@.len() && forall|i: int|
                0 <= i < cands@.len() ==> #[trigger] cands@[i]@ == path_join_seq(roots@[i]@, trim_seq(command@)),
        },
{
    let c = trim_vec(&chars_of(command));
    if c.len() == 0 {
        return Err(FinallyAValueBotError::ToolExecution(String::from_str("hook command is required")));
    }
    if has_char(&c, '\n') {
        return Err(
            FinallyAValueBotError::ToolExecution(String::from_str("hook command must be a single relative file path")),
        );
    }
    if c[0] == '/' {
        return Err(
            FinallyAValueBotError::ToolExecution(
                String::from_str("hook command must be relative to workspace hooks or builtin_hooks"),
            ),
        );
    }
    if has_parent(&c) {
        return Err(FinallyAValueBotError::ToolExecution(String::from_str("hook command cannot contain '..'")));
    }
    let mut cands: Vec<String> = Vec::new();
    let mut i: usize = 0;
    while i < roots.len()
        invariant
            i <= roots.len(),
            c@ == trim_seq(command@),
            cands@.len() == i,
            forall|k: int| 0 <= k < i ==> #[trigger] cands@[k]@ == path_join_seq(roots@[k]@, c@),
        decreases roots.len() - i,
    {
        cands.push(string_of(&path_join(&chars_of(roots[i].as_str()), &c)));
        i += 1;
    }
    Ok(cands)
}

/// The error when no hook root holds the command.
pub fn hook_command_not_found(command: &str) -> (r: FinallyAValueBotError)
    ensures
        r matches FinallyAValueBotError::ToolExecution(m) && m@ == "hook command '"@ + trim_seq(command@)
            + "' was not found in allowed hook directories"@,
{
    let mut v = chars_of("hook command '");
    append_vec(&mut v, &trim_vec(&chars_of(command)));
    append_str(&mut v, "' was not found in allowed hook directories");
    FinallyAValueBotError::ToolExecution(string_of(&v))
}

/// What the file system says of one candidate hook command: whether it is a file,
/// its canonical path and its root's (when they resolve), and whether it may be
/// executed.
#[derive(Debug, Clone)]
pub struct CommandCandidateFacts {
    pub is_file: bool,
    pub canonical: Option<String>,
    pub canonical_root: Option<String>,
    pub executable: bool,
}

/// A candidate counts when it is a file whose canonical path lies under its root's.
pub open spec fn candidate_counts(f: CommandCandidateFacts) -> bool {
    f.is_file && match (f.canonical, f.canonical_root) {
        (Some(p), Some(r)) => path_under(p@, r@),
        _ => false,
    }
}

/// The index of the first candidate that counts, or the number of candidates.
pub open spec fn first_counting(facts: Seq<CommandCandidateFacts>) -> int
    decreases facts.len(),
{
    if facts.len() == 0 {
        0
    } else if candidate_counts(facts[0]) {
        0
    } else {
        1 + first_counting(facts.drop_first())
    }
}

proof fn lemma_first_counting(facts: Seq<CommandCandidateFacts>)
    ensures
        0 <= first_counting(facts) <= facts.len(),
        first_counting(facts) < facts.len() ==> candidate_counts(facts[first_counting(facts)]),
        forall|j: int| 0 <= j < first_counting(facts) ==> !candidate_counts(#[trigger] facts[j]),
    decreases facts.len(),
{
    if facts.len() > 0 && !candidate_counts(facts[0]) {
        lemma_first_counting(facts.drop_first());
        assert forall|j: int| 0 <= j < first_counting(facts) implies !candidate_counts(#[trigger] facts[j]) by {
            if j > 0 {
                assert(facts[j] == facts.drop_first()[j - 1]);
            }
        }
    }
}

/// Chooses the hook command among the candidates (one per hook root, in order):
/// the first that is a file inside its root, which must be executable; none is
/// an error naming the command. A path outside its root is never chosen.
pub fn choose_hook_command(command: &str, candidates: &Vec<String>, facts: &Vec<CommandCandidateFacts>) -> (r: Result<
    String,
    FinallyAValueBotError,
>)
    requires
        facts.len() == candidates.len(),
    ensures
        ({
            let k = first_counting(facts@);
            if k < facts@.len() {
                if facts@[k].executable {
                    r matches Ok(p) && p@ == candidates@[k]@
                } else {
                    r matches Err(FinallyAValueBotError::ToolExecution(m)) && m@ == "hook command '"@
                        + candidates@[k]@ + "' is not executable"@
                }
            } else {
                r matches Err(FinallyAValueBotError::ToolExecution(m)) && m@ == "hook command '"@ + trim_seq(
                    command@,
                ) + "' was not found in allowed hook directories"@
            }
        }),
        r matches Ok(p) ==> exists|k: int|
            0 <= k < facts@.len() && #[trigger] candidates@[k]@ == p@ && candidate_counts(facts@[k])
                && facts@[k].executable,
{
    proof {
        lemma_first_counting(facts@);
    }
    let mut i: usize = 0;
    while i < facts.len()
        invariant
            i <= facts.len(),
            facts.len() == candidates.len(),
            0 <= first_counting(facts@) <= facts@.len(),
            first_counting(facts@) < facts@.len() ==> candidate_counts(facts@[first_counting(facts@)]),
            forall|j: int| 0 <= j < first_counting(facts@) ==> !candidate_counts(#[trigger] facts@[j]),
            forall|j: int| 0 <= j < i ==> !candidate_counts(#[trigger] facts@[j]),
        decreases facts.len() - i,
    {
        let f = &facts[i];
        let counts = f.is_file && match (&f.canonical, &f.canonical_root) {
            (Some(p), Some(root)) => is_path_under(p.as_str(), root.as_str()),
            _ => false,
        };
        if counts {
            assert(candidate_counts(facts@[i as int]));
            assert(first_counting(facts@) == i);
            if !f.executable {
                return Err(hook_command_not_executable(candidates[i].as_str()));
            }
            let chosen = candidates[i].clone();
            assert(candidates@[i as int]@ == chosen@ && candidate_counts(facts@[i as int]) && facts@[i as int].executable);
            return Ok(chosen);
        }
        i += 1;
    }
    assert(first_counting(facts@) == facts@.len());
    Err(hook_command_not_found(command))
}

/// The error when the command found is not executable.
pub fn hook_command_not_executable(path: &str) -> (r: FinallyAValueBotError)
    ensures
        r matches FinallyAValueBotError::ToolExecution(m) && m@ == "hook command '"@ + path@ + "' is not executable"@,
{
    let mut v = chars_of("hook command '");
    append_str(&mut v, path);
    append_str(&mut v, "' is not executable");
    FinallyAValueBotError::ToolExecution(string_of(&v))
}

/// The error when the hook process cannot be started.
pub fn hook_spawn_error(path: &str, err: &str) -> (r: FinallyAValueBotError)
    ensures
        r matches FinallyAValueBotError::ToolExecution(m) && m@ == "failed to spawn hook command '"@ + path@ + "': "@
            + err@,
{
    let mut v = chars_of("failed to spawn hook command '");
    append_str(&mut v, path);
    append_str(&mut v, "': ");
    append_str(&mut v, err);
    FinallyAValueBotError::ToolExecution(string_of(&v))
}

/// The text of a hook's output to parse as JSON: the span from its first `{` to its
/// last `}` when it has both, else the whole trimmed output; `None` when the output
/// is blank (the hook said nothing).
pub open spec fn hook_output_json_seq(raw: Seq<char>) -> Option<Seq<char>> {
    let t = trim_seq(raw);
    if t.len() == 0 {
        None
    } else {
        let a = find_seq(t, seq!['{']);
        let b = rfind_seq(t, seq!['}']);
        if a >= 0 && b >= 0 {
            Some(t.subrange(a, b + 1))
        } else {
            Some(t)
        }
    }
}

/// The output's braces are not reversed (a `}` only before the first `{` would
/// make the span empty).
pub open spec fn hook_output_well_braced(raw: Seq<char>) -> bool {
    let t = trim_seq(raw);
    let a = find_seq(t, seq!['{']);
    let b = rfind_seq(t, seq!['}']);
    a >= 0 && b >= 0 ==> a <= b
}

pub fn hook_output_json_text(raw: &str) -> (r: Option<String>)
    requires
        hook_output_well_braced(raw@),
    ensures
        match r { Some(x) => Some(x@), None => None } == hook_output_json_seq(raw@),
{
    let t = trim_vec(&chars_of(raw));
    if t.len() == 0 {
        return None;
    }
    let open = vec!['{'];
    let close = vec!['}'];
    assert(open@ =~= seq!['{']);
    assert(close@ =~= seq!['}']);
    proof {
        lemma_find_seq(t@, seq!['{']);
        lemma_rfind_seq(t@, seq!['}']);
    }
    match (find(&t, &open), rfind(&t, &close)) {
        (Some(a), Some(b)) => {
            assert(b + 1 <= t.len());
            Some(string_of(&subvec(&t, a, b + 1)))
        },
        _ => Some(string_of(&t)),
    }
}

/// The error for hook output that is not valid JSON, quoting at most 240 characters.
pub fn hook_output_parse_error(err: &str, json_text: &str) -> (r: FinallyAValueBotError)
    ensures
        r matches FinallyAValueBotError::ToolExecution(m) && m@ == "hook output must be valid JSON: "@ + err@
            + " (raw: "@ + take_chars(json_text@, 240) + ")"@,
{
    let mut v = chars_of("hook output must be valid JSON: ");
    append_str(&mut v, err);
    append_str(&mut v, " (raw: ");
    append_vec(&mut v, &take_vec(&chars_of(json_text), 240));
    append_str(&mut v, ")");
    FinallyAValueBotError::ToolExecution(string_of(&v))
}

/// How a command hook is run.
#[derive(Debug, Clone)]
pub struct CommandHookSettings {
    pub timeout_secs: u64,
    pub fail_closed: bool,
    /// The working directory.
    pub cwd: String,
}

/// The settings of a command hook: its own timeout or the configured one, fail-open
/// unless asked, and the working directory `workspace` (the default) or `shared`;
/// any other directory name is refused.
pub fn command_hook_settings(config: &Config, payload: &HookCommandPayload, workspace_root: &str) -> (r: Result<
    CommandHookSettings,
    FinallyAValueBotError,
>)
    ensures
        ({
            let cwd = nonempty_trimmed_seq(match payload.cwd { Some(c) => Some(c@), None => None });
            match cwd {
                Some(c) => if c == "workspace"@ {
                    r matches Ok(s) && s.cwd@ == workspace_root@
                } else if c == "shared"@ {
                    r matches Ok(s) && s.cwd@ == path_join_seq(workspace_root@, "shared"@)
                } else {
                    r matches Err(FinallyAValueBotError::ToolExecution(m)) && m@ == "unsupported hook cwd '"@ + c
                        + "': expected 'workspace' or 'shared'"@
                },
                None => r matches Ok(s) && s.cwd@ == workspace_root@,
            }
        }),
        r matches Ok(s) ==> s.timeout_secs == (match payload.timeout_secs {
            Some(t) => t,
            None => config.hook_command_timeout_secs,
        }) && s.fail_closed == (payload.fail_closed == Some(true)),
{
    let timeout_secs = match payload.timeout_secs {
        Some(t) => t,
        None => config.hook_command_timeout_secs,
    };
    let fail_closed = match payload.fail_closed {
        Some(b) => b,
        None => false,
    };
    let cwd_opt = match &payload.cwd {
        Some(c) => nonempty_trimmed(Some(c.as_str())),
        None => nonempty_trimmed(None),
    };
    let cwd = match cwd_opt {
        Some(c) => {
            let cv = chars_of(c.as_str());
            if vec_eq(&cv, &chars_of("workspace")) {
                string_of(&chars_of(workspace_root))
            } else if vec_eq(&cv, &chars_of("shared")) {
                string_of(&path_join_str(&chars_of(workspace_root), "shared"))
            } else {
                let mut v = chars_of("unsupported hook cwd '");
                append_vec(&mut v, &cv);
                append_str(&mut v, "': expected 'workspace' or 'shared'");
                return Err(FinallyAValueBotError::ToolExecution(string_of(&v)));
            }
        },
        None => string_of(&chars_of(workspace_root)),
    };
    Ok(CommandHookSettings { timeout_secs, fail_closed, cwd })
}

/// How a command hook process ended.
#[derive(Debug, Clone)]
pub enum CommandRunOutcome {
    /// Waiting for the process failed, with the error text.
    WaitFailed(String),
    /// The process outlived its timeout.
    TimedOut,
    /// The process exited with this code (none when killed by a signal) and output.
    Exited { code: Option<i32>, stdout: String, stderr: String },
}

/// What to make of a finished command hook.
#[derive(Debug)]
pub enum CommandHookVerdict {
    /// The hook's output is this.
    Output(HookOutput),
    /// The hook succeeded: parse its standard output.
    Parse(String),
}

/// The reason given with a refusal by exit code: the trimmed standard error, else
/// the trimmed standard output, else `fallback`.
pub open spec fn refusal_reason(stderr: Seq<char>, stdout: Seq<char>, fallback: Seq<char>) -> Seq<char> {
    if trim_seq(stderr).len() > 0 {
        trim_seq(stderr)
    } else if trim_seq(stdout).len() > 0 {
        trim_seq(stdout)
    } else {
        fallback
    }
}

fn refusal(stderr: &str, stdout: &str, fallback: &str) -> (r: String)
    ensures
        r@ == refusal_reason(stderr@, stdout@, fallback@),
{
    match nonempty_trimmed(Some(stderr)) {
        Some(e) => e,
        None => match nonempty_trimmed(Some(stdout)) {
            Some(o) => o,
            None => string_of(&chars_of(fallback)),
        },
    }
}

/// The verdict of a command hook run: exit code 0 hands the standard output over to
/// parsing; exit code 2 denies with the process's own reason; a failed wait, a
/// timeout, an output over 64 KiB or any other exit denies when the hook is
/// fail-closed and says nothing otherwise.
pub fn command_hook_verdict(outcome: CommandRunOutcome, fail_closed: bool, timeout_secs: u64) -> (r: CommandHookVerdict)
    ensures
        match outcome {
            CommandRunOutcome::WaitFailed(e) => r matches CommandHookVerdict::Output(o) && (if fail_closed {
                is_denial(o, "hook command failed: "@ + e@)
            } else {
                is_silent(o)
            }),
            CommandRunOutcome::TimedOut => r matches CommandHookVerdict::Output(o) && (if fail_closed {
                is_denial(o, "hook command timed out after "@ + crate::decimal::decimal_seq(timeout_secs as nat) + "s"@)
            } else {
                is_silent(o)
            }),
            CommandRunOutcome::Exited { code, stdout, stderr } => if byte_len(stdout@) > HOOK_OUTPUT_MAX_BYTES {
                r matches CommandHookVerdict::Output(o) && (if fail_closed {
                    is_denial(o, "hook output exceeded maximum size"@)
                } else {
                    is_silent(o)
                })
            } else if code == Some(0i32) {
                r matches CommandHookVerdict::Parse(s) && s@ == stdout@
            } else if code == Some(2i32) {
                r matches CommandHookVerdict::Output(o) && is_denial(
                    o,
                    refusal_reason(stderr@, stdout@, "hook command denied operation"@),
                )
            } else {
                r matches CommandHookVerdict::Output(o) && (if fail_closed {
                    is_denial(o, refusal_reason(stderr@, stdout@, "hook command failed"@))
                } else {
                    is_silent(o)
                })
            },
        },
{
    match outcome {
        CommandRunOutcome::WaitFailed(e) => {
            if fail_closed {
                let mut v = chars_of("hook command failed: ");
                append_str(&mut v, e.as_str());
                CommandHookVerdict::Output(HookOutput::deny(string_of(&v)))
            } else {
                CommandHookVerdict::Output(HookOutput::silent())
            }
        },
        CommandRunOutcome::TimedOut => {
            if fail_closed {
                let mut v = chars_of("hook command timed out after ");
                append_vec(&mut v, &crate::decimal::u64_decimal(timeout_secs));
                append_str(&mut v, "s");
                CommandHookVerdict::Output(HookOutput::deny(string_of(&v)))
            } else {
                CommandHookVerdict::Output(HookOutput::silent())
            }
        },
        CommandRunOutcome::Exited { code, stdout, stderr } => {
            if byte_len_capped(&chars_of(stdout.as_str()), HOOK_OUTPUT_MAX_BYTES) > HOOK_OUTPUT_MAX_BYTES {
                if fail_closed {
                    return CommandHookVerdict::Output(
                        HookOutput::deny(String::from_str("hook output exceeded maximum size")),
                    );
                }
                return CommandHookVerdict::Output(HookOutput::silent());
            }
            match code {
                Some(0) => CommandHookVerdict::Parse(stdout),
                Some(2) => CommandHookVerdict::Output(
                    HookOutput::deny(refusal(stderr.as_str(), stdout.as_str(), "hook command denied operation")),
                ),
                _ => {
                    if fail_closed {
                        CommandHookVerdict::Output(
                            HookOutput::deny(refusal(stderr.as_str(), stdout.as_str(), "hook command failed")),
                        )
                    } else {
                        CommandHookVerdict::Output(HookOutput::silent())
                    }
                },
            }
        },
    }
}

/// The instructions given to the model that evaluates a prompt hook.
pub open spec fn prompt_hook_system() -> Seq<char> {
    "You are a hook evaluator. Return JSON only. Valid keys: permission, reason, user_message, agent_message, additional_context, updated_tool_input, effects."@
}

/// What is sent to the model for a prompt hook.
#[derive(Debug, Clone)]
pub struct PromptHookRequest {
    pub model: String,
    pub timeout_secs: u64,
    pub fail_closed: bool,
    pub system: String,
    pub prompt: String,
}

/// The model of a prompt hook: its own (trimmed, when not blank), else the hook
/// prompt model, else the orchestrator model, else the main model.
pub open spec fn prompt_hook_model(config: Config, payload_model: Option<Seq<char>>) -> Seq<char> {
    match nonempty_trimmed_seq(payload_model) {
        Some(m) => m,
        None => if trim_seq(config.hook_prompt_model@).len() > 0 {
            trim_seq(config.hook_prompt_model@)
        } else if trim_seq(config.orchestrator_model@).len() > 0 {
            trim_seq(config.orchestrator_model@)
        } else {
            config.model@
        },
    }
}

/// The request of a prompt hook: its prompt with `$ARGUMENTS` replaced by the hook
/// input and secrets redacted, its model, its own timeout or the configured one,
/// and fail-open unless asked.
pub fn prompt_hook_request(
    config: &Config,
    env_redactor: &EnvSecretRedactor,
    payload: &HookPromptPayload,
    hook_input_json: &str,
) -> (r: PromptHookRequest)
    ensures
        r.model@ == prompt_hook_model(*config, match payload.model { Some(m) => Some(m@), None => None }),
        r.timeout_secs == (match payload.timeout_secs {
            Some(t) => t,
            None => config.hook_prompt_timeout_secs,
        }),
        r.fail_closed == (payload.fail_closed == Some(true)),
        r.system@ == prompt_hook_system(),
        r.prompt@ == redact_seq(
            replace_all_seq(payload.prompt@, "$ARGUMENTS"@, hook_input_json@),
            env_redactor.needle_seqs(),
        ),
{
    let own = match &payload.model {
        Some(m) => nonempty_trimmed(Some(m.as_str())),
        None => nonempty_trimmed(None),
    };
    let model = match own {
        Some(m) => m,
        None => {
            let hook = trim_vec(&chars_of(config.hook_prompt_model.as_str()));
            let orch = trim_vec(&chars_of(config.orchestrator_model.as_str()));
            if hook.len() > 0 {
                string_of(&hook)
            } else if orch.len() > 0 {
                string_of(&orch)
            } else {
                config.model.clone()
            }
        },
    };
    let timeout_secs = match payload.timeout_secs {
        Some(t) => t,
        None => config.hook_prompt_timeout_secs,
    };
    let fail_closed = match payload.fail_closed {
        Some(b) => b,
        None => false,
    };
    let rendered = replace_all_vec(&chars_of(payload.prompt.as_str()), &chars_of("$ARGUMENTS"), &chars_of(hook_input_json));
    let prompt = env_redactor.redact(string_of(&rendered).as_str());
    PromptHookRequest {
        model,
        timeout_secs,
        fail_closed,
        system: String::from_str(
            "You are a hook evaluator. Return JSON only. Valid keys: permission, reason, user_message, agent_message, additional_context, updated_tool_input, effects.",
        ),
        prompt,
    }
}

/// How a prompt hook's model call failed.
#[derive(Debug, Clone)]
pub enum PromptHookFailure {
    /// The call failed with this error text.
    Failed(String),
    /// The call outlived its timeout.
    TimedOut,
}

/// The output of a failed prompt hook: a denial when it is fail-closed, else nothing.
pub fn prompt_hook_failure(failure: PromptHookFailure, fail_closed: bool, timeout_secs: u64) -> (r: HookOutput)
    ensures
        !fail_closed ==> is_silent(r),
        fail_closed ==> match failure {
            PromptHookFailure::Failed(e) => is_denial(r, "prompt hook failed: "@ + e@),
            PromptHookFailure::TimedOut => is_denial(
                r,
                "prompt hook timed out after "@ + crate::decimal::decimal_seq(timeout_secs as nat) + "s"@,
            ),
        },
{
    if !fail_closed {
        return HookOutput::silent();
    }
    match failure {
        PromptHookFailure::Failed(e) => {
            let mut v = chars_of("prompt hook failed: ");
            append_str(&mut v, e.as_str());
            HookOutput::deny(string_of(&v))
        },
        PromptHookFailure::TimedOut => {
            let mut v = chars_of("prompt hook timed out after ");
            append_vec(&mut v, &crate::decimal::u64_decimal(timeout_secs));
            append_str(&mut v, "s");
            HookOutput::deny(string_of(&v))
        },
    }
}

} // verus!
