//! The heartbeat of a background or scheduled job: from the worker's signals and a
//! periodic tick, the stage and message recorded, the timeline entries written and
//! the updates sent to the user. The channel, timer, storage and delivery run
//! outside; each step here says what they must do.
use vstd::prelude::*;
use crate::decimal::{decimal_seq, u64_decimal};
use crate::text::{append_str, append_vec, chars_of, replace_all_seq, string_of, vec_eq};

verus! {

broadcast use vstd::string::group_string_axioms;

/// Seconds between heartbeat ticks, and the least time between two user updates.
pub const HEARTBEAT_PERIOD_SECS: u64 = 30;

#[derive(Debug, Clone, Copy, PartialEq, Eq, Structural)]
pub enum JobType {
    ManualBackground,
    Scheduled,
}

impl JobType {
    pub open spec fn spec_as_str(self) -> Seq<char> {
        match self {
            JobType::ManualBackground => "manual_background"@,
            JobType::Scheduled => "scheduled"@,
        }
    }

    pub fn as_str(self) -> (r: &'static str)
        ensures
            r@ == self.spec_as_str(),
    {
        match self {
            JobType::ManualBackground => "manual_background",
            JobType::Scheduled => "scheduled",
        }
    }

    /// Only manual background jobs keep the user informed.
    pub fn notify_user_periodically(self) -> (r: bool)
        ensures
            r == (self == JobType::ManualBackground),
    {
        match self {
            JobType::ManualBackground => true,
            JobType::Scheduled => false,
        }
    }
}

#[derive(Debug, Clone)]
pub enum HeartbeatSignal {
    Started(String),
    Progress(String),
    ToolStart(String),
    ToolResult { tool: String, is_error: bool },
    Finished(String),
    Failed(String),
}

/// What the agent loop reports, as far as the heartbeat reads it. A workflow's
/// confidence comes already written with two decimals.
#[derive(Debug, Clone)]
pub enum AgentEvent {
    Iteration { iteration: u64 },
    WorkflowSelected { workflow_id: String, confidence_text: String },
    ToolStart { name: String },
    ToolResult { name: String, is_error: bool },
    TextDelta,
    FinalResponse,
}

/// The heartbeat signal of an agent event: iterations and workflow choices are
/// progress, tool starts and results are passed on, text is not reported.
pub fn signal_from_agent_event(evt: &AgentEvent) -> (r: Option<HeartbeatSignal>)
    ensures
        match *evt {
            AgentEvent::Iteration { iteration } => r matches Some(HeartbeatSignal::Progress(m)) && m@ == "iteration "@
                + decimal_seq(iteration as nat),
            AgentEvent::WorkflowSelected { workflow_id, confidence_text } => r matches Some(HeartbeatSignal::Progress(m))
                && m@ == "selected workflow "@ + workflow_id@ + " (confidence "@ + confidence_text@ + ")"@,
            AgentEvent::ToolStart { name } => r matches Some(HeartbeatSignal::ToolStart(n)) && n@ == name@,
            AgentEvent::ToolResult { name, is_error } => r matches Some(HeartbeatSignal::ToolResult { tool, is_error: e })
                && tool@ == name@ && e == is_error,
            AgentEvent::TextDelta => r is None,
            AgentEvent::FinalResponse => r is None,
        },
{
    match evt {
        AgentEvent::Iteration { iteration } => {
            let mut v = chars_of("iteration ");
            append_vec(&mut v, &u64_decimal(*iteration));
            Some(HeartbeatSignal::Progress(string_of(&v)))
        },
        AgentEvent::WorkflowSelected { workflow_id, confidence_text } => {
            let mut v = chars_of("selected workflow ");
            append_str(&mut v, workflow_id.as_str());
            append_str(&mut v, " (confidence ");
            append_str(&mut v, confidence_text.as_str());
            append_str(&mut v, ")");
            Some(HeartbeatSignal::Progress(string_of(&v)))
        },
        AgentEvent::ToolStart { name } => Some(HeartbeatSignal::ToolStart(name.clone())),
        AgentEvent::ToolResult { name, is_error } => Some(
            HeartbeatSignal::ToolResult { tool: name.clone(), is_error: *is_error },
        ),
        AgentEvent::TextDelta => None,
        AgentEvent::FinalResponse => None,
    }
}

/// The heartbeat's state: the stage and message last recorded and whether the job
/// is still running.
#[derive(Debug, Clone)]
pub struct HeartbeatState {
    pub stage: String,
    pub message: String,
    pub active: bool,
}

/// What one heartbeat step asks for: the heartbeat row to write (stage, message,
/// active) with its timeline entry, a message to send the user, and whether the
/// heartbeat ends.
#[derive(Debug, Clone)]
pub struct HeartbeatStep {
    pub stage: String,
    pub message: String,
    pub active: bool,
    pub timeline_payload: String,
    pub notify_user: Option<String>,
    pub stop: bool,
}

/// The timeline entry of a heartbeat: `{"stage":"…","message":"…"}` with double
/// quotes in the message turned into single quotes.
pub open spec fn timeline_payload_seq(stage: Seq<char>, message: Seq<char>) -> Seq<char> {
    "{\"stage\":\""@ + stage + "\",\"message\":\""@ + replace_all_seq(message, seq!['"'], seq!['\'']) + "\"}"@
}

fn timeline_payload(stage: &str, message: &str) -> (r: String)
    ensures
        r@ == timeline_payload_seq(stage@, message@),
{
    let dq = vec!['"'];
    let sq = vec!['\''];
    assert(dq@ =~= seq!['"']);
    assert(sq@ =~= seq!['\'']);
    let mut v = chars_of("{\"stage\":\"");
    append_str(&mut v, stage);
    append_str(&mut v, "\",\"message\":\"");
    append_vec(&mut v, &crate::text::replace_all_vec(&chars_of(message), &dq, &sq));
    append_str(&mut v, "\"}");
    string_of(&v)
}

/// The update sent to the user.
pub open spec fn notice_seq(message: Seq<char>) -> Seq<char> {
    "Background update: "@ + message
}

fn notice(message: &str) -> (r: String)
    ensures
        r@ == notice_seq(message@),
{
    let mut v = chars_of("Background update: ");
    append_str(&mut v, message);
    string_of(&v)
}

/// The heartbeat as it starts: queued, active, recorded.
pub fn heartbeat_start() -> (r: (HeartbeatState, HeartbeatStep))
    ensures
        r.0.stage@ == "queued"@ && r.0.message@ == "queued"@ && r.0.active,
        r.1.stage@ == "queued"@ && r.1.message@ == "queued"@ && r.1.active,
        r.1.timeline_payload@ == timeline_payload_seq("queued"@, "queued"@),
        r.1.notify_user is None && !r.1.stop,
{
    let payload = timeline_payload("queued", "queued");
    (
        HeartbeatState { stage: String::from_str("queued"), message: String::from_str("queued"), active: true },
        HeartbeatStep {
            stage: String::from_str("queued"),
            message: String::from_str("queued"),
            active: true,
            timeline_payload: payload,
            notify_user: None,
            stop: false,
        },
    )
}

/// The stage and message a signal sets, and whether the job is still running.
pub open spec fn signal_effect(sig: HeartbeatSignal) -> (Seq<char>, Seq<char>, bool) {
    match sig {
        HeartbeatSignal::Started(m) => ("running"@, m@, true),
        HeartbeatSignal::Progress(m) => ("running"@, m@, true),
        HeartbeatSignal::ToolStart(t) => ("running"@, "running tool: "@ + t@, true),
        HeartbeatSignal::ToolResult { tool, is_error } => (
            if is_error { "running_with_errors"@ } else { "running"@ },
            "tool "@ + tool@ + " "@ + (if is_error { "reported an error"@ } else { "completed"@ }),
            true,
        ),
        HeartbeatSignal::Finished(m) => ("completed"@, m@, false),
        HeartbeatSignal::Failed(m) => ("failed"@, m@, false),
    }
}

/// A signal from the worker: the stage and message it sets are recorded; a running
/// manual job tells the user; a finished or failed job stops the heartbeat and is
/// never announced as an update.
pub fn heartbeat_on_signal(state: &mut HeartbeatState, sig: HeartbeatSignal, job_type: JobType) -> (r: HeartbeatStep)
    requires
        old(state).active,
    ensures
        final(state).stage@ == signal_effect(sig).0,
        final(state).message@ == signal_effect(sig).1,
        final(state).active == signal_effect(sig).2,
        r.stage@ == final(state).stage@ && r.message@ == final(state).message@ && r.active == final(state).active,
        r.timeline_payload@ == timeline_payload_seq(final(state).stage@, final(state).message@),
        r.stop == !final(state).active,
        (job_type == JobType::ManualBackground && final(state).active) ==> (r.notify_user matches Some(n) && n@
            == notice_seq(final(state).message@)),
        !(job_type == JobType::ManualBackground && final(state).active) ==> r.notify_user is None,
{
    let (stage, message, active) = match sig {
        HeartbeatSignal::Started(m) => (String::from_str("running"), m, true),
        HeartbeatSignal::Progress(m) => (String::from_str("running"), m, true),
        HeartbeatSignal::ToolStart(t) => {
            let mut v = chars_of("running tool: ");
            append_str(&mut v, t.as_str());
            (String::from_str("running"), string_of(&v), true)
        },
        HeartbeatSignal::ToolResult { tool, is_error } => {
            let mut v = chars_of("tool ");
            append_str(&mut v, tool.as_str());
            append_str(&mut v, " ");
            append_str(&mut v, if is_error { "reported an error" } else { "completed" });
            (
                String::from_str(if is_error { "running_with_errors" } else { "running" }),
                string_of(&v),
                true,
            )
        },
        HeartbeatSignal::Finished(m) => (String::from_str("completed"), m, false),
        HeartbeatSignal::Failed(m) => (String::from_str("failed"), m, false),
    };
    let payload = timeline_payload(stage.as_str(), message.as_str());
    let notify_user = if job_type.notify_user_periodically() && active {
        Some(notice(message.as_str()))
    } else {
        None
    };
    state.stage = stage.clone();
    state.message = message.clone();
    state.active = active;
    HeartbeatStep { stage, message, active, timeline_payload: payload, notify_user, stop: !active }
}

/// The stage recorded when the worker goes away without finishing.
pub open spec fn aborted_message() -> Seq<char> {
    "heartbeat channel closed (worker ended unexpectedly)"@
}

/// The worker's channel closed: a job still running is recorded as aborted and
/// inactive; the heartbeat ends either way.
pub fn heartbeat_on_close(state: &mut HeartbeatState) -> (r: Option<HeartbeatStep>)
    ensures
        old(state).active ==> (r matches Some(s) && s.stage@ == "aborted"@ && s.message@ == aborted_message()
            && !s.active && s.timeline_payload@ == timeline_payload_seq("aborted"@, aborted_message())
            && s.notify_user is None && s.stop),
        old(state).active ==> final(state).stage@ == "aborted"@ && final(state).message@ == aborted_message(),
        !old(state).active ==> r is None && final(state).stage@ == old(state).stage@ && final(state).message@
            == old(state).message@,
        final(state).active == old(state).active,
{
    if !state.active {
        return None;
    }
    state.stage = String::from_str("aborted");
    state.message = String::from_str("heartbeat channel closed (worker ended unexpectedly)");
    let payload = timeline_payload(state.stage.as_str(), state.message.as_str());
    Some(HeartbeatStep {
        stage: state.stage.clone(),
        message: state.message.clone(),
        active: false,
        timeline_payload: payload,
        notify_user: None,
        stop: true,
    })
}

/// A periodic tick: the current state is recorded again; a running manual job whose
/// last update to the user is at least one period old tells the user again.
pub fn heartbeat_on_tick(state: &HeartbeatState, job_type: JobType, notify_due: bool) -> (r: HeartbeatStep)
    ensures
        r.stage@ == state.stage@ && r.message@ == state.message@ && r.active == state.active,
        r.timeline_payload@ == timeline_payload_seq(state.stage@, state.message@),
        !r.stop,
        (state.active && job_type == JobType::ManualBackground && notify_due) ==> (r.notify_user matches Some(n) && n@
            == notice_seq(state.message@)),
        !(state.active && job_type == JobType::ManualBackground && notify_due) ==> r.notify_user is None,
{
    let payload = timeline_payload(state.stage.as_str(), state.message.as_str());
    let notify_user = if state.active && job_type.notify_user_periodically() && notify_due {
        Some(notice(state.message.as_str()))
    } else {
        None
    };
    HeartbeatStep {
        stage: state.stage.clone(),
        message: state.message.clone(),
        active: state.active,
        timeline_payload: payload,
        notify_user,
        stop: false,
    }
}

/// Replacing double quotes leaves none.
pub proof fn lemma_payload_message_unquoted(message: Seq<char>)
    ensures
        !replace_all_seq(message, seq!['"'], seq!['\'']).contains('"'),
    decreases message.len(),
{
    let n = seq!['"'];
    crate::text::lemma_find_seq(message, n);
    let i = crate::text::find_seq(message, n);
    if i >= 0 {
        let rest = message.subrange(i + 1, message.len() as int);
        lemma_payload_message_unquoted(rest);
        let pre = message.subrange(0, i);
        assert(!pre.contains('"')) by {
            if pre.contains('"') {
                let j = choose|j: int| 0 <= j < pre.len() && pre[j] == '"';
                assert(message.subrange(j, j + 1) =~= n);
                assert(crate::text::occurs_at(message, n, j));
            }
        }
        let out = replace_all_seq(message, n, seq!['\'']);
        assert(out == pre + seq!['\''] + replace_all_seq(rest, n, seq!['\'']));
        assert(!out.contains('"')) by {
            if out.contains('"') {
                let j = choose|j: int| 0 <= j < out.len() && out[j] == '"';
                if j < pre.len() {
                    assert(pre[j] == '"');
                } else if j == pre.len() {
                } else {
                    assert(replace_all_seq(rest, n, seq!['\''])[j - pre.len() - 1] == '"');
                }
            }
        }
    } else {
        assert(!message.contains('"')) by {
            if message.contains('"') {
                let j = choose|j: int| 0 <= j < message.len() && message[j] == '"';
                assert(message.subrange(j, j + 1) =~= n);
                assert(crate::text::occurs_at(message, n, j));
            }
        }
    }
}

} // verus!
