use finally_a_value_bot::job_heartbeat::{
    heartbeat_on_close, heartbeat_on_signal, heartbeat_on_tick, heartbeat_start, signal_from_agent_event,
    AgentEvent, HeartbeatSignal, JobType,
};

#[test]
fn agent_events_become_signals() {
    match signal_from_agent_event(&AgentEvent::Iteration { iteration: 3 }) {
        Some(HeartbeatSignal::Progress(m)) => assert_eq!(m, "iteration 3"),
        other => panic!("{:?}", other),
    }
    match signal_from_agent_event(&AgentEvent::WorkflowSelected {
        workflow_id: "wf-1".into(),
        confidence_text: "0.87".into(),
    }) {
        Some(HeartbeatSignal::Progress(m)) => assert_eq!(m, "selected workflow wf-1 (confidence 0.87)"),
        other => panic!("{:?}", other),
    }
    assert!(signal_from_agent_event(&AgentEvent::TextDelta).is_none());
    assert!(signal_from_agent_event(&AgentEvent::FinalResponse).is_none());
}

#[test]
fn job_types() {
    assert_eq!(JobType::Scheduled.as_str(), "scheduled");
    assert!(JobType::ManualBackground.notify_user_periodically());
    assert!(!JobType::Scheduled.notify_user_periodically());
}

#[test]
fn heartbeat_runs_then_stops_silently_when_finished() {
    let (mut state, first) = heartbeat_start();
    assert_eq!(first.timeline_payload, r#"{"stage":"queued","message":"queued"}"#);
    let step = heartbeat_on_signal(
        &mut state,
        HeartbeatSignal::ToolResult { tool: "bash".into(), is_error: true },
        JobType::ManualBackground,
    );
    assert_eq!(step.stage, "running_with_errors");
    assert_eq!(step.message, "tool bash reported an error");
    assert!(!step.stop);
    let done = heartbeat_on_signal(&mut state, HeartbeatSignal::Finished("all \"done\"".into()), JobType::ManualBackground);
    assert!(done.stop);
    assert!(done.notify_user.is_none());
    assert!(!state.active);
    assert_eq!(done.timeline_payload, r#"{"stage":"completed","message":"all 'done'"}"#);
    assert!(heartbeat_on_close(&mut state).is_none());
}

#[test]
fn closing_an_active_heartbeat_aborts_it() {
    let (mut state, _) = heartbeat_start();
    let step = heartbeat_on_close(&mut state).unwrap();
    assert_eq!(step.stage, "aborted");
    assert!(step.stop);
    assert!(!step.active);
    assert_eq!(state.stage, "aborted");
}

#[test]
fn ticks_notify_only_manual_jobs() {
    let (state, _) = heartbeat_start();
    let manual = heartbeat_on_tick(&state, JobType::ManualBackground, true);
    assert_eq!(manual.notify_user.as_deref(), Some("Background update: queued"));
    let scheduled = heartbeat_on_tick(&state, JobType::Scheduled, true);
    assert!(scheduled.notify_user.is_none());
    assert!(!scheduled.stop);
}
