use finally_a_value_bot::cursor_engine_config::SidecarHealth;
use finally_a_value_bot::cursor_sdk_sidecar::{
    default_local_runner_url, health_suggests_stale_attach, is_local_runner_url, sidecar_needs_restart,
    supervisor_step, venv_python_executable, SoftRecycleReason, SupervisorAction,
};

fn healthy() -> SidecarHealth {
    SidecarHealth { reachable: true, api_key_configured: true, cursor_sdk_installed: true, ..Default::default() }
}

#[test]
fn local_runner_url_detection() {
    assert!(is_local_runner_url("http://127.0.0.1:3848", 3848));
    assert!(is_local_runner_url("", 3848));
    assert!(!is_local_runner_url("http://192.168.1.5:3848", 3848));
}

#[test]
fn default_url_uses_port() {
    assert_eq!(default_local_runner_url(3848), "http://127.0.0.1:3848");
}

#[test]
fn venv_python_path_unix_layout() {
    assert_eq!(venv_python_executable("/tmp/cursor-sdk-venv"), "/tmp/cursor-sdk-venv/bin/python");
}

#[test]
fn sidecar_needs_restart_when_sdk_missing() {
    let health = SidecarHealth {
        reachable: true,
        api_key_configured: true,
        cursor_sdk_installed: false,
        error: None,
        ..Default::default()
    };
    assert!(sidecar_needs_restart(&health));
}

#[test]
fn healthy_sidecar_needs_no_restart() {
    assert!(!sidecar_needs_restart(&healthy()));
    assert!(sidecar_needs_restart(&SidecarHealth::default()));
}

#[test]
fn two_unreachable_checks_force_recycle() {
    let down = SidecarHealth::default();
    let (s1, a1) = supervisor_step(0, &down, 86_400, None);
    assert_eq!((s1, a1), (1, SupervisorAction::Nothing));
    let (s2, a2) = supervisor_step(s1, &down, 86_400, None);
    assert_eq!((s2, a2), (0, SupervisorAction::ForceRecycle));
    let (s3, _) = supervisor_step(1, &healthy(), 86_400, None);
    assert_eq!(s3, 0);
}

#[test]
fn soft_recycle_only_when_idle() {
    let old = SidecarHealth { uptime_secs: 100_000, ..healthy() };
    assert_eq!(
        supervisor_step(0, &old, 86_400, None).1,
        SupervisorAction::SoftRecycle(SoftRecycleReason::MaxUptime)
    );
    let busy = SidecarHealth { runs_in_flight: 1, ..old };
    assert_eq!(supervisor_step(0, &busy, 86_400, None).1, SupervisorAction::Nothing);
    let stale_script = SidecarHealth { started_at_unix: 1000, ..healthy() };
    assert_eq!(
        supervisor_step(0, &stale_script, 86_400, Some(2000)).1,
        SupervisorAction::SoftRecycle(SoftRecycleReason::ScriptUpdated)
    );
    assert_eq!(SoftRecycleReason::ScriptUpdated.as_str(), "script_updated");
}

#[test]
fn stale_attach_signals() {
    assert!(!health_suggests_stale_attach(&SidecarHealth::default(), 10, None));
    let old = SidecarHealth { uptime_secs: 50, ..healthy() };
    assert!(health_suggests_stale_attach(&old, 10, None));
    let fresh = SidecarHealth { uptime_secs: 5, started_at_unix: 100, ..healthy() };
    assert!(health_suggests_stale_attach(&fresh, 10, Some(200)));
    assert!(!health_suggests_stale_attach(&fresh, 10, Some(50)));
}
