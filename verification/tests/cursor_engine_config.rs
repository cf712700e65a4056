use finally_a_value_bot::config::Config;
use finally_a_value_bot::cursor_engine_config::{
    catalog_from_entries, catalog_http_error, cursor_stream_interrupt_notice, cursor_turn_timeout_notice,
    cursor_turn_timeout_secs, is_cursor_interrupt_notice, parse_bool, read_setting, settings_from_rows,
    settings_to_rows, sidecar_health_from_probe, sidecar_health_not_configured, sidecar_health_url,
    validate_runner_url, CursorEngineSettings, CursorModelParam, HealthProbeOutcome, SidecarHealth,
    APP_SETTING_CURSOR_AGENT_TIMEOUT_SECS, APP_SETTING_CURSOR_SDK_MODEL,
};
use finally_a_value_bot::json::JsonValue;

fn env_config() -> Config {
    Config {
        llm_provider: "anthropic".into(),
        api_key: String::new(),
        model: String::new(),
        max_tokens: 1024,
        llm_base_url: None,
        llm_thinking_enabled: false,
        show_thinking: false,
        orchestrator_model: String::new(),
        evaluator_model: String::new(),
        evaluator_base_url: String::new(),
        perplexity_api_key: None,
        hook_prompt_model: String::new(),
        hook_prompt_timeout_secs: 30,
        hook_command_timeout_secs: 30,
        workspace_dir: "/tmp".into(),
        cursor_sdk_runner_port: 3848,
        cursor_sdk_runner_url: None,
        cursor_sdk_model: " composer-2.5 ".into(),
        cursor_sdk_python: "python3".into(),
        cursor_sdk_auto_start: true,
        cursor_sdk_auto_install: false,
        cursor_sidecar_max_uptime_secs: 0,
        cursor_agent_cli_path: "cursor-agent".into(),
        cursor_agent_model: String::new(),
        cursor_agent_runner_url: None,
        cursor_agent_timeout_secs: 1800,
        cursor_agent_tmux_enabled: false,
    }
}

#[test]
fn validate_runner_url_requires_http_scheme() {
    assert!(validate_runner_url("http://127.0.0.1:3848").is_ok());
    assert!(validate_runner_url("ftp://bad").is_err());
    assert!(validate_runner_url("").is_err());
}

#[test]
fn validate_runner_url_messages() {
    assert_eq!(validate_runner_url("  ").unwrap_err(), "Runner URL is required");
    assert!(validate_runner_url(" https://runner.example ").is_ok());
}

#[test]
fn engine_ready_requires_health_and_flag() {
    let cfg = CursorEngineSettings {
        sdk_runner_url: "http://127.0.0.1:3848".into(),
        sdk_model: "composer-2.5".into(),
        sdk_runner_ok: true,
        ..Default::default()
    };
    let health = SidecarHealth {
        reachable: true,
        api_key_configured: true,
        cursor_sdk_installed: true,
        error: None,
        ..Default::default()
    };
    assert!(cfg.engine_ready(&health));
}

#[test]
fn engine_not_ready_without_runner_ok_or_sdk() {
    let cfg = CursorEngineSettings {
        sdk_runner_url: "http://127.0.0.1:3848".into(),
        sdk_model: "composer-2.5".into(),
        sdk_runner_ok: false,
        ..Default::default()
    };
    let health = SidecarHealth {
        reachable: true,
        api_key_configured: true,
        cursor_sdk_installed: true,
        ..Default::default()
    };
    assert!(!cfg.engine_ready(&health));
    let ok_cfg = CursorEngineSettings { sdk_runner_ok: true, ..cfg };
    let no_sdk = SidecarHealth { cursor_sdk_installed: false, ..health };
    assert!(!ok_cfg.engine_ready(&no_sdk));
}

#[test]
fn cursor_turn_timeout_secs_prefers_interactive_budget() {
    let cfg = CursorEngineSettings { timeout_secs: 3600, interactive_timeout_secs: 900, ..Default::default() };
    assert_eq!(cursor_turn_timeout_secs(&cfg, false, false), 900);
    assert_eq!(cursor_turn_timeout_secs(&cfg, true, false), 3600);
    assert_eq!(cursor_turn_timeout_secs(&cfg, false, true), 3600);
}

#[test]
fn cursor_turn_timeout_never_below_a_minute() {
    let cfg = CursorEngineSettings { timeout_secs: 10, interactive_timeout_secs: 5, ..Default::default() };
    assert_eq!(cursor_turn_timeout_secs(&cfg, false, false), 60);
    assert_eq!(cursor_turn_timeout_secs(&cfg, true, false), 60);
}

#[test]
fn cursor_stream_interrupt_notice_mentions_background_and_skips_resend() {
    let with_bg = cursor_stream_interrupt_notice(900, true, true);
    assert!(with_bg.contains("background work"));
    assert!(with_bg.contains("Do not send the same request again"));
    assert!(!with_bg.to_lowercase().contains("please send your request again"));

    let decode = cursor_stream_interrupt_notice(900, false, true);
    assert!(decode.contains("stream dropped"));
    assert!(decode.contains("still running"));

    let timeout_only = cursor_stream_interrupt_notice(900, true, false);
    assert!(timeout_only.contains("stopped after 900s"));
    assert!(timeout_only.contains("check again"));
    assert!(!timeout_only.contains("background work"));
    assert!(!timeout_only.to_lowercase().contains("narrower request"));

    let decode_idle = cursor_stream_interrupt_notice(900, false, false);
    assert!(decode_idle.contains("stream dropped"));
    assert!(decode_idle.contains("check again"));
    assert!(decode_idle.contains("does not start a new job"));
    assert!(is_cursor_interrupt_notice(&decode_idle));
}

#[test]
fn timeout_notice_is_recognised() {
    let n = cursor_turn_timeout_notice(120);
    assert!(n.starts_with("This Cursor turn stopped after 120s"));
    assert!(is_cursor_interrupt_notice(&n));
    assert!(!is_cursor_interrupt_notice("Here is your image."));
}

#[test]
fn read_setting_matches_key_without_case_and_trims() {
    let rows = vec![
        ("cursor_sdk_model".to_string(), "  gpt-5  ".to_string()),
        ("CURSOR_AGENT_MODEL".to_string(), "   ".to_string()),
    ];
    assert_eq!(read_setting(&rows, "CURSOR_SDK_MODEL").as_deref(), Some("gpt-5"));
    assert_eq!(read_setting(&rows, "CURSOR_AGENT_MODEL"), None);
    assert_eq!(read_setting(&rows, "MISSING"), None);
}

#[test]
fn parse_bool_accepts_common_true_words() {
    for t in ["1", "true", " YES ", "On"] {
        assert!(parse_bool(t), "{}", t);
    }
    for f in ["0", "false", "no", "", "enabled"] {
        assert!(!parse_bool(f), "{}", f);
    }
}

#[test]
fn stored_rows_override_environment_and_clamp() {
    let env = env_config();
    let rows = vec![
        (APP_SETTING_CURSOR_SDK_MODEL.to_string(), "sonnet-4".to_string()),
        (APP_SETTING_CURSOR_AGENT_TIMEOUT_SECS.to_string(), "5".to_string()),
        ("CURSOR_INTERACTIVE_TIMEOUT_SECS".to_string(), "not a number".to_string()),
        ("CURSOR_AGENT_TMUX_ENABLED".to_string(), "yes".to_string()),
    ];
    let s = settings_from_rows(&rows, &env, None);
    assert_eq!(s.sdk_model, "sonnet-4");
    assert_eq!(s.sdk_runner_url, "http://127.0.0.1:3848");
    assert_eq!(s.timeout_secs, 60);
    assert_eq!(s.interactive_timeout_secs, 900);
    assert!(s.tmux_enabled);
    assert!(!s.delegation_resume_delta);
}

#[test]
fn settings_written_then_read_come_back() {
    let env = env_config();
    let cfg = CursorEngineSettings {
        sdk_runner_url: "http://10.0.0.2:3848".into(),
        sdk_model: "composer-2.5".into(),
        sdk_model_params: vec![CursorModelParam { id: "effort".into(), value: "high".into() }],
        sdk_runner_ok: true,
        cli_path: "/usr/local/bin/cursor-agent".into(),
        cli_model: "sonnet".into(),
        cli_runner_url: "http://127.0.0.1:4000".into(),
        timeout_secs: 7200,
        interactive_timeout_secs: 600,
        tmux_enabled: false,
        mcp_tools_enabled: false,
        mcp_expose_send_message: true,
        delegation_slim_prompt: false,
        delegation_resume_delta: false,
    };
    let rows = settings_to_rows(&cfg, "[{\"id\":\"effort\",\"value\":\"high\"}]");
    let back = settings_from_rows(&rows, &env, Some(cfg.sdk_model_params.clone()));
    assert_eq!(back.sdk_runner_url, cfg.sdk_runner_url);
    assert_eq!(back.sdk_model, cfg.sdk_model);
    assert_eq!(back.sdk_model_params.len(), 1);
    assert_eq!(back.sdk_model_params[0].value, "high");
    assert_eq!(back.sdk_runner_ok, cfg.sdk_runner_ok);
    assert_eq!(back.cli_path, cfg.cli_path);
    assert_eq!(back.cli_model, cfg.cli_model);
    assert_eq!(back.cli_runner_url, cfg.cli_runner_url);
    assert_eq!(back.timeout_secs, 7200);
    assert_eq!(back.interactive_timeout_secs, 600);
    assert_eq!(back.tmux_enabled, cfg.tmux_enabled);
    assert_eq!(back.mcp_tools_enabled, cfg.mcp_tools_enabled);
    assert_eq!(back.mcp_expose_send_message, cfg.mcp_expose_send_message);
    assert_eq!(back.delegation_slim_prompt, cfg.delegation_slim_prompt);
}

#[test]
fn health_endpoint_and_failures() {
    assert_eq!(sidecar_health_url("http://127.0.0.1:3848/").as_deref(), Some("http://127.0.0.1:3848/health"));
    assert_eq!(sidecar_health_url("  "), None);
    let h = sidecar_health_not_configured();
    assert!(!h.reachable);
    assert_eq!(h.error.as_deref(), Some("Runner URL is not configured"));
    let down = sidecar_health_from_probe(HealthProbeOutcome::Unreachable("refused".into()));
    assert!(!down.reachable);
    assert_eq!(down.error.as_deref(), Some("Sidecar unreachable: refused"));
    let body = JsonValue::Object(vec![
        ("api_key_configured".into(), JsonValue::Bool(true)),
        ("cursor_sdk_installed".into(), JsonValue::Bool(true)),
        ("runs_in_flight".into(), JsonValue::Number(Some(2), "2".into())),
    ]);
    let up = sidecar_health_from_probe(HealthProbeOutcome::Body(body));
    assert!(up.reachable && up.api_key_configured && up.cursor_sdk_installed);
    assert_eq!(up.runs_in_flight, 2);
    assert!(up.error.is_none());
}

#[test]
fn catalog_errors() {
    assert_eq!(catalog_from_entries(vec![]).unwrap_err(), "No models returned from Cursor API.");
    let body = JsonValue::Object(vec![("error".into(), JsonValue::Str("bad key".into()))]);
    assert_eq!(catalog_http_error("401", Some(&body)), "bad key");
    assert_eq!(catalog_http_error("502", None), "Sidecar models returned HTTP 502");
}
