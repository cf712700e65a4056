use finally_a_value_bot::db::Persona;
use finally_a_value_bot::dense_delivery_guard::{
    dense_delivery_gate, effective_max_chars, effective_summary_chars, extract_public_https_url,
    finalize_delivery_message, is_messaging_channel, mime_for_extension, multipart_reply, upload_attempt_outcome,
    extract_public_https_url_raw, multipart_reply_raw,
    upload_provider, validate_public_https_url, NoopUploader, UploadStep,
};
use finally_a_value_bot::json::JsonValue;

fn persona() -> Persona {
    Persona {
        id: 1,
        chat_id: 10,
        name: "default".into(),
        model_override: None,
        recent_history_min_user: None,
        recent_history_min_assistant: None,
        operator_memo: None,
        dense_delivery_enabled: true,
        dense_delivery_messaging_max_chars: None,
        dense_delivery_web_max_chars: Some(50),
        dense_delivery_summary_chars: Some(0),
        agent_engine_override: None,
    }
}

fn obj(entries: Vec<(&str, JsonValue)>) -> JsonValue {
    JsonValue::Object(entries.into_iter().map(|(k, v)| (k.to_string(), v)).collect())
}

#[test]
fn invalid_upload_url_rejected() {
    assert!(validate_public_https_url("http://files.catbox.moe/x.pdf").is_err());
    assert!(validate_public_https_url("/api/uploads/x.pdf").is_err());
    assert!(validate_public_https_url("https://127.0.0.1/x.pdf").is_err());
    assert!(validate_public_https_url("https://localhost/x.pdf").is_err());
    assert!(validate_public_https_url("https://192.168.1.9/x.pdf").is_err());
    assert!(validate_public_https_url("https://example.com/api/uploads/x.pdf").is_err());
    assert!(validate_public_https_url("https://files.catbox.moe/x.pdf").is_ok());
    assert!(validate_public_https_url("https://pixeldrain.com/api/file/abc").is_ok());
}

#[test]
fn extract_public_url_from_messy_host_responses() {
    assert_eq!(
        extract_public_https_url("https://files.catbox.moe/abc.pdf\n", None).unwrap(),
        "https://files.catbox.moe/abc.pdf"
    );
    let tmpfiles_raw = r#"{"status":"success","data":{"url":"http://tmpfiles.org/12/r.pdf"}}"#;
    let tmpfiles = obj(vec![
        ("status", JsonValue::Str("success".into())),
        ("data", obj(vec![("url", JsonValue::Str("http://tmpfiles.org/12/r.pdf".into()))])),
    ]);
    assert_eq!(
        extract_public_https_url(tmpfiles_raw, Some(&tmpfiles)).unwrap(),
        "https://tmpfiles.org/dl/12/r.pdf"
    );
    let pixeldrain_raw = r#"{"id":"Ab1Cd2"}"#;
    let pixeldrain = obj(vec![("id", JsonValue::Str("Ab1Cd2".into()))]);
    assert_eq!(
        extract_public_https_url(pixeldrain_raw, Some(&pixeldrain)).unwrap(),
        "https://pixeldrain.com/api/file/Ab1Cd2"
    );
    let html = "<html>see https://files.catbox.moe/zz.pdf</html>";
    assert_eq!(extract_public_https_url(html, None).unwrap(), "https://files.catbox.moe/zz.pdf");
    assert!(extract_public_https_url("https://127.0.0.1/secret.pdf", None).is_err());
    assert!(extract_public_https_url("/api/uploads/web/1/x.pdf", None).is_err());
}

#[test]
fn finalize_always_appends_public_url() {
    let url = "https://files.catbox.moe/forced.pdf";
    let out = finalize_delivery_message("Here's the take. See /api/uploads/web/1/old.pdf", Some(url), 200, true);
    assert!(out.contains(url));
    assert!(!out.contains("/api/uploads/"));
    assert!(out.trim_end().ends_with(url));
}

#[test]
fn finalize_keeps_public_url_when_over_budget() {
    let url = "https://files.catbox.moe/keep.pdf";
    let body = "word ".repeat(80);
    let out = finalize_delivery_message(&body, Some(url), 60, true);
    assert!(out.contains(url));
    assert!(out.chars().count() <= 60);
    assert!(out.trim_end().ends_with(url));
}

#[test]
fn finalize_removes_home_paths_and_skips_private_links() {
    let out = finalize_delivery_message("Saved to /home/me/report.md for you.", Some("https://10.0.0.1/x.pdf"), 500, false);
    assert!(!out.contains("/home/"));
    assert!(!out.contains("10.0.0.1"));
}

#[test]
fn messaging_channel_classification() {
    assert!(is_messaging_channel("wecom"));
    assert!(is_messaging_channel("Telegram"));
    assert!(!is_messaging_channel("web"));
    assert!(!is_messaging_channel("scheduler"));
}

#[test]
fn persona_caps_and_gate() {
    let p = persona();
    assert_eq!(effective_max_chars(&p, "telegram"), 2000);
    assert_eq!(effective_max_chars(&p, "web"), 50);
    assert_eq!(effective_summary_chars(&p), 1200);
    assert!(dense_delivery_gate(&p, "web", "short reply").is_none());
    let long = format!("  {}  ", "x".repeat(60));
    let plan = dense_delivery_gate(&p, "web", &long).unwrap();
    assert_eq!(plan.char_count, 60);
    assert_eq!(plan.max_chars, 50);
    assert!(!plan.messaging);
    assert_eq!(plan.cleaned, "x".repeat(60));
    let off = Persona { dense_delivery_enabled: false, ..persona() };
    assert!(dense_delivery_gate(&off, "web", &long).is_none());
}

#[test]
fn upload_settings_and_outcomes() {
    assert_eq!(mime_for_extension(Some("PDF")), "application/pdf");
    assert_eq!(mime_for_extension(Some("md")), "text/markdown");
    assert_eq!(mime_for_extension(None), "application/octet-stream");
    assert_eq!(upload_provider(Some(" None ")), "none");
    assert_eq!(upload_provider(None), "catbox");
    assert_eq!(NoopUploader.upload_file("/tmp/x.pdf").unwrap_err(), "DELIVERY_UPLOAD_PROVIDER=none");
    match upload_attempt_outcome(1, Ok(" https://files.catbox.moe/a.pdf ".into())) {
        UploadStep::Accept(u) => assert_eq!(u, "https://files.catbox.moe/a.pdf"),
        other => panic!("{:?}", other),
    }
    assert!(matches!(upload_attempt_outcome(1, Err("timeout".into())), UploadStep::Retry(_)));
    match upload_attempt_outcome(2, Ok("http://insecure/x".into())) {
        UploadStep::Exhausted(e) => assert_eq!(e, "upload response was not a public https URL"),
        other => panic!("{:?}", other),
    }
}

#[test]
fn multipart_failure_message() {
    let err = multipart_reply("catbox", false, "503", "  service unavailable  ", None).unwrap_err();
    assert_eq!(err, "catbox HTTP 503: service unavailable");
    let ok = multipart_reply("catbox", true, "200", "https://files.catbox.moe/q.pdf", None).unwrap();
    assert_eq!(ok, "https://files.catbox.moe/q.pdf");
}

#[test]
fn extract_public_url_reads_raw_host_replies() {
    assert_eq!(
        extract_public_https_url_raw(r#" {"status":"success","data":{"url":"http://tmpfiles.org/12/r.pdf"}} "#).unwrap(),
        "https://tmpfiles.org/dl/12/r.pdf"
    );
    assert_eq!(extract_public_https_url_raw(r#"{"id":"Ab1Cd2"}"#).unwrap(), "https://pixeldrain.com/api/file/Ab1Cd2");
    assert_eq!(extract_public_https_url_raw("https://files.catbox.moe/abc.pdf\n").unwrap(), "https://files.catbox.moe/abc.pdf");
    assert!(extract_public_https_url_raw("   ").is_err());
    assert_eq!(multipart_reply_raw("litterbox", true, "200", r#"{"id":"Zz9"}"#).unwrap(), "https://pixeldrain.com/api/file/Zz9");
    assert_eq!(multipart_reply_raw("catbox", false, "500", "boom").unwrap_err(), "catbox HTTP 500: boom");
}
