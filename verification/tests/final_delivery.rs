use finally_a_value_bot::final_delivery_dedupe::{
    plan_agent_final_delivery, split_memory_tail, strip_leading_persona_tokens, AgentFinalDeliveryPlan,
};
use finally_a_value_bot::final_delivery_media::{
    artifact_basename_fallback_candidates, extract_upload_urls_from_text, is_deliverable_image_extension,
    markdown_image_for_basename, normalize_local_artifact_ref, sanitize_delivery_upload_filename,
    stored_delivery_name, upload_url_basename, web_delivery_url,
};

#[test]
fn plan_delivers_full_for_non_empty_body() {
    let plan = plan_agent_final_delivery(None, "[pep] Hello there");
    assert_eq!(plan, AgentFinalDeliveryPlan::DeliverFull);
}

#[test]
fn plan_skips_empty_body() {
    let plan = plan_agent_final_delivery(None, "   ");
    assert_eq!(plan, AgentFinalDeliveryPlan::Skip);
}

#[test]
fn plan_skips_body_of_only_persona_tokens() {
    assert_eq!(strip_leading_persona_tokens("[pep] [bot] hi"), "hi");
    assert_eq!(plan_agent_final_delivery(None, "[pep]  "), AgentFinalDeliveryPlan::Skip);
}

#[test]
fn split_memory_tail_extracts_suffix() {
    let final_txt = "Main answer here.\n\n---\n**Memory Update**:\n- tier3 note";
    let (main, tail) = split_memory_tail(final_txt);
    assert_eq!(main, "Main answer here.");
    assert!(tail.unwrap().contains("tier3"));
}

#[test]
fn split_memory_tail_without_marker_keeps_body() {
    let (main, tail) = split_memory_tail("Just an answer.");
    assert_eq!(main, "Just an answer.");
    assert!(tail.is_none());
}

#[test]
fn normalize_local_artifact_ref_strips_file_url() {
    assert_eq!(
        normalize_local_artifact_ref("file:///home/user/workspace/shared/personas/1/2/report.md?preview=1"),
        "/home/user/workspace/shared/personas/1/2/report.md"
    );
    assert_eq!(
        normalize_local_artifact_ref("file://localhost/home/user/workspace/report.md#section"),
        "/home/user/workspace/report.md"
    );
    assert_eq!(normalize_local_artifact_ref("ORIGIN/Projects/notes.md"), "ORIGIN/Projects/notes.md");
}

#[test]
fn artifact_basename_fallback_candidates_strips_delivery_copy_prefix() {
    let candidates =
        artifact_basename_fallback_candidates("20260604-045735-bot-PZ-20260608-PARK-HOTIFY-MEDIUM.png");
    assert_eq!(candidates.len(), 2);
    assert_eq!(candidates[1], "PZ-20260608-PARK-HOTIFY-MEDIUM.png");
}

#[test]
fn artifact_basename_fallback_candidates_strips_hash_prefix() {
    let candidates = artifact_basename_fallback_candidates("78bc936e4388a4ae-PZ-20260603-EMBARCADERO.png");
    assert!(candidates.contains(&"PZ-20260603-EMBARCADERO.png".to_string()));
}

#[test]
fn plain_basename_has_only_itself_as_candidate() {
    assert_eq!(artifact_basename_fallback_candidates("photo.png"), vec!["photo.png".to_string()]);
}

#[test]
fn image_extensions() {
    assert!(is_deliverable_image_extension(Some("PNG")));
    assert!(is_deliverable_image_extension(Some("webp")));
    assert!(!is_deliverable_image_extension(Some("pdf")));
    assert!(!is_deliverable_image_extension(None));
}

#[test]
fn upload_names_are_safe_and_urls_well_formed() {
    let s = sanitize_delivery_upload_filename("my report (final).pdf");
    assert!(!s.is_empty());
    assert!(s.chars().all(|c| c.is_ascii_alphanumeric() || c == '.' || c == '-' || c == '_'));
    assert_eq!(sanitize_delivery_upload_filename(""), "web-upload.bin");
    assert_eq!(stored_delivery_name("20260101-000000", Some("")), "20260101-000000-bot-web-upload.bin");
    assert_eq!(web_delivery_url(-5, 2, "a.png"), "/api/uploads/web/-5/2/a.png");
    assert_eq!(markdown_image_for_basename("a.png", "/x/a.png"), "![a.png](/x/a.png)");
    assert_eq!(upload_url_basename("/api/uploads/web/1/2/pic.png"), "pic.png");
}

#[test]
fn upload_urls_found_in_text() {
    let urls = extract_upload_urls_from_text("See ![x](/api/uploads/web/1/2/a.png) and '/api/uploads/b.pdf'.");
    assert_eq!(urls, vec!["/api/uploads/web/1/2/a.png".to_string(), "/api/uploads/b.pdf".to_string()]);
}
