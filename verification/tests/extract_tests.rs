use pollux::extract::{AntigravityPreprocess, model_from_path, model_mask, path_is_stream};
use pollux::gemini::GeminiGenerateContentRequest;
use pollux::cli_schema::{SseAction, classify_sse_event};

fn empty_request() -> GeminiGenerateContentRequest {
    GeminiGenerateContentRequest {
        contents: Vec::new(),
        system_instruction: None,
        session_id: None,
        extra: Vec::new(),
    }
}

#[test]
fn model_is_last_segment_cut_at_colon() {
    assert_eq!(
        model_from_path("antigravity/v1beta/models/gemini-2.5-pro:generateContent"),
        "gemini-2.5-pro"
    );
    assert_eq!(model_from_path("models/gemini-2.5-pro"), "gemini-2.5-pro");
    assert_eq!(model_from_path("gemini-2.5-pro:streamGenerateContent"), "gemini-2.5-pro");
}

#[test]
fn stream_flag_follows_the_path() {
    assert!(path_is_stream("models/m:streamGenerateContent"));
    assert!(!path_is_stream("models/m:generateContent"));
}

#[test]
fn catalog_assigns_one_bit_per_position() {
    let catalog = vec!["a".to_string(), "b".to_string(), "c".to_string()];
    assert_eq!(model_mask("a", &catalog), Some(1));
    assert_eq!(model_mask("b", &catalog), Some(2));
    assert_eq!(model_mask("c", &catalog), Some(4));
    assert_eq!(model_mask("d", &catalog), None);
}

#[test]
fn preprocess_accepts_listed_model_and_reads_mode() {
    let list = vec!["gemini-2.5-pro".to_string()];
    let catalog = vec!["gemini-2.5-pro".to_string()];
    let pp = AntigravityPreprocess::from_request(
        "antigravity/v1beta/models/gemini-2.5-pro:streamGenerateContent".to_string(),
        empty_request(),
        &list,
        &catalog,
        "th",
    )
    .unwrap();
    assert_eq!(pp.1.model, "gemini-2.5-pro");
    assert!(pp.1.stream);
    assert_eq!(pp.1.model_mask, 1);
}

#[test]
fn preprocess_rejects_unlisted_model_naming_it() {
    let list = vec!["gemini-2.5-pro".to_string()];
    let catalog = vec!["gemini-2.5-pro".to_string()];
    let err = AntigravityPreprocess::from_request(
        "antigravity/v1beta/models/other:generateContent".to_string(),
        empty_request(),
        &list,
        &catalog,
        "th",
    )
    .unwrap_err();
    assert_eq!(err.status, 400);
    assert_eq!(err.code, "INVALID_ARGUMENT");
    assert_eq!(err.message, "unsupported model: other");
}

#[test]
fn sse_events_classify_by_data_and_name() {
    assert_eq!(classify_sse_event("message", ""), SseAction::Drop);
    assert_eq!(classify_sse_event("message", "[DONE]"), SseAction::Done);
    assert_eq!(classify_sse_event("done", "{}"), SseAction::Done);
    assert_eq!(classify_sse_event("message", "{\"candidates\":[]}"), SseAction::Forward);
}
