use pollux::gemini::{GeminiContent, GeminiGenerateContentRequest, GeminiPart};
use pollux::preamble::{system_preamble, ensure_system_preamble};

fn body_with_system_text(text: Option<&str>) -> GeminiGenerateContentRequest {
    GeminiGenerateContentRequest {
        contents: Vec::new(),
        system_instruction: text.map(|t| GeminiContent {
            role: None,
            parts: vec![GeminiPart {
                text: Some(t.to_string()),
                thought: None,
                function_call: None,
                thought_signature: None,
                extra: Vec::new(),
            }],
            extra: Vec::new(),
        }),
        session_id: None,
        extra: Vec::new(),
    }
}

fn system_text(body: &GeminiGenerateContentRequest) -> Option<String> {
    body.system_instruction
        .as_ref()
        .and_then(|c| c.parts.first())
        .and_then(|p| p.text.clone())
}

#[test]
fn preamble_is_created_when_absent() {
    let mut body = body_with_system_text(None);
    ensure_system_preamble(&mut body);
    assert_eq!(system_text(&body).as_deref(), Some(system_preamble()));
}

#[test]
fn preamble_is_prepended_to_existing_text() {
    let mut body = body_with_system_text(Some("existing rules"));
    ensure_system_preamble(&mut body);
    let expected = format!("{}\nexisting rules", system_preamble());
    assert_eq!(system_text(&body).as_deref(), Some(expected.as_str()));
}

#[test]
fn ensure_system_preamble_is_idempotent() {
    let mut body = body_with_system_text(Some("existing rules"));
    ensure_system_preamble(&mut body);
    let once = system_text(&body);
    ensure_system_preamble(&mut body);
    assert_eq!(system_text(&body), once);
}

#[test]
fn marker_is_detected_case_insensitively() {
    let mut body = body_with_system_text(Some("mind your **PROACTIVENESS** today"));
    ensure_system_preamble(&mut body);
    assert_eq!(
        system_text(&body).as_deref(),
        Some("mind your **PROACTIVENESS** today")
    );
}
