use pollux::envelope::{build_antigravity_payload, AntigravityRequestBody, AntigravityRequestMeta,
    ensure_session_id};
use pollux::gemini::GeminiGenerateContentRequest;
use pollux::json::JsonValue;
use pollux::wire::{envelope_from_value, envelope_to_value, req_from_value};

fn s(t: &str) -> JsonValue {
    JsonValue::Str(t.to_string())
}

fn obj(entries: Vec<(&str, JsonValue)>) -> JsonValue {
    JsonValue::Obj(entries.into_iter().map(|(k, v)| (k.to_string(), v)).collect())
}

fn hello_contents() -> JsonValue {
    JsonValue::Arr(vec![obj(vec![
        ("role", s("user")),
        ("parts", JsonValue::Arr(vec![obj(vec![("text", s("hello"))])])),
    ])])
}

#[test]
fn full_envelope_roundtrips() {
    let input = obj(vec![
        ("project", s("test-project")),
        ("requestId", s("agent/1770489747018/b9acb5be-0d95-407e-a9cf-94315ff8a43e")),
        ("request", obj(vec![("contents", hello_contents())])),
        ("model", s("sonnet-4-5-thinking")),
        ("userAgent", s("antigravity")),
        ("requestType", s("agent")),
    ]);

    let body = envelope_from_value(&input).unwrap();
    let output = envelope_to_value(&body);
    assert_eq!(output, input);
}

#[test]
fn all_fields_are_required() {
    let err = envelope_from_value(&obj(vec![
        ("project", s("test-project")),
        ("request", obj(vec![("contents", JsonValue::Arr(Vec::new()))])),
        ("model", s("sonnet-4-5-thinking")),
        ("userAgent", s("antigravity")),
        ("requestType", s("agent")),
    ]))
    .unwrap_err();

    assert!(err.contains("requestId"));
}

#[test]
fn request_field_uses_gemini_generate_content_shape() {
    let err = envelope_from_value(&obj(vec![
        ("project", s("test-project")),
        ("requestId", s("req-1")),
        ("request", obj(Vec::new())),
        ("model", s("sonnet-4-5-thinking")),
        ("userAgent", s("antigravity")),
        ("requestType", s("agent")),
    ]))
    .unwrap_err();

    assert!(err.contains("contents"));
}

#[test]
fn from_gemini_request_applies_fixed_fields() {
    let request = req_from_value(&obj(vec![("contents", hello_contents())])).unwrap();

    let body = AntigravityRequestBody::from_parts(
        request,
        AntigravityRequestMeta {
            project: "project-1".to_string(),
            request_id: "agent/1/00000000-0000-4000-8000-000000000000".to_string(),
            model: "sonnet-4-5-thinking".to_string(),
        },
    );

    assert_eq!(body.user_agent, "antigravity");
    assert_eq!(body.request_type, "agent");
    assert_eq!(body.project, "project-1");
    assert_eq!(body.model, "sonnet-4-5-thinking");
}

#[test]
fn session_id_is_inserted_only_when_absent() {
    let mut req = req_from_value(&obj(vec![("contents", hello_contents())])).unwrap();
    ensure_session_id(&mut req, 42);
    assert_eq!(req.session_id.as_deref(), Some("-42"));

    let mut again: GeminiGenerateContentRequest = req;
    ensure_session_id(&mut again, 7);
    assert_eq!(again.session_id.as_deref(), Some("-42"));
}

#[test]
fn request_roundtrips_with_session_and_extras() {
    let input = obj(vec![
        ("contents", hello_contents()),
        ("sessionId", s("-99")),
        ("generationConfig", obj(vec![("temperature", JsonValue::Num("1".to_string()))])),
    ]);
    let req = req_from_value(&input).unwrap();
    assert_eq!(req.session_id.as_deref(), Some("-99"));
    let out = pollux::wire::req_to_value(&req);
    assert_eq!(out, input);
}

#[test]
fn payload_carries_project_model_fixed_strings_and_session() {
    let request = req_from_value(&obj(vec![("contents", hello_contents())])).unwrap();
    let body = build_antigravity_payload(
        request,
        "project-1".to_string(),
        "gemini-2.5-pro".to_string(),
        "agent/1234/00000000-0000-4000-8000-000000000000".to_string(),
        7,
        false,
    );

    assert_eq!(body.project, "project-1");
    assert_eq!(body.model, "gemini-2.5-pro");
    assert_eq!(body.user_agent, "antigravity");
    assert_eq!(body.request_type, "agent");
    assert!(body.request_id.starts_with("agent/"));
    assert_eq!(body.request.session_id.as_deref(), Some("-7"));
    assert_eq!(
        pollux::wire::req_to_value(&body.request),
        obj(vec![("contents", hello_contents()), ("sessionId", s("-7"))])
    );
}
