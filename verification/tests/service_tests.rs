use pollux::gemini::{GeminiPart, GeminiContent, GeminiGenerateContentRequest, GeminiCandidate,
    GeminiResponseBody};
use pollux::json::JsonValue;
use pollux::service::{preview_signature, GeminiThoughtSigService};

fn part() -> GeminiPart {
    GeminiPart { text: None, thought: None, function_call: None, thought_signature: None, extra: Vec::new() }
}

fn thought_part(text: &str, signature: Option<&str>) -> GeminiPart {
    let mut p = part();
    p.thought = Some(true);
    p.text = Some(text.to_string());
    p.thought_signature = signature.map(|s| s.to_string());
    p
}

fn model_request(parts: Vec<GeminiPart>) -> GeminiGenerateContentRequest {
    GeminiGenerateContentRequest {
        contents: vec![GeminiContent { role: Some("model".to_string()), parts, extra: Vec::new() }],
        system_instruction: None,
        session_id: None,
        extra: Vec::new(),
    }
}

fn candidate(index: Option<usize>, parts: Vec<GeminiPart>, finish: Option<&str>) -> GeminiCandidate {
    GeminiCandidate {
        index,
        content: Some(GeminiContent { role: None, parts, extra: Vec::new() }),
        finish_reason: finish.map(|f| f.to_string()),
        extra: Vec::new(),
    }
}

fn weather_call(city_first: bool) -> JsonValue {
    let args = if city_first {
        vec![
            ("city".to_string(), JsonValue::Str("Berlin".to_string())),
            ("unit".to_string(), JsonValue::Str("c".to_string())),
        ]
    } else {
        vec![
            ("unit".to_string(), JsonValue::Str("c".to_string())),
            ("city".to_string(), JsonValue::Str("Berlin".to_string())),
        ]
    };
    JsonValue::Obj(vec![
        ("name".to_string(), JsonValue::Str("get_weather".to_string())),
        ("args".to_string(), JsonValue::Obj(args)),
    ])
}

#[test]
fn patch_request_fills_dummy_when_cache_miss() {
    let service = GeminiThoughtSigService::new();
    let mut req = model_request(vec![thought_part("internal reasoning", None)]);

    let stats = service.patch_request("gemini-3-pro-preview", &mut req);
    assert_eq!(stats.total_considered, 1);
    assert_eq!(stats.dummy_filled, 1);
    assert_eq!(
        req.contents[0].parts[0].thought_signature.as_deref(),
        Some("skip_thought_signature_validator")
    );
}

#[test]
fn record_then_patch_hits_cache() {
    let mut service = GeminiThoughtSigService::new();

    let response = GeminiResponseBody {
        candidates: vec![candidate(
            None,
            vec![thought_part("internal reasoning", Some("real_signature_123"))],
            Some("STOP"),
        )],
        extra: Vec::new(),
    };
    service.record_response(&response);

    let mut req = model_request(vec![thought_part("internal reasoning", None)]);
    let fill_stats = service.patch_request("gemini-3-pro-preview", &mut req);
    assert_eq!(fill_stats.cache_hits, 1);
    assert_eq!(fill_stats.dummy_filled, 0);
    assert_eq!(
        req.contents[0].parts[0].thought_signature.as_deref(),
        Some("real_signature_123")
    );
}

#[test]
fn record_then_patch_hits_cache_for_function_call_hash() {
    let mut service = GeminiThoughtSigService::new();

    let mut fc_part = part();
    fc_part.function_call = Some(weather_call(true));
    fc_part.thought_signature = Some("fn_signature_123".to_string());
    let response = GeminiResponseBody {
        candidates: vec![candidate(None, vec![fc_part], Some("STOP"))],
        extra: Vec::new(),
    };
    service.record_response(&response);

    let mut req_part = part();
    req_part.function_call = Some(weather_call(false));
    let mut req = model_request(vec![req_part]);

    let fill_stats = service.patch_request("gemini-3-pro-preview", &mut req);
    assert_eq!(fill_stats.cache_hits, 1);
    assert_eq!(fill_stats.dummy_filled, 0);
    assert_eq!(
        req.contents[0].parts[0].thought_signature.as_deref(),
        Some("fn_signature_123")
    );
}

#[test]
fn stream_record_then_patch_hits_cache_without_role_in_chunk() {
    let mut service = GeminiThoughtSigService::new();
    let chunk_without_signature = GeminiResponseBody {
        candidates: vec![candidate(Some(0), vec![thought_part("alpha ", None)], None)],
        extra: Vec::new(),
    };
    let chunk_with_signature = GeminiResponseBody {
        candidates: vec![candidate(
            Some(0),
            vec![thought_part("beta", Some("stream_sig_001"))],
            Some("STOP"),
        )],
        extra: Vec::new(),
    };

    let mut stream_sniffer = service.new_stream_sniffer();
    service.record_stream_chunk(&mut stream_sniffer, &chunk_without_signature);
    service.record_stream_chunk(&mut stream_sniffer, &chunk_with_signature);

    let mut req = model_request(vec![thought_part("alpha beta", None)]);
    let fill_stats = service.patch_request("gemini-3-pro-preview", &mut req);
    assert_eq!(fill_stats.cache_hits, 1);
    assert_eq!(fill_stats.dummy_filled, 0);
    assert_eq!(
        req.contents[0].parts[0].thought_signature.as_deref(),
        Some("stream_sig_001")
    );
}

#[test]
fn patch_request_is_noop_when_all_parts_signed() {
    let service = GeminiThoughtSigService::new();
    let mut req = model_request(vec![thought_part("internal reasoning", Some("keep_me"))]);

    let stats = service.patch_request("gemini-3-pro-preview", &mut req);
    assert_eq!(stats.total_considered, 1);
    assert_eq!(stats.kept_existing, 1);
    assert_eq!(req.contents[0].parts[0].thought_signature.as_deref(), Some("keep_me"));
}

#[test]
fn preview_signature_truncates_long_signatures() {
    assert_eq!(preview_signature("short"), "short");
    let long: String = "x".repeat(60);
    let preview = preview_signature(&long);
    assert_eq!(preview.len(), 51);
    assert!(preview.ends_with("..."));
}
