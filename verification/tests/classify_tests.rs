use pollux::classify::{ActionForError, CallError, RetryDecision, RetryPolicy, UpstreamErrorHints,
    classify_upstream_error};
use pollux::gemini_error::{hints_from_error, parse_gemini_error, parse_retry_after, parse_u64};
use pollux::json::JsonValue;
use pollux::pool::{Credential, CredentialPool, LeaseDecision};
use pollux::upstream::handle_upstream_failure;

fn error_body(code: &str, status: &str, message: &str) -> JsonValue {
    JsonValue::Obj(vec![(
        "error".to_string(),
        JsonValue::Obj(vec![
            ("code".to_string(), JsonValue::Num(code.to_string())),
            ("status".to_string(), JsonValue::Str(status.to_string())),
            ("message".to_string(), JsonValue::Str(message.to_string())),
        ]),
    )])
}

fn hints() -> UpstreamErrorHints {
    UpstreamErrorHints {
        resource_exhausted: false,
        credential_banned: false,
        credential_invalid: false,
        model_unavailable: false,
        retry_after_ms: None,
    }
}

#[test]
fn status_429_classifies_as_rate_limit_with_retry_after() {
    let mut h = hints();
    h.retry_after_ms = Some(1_500);
    assert_eq!(classify_upstream_error(429, &h), ActionForError::RateLimit(1_500));
    assert_eq!(classify_upstream_error(429, &hints()), ActionForError::RateLimit(60_000));
}

#[test]
fn resource_exhausted_body_classifies_as_rate_limit() {
    let mut h = hints();
    h.resource_exhausted = true;
    assert_eq!(classify_upstream_error(200, &h), ActionForError::RateLimit(60_000));
}

#[test]
fn credential_markers_classify_as_ban_or_invalid() {
    let mut h = hints();
    h.credential_banned = true;
    assert_eq!(classify_upstream_error(403, &h), ActionForError::Ban);
    let mut h = hints();
    h.credential_invalid = true;
    assert_eq!(classify_upstream_error(401, &h), ActionForError::Invalid);
}

#[test]
fn model_marker_classifies_as_unsupported() {
    let mut h = hints();
    h.model_unavailable = true;
    assert_eq!(classify_upstream_error(404, &h), ActionForError::ModelUnsupported);
    assert_eq!(classify_upstream_error(500, &h), ActionForError::NoAction);
}

#[test]
fn retry_policy_backs_off_within_bounds_then_gives_up() {
    let mut policy = RetryPolicy::new(3);
    let err = CallError::UpstreamTransient;

    for attempt in 0..3u32 {
        match policy.on_error(&err, 12_345 + attempt as u64) {
            RetryDecision::RetryAfter(d) => {
                assert!((100..400).contains(&d), "delay {d} out of bounds");
            },
            RetryDecision::GiveUp => panic!("gave up too early at attempt {attempt}"),
        }
    }
    assert!(matches!(policy.on_error(&err, 0), RetryDecision::GiveUp));
}

#[test]
fn non_retryable_errors_give_up_immediately() {
    let mut policy = RetryPolicy::new(3);
    assert!(matches!(
        policy.on_error(&CallError::NoAvailableCredential, 0),
        RetryDecision::GiveUp
    ));
    assert!(matches!(
        policy.on_error(&CallError::UpstreamStatus(400), 0),
        RetryDecision::GiveUp
    ));
    assert!(matches!(
        policy.on_error(&CallError::UpstreamStatus(429), 0),
        RetryDecision::RetryAfter(_)
    ));
}

#[test]
fn upstream_failure_teaches_the_pool_and_releases_the_lease() {
    let mask: u64 = 1;
    let mut pool = CredentialPool::new(60_000);
    pool.submit_credentials(vec![Credential {
        id: 1,
        email: None,
        project_id: "project-1".to_string(),
        refresh_token: "refresh-1".to_string(),
        access_token: Some("access-1".to_string()),
        expiry_ms: u64::MAX,
        status: true,
    }]);

    assert!(matches!(pool.get_credential(mask, 1_000), LeaseDecision::Lease(_)));
    let body = error_body("429", "RESOURCE_EXHAUSTED", "quota exceeded");
    let err = handle_upstream_failure(&mut pool, 1, mask, 429, &body, Some("1"), 1_000);
    match err {
        CallError::UpstreamMapped(429, o) => {
            assert_eq!(o.code, 429);
            assert_eq!(o.status, "RESOURCE_EXHAUSTED");
            assert_eq!(o.message, "quota exceeded");
        },
        other => panic!("expected a mapped error, got {other:?}"),
    }
    assert_eq!(pool.entries[0].in_flight, 0);
    assert!(matches!(pool.get_credential(mask, 1_500), LeaseDecision::NoneAvailable));
    assert!(matches!(pool.get_credential(mask, 2_000), LeaseDecision::Lease(_)));
}

#[test]
fn unstructured_failure_surfaces_the_bare_status() {
    let mask: u64 = 1;
    let mut pool = CredentialPool::new(60_000);
    pool.submit_credentials(vec![Credential {
        id: 1,
        email: None,
        project_id: "project-1".to_string(),
        refresh_token: "refresh-1".to_string(),
        access_token: Some("access-1".to_string()),
        expiry_ms: u64::MAX,
        status: true,
    }]);

    assert!(matches!(pool.get_credential(mask, 0), LeaseDecision::Lease(_)));
    let body = JsonValue::Str("bad gateway".to_string());
    let err = handle_upstream_failure(&mut pool, 1, mask, 404, &body, None, 0);
    assert!(matches!(err, CallError::UpstreamStatus(404)));
    let err = handle_upstream_failure(&mut pool, 1, mask, 502, &body, None, 0);
    assert!(matches!(err, CallError::UpstreamTransient));
}

#[test]
fn structured_error_bodies_parse_exactly() {
    let body = error_body("403", "PERMISSION_DENIED", "no access");
    let o = parse_gemini_error(&body).expect("structured error");
    assert_eq!((o.code, o.status.as_str(), o.message.as_str()), (403, "PERMISSION_DENIED", "no access"));

    assert!(parse_gemini_error(&JsonValue::Null).is_none());
    assert!(parse_gemini_error(&JsonValue::Obj(Vec::new())).is_none());

    let h = hints_from_error(Some(&o), None);
    assert!(h.credential_banned && !h.resource_exhausted && !h.credential_invalid && !h.model_unavailable);
}

#[test]
fn retry_after_parses_whole_seconds_to_milliseconds() {
    assert_eq!(parse_retry_after("2"), Some(2_000));
    assert_eq!(parse_retry_after(""), None);
    assert_eq!(parse_retry_after("2s"), None);
    assert_eq!(parse_u64("18446744073709551615"), Some(u64::MAX));
    assert_eq!(parse_u64("18446744073709551616"), None);
}
