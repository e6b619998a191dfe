use pollux::oauth::{IneligibleReason, LoadCodeAssistResponse, check_entry_secret,
    resolve_companion_project, validate_oauth_session, validate_token_fields};

fn load(project: Option<&str>, ineligible: Vec<IneligibleReason>) -> LoadCodeAssistResponse {
    LoadCodeAssistResponse {
        current_tier: None,
        cloudaicompanion_project: project.map(|p| p.to_string()),
        allowed_tiers: Vec::new(),
        ineligible_tiers: ineligible,
    }
}

#[test]
fn entry_secret_is_checked_exactly() {
    assert!(check_entry_secret("SECRET-REDACTED", "SECRET-REDACTED"));
    assert!(!check_entry_secret("SECRET-REDACTED", "other"));
}

#[test]
fn missing_session_cookies_fail_with_stable_code() {
    let err = validate_oauth_session(None, "state").unwrap_err();
    assert_eq!(err.code, "OAUTH_SESSION_MISSING");
}

#[test]
fn csrf_mismatch_fails_with_stable_code() {
    let session = Some(("verifier".to_string(), "csrf".to_string()));
    let err = validate_oauth_session(session, "not-csrf").unwrap_err();
    assert_eq!(err.code, "CSRF_MISMATCH");

    let session = Some(("verifier".to_string(), "csrf".to_string()));
    let verifier = validate_oauth_session(session, "csrf").unwrap();
    assert_eq!(verifier, "verifier");
}

#[test]
fn missing_refresh_token_fails_with_stable_code() {
    let err = validate_token_fields(None, Some("at".to_string())).unwrap_err();
    assert_eq!(err.code, "MISSING_REFRESH_TOKEN");
    let err = validate_token_fields(Some(String::new()), Some("at".to_string())).unwrap_err();
    assert_eq!(err.code, "MISSING_REFRESH_TOKEN");
    let err = validate_token_fields(Some("rt".to_string()), None).unwrap_err();
    assert_eq!(err.code, "MISSING_ACCESS_TOKEN");
    let (rt, at) = validate_token_fields(Some("rt".to_string()), Some("at".to_string())).unwrap();
    assert_eq!((rt.as_str(), at.as_str()), ("rt", "at"));
}

#[test]
fn ineligible_account_fails_with_upstream_reason() {
    let err = resolve_companion_project(&load(
        Some("p"),
        vec![IneligibleReason {
            reason_code: Some("NO_SEATS".to_string()),
            reason_message: Some("no seats left".to_string()),
            tier_id: None,
        }],
    ))
    .unwrap_err();
    assert_eq!(err.code, "NO_SEATS");

    let err = resolve_companion_project(&load(
        Some("p"),
        vec![IneligibleReason { reason_code: None, reason_message: None, tier_id: None }],
    ))
    .unwrap_err();
    assert_eq!(err.code, "ACCOUNT_INELIGIBLE");
}

#[test]
fn missing_companion_project_fails_with_stable_code() {
    let err = resolve_companion_project(&load(None, Vec::new())).unwrap_err();
    assert_eq!(err.code, "MISSING_COMPANION_PROJECT");
    let project = resolve_companion_project(&load(Some("project-7"), Vec::new())).unwrap();
    assert_eq!(project, "project-7");
}
