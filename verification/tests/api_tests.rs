use pollux::api::{AntigravityApi, ProviderEndpoints};
use pollux::numfmt::u64_to_string;

#[test]
fn request_id_uses_agent_timestamp_uuid_shape() {
    let id = AntigravityApi::request_id_from_parts(1234, "00000000-0000-4000-8000-000000000000");
    assert_eq!(id, "agent/1234/00000000-0000-4000-8000-000000000000");
}

#[test]
fn fixed_upstream_urls_are_expected_literals() {
    assert_eq!(
        AntigravityApi::generate_url(),
        "https://daily-cloudcode-pa.googleapis.com/v1internal:generateContent"
    );
    assert_eq!(
        AntigravityApi::stream_url(),
        "https://daily-cloudcode-pa.googleapis.com/v1internal:streamGenerateContent?alt=sse"
    );
}

#[test]
fn session_id_is_negative_decimal_string() {
    assert_eq!(AntigravityApi::session_id_from_int(42), "-42");
    assert_eq!(AntigravityApi::session_id_from_int(0), "-0");
}

#[test]
fn endpoints_use_expected_literals() {
    let endpoints = ProviderEndpoints::antigravity_default();
    assert_eq!(
        endpoints.select(false).as_str(),
        "https://daily-cloudcode-pa.googleapis.com/v1internal:generateContent"
    );
    assert_eq!(
        endpoints.select(true).as_str(),
        "https://daily-cloudcode-pa.googleapis.com/v1internal:streamGenerateContent?alt=sse"
    );
}

#[test]
fn client_request_id_uses_agent_timestamp_uuid_shape() {
    let id = AntigravityApi::request_id_from_parts(1234, "00000000-0000-4000-8000-000000000000");
    assert_eq!(id, "agent/1234/00000000-0000-4000-8000-000000000000");
}

#[test]
fn client_session_id_is_negative_decimal_string() {
    assert_eq!(AntigravityApi::session_id_from_int(42), "-42");
    assert_eq!(AntigravityApi::session_id_from_int(0), "-0");
}

#[test]
fn decimal_formatting_matches_expected_text() {
    assert_eq!(u64_to_string(0), "0");
    assert_eq!(u64_to_string(1770489747018), "1770489747018");
    assert_eq!(u64_to_string(u64::MAX), "18446744073709551615");
}

#[test]
fn generated_request_id_has_agent_timestamp_uuid_shape() {
    let id = AntigravityApi::generate_request_id();
    let mut segments = id.split('/');
    assert_eq!(segments.next(), Some("agent"));
    let ts = segments.next().expect("timestamp segment");
    assert!(ts.parse::<u128>().is_ok());
    let uuid = segments.next().expect("uuid segment");
    assert_eq!(uuid.len(), 36);
    assert!(uuid.chars().all(|c| c == '-' || c.is_ascii_hexdigit()));
    assert_eq!(segments.next(), None);
}

#[test]
fn generated_session_id_is_negative_decimal() {
    let sid = AntigravityApi::generate_session_id();
    assert!(sid.starts_with('-'));
    assert!(sid[1..].chars().all(|c| c.is_ascii_digit()));
}
