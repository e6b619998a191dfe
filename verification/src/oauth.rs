//! OAuth login-flow decisions.
//!
//! The web plumbing — cookies, redirects, the token exchange — lives
//! outside; these are the decisions between those steps: the constant-time
//! secret and CSRF checks, the token-payload validation, and reading the
//! companion project off the code-assist response.

use vstd::prelude::*;
use subtle::ConstantTimeEq;

verus! {

/// The OAuth callback's query parameters.
#[derive(Debug)]
pub struct AuthCallbackQuery {
    pub code: String,
    pub state: String,
}

/// A login-flow failure with a stable machine code.
#[derive(Debug)]
pub struct OauthFlowError {
    pub code: String,
    pub message: String,
}

/// A code-assist tier.
#[derive(Debug)]
pub struct TierInfo {
    pub id: String,
    pub name: Option<String>,
    pub quota_tier: Option<String>,
}

/// Why an account is ineligible for a tier.
#[derive(Debug)]
pub struct IneligibleReason {
    pub reason_code: Option<String>,
    pub reason_message: Option<String>,
    pub tier_id: Option<String>,
}

/// The code-assist load response.
#[derive(Debug)]
pub struct LoadCodeAssistResponse {
    pub current_tier: Option<TierInfo>,
    pub cloudaicompanion_project: Option<String>,
    pub allowed_tiers: Vec<TierInfo>,
    pub ineligible_tiers: Vec<IneligibleReason>,
}

/// A cloud project.
#[derive(Debug)]
pub struct ProjectObject {
    pub id: String,
    pub name: Option<String>,
    pub project_number: Option<String>,
}

/// The payload of a finished onboarding operation.
#[derive(Debug)]
pub struct OnboardResultPayload {
    pub project_details: Option<ProjectObject>,
}

/// An onboarding long-running operation.
#[derive(Debug)]
pub struct OnboardOperationResponse {
    pub name: String,
    pub done: bool,
    pub response: Option<OnboardResultPayload>,
}

/// Relies on subtle's `ConstantTimeEq` over the strings' bytes: true
/// exactly when the texts are equal, decided in constant time.
#[verifier::external_body]
fn ct_eq_str(a: &str, b: &str) -> (r: bool)
    ensures
        r == (a@ == b@),
{
    bool::from(a.as_bytes().ct_eq(b.as_bytes()))
}

/// Whether the login entry's path secret matches the configured key,
/// compared in constant time.
pub fn check_entry_secret(secret: &str, key: &str) -> (r: bool)
    ensures
        r == (secret@ == key@),
{
    ct_eq_str(secret, key)
}

/// Pair the two session cookies: a session exists only when both the
/// PKCE verifier and the CSRF token came back.
pub fn pair_session_cookies(pkce: Option<String>, csrf: Option<String>) -> (r: Option<
    (String, String),
>)
    ensures
        match r {
            Some(s) => pkce == Some(s.0) && csrf == Some(s.1),
            None => pkce is None || csrf is None,
        },
{
    match (pkce, csrf) {
        (Some(p), Some(c)) => Some((p, c)),
        _ => None,
    }
}

/// Validate the callback's session: both cookies must be present and the
/// query's state must equal the CSRF token, compared in constant time.
/// On success the PKCE verifier is released to the token exchange.
pub fn validate_oauth_session(session: Option<(String, String)>, query_state: &str) -> (r:
    Result<String, OauthFlowError>)
    ensures
        match r {
            Ok(verifier) => session matches Some(s) && verifier == s.0 && s.1@ == query_state@,
            Err(e) => {
                ||| (session is None && e.code@ == "OAUTH_SESSION_MISSING"@)
                ||| (session matches Some(s) && s.1@ != query_state@ && e.code@
                    == "CSRF_MISMATCH"@)
            },
        },
{
    match session {
        None => Err(
            OauthFlowError {
                code: String::from_str("OAUTH_SESSION_MISSING"),
                message: String::from_str("Missing OAuth session cookies"),
            },
        ),
        Some((pkce_verifier, csrf_token)) => {
            if !ct_eq_str(query_state, csrf_token.as_str()) {
                Err(
                    OauthFlowError {
                        code: String::from_str("CSRF_MISMATCH"),
                        message: String::from_str("CSRF token mismatch"),
                    },
                )
            } else {
                Ok(pkce_verifier)
            }
        },
    }
}

/// Validate the exchanged token payload: a refresh token must be present
/// and non-empty, an access token must be present.
pub fn validate_token_fields(refresh_token: Option<String>, access_token: Option<String>) -> (r:
    Result<(String, String), OauthFlowError>)
    ensures
        match r {
            Ok(t) => refresh_token == Some(t.0) && t.0@.len() > 0 && access_token == Some(t.1),
            Err(e) => {
                ||| ((match refresh_token {
                    Some(rt) => rt@.len() == 0,
                    None => true,
                }) && e.code@ == "MISSING_REFRESH_TOKEN"@)
                ||| (refresh_token matches Some(rt) && rt@.len() > 0 && access_token is None
                    && e.code@ == "MISSING_ACCESS_TOKEN"@)
            },
        },
{
    let rt = match refresh_token {
        Some(rt) => rt,
        None => {
            return Err(
                OauthFlowError {
                    code: String::from_str("MISSING_REFRESH_TOKEN"),
                    message: String::from_str("Missing refresh_token (check access_type=offline)"),
                },
            );
        },
    };
    if rt.unicode_len() == 0 {
        return Err(
            OauthFlowError {
                code: String::from_str("MISSING_REFRESH_TOKEN"),
                message: String::from_str("Missing refresh_token (check access_type=offline)"),
            },
        );
    }
    let at = match access_token {
        Some(at) => at,
        None => {
            return Err(
                OauthFlowError {
                    code: String::from_str("MISSING_ACCESS_TOKEN"),
                    message: String::from_str("Missing access token in token response"),
                },
            );
        },
    };
    Ok((rt, at))
}

/// Read the companion project off the load response: any ineligible tier
/// fails the flow with its reason, or the stable fallback code; a missing
/// project id fails with its own code.
pub fn resolve_companion_project(load: &LoadCodeAssistResponse) -> (r: Result<
    String,
    OauthFlowError,
>)
    ensures
        match r {
            Ok(p) => load.ineligible_tiers@.len() == 0
                && load.cloudaicompanion_project == Some(p),
            Err(e) => {
                ||| (load.ineligible_tiers@.len() > 0 && e.code@ == (
                match load.ineligible_tiers@[0].reason_code {
                    Some(c) => c@,
                    None => "ACCOUNT_INELIGIBLE"@,
                }))
                ||| (load.ineligible_tiers@.len() == 0 && load.cloudaicompanion_project is None
                    && e.code@ == "MISSING_COMPANION_PROJECT"@)
            },
        },
{
    if load.ineligible_tiers.len() > 0 {
        let first = &load.ineligible_tiers[0];
        let code = match &first.reason_code {
            Some(c) => c.clone(),
            None => String::from_str("ACCOUNT_INELIGIBLE"),
        };
        let message = match &first.reason_message {
            Some(m) => m.clone(),
            None => String::from_str("Account is not eligible for Gemini Code Assist"),
        };
        return Err(OauthFlowError { code, message });
    }
    match &load.cloudaicompanion_project {
        Some(p) => Ok(p.clone()),
        None => Err(
            OauthFlowError {
                code: String::from_str("MISSING_COMPANION_PROJECT"),
                message: String::from_str("loadCodeAssist missing cloudaicompanion_project"),
            },
        ),
    }
}

/// The quota tier the account was allowed, for operator logs.
pub fn quota_tier_of(load: &LoadCodeAssistResponse) -> (r: String)
    ensures
        r@ == (if load.allowed_tiers@.len() > 0 {
            match load.allowed_tiers@[0].quota_tier {
                Some(q) => q@,
                None => "<unknown>"@,
            }
        } else {
            "<unknown>"@
        }),
{
    if load.allowed_tiers.len() > 0 {
        match &load.allowed_tiers[0].quota_tier {
            Some(q) => q.clone(),
            None => String::from_str("<unknown>"),
        }
    } else {
        String::from_str("<unknown>")
    }
}

} // verus!
