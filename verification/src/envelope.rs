//! The Antigravity upstream request envelope.
//!
//! The envelope wraps a Gemini generate-content body with the project, a
//! fresh request id, the model, and two fixed strings; the body itself
//! gets a session id when it has none, and the model families that need
//! it get the system preamble.

use vstd::prelude::*;
use crate::api::AntigravityApi;
use crate::gemini::GeminiGenerateContentRequest;
use crate::numfmt::dec_str;
use crate::preamble::{ensure_system_preamble, existing_si_text, ensured_si_text};

verus! {

/// Runtime metadata wrapped around a Gemini request.
#[derive(Debug)]
pub struct AntigravityRequestMeta {
    pub project: String,
    pub request_id: String,
    pub model: String,
}

/// The upstream envelope.  All fields are required on the wire.
#[derive(Debug)]
pub struct AntigravityRequestBody {
    pub project: String,
    pub request_id: String,
    pub request: GeminiGenerateContentRequest,
    pub model: String,
    pub user_agent: String,
    pub request_type: String,
}

/// The `User-Agent` header value of the upstream transport.
pub fn antigravity_user_agent_header() -> (r: &'static str)
    ensures
        r@ == "antigravity/1.16.5 linux/amd64"@,
{
    "antigravity/1.16.5 linux/amd64"
}

/// The `Authorization` header value of a leased access token.
pub fn bearer_authorization(access_token: &str) -> (r: String)
    ensures
        r@ == "Bearer "@ + access_token@,
{
    let mut out = String::from_str("Bearer ");
    out.append(access_token);
    proof {
        assert(out@ =~= "Bearer "@ + access_token@);
    }
    out
}

impl AntigravityRequestBody {
    /// Wrap a request: the metadata's fields carry over and the two fixed
    /// strings are set.
    pub fn from_parts(
        request: GeminiGenerateContentRequest,
        meta: AntigravityRequestMeta,
    ) -> (r: Self)
        ensures
            r.project == meta.project,
            r.request_id == meta.request_id,
            r.request == request,
            r.model == meta.model,
            r.user_agent@ == "antigravity"@,
            r.request_type@ == "agent"@,
    {
        AntigravityRequestBody {
            project: meta.project,
            request_id: meta.request_id,
            request,
            model: meta.model,
            user_agent: String::from_str("antigravity"),
            request_type: String::from_str("agent"),
        }
    }
}

/// Give the body a session id if it has none: `-{value}` for the drawn
/// value.  A session id the client sent stays.
pub fn ensure_session_id(request: &mut GeminiGenerateContentRequest, value: i64)
    requires
        value >= 0,
    ensures
        old(request).session_id is Some ==> *final(request) == *old(request),
        final(request).contents == old(request).contents,
        final(request).system_instruction == old(request).system_instruction,
        final(request).extra == old(request).extra,
        match old(request).session_id {
            Some(s) => final(request).session_id == Some(s),
            None => final(request).session_id matches Some(s) && s@ == seq!['-'] + dec_str(
                value as u64,
            ),
        },
{
    if request.session_id.is_none() {
        request.session_id = Some(AntigravityApi::session_id_from_int(value));
    }
}

/// Build the complete Antigravity payload around a leased credential's
/// project: the body gets a session id if missing and, when asked, the
/// system preamble; the envelope carries the fixed strings.
pub fn build_antigravity_payload(
    request: GeminiGenerateContentRequest,
    project: String,
    model: String,
    request_id: String,
    session_value: i64,
    needs_preamble: bool,
) -> (r: AntigravityRequestBody)
    requires
        session_value >= 0,
    ensures
        r.project == project,
        r.request_id == request_id,
        r.model == model,
        r.user_agent@ == "antigravity"@,
        r.request_type@ == "agent"@,
        r.request.contents == request.contents,
        r.request.extra == request.extra,
        match request.session_id {
            Some(s) => r.request.session_id == Some(s),
            None => r.request.session_id matches Some(s) && s@ == seq!['-'] + dec_str(
                session_value as u64,
            ),
        },
        needs_preamble ==> existing_si_text(r.request) == Some(
            ensured_si_text(existing_si_text(request)),
        ),
        !needs_preamble ==> r.request.system_instruction == request.system_instruction,
    {
        let mut body = request;
        if needs_preamble {
            ensure_system_preamble(&mut body);
        }
        ensure_session_id(&mut body, session_value);
        let meta = AntigravityRequestMeta { project, request_id, model };
        AntigravityRequestBody::from_parts(body, meta)
    }


/// The GeminiCli upstream envelope: the model, the project, the request.
#[derive(Debug)]
pub struct GeminiCliRequestBody {
    pub model: String,
    pub project: String,
    pub request: GeminiGenerateContentRequest,
}

impl GeminiCliRequestBody {
    /// Wrap a request for the CLI upstream.
    pub fn from_parts(
        request: GeminiGenerateContentRequest,
        model: String,
        project: String,
    ) -> (r: Self)
        ensures
            r.model == model,
            r.project == project,
            r.request == request,
    {
        GeminiCliRequestBody { model, project, request }
    }
}

} // verus!
