//! The Gemini generate-content wire model.
//!
//! Only the fields the proxy reads or writes are typed; everything else a
//! client sends rides along in `extra` entries so a request passes through
//! unchanged.

use vstd::prelude::*;
use crate::json::{JsonValue, JsonModel};

verus! {

/// One part of a content turn.
#[derive(Debug)]
#[verifier::ext_equal]
pub struct GeminiPart {
    pub text: Option<String>,
    pub thought: Option<bool>,
    pub function_call: Option<JsonValue>,
    pub thought_signature: Option<String>,
    pub extra: Vec<(String, JsonValue)>,
}

/// One content turn: a role and its parts.
#[derive(Debug)]
#[verifier::ext_equal]
pub struct GeminiContent {
    pub role: Option<String>,
    pub parts: Vec<GeminiPart>,
    pub extra: Vec<(String, JsonValue)>,
}

/// A generate-content request body.
#[derive(Debug)]
#[verifier::ext_equal]
pub struct GeminiGenerateContentRequest {
    pub contents: Vec<GeminiContent>,
    pub system_instruction: Option<GeminiContent>,
    pub session_id: Option<String>,
    pub extra: Vec<(String, JsonValue)>,
}

/// One candidate of a response or stream chunk.
#[derive(Debug)]
#[verifier::ext_equal]
pub struct GeminiCandidate {
    pub index: Option<usize>,
    pub content: Option<GeminiContent>,
    pub finish_reason: Option<String>,
    pub extra: Vec<(String, JsonValue)>,
}

/// A response body, whole or one stream chunk.
#[derive(Debug)]
#[verifier::ext_equal]
pub struct GeminiResponseBody {
    pub candidates: Vec<GeminiCandidate>,
    pub extra: Vec<(String, JsonValue)>,
}

/// Whether the role of a turn is the model's.
pub open spec fn role_is_model(role: Option<String>) -> bool {
    match role {
        Some(r) => r@ == "model"@,
        None => false,
    }
}

/// A part the engine considers for a signature: a function call, or marked
/// thought text.
pub open spec fn part_is_target(p: GeminiPart) -> bool {
    p.function_call is Some || p.thought == Some(true)
}

/// The fingerprint input of a target part: the function call when present,
/// else the thought text.
pub open spec fn part_key_input(p: GeminiPart) -> Option<JsonModel> {
    match p.function_call {
        Some(fc) => Some(fc@),
        None => match p.text {
            Some(t) => Some(JsonModel::Str(t@)),
            None => None,
        },
    }
}

} // verus!
