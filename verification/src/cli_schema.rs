//! The CLI response envelope and its conversion to the native schema.
//!
//! Upstream answers wrap the response in a `{response: ...}` envelope whose
//! candidates use the CLI field set; downstream wants the native Gemini
//! response.  SSE events are classified before conversion: empty data is
//! dropped and a done marker ends the stream.

use vstd::prelude::*;
use crate::gemini::{GeminiContent, GeminiCandidate, GeminiResponseBody};
use crate::json::JsonValue;
use crate::text::str_eq;

verus! {

/// How long a stream may stay idle before it is ended with a protocol
/// error, in milliseconds.
pub const STREAM_IDLE_TIMEOUT_MS: u64 = 60000;

/// One CLI candidate: a content turn and an optional finish reason.
#[derive(Debug)]
pub struct CliCandidate {
    pub content: GeminiContent,
    pub finish_reason: Option<String>,
}

/// The CLI response payload.
#[derive(Debug)]
pub struct CliResponse {
    pub candidates: Vec<CliCandidate>,
    pub usage_metadata: JsonValue,
    pub model_version: String,
    pub prompt_feedback: Option<JsonValue>,
}

/// The CLI envelope: a response wrapped under one key.
#[derive(Debug)]
pub struct CliEnvelope {
    pub response: CliResponse,
}

impl CliCandidate {
    /// The native candidate this CLI candidate carries.
    pub fn into_native(self) -> (r: GeminiCandidate)
        ensures
            r.content == Some(self.content),
            r.finish_reason == self.finish_reason,
            r.index is None,
            r.extra@.len() == 0,
    {
        GeminiCandidate {
            index: None,
            content: Some(self.content),
            finish_reason: self.finish_reason,
            extra: Vec::new(),
        }
    }
}

impl CliResponse {
    /// The native response: each candidate converted in order, the
    /// remaining envelope fields carried along.
    pub fn into_native(self) -> (r: GeminiResponseBody)
        ensures
            r.candidates@.len() == self.candidates@.len(),
            forall|i: int|
                0 <= i < self.candidates@.len() ==> (#[trigger] r.candidates@[i]).content
                    == Some(self.candidates@[i].content) && r.candidates@[i].finish_reason
                    == self.candidates@[i].finish_reason,
            r.extra@.len() == 2 + (if self.prompt_feedback is Some {
                1int
            } else {
                0int
            }),
            r.extra@[0].0@ == "usageMetadata"@ && r.extra@[0].1 == self.usage_metadata,
            r.extra@[1].0@ == "modelVersion"@,
            self.prompt_feedback matches Some(pf) ==> r.extra@[2].0@ == "promptFeedback"@
                && r.extra@[2].1 == pf,
    {
        let mut rest = self.candidates;
        let mut out: Vec<GeminiCandidate> = Vec::new();
        let ghost orig = rest@;
        let total = rest.len();
        let mut k: usize = 0;
        while k < total
            invariant
                total == orig.len(),
                k <= total,
                rest@ == orig.skip(k as int),
                out@.len() == k,
                forall|i: int|
                    0 <= i < k ==> (#[trigger] out@[i]).content == Some(orig[i].content)
                        && out@[i].finish_reason == orig[i].finish_reason,
            decreases total - k,
        {
            let ghost old_rest = rest@;
            let c = rest.remove(0);
            proof {
                assert(old_rest[0] == orig[k as int]);
                assert(rest@ =~= orig.skip(k + 1));
            }
            out.push(c.into_native());
            k = k + 1;
        }
        let mut extra: Vec<(String, JsonValue)> = Vec::new();
        extra.push((String::from_str("usageMetadata"), self.usage_metadata));
        extra.push((String::from_str("modelVersion"), JsonValue::Str(self.model_version)));
        match self.prompt_feedback {
            Some(pf) => {
                extra.push((String::from_str("promptFeedback"), pf));
            },
            None => {},
        }
        GeminiResponseBody { candidates: out, extra }
    }
}

impl CliEnvelope {
    /// Unwrap the envelope into the native response.
    pub fn into_native(self) -> (r: GeminiResponseBody)
        ensures
            r.candidates@.len() == self.response.candidates@.len(),
    {
        self.response.into_native()
    }
}

/// What one upstream SSE event becomes downstream.
#[derive(Debug, PartialEq, Eq, Structural)]
pub enum SseAction {
    /// Nothing: the event carried no data.
    Drop,
    /// The stream ends normally.
    Done,
    /// The data is a chunk: parse, record and forward it.
    Forward,
}

/// Classify one upstream SSE event: empty data is dropped, the done
/// markers end the stream, anything else is forwarded as a chunk.
pub fn classify_sse_event(event_name: &str, data: &str) -> (r: SseAction)
    ensures
        data@.len() == 0 ==> r == SseAction::Drop,
        data@.len() > 0 && (data@ == "[DONE]"@ || event_name@ == "done"@) ==> r
            == SseAction::Done,
        data@.len() > 0 && data@ != "[DONE]"@ && event_name@ != "done"@ ==> r
            == SseAction::Forward,
{
    if data.unicode_len() == 0 {
        SseAction::Drop
    } else if str_eq(data, "[DONE]") || str_eq(event_name, "done") {
        SseAction::Done
    } else {
        SseAction::Forward
    }
}

} // verus!
