//! The Antigravity upstream API: endpoints, request ids, session ids.

use vstd::prelude::*;
use crate::numfmt::{dec_str, push_u64};
use crate::shim::push_char;
use rand::RngExt;

verus! {

pub const SESSION_ID_MAX_EXCLUSIVE: i64 = 9000000000000000000;

/// A lowercase ASCII hexadecimal digit.
pub open spec fn is_hex_lower(c: char) -> bool {
    ('0' <= c && c <= '9') || ('a' <= c && c <= 'f')
}

/// The hyphenated form of a version-4 UUID: 8-4-4-4-12 lowercase hex.
pub open spec fn uuid_shape(s: Seq<char>) -> bool {
    &&& s.len() == 36
    &&& forall|i: int| 0 <= i < 36 ==> if i == 8 || i == 13 || i == 18 || i == 23 {
        s[i] == '-'
    } else {
        is_hex_lower(#[trigger] s[i])
    }
}

/// Relies on `uuid::Uuid::new_v4` and its `Display`: a fresh random UUID,
/// printed hyphenated in lowercase hex.
#[verifier::external_body]
fn new_uuid_v4_string() -> (r: String)
    ensures
        uuid_shape(r@),
{
    uuid::Uuid::new_v4().to_string()
}

/// Relies on chrono's `Utc::now().timestamp_millis`: the wall clock, about
/// which nothing further is promised.
#[verifier::external_body]
fn now_timestamp_millis_raw() -> (r: i64) {
    chrono::Utc::now().timestamp_millis()
}

/// Relies on rand's `random_range`: a draw from `[0, 9e18)`.
#[verifier::external_body]
fn random_session_value() -> (r: i64)
    ensures
        0 <= r < SESSION_ID_MAX_EXCLUSIVE,
{
    rand::rng().random_range(0..SESSION_ID_MAX_EXCLUSIVE)
}

/// The current wall clock in unix milliseconds, clamped below at zero.
pub fn now_millis() -> (r: u64) {
    let t = now_timestamp_millis_raw();
    if t < 0 {
        0
    } else {
        t as u64
    }
}

/// The request id of a timestamp and a UUID.
pub open spec fn request_id_text(timestamp_ms: u64, uuid: Seq<char>) -> Seq<char> {
    "agent/"@ + dec_str(timestamp_ms) + "/"@ + uuid
}

/// Builds Antigravity request and session identifiers.
pub struct AntigravityApi;

impl AntigravityApi {
    /// `agent/{timestamp_ms}/{uuid}`.
    pub fn request_id_from_parts(timestamp_ms: u64, request_uuid: &str) -> (r: String)
        ensures
            r@ == request_id_text(timestamp_ms, request_uuid@),
    {
        let mut out = String::from_str("agent/");
        push_u64(&mut out, timestamp_ms);
        out.append("/");
        out.append(request_uuid);
        proof {
            assert(out@ =~= request_id_text(timestamp_ms, request_uuid@));
        }
        out
    }

    /// A fresh request id: the clock's timestamp and a random UUID.
    pub fn generate_request_id() -> (r: String)
        ensures
            exists|ts: u64, u: Seq<char>|
                r@ == #[trigger] request_id_text(ts, u) && uuid_shape(u),
    {
        let ts = now_millis();
        let u = new_uuid_v4_string();
        let r = Self::request_id_from_parts(ts, u.as_str());
        proof {
            assert(r@ == request_id_text(ts, u@) && uuid_shape(u@));
        }
        r
    }

    /// `-{value}`: the session id of a non-negative draw.
    pub fn session_id_from_int(value: i64) -> (r: String)
        requires
            value >= 0,
        ensures
            r@ == seq!['-'] + dec_str(value as u64),
    {
        let mut out = String::new();
        push_char(&mut out, '-');
        push_u64(&mut out, value as u64);
        proof {
            assert(out@ =~= seq!['-'] + dec_str(value as u64));
        }
        out
    }

    /// A fresh session id, drawn from `[0, 9e18)`.
    pub fn generate_session_id() -> (r: String)
        ensures
            exists|v: u64| v < 9000000000000000000 && r@ == seq!['-'] + #[trigger] dec_str(v),
    {
        let value = random_session_value();
        let r = Self::session_id_from_int(value);
        proof {
            assert(r@ == seq!['-'] + dec_str(value as u64));
        }
        r
    }

    /// The fixed unary upstream endpoint.
    pub fn generate_url() -> (r: &'static str)
        ensures
            r@ == "https://daily-cloudcode-pa.googleapis.com/v1internal:generateContent"@,
    {
        "https://daily-cloudcode-pa.googleapis.com/v1internal:generateContent"
    }

    /// The fixed streaming upstream endpoint.
    pub fn stream_url() -> (r: &'static str)
        ensures
            r@ == "https://daily-cloudcode-pa.googleapis.com/v1internal:streamGenerateContent?alt=sse"@,
    {
        "https://daily-cloudcode-pa.googleapis.com/v1internal:streamGenerateContent?alt=sse"
    }
}

/// The upstream endpoints of one provider, unary and streaming.
#[derive(Debug)]
pub struct ProviderEndpoints {
    pub unary_url: String,
    pub stream_url: String,
}

impl ProviderEndpoints {
    /// Build both endpoint URLs from a base and each route's path and
    /// optional query.
    pub fn new(
        base: &str,
        stream_path: &str,
        stream_query: Option<&str>,
        unary_path: &str,
        unary_query: Option<&str>,
    ) -> (r: Self)
        ensures
            r.stream_url@ == base@ + stream_path@ + (match stream_query {
                Some(q) => seq!['?'] + q@,
                None => Seq::<char>::empty(),
            }),
            r.unary_url@ == base@ + unary_path@ + (match unary_query {
                Some(q) => seq!['?'] + q@,
                None => Seq::<char>::empty(),
            }),
    {
        let mut su = String::from_str(base);
        su.append(stream_path);
        match stream_query {
            Some(q) => {
                push_char(&mut su, '?');
                su.append(q);
            },
            None => {},
        }
        let mut uu = String::from_str(base);
        uu.append(unary_path);
        match unary_query {
            Some(q) => {
                push_char(&mut uu, '?');
                uu.append(q);
            },
            None => {},
        }
        proof {
            assert(su@ =~= base@ + stream_path@ + (match stream_query {
                Some(q) => seq!['?'] + q@,
                None => Seq::<char>::empty(),
            }));
            assert(uu@ =~= base@ + unary_path@ + (match unary_query {
                Some(q) => seq!['?'] + q@,
                None => Seq::<char>::empty(),
            }));
        }
        ProviderEndpoints { unary_url: uu, stream_url: su }
    }

    /// The endpoints the fixed Antigravity base uses.
    pub fn antigravity_default() -> (r: Self)
        ensures
            r.unary_url@
                == "https://daily-cloudcode-pa.googleapis.com/v1internal:generateContent"@,
            r.stream_url@
                == "https://daily-cloudcode-pa.googleapis.com/v1internal:streamGenerateContent?alt=sse"@,
    {
        let r = Self::new(
            "https://daily-cloudcode-pa.googleapis.com",
            "/v1internal:streamGenerateContent",
            Some("alt=sse"),
            "/v1internal:generateContent",
            None,
        );
        proof {
            reveal_strlit("https://daily-cloudcode-pa.googleapis.com");
            reveal_strlit("/v1internal:streamGenerateContent");
            reveal_strlit("alt=sse");
            reveal_strlit("/v1internal:generateContent");
            reveal_strlit("https://daily-cloudcode-pa.googleapis.com/v1internal:generateContent");
            reveal_strlit(
                "https://daily-cloudcode-pa.googleapis.com/v1internal:streamGenerateContent?alt=sse",
            );
            assert(r.unary_url@ =~= "https://daily-cloudcode-pa.googleapis.com/v1internal:generateContent"@);
            assert(r.stream_url@
                =~= "https://daily-cloudcode-pa.googleapis.com/v1internal:streamGenerateContent?alt=sse"@);
        }
        r
    }

    /// The URL the stream flag selects.
    pub fn select(&self, stream: bool) -> (r: &String)
        ensures
            stream ==> r@ == self.stream_url@,
            !stream ==> r@ == self.unary_url@,
    {
        if stream {
            &self.stream_url
        } else {
            &self.unary_url
        }
    }
}

} // verus!
