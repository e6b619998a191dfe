//! Structured upstream error bodies.
//!
//! A non-success Gemini answer usually carries `{"error": {code, status,
//! message}}`.  Reading that object off the body, the `Retry-After` value,
//! and the health markers the status text means, is plain logic over the
//! JSON model; the classifier then turns the markers into a pool action.

use vstd::prelude::*;
use crate::classify::{GeminiErrorObject, UpstreamErrorHints};
use crate::json::{JsonValue, JsonModel, json_model, json_model_entries,
    lemma_json_model_entries_len, lemma_json_model_entries_index};
use crate::text::str_eq;

verus! {

/// First-match lookup in a JSON object's entries.
pub open spec fn obj_get(es: Seq<(Seq<char>, JsonModel)>, key: Seq<char>) -> Option<JsonModel>
    decreases es.len(),
{
    if es.len() == 0 {
        None
    } else if es[0].0 == key {
        Some(es[0].1)
    } else {
        obj_get(es.drop_first(), key)
    }
}

/// Look a key up in a JSON object's entries.
fn obj_lookup<'a>(es: &'a Vec<(String, JsonValue)>, key: &str) -> (r: Option<&'a JsonValue>)
    ensures
        match r {
            Some(x) => obj_get(json_model_entries(es@), key@) == Some(x@),
            None => obj_get(json_model_entries(es@), key@) is None,
        },
{
    let ghost mes = json_model_entries(es@);
    proof {
        lemma_json_model_entries_len(es@);
        assert forall|i: int| 0 <= i < es@.len() implies #[trigger] mes[i] == (
            es@[i].0@,
            json_model(es@[i].1),
        ) by {
            lemma_json_model_entries_index(es@, i);
        }
        assert(mes.skip(0) =~= mes);
    }
    let n = es.len();
    let mut i: usize = 0;
    while i < n
        invariant
            n == es@.len(),
            n == mes.len(),
            mes == json_model_entries(es@),
            i <= n,
            forall|q: int| 0 <= q < es@.len() ==> #[trigger] mes[q] == (
                es@[q].0@,
                json_model(es@[q].1),
            ),
            obj_get(mes, key@) == obj_get(mes.skip(i as int), key@),
        decreases n - i,
    {
        proof {
            assert(mes.skip(i as int)[0] == mes[i as int]);
            assert(mes.skip(i as int).drop_first() =~= mes.skip(i + 1));
        }
        if str_eq(es[i].0.as_str(), key) {
            proof {
                assert(mes.skip(i as int)[0].0 == key@);
                assert(obj_get(mes.skip(i as int), key@) == Some(mes[i as int].1));
            }
            return Some(&es[i].1);
        }
        i = i + 1;
    }
    proof {
        assert(mes.skip(n as int) =~= Seq::<(Seq<char>, JsonModel)>::empty());
    }
    None
}

/// A decimal digit.
pub open spec fn is_dec_digit(c: char) -> bool {
    '0' <= c && c <= '9'
}

pub open spec fn all_dec_digits(s: Seq<char>) -> bool {
    forall|i: int| 0 <= i < s.len() ==> is_dec_digit(#[trigger] s[i])
}

/// The value of a digit string, unbounded.
pub open spec fn dec_val(s: Seq<char>) -> int
    decreases s.len(),
{
    if s.len() == 0 {
        0
    } else {
        dec_val(s.drop_last()) * 10 + ((s.last() as u32) - ('0' as u32))
    }
}

/// A decimal number parsed from text: digits only, non-empty, in range.
pub open spec fn dec_parse(s: Seq<char>) -> Option<u64> {
    if s.len() > 0 && all_dec_digits(s) && dec_val(s) <= u64::MAX {
        Some(dec_val(s) as u64)
    } else {
        None
    }
}

proof fn lemma_dec_val_nonneg(s: Seq<char>)
    requires
        all_dec_digits(s),
    ensures
        dec_val(s) >= 0,
    decreases s.len(),
{
    if s.len() > 0 {
        let t = s.drop_last();
        assert(forall|i: int| 0 <= i < t.len() ==> is_dec_digit(#[trigger] t[i]));
        lemma_dec_val_nonneg(t);
    }
}

proof fn lemma_dec_val_prefix_monotone(s: Seq<char>, i: int)
    requires
        all_dec_digits(s),
        0 <= i <= s.len(),
    ensures
        dec_val(s) >= dec_val(s.take(i)),
    decreases s.len() - i,
{
    if i < s.len() {
        assert(s.take(i + 1).drop_last() =~= s.take(i));
        assert(s.take(i + 1).last() == s[i]);
        assert(forall|q: int| 0 <= q < s.take(i).len() ==> is_dec_digit(
            #[trigger] s.take(i)[q],
        ));
        lemma_dec_val_nonneg(s.take(i));
        assert(dec_val(s.take(i + 1)) >= dec_val(s.take(i)));
        lemma_dec_val_prefix_monotone(s, i + 1);
    } else {
        assert(s.take(i) =~= s);
    }
}

/// Parse a decimal number.
pub fn parse_u64(s: &str) -> (r: Option<u64>)
    ensures
        r == dec_parse(s@),
{
    let n = s.unicode_len();
    if n == 0 {
        return None;
    }
    let mut acc: u64 = 0;
    let mut i: usize = 0;
    proof {
        assert(s@.take(0) =~= Seq::<char>::empty());
    }
    while i < n
        invariant
            n == s@.len(),
            i <= n,
            forall|q: int| 0 <= q < i ==> is_dec_digit(#[trigger] s@[q]),
            acc == dec_val(s@.take(i as int)),
        decreases n - i,
    {
        let c = s.get_char(i);
        if !('0' <= c && c <= '9') {
            proof {
                assert(!is_dec_digit(s@[i as int]));
                assert(!all_dec_digits(s@));
            }
            return None;
        }
        let d = ((c as u32) - ('0' as u32)) as u64;
        proof {
            assert(s@.take(i + 1).drop_last() =~= s@.take(i as int));
            assert(s@.take(i + 1).last() == s@[i as int]);
            assert(forall|q: int| 0 <= q < s@.take(i as int).len() ==> is_dec_digit(
                #[trigger] s@.take(i as int)[q],
            ));
            lemma_dec_val_nonneg(s@.take(i as int));
        }
        if acc > (u64::MAX - d) / 10 {
            proof {
                assert(acc * 10 + d > u64::MAX);
                assert(dec_val(s@.take(i + 1)) > u64::MAX);
                if all_dec_digits(s@) {
                    lemma_dec_val_prefix_monotone(s@, i + 1);
                    assert(dec_val(s@) > u64::MAX);
                }
                assert(dec_parse(s@) is None);
            }
            return None;
        }
        acc = acc * 10 + d;
        i = i + 1;
    }
    proof {
        assert(s@.take(n as int) =~= s@);
        assert(all_dec_digits(s@));
        assert(dec_parse(s@) == Some(acc));
    }
    Some(acc)
}

/// An upstream `Retry-After` value in seconds, as milliseconds, saturating.
pub open spec fn retry_after_ms_spec(s: Seq<char>) -> Option<u64> {
    match dec_parse(s) {
        Some(v) => Some(
            if v > u64::MAX / 1000 {
                u64::MAX
            } else {
                (v * 1000) as u64
            },
        ),
        None => None,
    }
}

/// Parse an upstream `Retry-After` value: whole seconds, to milliseconds.
pub fn parse_retry_after(value: &str) -> (r: Option<u64>)
    ensures
        r == retry_after_ms_spec(value@),
{
    match parse_u64(value) {
        Some(v) => {
            if v > u64::MAX / 1000 {
                Some(u64::MAX)
            } else {
                Some(v * 1000)
            }
        },
        None => None,
    }
}

/// The structured error a body carries: `error.code` (a number),
/// `error.status` and `error.message` (strings), all three required.
pub open spec fn gemini_error_of(m: JsonModel) -> Option<(u64, Seq<char>, Seq<char>)> {
    match m {
        JsonModel::Obj(es) => match obj_get(es, "error"@) {
            Some(JsonModel::Obj(fs)) => {
                let code = match obj_get(fs, "code"@) {
                    Some(JsonModel::Num(tok)) => dec_parse(tok),
                    _ => None,
                };
                let status = match obj_get(fs, "status"@) {
                    Some(JsonModel::Str(st)) => Some(st),
                    _ => None,
                };
                let message = match obj_get(fs, "message"@) {
                    Some(JsonModel::Str(ms)) => Some(ms),
                    _ => None,
                };
                if code is Some && status is Some && message is Some {
                    Some((code->0, status->0, message->0))
                } else {
                    None
                }
            },
            _ => None,
        },
        _ => None,
    }
}

/// Read the structured Gemini error off an error body, if it carries one.
pub fn parse_gemini_error(v: &JsonValue) -> (r: Option<GeminiErrorObject>)
    ensures
        match r {
            Some(o) => gemini_error_of(v@) == Some((o.code, o.status@, o.message@)),
            None => gemini_error_of(v@) is None,
        },
{
    let es: &Vec<(String, JsonValue)> = match v {
        JsonValue::Obj(es) => es,
        _ => {
            return None;
        },
    };
    let err_v: &JsonValue = match obj_lookup(es, "error") {
        Some(x) => x,
        None => {
            return None;
        },
    };
    let fs: &Vec<(String, JsonValue)> = match err_v {
        JsonValue::Obj(fs) => fs,
        _ => {
            return None;
        },
    };
    let code = match obj_lookup(fs, "code") {
        Some(x) => match x {
            JsonValue::Num(tok) => match parse_u64(tok.as_str()) {
                Some(c) => c,
                None => {
                    return None;
                },
            },
            _ => {
                return None;
            },
        },
        None => {
            return None;
        },
    };
    let status = match obj_lookup(fs, "status") {
        Some(x) => match x {
            JsonValue::Str(t) => t.clone(),
            _ => {
                return None;
            },
        },
        None => {
            return None;
        },
    };
    let message = match obj_lookup(fs, "message") {
        Some(x) => match x {
            JsonValue::Str(t) => t.clone(),
            _ => {
                return None;
            },
        },
        None => {
            return None;
        },
    };
    Some(GeminiErrorObject { code, status, message })
}

/// The health markers a parsed error and a `Retry-After` value mean.
pub open spec fn hints_spec(
    parsed: Option<(u64, Seq<char>, Seq<char>)>,
    retry_after_ms: Option<u64>,
) -> UpstreamErrorHints {
    UpstreamErrorHints {
        resource_exhausted: parsed matches Some(p) && p.1 == "RESOURCE_EXHAUSTED"@,
        credential_banned: parsed matches Some(p) && p.1 == "PERMISSION_DENIED"@,
        credential_invalid: parsed matches Some(p) && p.1 == "UNAUTHENTICATED"@,
        model_unavailable: parsed matches Some(p) && p.1 == "NOT_FOUND"@,
        retry_after_ms,
    }
}

/// The model of a parsed error object.
pub open spec fn error_view(parsed: Option<&GeminiErrorObject>) -> Option<
    (u64, Seq<char>, Seq<char>),
> {
    match parsed {
        Some(o) => Some((o.code, o.status@, o.message@)),
        None => None,
    }
}

/// Reduce a parsed error to the markers the classifier reads: the
/// canonical status texts for quota exhaustion, a refused credential, a
/// broken credential and an unknown model.
pub fn hints_from_error(parsed: Option<&GeminiErrorObject>, retry_after_ms: Option<u64>) -> (r:
    UpstreamErrorHints)
    ensures
        r == hints_spec(error_view(parsed), retry_after_ms),
{
    match parsed {
        Some(o) => UpstreamErrorHints {
            resource_exhausted: str_eq(o.status.as_str(), "RESOURCE_EXHAUSTED"),
            credential_banned: str_eq(o.status.as_str(), "PERMISSION_DENIED"),
            credential_invalid: str_eq(o.status.as_str(), "UNAUTHENTICATED"),
            model_unavailable: str_eq(o.status.as_str(), "NOT_FOUND"),
            retry_after_ms,
        },
        None => UpstreamErrorHints {
            resource_exhausted: false,
            credential_banned: false,
            credential_invalid: false,
            model_unavailable: false,
            retry_after_ms,
        },
    }
}

} // verus!
