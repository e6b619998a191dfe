//! The wire form of requests and envelopes.
//!
//! `to_value` prints a typed body as the JSON value the upstream wire
//! carries, known fields first in a fixed order, pass-through entries
//! after.  `from_value` reads that same canonical layout back.  Together
//! they round-trip every field bit-exactly, the two fixed envelope strings
//! included.

use vstd::prelude::*;
use crate::json::{JsonValue, JsonModel, json_model, json_model_entries, json_model_seq,
    lemma_json_model_entries_len, lemma_json_model_entries_index, lemma_json_model_seq_len,
    lemma_json_model_seq_index, copy_json};
use crate::gemini::{GeminiPart, GeminiContent, GeminiGenerateContentRequest};
use crate::text::str_eq;
use crate::preamble::{contains_seq, occurs_at};

verus! {

/// An error text that names a field: built as a prefix plus the name.
fn missing_field_message(name: &str) -> (r: String)
    ensures
        r@ == "missing field: "@ + name@,
        contains_seq(r@, name@),
{
    let mut out = String::from_str("missing field: ");
    out.append(name);
    proof {
        assert(out@ =~= "missing field: "@ + name@);
        assert(out@.subrange(
            "missing field: "@.len() as int,
            "missing field: "@.len() + name@.len() as int,
        ) =~= name@);
        assert(occurs_at(out@, name@, "missing field: "@.len() as int));
    }
    out
}

/// An error text that names a field whose value has the wrong shape.
fn wrong_shape_message(name: &str, expected: &str) -> (r: String)
    ensures
        r@ == name@ + expected@,
        contains_seq(r@, name@),
{
    let mut out = String::from_str(name);
    out.append(expected);
    proof {
        assert(out@ =~= name@ + expected@);
        assert(out@.subrange(0, name@.len() as int) =~= name@);
        assert(occurs_at(out@, name@, 0));
    }
    out
}

/// The wire entries of one part: the known fields present, in order, then
/// the pass-through entries.
pub open spec fn part_entries(p: GeminiPart) -> Seq<(Seq<char>, JsonModel)> {
    (match p.text {
        Some(t) => seq![("text"@, JsonModel::Str(t@))],
        None => Seq::empty(),
    }) + (match p.thought {
        Some(b) => seq![("thought"@, JsonModel::Bool(b))],
        None => Seq::empty(),
    }) + (match p.function_call {
        Some(fc) => seq![("functionCall"@, fc@)],
        None => Seq::empty(),
    }) + (match p.thought_signature {
        Some(s) => seq![("thoughtSignature"@, JsonModel::Str(s@))],
        None => Seq::empty(),
    }) + json_model_entries(p.extra@)
}

/// The wire value of one part.
pub open spec fn part_json(p: GeminiPart) -> JsonModel {
    JsonModel::Obj(part_entries(p))
}

/// A part's pass-through keys must not shadow its known fields.
pub open spec fn part_wf(p: GeminiPart) -> bool {
    forall|i: int| 0 <= i < p.extra@.len() ==> (#[trigger] p.extra@[i]).0@ != "text"@
        && p.extra@[i].0@ != "thought"@ && p.extra@[i].0@ != "functionCall"@
        && p.extra@[i].0@ != "thoughtSignature"@
}

/// Entries consumed after the optional `text` field: the error case is a
/// matching key with the wrong shape.
pub open spec fn part_cut1(es: Seq<(Seq<char>, JsonModel)>) -> Option<int> {
    if es.len() > 0 && es[0].0 == "text"@ {
        if es[0].1 is Str {
            Some(1int)
        } else {
            None
        }
    } else {
        Some(0int)
    }
}

pub open spec fn part_cut2(es: Seq<(Seq<char>, JsonModel)>) -> Option<int> {
    match part_cut1(es) {
        None => None,
        Some(i) => if i < es.len() && es[i].0 == "thought"@ {
            if es[i].1 is Bool {
                Some(i + 1)
            } else {
                None
            }
        } else {
            Some(i)
        },
    }
}

pub open spec fn part_cut3(es: Seq<(Seq<char>, JsonModel)>) -> Option<int> {
    match part_cut2(es) {
        None => None,
        Some(i) => if i < es.len() && es[i].0 == "functionCall"@ {
            Some(i + 1)
        } else {
            Some(i)
        },
    }
}

pub open spec fn part_cut4(es: Seq<(Seq<char>, JsonModel)>) -> Option<int> {
    match part_cut3(es) {
        None => None,
        Some(i) => if i < es.len() && es[i].0 == "thoughtSignature"@ {
            if es[i].1 is Str {
                Some(i + 1)
            } else {
                None
            }
        } else {
            Some(i)
        },
    }
}

/// The part grammar: optional text, thought, functionCall and
/// thoughtSignature, in that order, then pass-through entries.
pub open spec fn part_shape(m: JsonModel) -> bool {
    match m {
        JsonModel::Obj(es) => part_cut4(es) is Some,
        _ => false,
    }
}

/// Print one part as its wire value.
pub fn part_to_value(p: &GeminiPart) -> (r: JsonValue)
    ensures
        r@ == part_json(*p),
{
    let mut es: Vec<(String, JsonValue)> = Vec::new();
    match &p.text {
        Some(t) => {
            es.push((String::from_str("text"), JsonValue::Str(t.clone())));
        },
        None => {},
    }
    match &p.thought {
        Some(b) => {
            es.push((String::from_str("thought"), JsonValue::Bool(*b)));
        },
        None => {},
    }
    match &p.function_call {
        Some(fc) => {
            es.push((String::from_str("functionCall"), copy_json(fc)));
        },
        None => {},
    }
    match &p.thought_signature {
        Some(s) => {
            es.push((String::from_str("thoughtSignature"), JsonValue::Str(s.clone())));
        },
        None => {},
    }
    let ghost known = json_model_entries(es@);
    proof {
        lemma_json_model_entries_len(es@);
        assert forall|i: int| 0 <= i < es@.len() implies #[trigger] json_model_entries(es@)[i]
            == (es@[i].0@, json_model(es@[i].1)) by {
            lemma_json_model_entries_index(es@, i);
        }
        assert(es@.take(known.len() as int) =~= es@);
    }
    let ne = p.extra.len();
    let mut i: usize = 0;
    while i < ne
        invariant
            ne == p.extra@.len(),
            i <= ne,
            es@.len() == known.len() + i,
            known == json_model_entries(es@.take(known.len() as int)),
            forall|j: int| 0 <= j < known.len() + i ==> #[trigger] json_model_entries(es@)[j]
                == if j < known.len() {
                known[j]
            } else {
                (p.extra@[j - known.len()].0@, json_model(p.extra@[j - known.len()].1))
            },
        decreases ne - i,
    {
        let key = p.extra[i].0.clone();
        let val = copy_json(&p.extra[i].1);
        let ghost before = es@;
        es.push((key, val));
        proof {
            lemma_json_model_entries_len(es@);
            assert(es@.drop_last() =~= before);
            assert forall|j: int| 0 <= j < es@.len() implies #[trigger] json_model_entries(
                es@,
            )[j] == if j < known.len() {
                known[j]
            } else {
                (p.extra@[j - known.len()].0@, json_model(p.extra@[j - known.len()].1))
            } by {
                lemma_json_model_entries_index(es@, j);
                if j < es@.len() - 1 {
                    lemma_json_model_entries_index(before, j);
                }
            }
            assert(es@.take(known.len() as int) =~= before.take(known.len() as int));
        }
        i = i + 1;
    }
    proof {
        lemma_json_model_entries_len(es@);
        lemma_json_model_entries_len(p.extra@);
        assert forall|j: int| 0 <= j < part_entries(*p).len() implies #[trigger] json_model_entries(
            es@,
        )[j] == part_entries(*p)[j] by {
            if j >= known.len() {
                lemma_json_model_entries_index(p.extra@, j - known.len());
            }
        }
        assert(json_model_entries(es@) =~= part_entries(*p));
    }
    JsonValue::Obj(es)
}

/// Read one part off its wire value: the canonical layout only.
#[verifier::rlimit(100)]
pub fn part_from_value(v: &JsonValue) -> (r: Result<GeminiPart, String>)
    ensures
        r is Ok <==> part_shape(v@),
        r matches Ok(p) ==> part_json(p) == v@,
{
    let es: &Vec<(String, JsonValue)> = match v {
        JsonValue::Obj(es) => es,
        _ => {
            return Err(String::from_str("part must be an object"));
        },
    };
    let ghost mes = json_model_entries(es@);
    proof {
        lemma_json_model_entries_len(es@);
        assert forall|i: int| 0 <= i < es@.len() implies #[trigger] mes[i] == (
            es@[i].0@,
            json_model(es@[i].1),
        ) by {
            lemma_json_model_entries_index(es@, i);
        }
        assert(v@ == JsonModel::Obj(mes));
    }
    let n = es.len();
    let mut idx: usize = 0;

    let mut text: Option<String> = None;
    if idx < n && str_eq(es[idx].0.as_str(), "text") {
        match &es[idx].1 {
            JsonValue::Str(t) => {
                text = Some(t.clone());
                idx = idx + 1;
            },
            _ => {
                proof {
                    assert(part_cut1(mes) is None);
                }
                return Err(String::from_str("text must be a string"));
            },
        }
    }
    let ghost idx1 = idx as int;
    proof {
        assert(part_cut1(mes) == Some(idx1));
        assert((match text {
            Some(t) => seq![("text"@, JsonModel::Str(t@))],
            None => Seq::<(Seq<char>, JsonModel)>::empty(),
        }) =~= mes.take(idx1));
    }

    let mut thought: Option<bool> = None;
    if idx < n && str_eq(es[idx].0.as_str(), "thought") {
        match &es[idx].1 {
            JsonValue::Bool(b) => {
                thought = Some(*b);
                idx = idx + 1;
            },
            _ => {
                proof {
                    assert(part_cut2(mes) is None);
                }
                return Err(String::from_str("thought must be a boolean"));
            },
        }
    }
    let ghost idx2 = idx as int;
    proof {
        assert(part_cut2(mes) == Some(idx2));
        assert((match thought {
            Some(b) => seq![("thought"@, JsonModel::Bool(b))],
            None => Seq::<(Seq<char>, JsonModel)>::empty(),
        }) =~= mes.subrange(idx1, idx2));
    }

    let mut function_call: Option<JsonValue> = None;
    if idx < n && str_eq(es[idx].0.as_str(), "functionCall") {
        function_call = Some(copy_json(&es[idx].1));
        idx = idx + 1;
    }
    let ghost idx3 = idx as int;
    proof {
        assert(part_cut3(mes) == Some(idx3));
        assert((match function_call {
            Some(fc) => seq![("functionCall"@, fc@)],
            None => Seq::<(Seq<char>, JsonModel)>::empty(),
        }) =~= mes.subrange(idx2, idx3));
    }

    let mut thought_signature: Option<String> = None;
    if idx < n && str_eq(es[idx].0.as_str(), "thoughtSignature") {
        match &es[idx].1 {
            JsonValue::Str(t) => {
                thought_signature = Some(t.clone());
                idx = idx + 1;
            },
            _ => {
                proof {
                    assert(part_cut4(mes) is None);
                }
                return Err(String::from_str("thoughtSignature must be a string"));
            },
        }
    }
    let ghost idx4 = idx as int;
    proof {
        assert(part_cut4(mes) == Some(idx4));
        assert((match thought_signature {
            Some(t) => seq![("thoughtSignature"@, JsonModel::Str(t@))],
            None => Seq::<(Seq<char>, JsonModel)>::empty(),
        }) =~= mes.subrange(idx3, idx4));
        assert(part_shape(v@));
    }

    let mut extra: Vec<(String, JsonValue)> = Vec::new();
    while idx < n
        invariant
            n == es@.len(),
            n == mes.len(),
            idx4 <= idx as int <= n,
            forall|i: int| 0 <= i < es@.len() ==> #[trigger] mes[i] == (
                es@[i].0@,
                json_model(es@[i].1),
            ),
            extra@.len() == idx - idx4,
            forall|j: int| 0 <= j < idx - idx4 ==> (#[trigger] extra@[j].0)@ == mes[idx4 + j].0
                && json_model(extra@[j].1) == mes[idx4 + j].1,
        decreases n - idx,
    {
        let key = es[idx].0.clone();
        let val = copy_json(&es[idx].1);
        extra.push((key, val));
        idx = idx + 1;
    }
    let p = GeminiPart { text, thought, function_call, thought_signature, extra };
    proof {
        lemma_json_model_entries_len(p.extra@);
        assert forall|j: int| 0 <= j < p.extra@.len() implies #[trigger] json_model_entries(
            p.extra@,
        )[j] == mes.skip(idx4)[j] by {
            lemma_json_model_entries_index(p.extra@, j);
        }
        assert(json_model_entries(p.extra@) =~= mes.skip(idx4));
        assert(part_entries(p) =~= mes.take(idx1) + mes.subrange(idx1, idx2) + mes.subrange(
            idx2,
            idx3,
        ) + mes.subrange(idx3, idx4) + mes.skip(idx4));
        assert(mes.take(idx1) + mes.subrange(idx1, idx2) + mes.subrange(idx2, idx3)
            + mes.subrange(idx3, idx4) + mes.skip(idx4) =~= mes);
        assert(part_json(p) == v@);
    }
    Ok(p)
}


/// Append pass-through entries, copied.
fn append_extra(es: &mut Vec<(String, JsonValue)>, extra: &Vec<(String, JsonValue)>)
    ensures
        final(es)@.len() == old(es)@.len() + extra@.len(),
        json_model_entries(final(es)@) == json_model_entries(old(es)@) + json_model_entries(
            extra@,
        ),
{
    let ghost known = json_model_entries(old(es)@);
    proof {
        lemma_json_model_entries_len(es@);
        assert forall|i: int| 0 <= i < es@.len() implies #[trigger] json_model_entries(es@)[i]
            == (es@[i].0@, json_model(es@[i].1)) by {
            lemma_json_model_entries_index(es@, i);
        }
    }
    let ne = extra.len();
    let mut i: usize = 0;
    while i < ne
        invariant
            ne == extra@.len(),
            i <= ne,
            es@.len() == old(es)@.len() + i,
            known == json_model_entries(old(es)@),
            known.len() == old(es)@.len(),
            forall|j: int| 0 <= j < es@.len() ==> #[trigger] json_model_entries(es@)[j] == if j
                < known.len() {
                known[j]
            } else {
                (extra@[j - known.len()].0@, json_model(extra@[j - known.len()].1))
            },
        decreases ne - i,
    {
        let key = extra[i].0.clone();
        let val = copy_json(&extra[i].1);
        let ghost before = es@;
        es.push((key, val));
        proof {
            lemma_json_model_entries_len(es@);
            assert(es@.drop_last() =~= before);
            assert forall|j: int| 0 <= j < es@.len() implies #[trigger] json_model_entries(
                es@,
            )[j] == if j < known.len() {
                known[j]
            } else {
                (extra@[j - known.len()].0@, json_model(extra@[j - known.len()].1))
            } by {
                lemma_json_model_entries_index(es@, j);
                if j < es@.len() - 1 {
                    lemma_json_model_entries_index(before, j);
                }
            }
        }
        i = i + 1;
    }
    proof {
        lemma_json_model_entries_len(es@);
        lemma_json_model_entries_len(extra@);
        assert forall|j: int| 0 <= j < es@.len() implies #[trigger] json_model_entries(es@)[j]
            == (known + json_model_entries(extra@))[j] by {
            if j >= known.len() {
                lemma_json_model_entries_index(extra@, j - known.len());
            }
        }
        assert(json_model_entries(es@) =~= known + json_model_entries(extra@));
    }
}

/// The wire values of a turn's parts, in order.
pub open spec fn parts_json_seq(ps: Seq<GeminiPart>) -> Seq<JsonModel>
    decreases ps,
{
    if ps.len() == 0 {
        Seq::empty()
    } else {
        parts_json_seq(ps.drop_last()).push(part_json(ps.last()))
    }
}

pub broadcast proof fn lemma_parts_json_seq_len(ps: Seq<GeminiPart>)
    ensures
        (#[trigger] parts_json_seq(ps)).len() == ps.len(),
    decreases ps,
{
    if ps.len() > 0 {
        lemma_parts_json_seq_len(ps.drop_last());
    }
}

pub broadcast proof fn lemma_parts_json_seq_index(ps: Seq<GeminiPart>, i: int)
    requires
        0 <= i < ps.len(),
    ensures
        #[trigger] parts_json_seq(ps)[i] == part_json(ps[i]),
    decreases ps,
{
    lemma_parts_json_seq_len(ps);
    if i < ps.len() - 1 {
        lemma_parts_json_seq_index(ps.drop_last(), i);
    }
}

/// The wire entries of one turn: the role when present, the parts, then
/// the pass-through entries.
pub open spec fn content_entries(c: GeminiContent) -> Seq<(Seq<char>, JsonModel)> {
    (match c.role {
        Some(r) => seq![("role"@, JsonModel::Str(r@))],
        None => Seq::empty(),
    }) + seq![("parts"@, JsonModel::Arr(parts_json_seq(c.parts@)))] + json_model_entries(
        c.extra@,
    )
}

/// The wire value of one turn.
pub open spec fn content_json(c: GeminiContent) -> JsonModel {
    JsonModel::Obj(content_entries(c))
}

/// Every element is part-shaped.
pub open spec fn parts_ok(ms: Seq<JsonModel>) -> bool {
    forall|i: int| 0 <= i < ms.len() ==> part_shape(#[trigger] ms[i])
}

pub open spec fn content_cut1(es: Seq<(Seq<char>, JsonModel)>) -> Option<int> {
    if es.len() > 0 && es[0].0 == "role"@ {
        if es[0].1 is Str {
            Some(1int)
        } else {
            None
        }
    } else {
        Some(0int)
    }
}

/// The turn grammar: an optional role, the required parts array of
/// part-shaped items, then pass-through entries.
pub open spec fn content_shape(m: JsonModel) -> bool {
    match m {
        JsonModel::Obj(es) => match content_cut1(es) {
            None => false,
            Some(i) => i < es.len() && es[i].0 == "parts"@ && es[i].1 is Arr && parts_ok(
                es[i].1->Arr_0,
            ),
        },
        _ => false,
    }
}

/// Print one turn as its wire value.
pub fn content_to_value(c: &GeminiContent) -> (r: JsonValue)
    ensures
        r@ == content_json(*c),
{
    let mut es: Vec<(String, JsonValue)> = Vec::new();
    match &c.role {
        Some(role) => {
            es.push((String::from_str("role"), JsonValue::Str(role.clone())));
        },
        None => {},
    }
    let mut items: Vec<JsonValue> = Vec::new();
    let np = c.parts.len();
    let mut i: usize = 0;
    while i < np
        invariant
            np == c.parts@.len(),
            i <= np,
            items@.len() == i,
            forall|j: int| 0 <= j < i ==> json_model(#[trigger] items@[j]) == part_json(
                c.parts@[j],
            ),
        decreases np - i,
    {
        let pv = part_to_value(&c.parts[i]);
        items.push(pv);
        i = i + 1;
    }
    proof {
        lemma_json_model_seq_len(items@);
        lemma_parts_json_seq_len(c.parts@);
        assert forall|j: int| 0 <= j < items@.len() implies #[trigger] json_model_seq(items@)[j]
            == parts_json_seq(c.parts@)[j] by {
            lemma_json_model_seq_index(items@, j);
            lemma_parts_json_seq_index(c.parts@, j);
        }
        assert(json_model_seq(items@) =~= parts_json_seq(c.parts@));
    }
    es.push((String::from_str("parts"), JsonValue::Arr(items)));
    let ghost known = json_model_entries(es@);
    proof {
        lemma_json_model_entries_len(es@);
        assert forall|i1: int| 0 <= i1 < es@.len() implies #[trigger] json_model_entries(
            es@,
        )[i1] == (es@[i1].0@, json_model(es@[i1].1)) by {
            lemma_json_model_entries_index(es@, i1);
        }
    }
    append_extra(&mut es, &c.extra);
    proof {
        assert(known =~= (match c.role {
            Some(r) => seq![("role"@, JsonModel::Str(r@))],
            None => Seq::<(Seq<char>, JsonModel)>::empty(),
        }) + seq![("parts"@, JsonModel::Arr(parts_json_seq(c.parts@)))]);
        assert(json_model_entries(es@) =~= content_entries(*c));
    }
    JsonValue::Obj(es)
}

/// Read one turn off its wire value: the canonical layout only.
#[verifier::rlimit(100)]
pub fn content_from_value(v: &JsonValue) -> (r: Result<GeminiContent, String>)
    ensures
        r is Ok <==> content_shape(v@),
        r matches Ok(c) ==> content_json(c) == v@,
{
    let es: &Vec<(String, JsonValue)> = match v {
        JsonValue::Obj(es) => es,
        _ => {
            return Err(String::from_str("content must be an object"));
        },
    };
    let ghost mes = json_model_entries(es@);
    proof {
        lemma_json_model_entries_len(es@);
        assert forall|i: int| 0 <= i < es@.len() implies #[trigger] mes[i] == (
            es@[i].0@,
            json_model(es@[i].1),
        ) by {
            lemma_json_model_entries_index(es@, i);
        }
        assert(v@ == JsonModel::Obj(mes));
    }
    let n = es.len();
    let mut idx: usize = 0;

    let mut role: Option<String> = None;
    if idx < n && str_eq(es[idx].0.as_str(), "role") {
        match &es[idx].1 {
            JsonValue::Str(t) => {
                role = Some(t.clone());
                idx = idx + 1;
            },
            _ => {
                proof {
                    assert(content_cut1(mes) is None);
                }
                return Err(String::from_str("role must be a string"));
            },
        }
    }
    let ghost idx1 = idx as int;
    proof {
        assert(content_cut1(mes) == Some(idx1));
        assert((match role {
            Some(t) => seq![("role"@, JsonModel::Str(t@))],
            None => Seq::<(Seq<char>, JsonModel)>::empty(),
        }) =~= mes.take(idx1));
    }

    if !(idx < n && str_eq(es[idx].0.as_str(), "parts")) {
        return Err(String::from_str("content is missing its parts"));
    }
    let items: &Vec<JsonValue> = match &es[idx].1 {
        JsonValue::Arr(items) => items,
        _ => {
            return Err(String::from_str("parts must be an array"));
        },
    };
    let ghost items_m = json_model_seq(items@);
    proof {
        lemma_json_model_seq_len(items@);
        assert forall|i: int| 0 <= i < items@.len() implies #[trigger] items_m[i] == json_model(
            items@[i],
        ) by {
            lemma_json_model_seq_index(items@, i);
        }
        assert(mes[idx1].1 == JsonModel::Arr(items_m));
    }
    let mut parts: Vec<GeminiPart> = Vec::new();
    let np = items.len();
    let mut k: usize = 0;
    while k < np
        invariant
            np == items@.len(),
            np == items_m.len(),
            k <= np,
            parts@.len() == k,
            v@ == JsonModel::Obj(mes),
            content_cut1(mes) == Some(idx1),
            0 <= idx1 < mes.len(),
            mes[idx1].0 == "parts"@,
            mes[idx1].1 == JsonModel::Arr(items_m),
            forall|i: int| 0 <= i < items@.len() ==> #[trigger] items_m[i] == json_model(
                items@[i],
            ),
            forall|j: int| 0 <= j < k ==> part_json(#[trigger] parts@[j]) == items_m[j],
            forall|j: int| 0 <= j < k ==> part_shape(#[trigger] items_m[j]),
        decreases np - k,
    {
        match part_from_value(&items[k]) {
            Ok(p) => {
                parts.push(p);
            },
            Err(e) => {
                proof {
                    assert(!part_shape(items_m[k as int]));
                    assert(!parts_ok(items_m));
                    assert(!content_shape(v@));
                }
                return Err(e);
            },
        }
        k = k + 1;
    }
    idx = idx + 1;
    let ghost idx2 = idx as int;
    proof {
        assert(parts_ok(items_m));
        assert(content_shape(v@));
        lemma_parts_json_seq_len(parts@);
        assert forall|j: int| 0 <= j < parts@.len() implies #[trigger] parts_json_seq(
            parts@,
        )[j] == items_m[j] by {
            lemma_parts_json_seq_index(parts@, j);
        }
        assert(parts_json_seq(parts@) =~= items_m);
    }

    let mut extra: Vec<(String, JsonValue)> = Vec::new();
    while idx < n
        invariant
            n == es@.len(),
            n == mes.len(),
            idx2 <= idx as int <= n,
            forall|i: int| 0 <= i < es@.len() ==> #[trigger] mes[i] == (
                es@[i].0@,
                json_model(es@[i].1),
            ),
            extra@.len() == idx - idx2,
            forall|j: int| 0 <= j < idx - idx2 ==> (#[trigger] extra@[j].0)@ == mes[idx2 + j].0
                && json_model(extra@[j].1) == mes[idx2 + j].1,
        decreases n - idx,
    {
        let key = es[idx].0.clone();
        let val = copy_json(&es[idx].1);
        extra.push((key, val));
        idx = idx + 1;
    }
    let c = GeminiContent { role, parts, extra };
    proof {
        lemma_json_model_entries_len(c.extra@);
        assert forall|j: int| 0 <= j < c.extra@.len() implies #[trigger] json_model_entries(
            c.extra@,
        )[j] == mes.skip(idx2)[j] by {
            lemma_json_model_entries_index(c.extra@, j);
        }
        assert(json_model_entries(c.extra@) =~= mes.skip(idx2));
        assert(mes.subrange(idx1, idx2) =~= seq![
            ("parts"@, JsonModel::Arr(parts_json_seq(c.parts@))),
        ]);
        assert(content_entries(c) =~= mes.take(idx1) + mes.subrange(idx1, idx2) + mes.skip(
            idx2,
        ));
        assert(mes.take(idx1) + mes.subrange(idx1, idx2) + mes.skip(idx2) =~= mes);
        assert(content_json(c) == v@);
    }
    Ok(c)
}


/// The wire values of the request's turns, in order.
pub open spec fn contents_json_seq(cs: Seq<GeminiContent>) -> Seq<JsonModel>
    decreases cs,
{
    if cs.len() == 0 {
        Seq::empty()
    } else {
        contents_json_seq(cs.drop_last()).push(content_json(cs.last()))
    }
}

pub broadcast proof fn lemma_contents_json_seq_len(cs: Seq<GeminiContent>)
    ensures
        (#[trigger] contents_json_seq(cs)).len() == cs.len(),
    decreases cs,
{
    if cs.len() > 0 {
        lemma_contents_json_seq_len(cs.drop_last());
    }
}

pub broadcast proof fn lemma_contents_json_seq_index(cs: Seq<GeminiContent>, i: int)
    requires
        0 <= i < cs.len(),
    ensures
        #[trigger] contents_json_seq(cs)[i] == content_json(cs[i]),
    decreases cs,
{
    lemma_contents_json_seq_len(cs);
    if i < cs.len() - 1 {
        lemma_contents_json_seq_index(cs.drop_last(), i);
    }
}

/// The wire entries of a request: the turns, the optional system
/// instruction and session id, then pass-through entries.
pub open spec fn req_entries(r: GeminiGenerateContentRequest) -> Seq<(Seq<char>, JsonModel)> {
    seq![("contents"@, JsonModel::Arr(contents_json_seq(r.contents@)))] + (
    match r.system_instruction {
        Some(c) => seq![("systemInstruction"@, content_json(c))],
        None => Seq::empty(),
    }) + (match r.session_id {
        Some(sid) => seq![("sessionId"@, JsonModel::Str(sid@))],
        None => Seq::empty(),
    }) + json_model_entries(r.extra@)
}

/// The wire value of a request.
pub open spec fn req_json(r: GeminiGenerateContentRequest) -> JsonModel {
    JsonModel::Obj(req_entries(r))
}

/// Every element is content-shaped.
pub open spec fn contents_ok(ms: Seq<JsonModel>) -> bool {
    forall|i: int| 0 <= i < ms.len() ==> content_shape(#[trigger] ms[i])
}

pub open spec fn req_cut2(es: Seq<(Seq<char>, JsonModel)>) -> Option<int> {
    if 1 < es.len() && es[1].0 == "systemInstruction"@ {
        if content_shape(es[1].1) {
            Some(2int)
        } else {
            None
        }
    } else {
        Some(1int)
    }
}

pub open spec fn req_cut3(es: Seq<(Seq<char>, JsonModel)>) -> Option<int> {
    match req_cut2(es) {
        None => None,
        Some(i) => if i < es.len() && es[i].0 == "sessionId"@ {
            if es[i].1 is Str {
                Some(i + 1)
            } else {
                None
            }
        } else {
            Some(i)
        },
    }
}

/// The request grammar: the required contents array of content-shaped
/// turns first, then the optional system instruction and session id, then
/// pass-through entries.
pub open spec fn req_shape(m: JsonModel) -> bool {
    match m {
        JsonModel::Obj(es) => es.len() > 0 && es[0].0 == "contents"@ && es[0].1 is Arr
            && contents_ok(es[0].1->Arr_0) && req_cut3(es) is Some,
        _ => false,
    }
}

/// Print a request as its wire value.
pub fn req_to_value(r: &GeminiGenerateContentRequest) -> (rv: JsonValue)
    ensures
        rv@ == req_json(*r),
{
    let mut es: Vec<(String, JsonValue)> = Vec::new();
    let mut items: Vec<JsonValue> = Vec::new();
    let nc = r.contents.len();
    let mut i: usize = 0;
    while i < nc
        invariant
            nc == r.contents@.len(),
            i <= nc,
            items@.len() == i,
            forall|j: int| 0 <= j < i ==> json_model(#[trigger] items@[j]) == content_json(
                r.contents@[j],
            ),
        decreases nc - i,
    {
        let cv = content_to_value(&r.contents[i]);
        items.push(cv);
        i = i + 1;
    }
    proof {
        lemma_json_model_seq_len(items@);
        lemma_contents_json_seq_len(r.contents@);
        assert forall|j: int| 0 <= j < items@.len() implies #[trigger] json_model_seq(items@)[j]
            == contents_json_seq(r.contents@)[j] by {
            lemma_json_model_seq_index(items@, j);
            lemma_contents_json_seq_index(r.contents@, j);
        }
        assert(json_model_seq(items@) =~= contents_json_seq(r.contents@));
    }
    es.push((String::from_str("contents"), JsonValue::Arr(items)));
    match &r.system_instruction {
        Some(c) => {
            let cv = content_to_value(c);
            es.push((String::from_str("systemInstruction"), cv));
        },
        None => {},
    }
    match &r.session_id {
        Some(sid) => {
            es.push((String::from_str("sessionId"), JsonValue::Str(sid.clone())));
        },
        None => {},
    }
    let ghost known = json_model_entries(es@);
    proof {
        lemma_json_model_entries_len(es@);
        assert forall|i1: int| 0 <= i1 < es@.len() implies #[trigger] json_model_entries(
            es@,
        )[i1] == (es@[i1].0@, json_model(es@[i1].1)) by {
            lemma_json_model_entries_index(es@, i1);
        }
    }
    append_extra(&mut es, &r.extra);
    proof {
        assert(known =~= seq![("contents"@, JsonModel::Arr(contents_json_seq(r.contents@)))] + (
        match r.system_instruction {
            Some(c) => seq![("systemInstruction"@, content_json(c))],
            None => Seq::<(Seq<char>, JsonModel)>::empty(),
        }) + (match r.session_id {
            Some(sid) => seq![("sessionId"@, JsonModel::Str(sid@))],
            None => Seq::<(Seq<char>, JsonModel)>::empty(),
        }));
        assert(json_model_entries(es@) =~= req_entries(*r));
    }
    JsonValue::Obj(es)
}

/// A rejected request's error names the contents when they are missing,
/// misplaced or not an array.
pub open spec fn req_err_named(m: JsonModel, msg: Seq<char>) -> bool {
    match m {
        JsonModel::Obj(es) => if !(0 < es.len() && es[0].0 == "contents"@ && es[0].1 is Arr) {
            contains_seq(msg, "contents"@)
        } else {
            true
        },
        _ => true,
    }
}

/// Read a request off its wire value: the canonical layout only.  A body
/// without its contents is rejected with a message naming them.
#[verifier::rlimit(100)]
pub fn req_from_value(v: &JsonValue) -> (r: Result<GeminiGenerateContentRequest, String>)
    ensures
        r is Ok <==> req_shape(v@),
        r matches Ok(b) ==> req_json(b) == v@,
        r matches Err(e) ==> req_err_named(v@, e@),
{
    let es: &Vec<(String, JsonValue)> = match v {
        JsonValue::Obj(es) => es,
        _ => {
            return Err(String::from_str("request must be an object"));
        },
    };
    let ghost mes = json_model_entries(es@);
    proof {
        lemma_json_model_entries_len(es@);
        assert forall|i: int| 0 <= i < es@.len() implies #[trigger] mes[i] == (
            es@[i].0@,
            json_model(es@[i].1),
        ) by {
            lemma_json_model_entries_index(es@, i);
        }
        assert(v@ == JsonModel::Obj(mes));
    }
    let n = es.len();
    if !(0 < n && str_eq(es[0].0.as_str(), "contents")) {
        return Err(missing_field_message("contents"));
    }
    let items: &Vec<JsonValue> = match &es[0].1 {
        JsonValue::Arr(items) => items,
        _ => {
            return Err(wrong_shape_message("contents", " must be an array"));
        },
    };
    let ghost items_m = json_model_seq(items@);
    proof {
        lemma_json_model_seq_len(items@);
        assert forall|i: int| 0 <= i < items@.len() implies #[trigger] items_m[i] == json_model(
            items@[i],
        ) by {
            lemma_json_model_seq_index(items@, i);
        }
        assert(mes[0].1 == JsonModel::Arr(items_m));
    }
    let mut contents: Vec<GeminiContent> = Vec::new();
    let np = items.len();
    let mut k: usize = 0;
    while k < np
        invariant
            np == items@.len(),
            np == items_m.len(),
            k <= np,
            contents@.len() == k,
            v@ == JsonModel::Obj(mes),
            0 < mes.len(),
            mes[0].0 == "contents"@,
            mes[0].1 == JsonModel::Arr(items_m),
            forall|i: int| 0 <= i < items@.len() ==> #[trigger] items_m[i] == json_model(
                items@[i],
            ),
            forall|j: int| 0 <= j < k ==> content_json(#[trigger] contents@[j]) == items_m[j],
            forall|j: int| 0 <= j < k ==> content_shape(#[trigger] items_m[j]),
        decreases np - k,
    {
        match content_from_value(&items[k]) {
            Ok(c) => {
                contents.push(c);
            },
            Err(e) => {
                proof {
                    assert(!content_shape(items_m[k as int]));
                    assert(!contents_ok(items_m));
                    assert(!req_shape(v@));
                }
                return Err(e);
            },
        }
        k = k + 1;
    }
    let mut idx: usize = 1;
    proof {
        assert(contents_ok(items_m));
        lemma_contents_json_seq_len(contents@);
        assert forall|j: int| 0 <= j < contents@.len() implies #[trigger] contents_json_seq(
            contents@,
        )[j] == items_m[j] by {
            lemma_contents_json_seq_index(contents@, j);
        }
        assert(contents_json_seq(contents@) =~= items_m);
    }

    let mut system_instruction: Option<GeminiContent> = None;
    if idx < n && str_eq(es[idx].0.as_str(), "systemInstruction") {
        match content_from_value(&es[idx].1) {
            Ok(c) => {
                system_instruction = Some(c);
                idx = idx + 1;
            },
            Err(e) => {
                proof {
                    assert(req_cut2(mes) is None);
                    assert(!req_shape(v@));
                }
                return Err(e);
            },
        }
    }
    let ghost idx2 = idx as int;
    proof {
        assert(req_cut2(mes) == Some(idx2));
        assert((match system_instruction {
            Some(c) => seq![("systemInstruction"@, content_json(c))],
            None => Seq::<(Seq<char>, JsonModel)>::empty(),
        }) =~= mes.subrange(1, idx2));
    }

    let mut session_id: Option<String> = None;
    if idx < n && str_eq(es[idx].0.as_str(), "sessionId") {
        match &es[idx].1 {
            JsonValue::Str(t) => {
                session_id = Some(t.clone());
                idx = idx + 1;
            },
            _ => {
                proof {
                    assert(req_cut3(mes) is None);
                    assert(!req_shape(v@));
                }
                return Err(String::from_str("sessionId must be a string"));
            },
        }
    }
    let ghost idx3 = idx as int;
    proof {
        assert(req_cut3(mes) == Some(idx3));
        assert((match session_id {
            Some(t) => seq![("sessionId"@, JsonModel::Str(t@))],
            None => Seq::<(Seq<char>, JsonModel)>::empty(),
        }) =~= mes.subrange(idx2, idx3));
        assert(req_shape(v@));
    }

    let mut extra: Vec<(String, JsonValue)> = Vec::new();
    while idx < n
        invariant
            n == es@.len(),
            n == mes.len(),
            idx3 <= idx as int <= n,
            forall|i: int| 0 <= i < es@.len() ==> #[trigger] mes[i] == (
                es@[i].0@,
                json_model(es@[i].1),
            ),
            extra@.len() == idx - idx3,
            forall|j: int| 0 <= j < idx - idx3 ==> (#[trigger] extra@[j].0)@ == mes[idx3 + j].0
                && json_model(extra@[j].1) == mes[idx3 + j].1,
        decreases n - idx,
    {
        let key = es[idx].0.clone();
        let val = copy_json(&es[idx].1);
        extra.push((key, val));
        idx = idx + 1;
    }
    let b = GeminiGenerateContentRequest { contents, system_instruction, session_id, extra };
    proof {
        lemma_json_model_entries_len(b.extra@);
        assert forall|j: int| 0 <= j < b.extra@.len() implies #[trigger] json_model_entries(
            b.extra@,
        )[j] == mes.skip(idx3)[j] by {
            lemma_json_model_entries_index(b.extra@, j);
        }
        assert(json_model_entries(b.extra@) =~= mes.skip(idx3));
        assert(mes.take(1) =~= seq![("contents"@, JsonModel::Arr(contents_json_seq(b.contents@)))]);
        assert(req_entries(b) =~= mes.take(1) + mes.subrange(1, idx2) + mes.subrange(idx2, idx3)
            + mes.skip(idx3));
        assert(mes.take(1) + mes.subrange(1, idx2) + mes.subrange(idx2, idx3) + mes.skip(idx3)
            =~= mes);
        assert(req_json(b) == v@);
    }
    Ok(b)
}


/// The wire entries of the envelope: the six required fields, in order.
pub open spec fn env_entries(b: crate::envelope::AntigravityRequestBody) -> Seq<
    (Seq<char>, JsonModel),
> {
    seq![
        ("project"@, JsonModel::Str(b.project@)),
        ("requestId"@, JsonModel::Str(b.request_id@)),
        ("request"@, req_json(b.request)),
        ("model"@, JsonModel::Str(b.model@)),
        ("userAgent"@, JsonModel::Str(b.user_agent@)),
        ("requestType"@, JsonModel::Str(b.request_type@)),
    ]
}

/// The wire value of the envelope.
pub open spec fn env_json(b: crate::envelope::AntigravityRequestBody) -> JsonModel {
    JsonModel::Obj(env_entries(b))
}

/// The envelope grammar: exactly the six fields, in order.
pub open spec fn env_shape(m: JsonModel) -> bool {
    match m {
        JsonModel::Obj(es) => {
            &&& es.len() == 6
            &&& es[0].0 == "project"@ && es[0].1 is Str
            &&& es[1].0 == "requestId"@ && es[1].1 is Str
            &&& es[2].0 == "request"@ && req_shape(es[2].1)
            &&& es[3].0 == "model"@ && es[3].1 is Str
            &&& es[4].0 == "userAgent"@ && es[4].1 is Str
            &&& es[5].0 == "requestType"@ && es[5].1 is Str
        },
        _ => false,
    }
}

/// Print the envelope as its wire value.
pub fn envelope_to_value(b: &crate::envelope::AntigravityRequestBody) -> (r: JsonValue)
    ensures
        r@ == env_json(*b),
{
    let mut es: Vec<(String, JsonValue)> = Vec::new();
    es.push((String::from_str("project"), JsonValue::Str(b.project.clone())));
    es.push((String::from_str("requestId"), JsonValue::Str(b.request_id.clone())));
    es.push((String::from_str("request"), req_to_value(&b.request)));
    es.push((String::from_str("model"), JsonValue::Str(b.model.clone())));
    es.push((String::from_str("userAgent"), JsonValue::Str(b.user_agent.clone())));
    es.push((String::from_str("requestType"), JsonValue::Str(b.request_type.clone())));
    proof {
        lemma_json_model_entries_len(es@);
        assert forall|i: int| 0 <= i < es@.len() implies #[trigger] json_model_entries(es@)[i]
            == (es@[i].0@, json_model(es@[i].1)) by {
            lemma_json_model_entries_index(es@, i);
        }
        assert(json_model_entries(es@) =~= env_entries(*b));
    }
    JsonValue::Obj(es)
}

/// A rejected envelope's error names the first required field that is
/// missing, misplaced or of the wrong shape.
pub open spec fn env_err_named(m: JsonModel, msg: Seq<char>) -> bool {
    match m {
        JsonModel::Obj(es) => if !(0 < es.len() && es[0].0 == "project"@ && es[0].1 is Str) {
            contains_seq(msg, "project"@)
        } else if !(1 < es.len() && es[1].0 == "requestId"@ && es[1].1 is Str) {
            contains_seq(msg, "requestId"@)
        } else if !(2 < es.len() && es[2].0 == "request"@) {
            contains_seq(msg, "request"@)
        } else if !req_shape(es[2].1) {
            true
        } else if !(3 < es.len() && es[3].0 == "model"@ && es[3].1 is Str) {
            contains_seq(msg, "model"@)
        } else if !(4 < es.len() && es[4].0 == "userAgent"@ && es[4].1 is Str) {
            contains_seq(msg, "userAgent"@)
        } else if !(5 < es.len() && es[5].0 == "requestType"@ && es[5].1 is Str) {
            contains_seq(msg, "requestType"@)
        } else {
            true
        },
        _ => true,
    }
}

/// Read the envelope off its wire value.  All six fields are required, in
/// the canonical order; a missing field is named in the error.
#[verifier::rlimit(100)]
pub fn envelope_from_value(v: &JsonValue) -> (r: Result<
    crate::envelope::AntigravityRequestBody,
    String,
>)
    ensures
        r is Ok <==> env_shape(v@),
        r matches Ok(b) ==> env_json(b) == v@,
        r matches Err(e) ==> env_err_named(v@, e@),
{
    let es: &Vec<(String, JsonValue)> = match v {
        JsonValue::Obj(es) => es,
        _ => {
            return Err(String::from_str("envelope must be an object"));
        },
    };
    let ghost mes = json_model_entries(es@);
    proof {
        lemma_json_model_entries_len(es@);
        assert forall|i: int| 0 <= i < es@.len() implies #[trigger] mes[i] == (
            es@[i].0@,
            json_model(es@[i].1),
        ) by {
            lemma_json_model_entries_index(es@, i);
        }
        assert(v@ == JsonModel::Obj(mes));
    }
    let n = es.len();
    if !(0 < n && str_eq(es[0].0.as_str(), "project")) {
        return Err(missing_field_message("project"));
    }
    let project = match &es[0].1 {
        JsonValue::Str(t) => t.clone(),
        _ => {
            return Err(wrong_shape_message("project", " must be a string"));
        },
    };
    if !(1 < n && str_eq(es[1].0.as_str(), "requestId")) {
        return Err(missing_field_message("requestId"));
    }
    let request_id = match &es[1].1 {
        JsonValue::Str(t) => t.clone(),
        _ => {
            return Err(wrong_shape_message("requestId", " must be a string"));
        },
    };
    if !(2 < n && str_eq(es[2].0.as_str(), "request")) {
        return Err(missing_field_message("request"));
    }
    let request = match req_from_value(&es[2].1) {
        Ok(b) => b,
        Err(e) => {
            return Err(e);
        },
    };
    if !(3 < n && str_eq(es[3].0.as_str(), "model")) {
        return Err(missing_field_message("model"));
    }
    let model = match &es[3].1 {
        JsonValue::Str(t) => t.clone(),
        _ => {
            return Err(wrong_shape_message("model", " must be a string"));
        },
    };
    if !(4 < n && str_eq(es[4].0.as_str(), "userAgent")) {
        return Err(missing_field_message("userAgent"));
    }
    let user_agent = match &es[4].1 {
        JsonValue::Str(t) => t.clone(),
        _ => {
            return Err(wrong_shape_message("userAgent", " must be a string"));
        },
    };
    if !(5 < n && str_eq(es[5].0.as_str(), "requestType")) {
        return Err(missing_field_message("requestType"));
    }
    let request_type = match &es[5].1 {
        JsonValue::Str(t) => t.clone(),
        _ => {
            return Err(wrong_shape_message("requestType", " must be a string"));
        },
    };
    if n != 6 {
        return Err(String::from_str("the envelope holds entries after requestType"));
    }
    let b = crate::envelope::AntigravityRequestBody {
        project,
        request_id,
        request,
        model,
        user_agent,
        request_type,
    };
    proof {
        assert(env_entries(b) =~= mes);
    }
    Ok(b)
}

/// Pass-through keys must not shadow the known fields, at any level.
pub open spec fn content_wf(c: GeminiContent) -> bool {
    &&& forall|i: int| 0 <= i < c.extra@.len() ==> (#[trigger] c.extra@[i]).0@ != "role"@
        && c.extra@[i].0@ != "parts"@
    &&& forall|i: int| 0 <= i < c.parts@.len() ==> part_wf(#[trigger] c.parts@[i])
}

pub open spec fn req_wf(r: GeminiGenerateContentRequest) -> bool {
    &&& forall|i: int| 0 <= i < r.extra@.len() ==> (#[trigger] r.extra@[i]).0@ != "contents"@
        && r.extra@[i].0@ != "systemInstruction"@ && r.extra@[i].0@ != "sessionId"@
    &&& forall|i: int| 0 <= i < r.contents@.len() ==> content_wf(#[trigger] r.contents@[i])
    &&& match r.system_instruction {
        Some(c) => content_wf(c),
        None => true,
    }
}

/// The known wire keys are pairwise distinct.
proof fn lemma_wire_keys_distinct()
    ensures
        "thought"@ != "text"@,
        "functionCall"@ != "text"@,
        "thoughtSignature"@ != "text"@,
        "functionCall"@ != "thought"@,
        "thoughtSignature"@ != "thought"@,
        "thoughtSignature"@ != "functionCall"@,
        "parts"@ != "role"@,
        "systemInstruction"@ != "contents"@,
        "sessionId"@ != "contents"@,
        "sessionId"@ != "systemInstruction"@,
{
    reveal_strlit("text");
    reveal_strlit("thought");
    reveal_strlit("functionCall");
    reveal_strlit("thoughtSignature");
    reveal_strlit("role");
    reveal_strlit("parts");
    reveal_strlit("contents");
    reveal_strlit("systemInstruction");
    reveal_strlit("sessionId");
    assert("text"@.len() == 4);
    assert("thought"@.len() == 7);
    assert("functionCall"@.len() == 12);
    assert("thoughtSignature"@.len() == 16);
    assert("role"@.len() == 4);
    assert("parts"@.len() == 5);
    assert("contents"@.len() == 8);
    assert("systemInstruction"@.len() == 17);
    assert("sessionId"@.len() == 9);
}

/// A printed part parses back: its emission is part-shaped.
#[verifier::rlimit(100)]
pub proof fn lemma_part_emission_shaped(p: GeminiPart)
    requires
        part_wf(p),
    ensures
        part_shape(part_json(p)),
{
    lemma_wire_keys_distinct();
    let es = part_entries(p);
    lemma_json_model_entries_len(p.extra@);
    if p.extra@.len() > 0 {
        lemma_json_model_entries_index(p.extra@, 0);
    }
}

/// A printed turn parses back: its emission is content-shaped.
pub proof fn lemma_content_emission_shaped(c: GeminiContent)
    requires
        content_wf(c),
    ensures
        content_shape(content_json(c)),
{
    lemma_wire_keys_distinct();
    let es = content_entries(c);
    lemma_json_model_entries_len(c.extra@);
    if c.extra@.len() > 0 {
        lemma_json_model_entries_index(c.extra@, 0);
    }
    lemma_parts_json_seq_len(c.parts@);
    assert forall|i: int| 0 <= i < parts_json_seq(c.parts@).len() implies part_shape(
        #[trigger] parts_json_seq(c.parts@)[i],
    ) by {
        lemma_parts_json_seq_index(c.parts@, i);
        lemma_part_emission_shaped(c.parts@[i]);
    }
    match c.role {
        Some(_) => {
            assert(content_cut1(es) == Some(1int));
            assert(es[1].0 == "parts"@);
        },
        None => {
            assert(content_cut1(es) == Some(0int));
            assert(es[0].0 == "parts"@);
        },
    }
}

/// A printed request parses back: its emission is request-shaped.
pub proof fn lemma_req_emission_shaped(r: GeminiGenerateContentRequest)
    requires
        req_wf(r),
    ensures
        req_shape(req_json(r)),
{
    lemma_wire_keys_distinct();
    let es = req_entries(r);
    lemma_json_model_entries_len(r.extra@);
    if r.extra@.len() > 0 {
        lemma_json_model_entries_index(r.extra@, 0);
    }
    lemma_contents_json_seq_len(r.contents@);
    assert forall|i: int| 0 <= i < contents_json_seq(r.contents@).len() implies content_shape(
        #[trigger] contents_json_seq(r.contents@)[i],
    ) by {
        lemma_contents_json_seq_index(r.contents@, i);
        lemma_content_emission_shaped(r.contents@[i]);
    }
    assert(es[0].0 == "contents"@);
    match r.system_instruction {
        Some(c) => {
            lemma_content_emission_shaped(c);
            assert(req_cut2(es) == Some(2int));
        },
        None => {
            assert(req_cut2(es) == Some(1int));
        },
    }
}

/// Serialize-then-deserialize round-trips the envelope bit-exactly: the
/// emission of a well-formed envelope is envelope-shaped, so
/// `envelope_from_value` accepts exactly what `envelope_to_value` printed
/// and, by their contracts, returns an envelope with the same wire value —
/// every field, the two fixed strings included.
pub proof fn lemma_envelope_round_trip(b: crate::envelope::AntigravityRequestBody)
    requires
        req_wf(b.request),
    ensures
        env_shape(env_json(b)),
{
    lemma_req_emission_shaped(b.request);
}

} // verus!
