//! A plain model of JSON values.
//!
//! Structured payloads (function calls, envelope bodies) are held as
//! `JsonValue` trees so that canonicalization and serialization can be
//! reasoned about directly.  Numbers are carried as their decimal token text,
//! which keeps the type exact for every number the wire can carry.

use vstd::prelude::*;

verus! {

/// A JSON value as executable data.
#[derive(Debug, PartialEq, Eq)]
pub enum JsonValue {
    Null,
    Bool(bool),
    /// The number's decimal token, exactly as it appears on the wire.
    Num(String),
    Str(String),
    Arr(Vec<JsonValue>),
    Obj(Vec<(String, JsonValue)>),
}

/// The mathematical model of a JSON value.
pub enum JsonModel {
    Null,
    Bool(bool),
    Num(Seq<char>),
    Str(Seq<char>),
    Arr(Seq<JsonModel>),
    Obj(Seq<(Seq<char>, JsonModel)>),
}

pub open spec fn json_model(v: JsonValue) -> JsonModel
    decreases v,
{
    match v {
        JsonValue::Null => JsonModel::Null,
        JsonValue::Bool(b) => JsonModel::Bool(b),
        JsonValue::Num(s) => JsonModel::Num(s@),
        JsonValue::Str(s) => JsonModel::Str(s@),
        JsonValue::Arr(vs) => JsonModel::Arr(json_model_seq(vs@)),
        JsonValue::Obj(es) => JsonModel::Obj(json_model_entries(es@)),
    }
}

pub open spec fn json_model_seq(vs: Seq<JsonValue>) -> Seq<JsonModel>
    decreases vs,
{
    if vs.len() == 0 {
        Seq::empty()
    } else {
        json_model_seq(vs.drop_last()).push(json_model(vs.last()))
    }
}

pub open spec fn json_model_entries(es: Seq<(String, JsonValue)>) -> Seq<(Seq<char>, JsonModel)>
    decreases es,
{
    if es.len() == 0 {
        Seq::empty()
    } else {
        json_model_entries(es.drop_last()).push((es.last().0@, json_model(es.last().1)))
    }
}

impl View for JsonValue {
    type V = JsonModel;

    open spec fn view(&self) -> JsonModel {
        json_model(*self)
    }
}

pub broadcast proof fn lemma_json_model_seq_len(vs: Seq<JsonValue>)
    ensures
        (#[trigger] json_model_seq(vs)).len() == vs.len(),
    decreases vs,
{
    if vs.len() > 0 {
        lemma_json_model_seq_len(vs.drop_last());
    }
}

pub broadcast proof fn lemma_json_model_seq_index(vs: Seq<JsonValue>, i: int)
    requires
        0 <= i < vs.len(),
    ensures
        #[trigger] json_model_seq(vs)[i] == json_model(vs[i]),
    decreases vs,
{
    lemma_json_model_seq_len(vs);
    if i < vs.len() - 1 {
        lemma_json_model_seq_index(vs.drop_last(), i);
    }
}

pub broadcast proof fn lemma_json_model_entries_len(es: Seq<(String, JsonValue)>)
    ensures
        (#[trigger] json_model_entries(es)).len() == es.len(),
    decreases es,
{
    if es.len() > 0 {
        lemma_json_model_entries_len(es.drop_last());
    }
}

pub broadcast proof fn lemma_json_model_entries_index(es: Seq<(String, JsonValue)>, i: int)
    requires
        0 <= i < es.len(),
    ensures
        #[trigger] json_model_entries(es)[i] == (es[i].0@, json_model(es[i].1)),
    decreases es,
{
    lemma_json_model_entries_len(es);
    if i < es.len() - 1 {
        lemma_json_model_entries_index(es.drop_last(), i);
    }
}


/// Structural copy of a JSON value.
pub fn copy_json(v: &JsonValue) -> (r: JsonValue)
    ensures
        r@ == v@,
    decreases v,
{
    match v {
        JsonValue::Null => JsonValue::Null,
        JsonValue::Bool(b) => JsonValue::Bool(*b),
        JsonValue::Num(s) => JsonValue::Num(s.clone()),
        JsonValue::Str(s) => JsonValue::Str(s.clone()),
        JsonValue::Arr(vs) => {
            let mut out: Vec<JsonValue> = Vec::new();
            let n = vs.len();
            let mut i: usize = 0;
            proof {
                lemma_json_model_seq_len(vs@);
            }
            while i < n
                invariant
                    *v == JsonValue::Arr(*vs),
                    n == vs@.len(),
                    i <= n,
                    out@.len() == i,
                    forall|j: int| 0 <= j < i ==> json_model(#[trigger] out@[j]) == json_model(
                        vs@[j],
                    ),
                decreases n - i,
            {
                proof {
                    let vsg = (*v)->Arr_0;
                    assert(decreases_to!(*v => vsg@));
                    assert(vsg@ == vs@);
                }
                let c = copy_json(&vs[i]);
                out.push(c);
                i = i + 1;
            }
            proof {
                lemma_json_model_seq_len(out@);
                assert forall|j: int| 0 <= j < out@.len() implies #[trigger] json_model_seq(
                    out@,
                )[j] == json_model_seq(vs@)[j] by {
                    lemma_json_model_seq_index(out@, j);
                    lemma_json_model_seq_index(vs@, j);
                }
                assert(json_model_seq(out@) =~= json_model_seq(vs@));
            }
            JsonValue::Arr(out)
        },
        JsonValue::Obj(es) => {
            let mut out: Vec<(String, JsonValue)> = Vec::new();
            let n = es.len();
            let mut i: usize = 0;
            proof {
                lemma_json_model_entries_len(es@);
            }
            while i < n
                invariant
                    *v == JsonValue::Obj(*es),
                    n == es@.len(),
                    i <= n,
                    out@.len() == i,
                    forall|j: int| 0 <= j < i ==> #[trigger] out@[j].0@ == es@[j].0@
                        && json_model(out@[j].1) == json_model(es@[j].1),
                decreases n - i,
            {
                proof {
                    let esg = (*v)->Obj_0;
                    assert(decreases_to!(*v => esg@));
                    assert(esg@ == es@);
                    assert(decreases_to!(es@[i as int] => es@[i as int].1));
                }
                let key = es[i].0.clone();
                let c = copy_json(&es[i].1);
                out.push((key, c));
                proof {
                    assert(out@[i as int].0@ == es@[i as int].0@);
                    assert(json_model(out@[i as int].1) == json_model(es@[i as int].1));
                }
                i = i + 1;
            }
            proof {
                lemma_json_model_entries_len(out@);
                assert forall|j: int| 0 <= j < out@.len() implies #[trigger] json_model_entries(
                    out@,
                )[j] == json_model_entries(es@)[j] by {
                    lemma_json_model_entries_index(out@, j);
                    lemma_json_model_entries_index(es@, j);
                }
                assert(json_model_entries(out@) =~= json_model_entries(es@));
            }
            JsonValue::Obj(out)
        },
    }
}

} // verus!
