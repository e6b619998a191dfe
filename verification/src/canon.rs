//! Canonical form of JSON values.
//!
//! Canonicalization sorts every object's entries by key, recursively, and
//! leaves array order untouched.  Serialization of the canonical form is the
//! input to the fingerprint hash, so structurally equal payloads that differ
//! only in object key order canonicalize, serialize and hash identically.

use vstd::prelude::*;
use crate::json::{JsonValue, JsonModel, json_model, json_model_seq, json_model_entries,
    lemma_json_model_seq_len, lemma_json_model_seq_index,
    lemma_json_model_entries_len, lemma_json_model_entries_index};

verus! {

/// Lexicographic order on strings, by code point.
pub open spec fn str_le(a: Seq<char>, b: Seq<char>) -> bool
    decreases a.len(),
{
    if a.len() == 0 {
        true
    } else if b.len() == 0 {
        false
    } else if a[0] == b[0] {
        str_le(a.drop_first(), b.drop_first())
    } else {
        (a[0] as u32) < (b[0] as u32)
    }
}

/// Insert one entry into a key-sorted entry sequence, keeping it sorted.
pub open spec fn insert_entry(e: (Seq<char>, JsonModel), s: Seq<(Seq<char>, JsonModel)>) -> Seq<
    (Seq<char>, JsonModel),
>
    decreases s.len(),
{
    if s.len() == 0 {
        seq![e]
    } else if str_le(e.0, s[0].0) {
        seq![e] + s
    } else {
        seq![s[0]] + insert_entry(e, s.drop_first())
    }
}

/// Insertion sort of object entries by key.
pub open spec fn sort_entries(s: Seq<(Seq<char>, JsonModel)>) -> Seq<(Seq<char>, JsonModel)>
    decreases s.len(),
{
    if s.len() == 0 {
        Seq::empty()
    } else {
        insert_entry(s.last(), sort_entries(s.drop_last()))
    }
}

/// The canonical form: object keys sorted recursively, array order kept.
pub open spec fn canon(m: JsonModel) -> JsonModel
    decreases m,
{
    match m {
        JsonModel::Null => JsonModel::Null,
        JsonModel::Bool(b) => JsonModel::Bool(b),
        JsonModel::Num(s) => JsonModel::Num(s),
        JsonModel::Str(s) => JsonModel::Str(s),
        JsonModel::Arr(vs) => JsonModel::Arr(canon_seq(vs)),
        JsonModel::Obj(es) => JsonModel::Obj(sort_entries(canon_entries(es))),
    }
}

pub open spec fn canon_seq(vs: Seq<JsonModel>) -> Seq<JsonModel>
    decreases vs,
{
    if vs.len() == 0 {
        Seq::empty()
    } else {
        canon_seq(vs.drop_last()).push(canon(vs.last()))
    }
}

pub open spec fn canon_entries(es: Seq<(Seq<char>, JsonModel)>) -> Seq<(Seq<char>, JsonModel)>
    decreases es,
{
    if es.len() == 0 {
        Seq::empty()
    } else {
        canon_entries(es.drop_last()).push((es.last().0, canon(es.last().1)))
    }
}

pub broadcast proof fn lemma_canon_seq_len(vs: Seq<JsonModel>)
    ensures
        (#[trigger] canon_seq(vs)).len() == vs.len(),
    decreases vs,
{
    if vs.len() > 0 {
        lemma_canon_seq_len(vs.drop_last());
    }
}

pub broadcast proof fn lemma_canon_seq_index(vs: Seq<JsonModel>, i: int)
    requires
        0 <= i < vs.len(),
    ensures
        #[trigger] canon_seq(vs)[i] == canon(vs[i]),
    decreases vs,
{
    lemma_canon_seq_len(vs);
    if i < vs.len() - 1 {
        lemma_canon_seq_index(vs.drop_last(), i);
    }
}

pub broadcast proof fn lemma_canon_entries_len(es: Seq<(Seq<char>, JsonModel)>)
    ensures
        (#[trigger] canon_entries(es)).len() == es.len(),
    decreases es,
{
    if es.len() > 0 {
        lemma_canon_entries_len(es.drop_last());
    }
}

pub broadcast proof fn lemma_canon_entries_index(es: Seq<(Seq<char>, JsonModel)>, i: int)
    requires
        0 <= i < es.len(),
    ensures
        #[trigger] canon_entries(es)[i] == (es[i].0, canon(es[i].1)),
    decreases es,
{
    lemma_canon_entries_len(es);
    if i < es.len() - 1 {
        lemma_canon_entries_index(es.drop_last(), i);
    }
}


/// Unfolding `str_le` one equal character at a time.
proof fn lemma_str_le_step(a: Seq<char>, b: Seq<char>, i: int)
    requires
        0 <= i,
        i < a.len(),
        i < b.len(),
        a.take(i) == b.take(i),
        a[i] == b[i],
    ensures
        str_le(a.skip(i), b.skip(i)) == str_le(a.skip(i + 1), b.skip(i + 1)),
{
    assert(a.skip(i)[0] == a[i]);
    assert(b.skip(i)[0] == b[i]);
    assert(a.skip(i).drop_first() =~= a.skip(i + 1));
    assert(b.skip(i).drop_first() =~= b.skip(i + 1));
}

/// Decide the lexicographic order of two strings.
pub fn str_le_exec(a: &str, b: &str) -> (r: bool)
    ensures
        r == str_le(a@, b@),
{
    let na = a.unicode_len();
    let nb = b.unicode_len();
    let mut i: usize = 0;
    proof {
        assert(a@.skip(0) =~= a@);
        assert(b@.skip(0) =~= b@);
        assert(a@.take(0) =~= b@.take(0));
    }
    loop
        invariant
            na == a@.len(),
            nb == b@.len(),
            i <= na,
            i <= nb,
            a@.take(i as int) == b@.take(i as int),
            str_le(a@, b@) == str_le(a@.skip(i as int), b@.skip(i as int)),
        decreases na - i,
    {
        if i >= na {
            proof {
                assert(a@.skip(i as int) =~= Seq::<char>::empty());
            }
            return true;
        }
        if i >= nb {
            proof {
                assert(b@.skip(i as int) =~= Seq::<char>::empty());
                assert(a@.skip(i as int).len() > 0);
            }
            return false;
        }
        let ca = a.get_char(i);
        let cb = b.get_char(i);
        if ca == cb {
            proof {
                lemma_str_le_step(a@, b@, i as int);
                assert(a@.take(i + 1) =~= b@.take(i + 1));
            }
            i = i + 1;
        } else {
            proof {
                assert(a@.skip(i as int)[0] == ca);
                assert(b@.skip(i as int)[0] == cb);
            }
            return (ca as u32) < (cb as u32);
        }
    }
}

/// `insert_entry` places the new entry at the first position whose key is
/// not below the new key.
proof fn lemma_insert_entry_at(e: (Seq<char>, JsonModel), s: Seq<(Seq<char>, JsonModel)>, p: int)
    requires
        0 <= p <= s.len(),
        forall|j: int| 0 <= j < p ==> !str_le(e.0, #[trigger] s[j].0),
        p < s.len() ==> str_le(e.0, s[p].0),
    ensures
        insert_entry(e, s) =~= s.take(p) + seq![e] + s.skip(p),
    decreases s.len(),
{
    if s.len() == 0 {
        assert(s.take(0) =~= Seq::<(Seq<char>, JsonModel)>::empty());
        assert(s.skip(0) =~= Seq::<(Seq<char>, JsonModel)>::empty());
    } else if p == 0 {
        assert(str_le(e.0, s[0].0));
        assert(s.take(0) =~= Seq::<(Seq<char>, JsonModel)>::empty());
        assert(s.skip(0) =~= s);
    } else {
        assert(!str_le(e.0, s[0].0));
        let t = s.drop_first();
        assert(forall|j: int| 0 <= j < p - 1 ==> !str_le(e.0, #[trigger] t[j].0));
        lemma_insert_entry_at(e, t, p - 1);
        assert(t.take(p - 1) =~= s.take(p).drop_first());
        assert(t.skip(p - 1) =~= s.skip(p));
        assert(insert_entry(e, s) =~= seq![s[0]] + insert_entry(e, t));
        assert(seq![s[0]] + (t.take(p - 1) + seq![e] + t.skip(p - 1)) =~= s.take(p) + seq![e]
            + s.skip(p));
    }
}

/// The first position in a key-sorted vector whose key is not below `key`.
fn find_insert_pos(out: &Vec<(String, JsonValue)>, key: &String) -> (idx: usize)
    ensures
        idx <= out@.len(),
        forall|j: int| 0 <= j < idx ==> !str_le(key@, #[trigger] json_model_entries(out@)[j].0),
        idx < out@.len() ==> str_le(key@, json_model_entries(out@)[idx as int].0),
{
    let ghost s = json_model_entries(out@);
    proof {
        lemma_json_model_entries_len(out@);
    }
    let n = out.len();
    let mut idx: usize = 0;
    while idx < n
        invariant
            n == out@.len(),
            s == json_model_entries(out@),
            s.len() == n,
            idx <= n,
            forall|j: int| 0 <= j < idx ==> !str_le(key@, #[trigger] s[j].0),
        decreases n - idx,
    {
        proof {
            lemma_json_model_entries_index(out@, idx as int);
        }
        if str_le_exec(key.as_str(), out[idx].0.as_str()) {
            return idx;
        }
        idx = idx + 1;
    }
    idx
}

/// Insert an entry into a key-sorted vector, keeping it sorted.
fn insert_sorted(out: &mut Vec<(String, JsonValue)>, e: (String, JsonValue))
    ensures
        json_model_entries(final(out)@) == insert_entry(
            (e.0@, e.1@),
            json_model_entries(old(out)@),
        ),
{
    let ghost s = json_model_entries(old(out)@);
    proof {
        lemma_json_model_entries_len(old(out)@);
    }
    let idx = find_insert_pos(out, &e.0);
    proof {
        lemma_insert_entry_at((e.0@, e.1@), s, idx as int);
    }
    out.insert(idx, e);
    proof {
        let me = (e.0@, e.1@);
        lemma_json_model_entries_len(out@);
        assert forall|j: int| 0 <= j < out@.len() implies #[trigger] json_model_entries(out@)[j]
            == (s.take(idx as int) + seq![me] + s.skip(idx as int))[j] by {
            lemma_json_model_entries_index(out@, j);
            if j < idx {
                lemma_json_model_entries_index(old(out)@, j);
            } else if j > idx {
                lemma_json_model_entries_index(old(out)@, j - 1);
            }
        }
        assert(json_model_entries(out@) =~= s.take(idx as int) + seq![me] + s.skip(idx as int));
    }
}

/// Sort object entries by key, as `sort_entries` describes.
fn sort_entries_exec(es: Vec<(String, JsonValue)>) -> (r: Vec<(String, JsonValue)>)
    ensures
        json_model_entries(r@) == sort_entries(json_model_entries(es@)),
{
    let ghost ms = json_model_entries(es@);
    proof {
        lemma_json_model_entries_len(es@);
    }
    let mut rest = es;
    let total = rest.len();
    let mut acc: Vec<(String, JsonValue)> = Vec::new();
    let ghost n = ms.len();
    let mut k: usize = 0;
    proof {
        assert(json_model_entries(acc@) =~= Seq::<(Seq<char>, JsonModel)>::empty());
        assert(sort_entries(ms.take(0)) =~= Seq::<(Seq<char>, JsonModel)>::empty());
        assert forall|j: int| 0 <= j < rest@.len() implies #[trigger] json_model_entries(rest@)[j]
            == ms.skip(0)[j] by {
            lemma_json_model_entries_index(rest@, j);
        }
        lemma_json_model_entries_len(rest@);
        assert(json_model_entries(rest@) =~= ms.skip(0));
    }
    while rest.len() > 0
        invariant
            k <= total,
            n == total,
            n == ms.len(),
            rest@.len() == n - k,
            json_model_entries(rest@) == ms.skip(k as int),
            json_model_entries(acc@) == sort_entries(ms.take(k as int)),
        decreases n - k,
    {
        let ghost old_rest = rest@;
        let e = rest.remove(0);
        proof {
            lemma_json_model_entries_len(old_rest);
            lemma_json_model_entries_index(old_rest, 0);
            assert((e.0@, e.1@) == ms[k as int]);
            lemma_json_model_entries_len(rest@);
            assert forall|j: int| 0 <= j < rest@.len() implies #[trigger] json_model_entries(
                rest@,
            )[j] == ms.skip(k + 1)[j] by {
                lemma_json_model_entries_index(rest@, j);
                lemma_json_model_entries_index(old_rest, j + 1);
            }
            assert(json_model_entries(rest@) =~= ms.skip(k + 1));
        }
        insert_sorted(&mut acc, e);
        proof {
            assert(ms.take(k + 1).drop_last() =~= ms.take(k as int));
            assert(ms.take(k + 1).last() == ms[k as int]);
            assert(sort_entries(ms.take(k + 1)) == insert_entry(
                ms[k as int],
                sort_entries(ms.take(k as int)),
            ));
        }
        k = k + 1;
    }
    proof {
        assert(ms.take(n as int) =~= ms);
    }
    acc
}

/// Clone a string.
fn copy_string(s: &String) -> (r: String)
    ensures
        r@ == s@,
{
    s.clone()
}

/// Build the canonical form of a JSON value.
pub fn canonicalize(v: &JsonValue) -> (r: JsonValue)
    ensures
        r@ == canon(v@),
    decreases v,
{
    match v {
        JsonValue::Null => JsonValue::Null,
        JsonValue::Bool(b) => JsonValue::Bool(*b),
        JsonValue::Num(s) => JsonValue::Num(copy_string(s)),
        JsonValue::Str(s) => JsonValue::Str(copy_string(s)),
        JsonValue::Arr(vs) => {
            let mut out: Vec<JsonValue> = Vec::new();
            let n = vs.len();
            let mut i: usize = 0;
            proof {
                lemma_json_model_seq_len(vs@);
            }
            while i < n
                invariant
                    *v == JsonValue::Arr(*vs),
                    n == vs@.len(),
                    i <= n,
                    out@.len() == i,
                    forall|j: int| 0 <= j < i ==> json_model(#[trigger] out@[j]) == canon(
                        json_model(vs@[j]),
                    ),
                decreases n - i,
            {
                proof {
                    let vsg = (*v)->Arr_0;
                    assert(decreases_to!(*v => vsg@));
                    assert(vsg@ == vs@);
                }
                let c = canonicalize(&vs[i]);
                out.push(c);
                i = i + 1;
            }
            proof {
                let mvs = json_model_seq(vs@);
                lemma_json_model_seq_len(out@);
                lemma_canon_seq_len(mvs);
                assert forall|j: int| 0 <= j < out@.len() implies #[trigger] json_model_seq(
                    out@,
                )[j] == canon_seq(mvs)[j] by {
                    lemma_json_model_seq_index(out@, j);
                    lemma_json_model_seq_index(vs@, j);
                    lemma_canon_seq_index(mvs, j);
                }
                assert(json_model_seq(out@) =~= canon_seq(mvs));
            }
            JsonValue::Arr(out)
        },
        JsonValue::Obj(es) => {
            let mut tmp: Vec<(String, JsonValue)> = Vec::new();
            let n = es.len();
            let mut i: usize = 0;
            proof {
                lemma_json_model_entries_len(es@);
            }
            while i < n
                invariant
                    *v == JsonValue::Obj(*es),
                    n == es@.len(),
                    i <= n,
                    tmp@.len() == i,
                    forall|j: int| 0 <= j < i ==> #[trigger] tmp@[j].0@ == es@[j].0@
                        && json_model(tmp@[j].1) == canon(json_model(es@[j].1)),
                decreases n - i,
            {
                proof {
                    let esg = (*v)->Obj_0;
                    assert(decreases_to!(*v => esg@));
                    assert(esg@ == es@);
                    assert(decreases_to!(es@[i as int] => es@[i as int].1));
                }
                let key = copy_string(&es[i].0);
                let c = canonicalize(&es[i].1);
                tmp.push((key, c));
                proof {
                    assert(tmp@[i as int].0@ == es@[i as int].0@);
                    assert(json_model(tmp@[i as int].1) == canon(json_model(es@[i as int].1)));
                }
                i = i + 1;
            }
            proof {
                let mes = json_model_entries(es@);
                lemma_json_model_entries_len(tmp@);
                lemma_canon_entries_len(mes);
                assert forall|j: int| 0 <= j < tmp@.len() implies #[trigger] json_model_entries(
                    tmp@,
                )[j] == canon_entries(mes)[j] by {
                    lemma_json_model_entries_index(tmp@, j);
                    lemma_json_model_entries_index(es@, j);
                    lemma_canon_entries_index(mes, j);
                }
                assert(json_model_entries(tmp@) =~= canon_entries(mes));
            }
            let sorted = sort_entries_exec(tmp);
            JsonValue::Obj(sorted)
        },
    }
}

} // verus!
