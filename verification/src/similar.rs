//! Structural similarity of JSON values.
//!
//! Two values are similar when they are equal up to the order of object
//! entries.  Similar values have equal canonical forms, and therefore equal
//! fingerprints: this is what makes the fingerprint safe to use as a cache
//! key for function calls whose argument objects arrive with keys in any
//! order.

use vstd::prelude::*;
use vstd::seq_lib::lemma_multiset_commutative;
use vstd::multiset::Multiset;
use crate::json::JsonModel;
use crate::canon::{str_le, insert_entry, sort_entries, canon, canon_seq, canon_entries,
    lemma_canon_seq_len, lemma_canon_seq_index, lemma_canon_entries_len,
    lemma_canon_entries_index};
use crate::ser::ser;
use crate::fingerprint::{json_fingerprint, fnv1a};

verus! {

/// No two entries share a key.
pub open spec fn unique_keys(es: Seq<(Seq<char>, JsonModel)>) -> bool {
    forall|i: int, j: int| 0 <= i < j < es.len() ==> (#[trigger] es[i]).0 != (#[trigger] es[j]).0
}

/// Equality up to object entry order.  Object keys must be unique on both
/// sides, as they are in any JSON document a parser admits.
pub open spec fn json_similar(a: JsonModel, b: JsonModel) -> bool
    decreases a,
{
    match (a, b) {
        (JsonModel::Null, JsonModel::Null) => true,
        (JsonModel::Bool(x), JsonModel::Bool(y)) => x == y,
        (JsonModel::Num(x), JsonModel::Num(y)) => x == y,
        (JsonModel::Str(x), JsonModel::Str(y)) => x == y,
        (JsonModel::Arr(xs), JsonModel::Arr(ys)) => xs.len() == ys.len() && (forall|i: int|
            0 <= i < xs.len() ==> json_similar(#[trigger] xs[i], ys[i])),
        (JsonModel::Obj(xs), JsonModel::Obj(ys)) => {
            &&& xs.len() == ys.len()
            &&& unique_keys(xs)
            &&& unique_keys(ys)
            &&& forall|i: int|
                0 <= i < xs.len() ==> exists|j: int|
                    0 <= j < ys.len() && (#[trigger] ys[j]).0 == (#[trigger] xs[i]).0
                        && json_similar(xs[i].1, ys[j].1)
        },
        _ => false,
    }
}

pub proof fn lemma_str_le_total(a: Seq<char>, b: Seq<char>)
    ensures
        str_le(a, b) || str_le(b, a),
    decreases a.len(),
{
    if a.len() == 0 || b.len() == 0 {
    } else if a[0] == b[0] {
        lemma_str_le_total(a.drop_first(), b.drop_first());
    } else {
        vstd::utf8::char_u32_cast(a[0], a[0] as u32);
        vstd::utf8::char_u32_cast(b[0], b[0] as u32);
        assert((a[0] as u32) != (b[0] as u32));
    }
}

pub proof fn lemma_str_le_refl(a: Seq<char>)
    ensures
        str_le(a, a),
    decreases a.len(),
{
    if a.len() > 0 {
        lemma_str_le_refl(a.drop_first());
    }
}

pub proof fn lemma_str_le_antisym(a: Seq<char>, b: Seq<char>)
    requires
        str_le(a, b),
        str_le(b, a),
    ensures
        a == b,
    decreases a.len(),
{
    if a.len() == 0 {
        assert(b.len() == 0);
        assert(a =~= b);
    } else if a[0] == b[0] {
        lemma_str_le_antisym(a.drop_first(), b.drop_first());
        assert(a =~= seq![a[0]] + a.drop_first());
        assert(b =~= seq![b[0]] + b.drop_first());
    }
}

pub proof fn lemma_str_le_trans(a: Seq<char>, b: Seq<char>, c: Seq<char>)
    requires
        str_le(a, b),
        str_le(b, c),
    ensures
        str_le(a, c),
    decreases a.len(),
{
    if a.len() == 0 {
    } else if b.len() == 0 {
        assert(false);
    } else if c.len() == 0 {
        assert(false);
    } else {
        if a[0] == b[0] && b[0] == c[0] {
            lemma_str_le_trans(a.drop_first(), b.drop_first(), c.drop_first());
        }
    }
}

/// Some entry of `y` equals `e`.
pub open spec fn entry_matched(e: (Seq<char>, JsonModel), y: Seq<(Seq<char>, JsonModel)>) -> bool {
    exists|j: int| 0 <= j < y.len() && #[trigger] y[j] == e
}

/// Entry sequences sorted by key.
pub open spec fn sorted_keys(s: Seq<(Seq<char>, JsonModel)>) -> bool {
    forall|i: int, j: int| 0 <= i < j < s.len() ==> str_le(
        (#[trigger] s[i]).0,
        (#[trigger] s[j]).0,
    )
}

proof fn lemma_insert_entry_multiset(e: (Seq<char>, JsonModel), s: Seq<(Seq<char>, JsonModel)>)
    ensures
        insert_entry(e, s).to_multiset() =~= s.to_multiset().insert(e),
    decreases s.len(),
{
    broadcast use vstd::seq_lib::group_to_multiset_ensures;

    if s.len() == 0 {
        assert(seq![e] =~= Seq::<(Seq<char>, JsonModel)>::empty().push(e));
    } else if str_le(e.0, s[0].0) {
        assert(seq![e] + s =~= (seq![e] + s.drop_last()).push(s.last()));
        lemma_multiset_commutative(seq![e], s);
        assert(seq![e] =~= Seq::<(Seq<char>, JsonModel)>::empty().push(e));
        assert((seq![e] + s).to_multiset() =~= seq![e].to_multiset().add(s.to_multiset()));
        assert(seq![e].to_multiset() =~= Multiset::<(Seq<char>, JsonModel)>::empty().insert(e));
        assert((seq![e] + s).to_multiset() =~= s.to_multiset().insert(e));
    } else {
        let t = s.drop_first();
        lemma_insert_entry_multiset(e, t);
        lemma_multiset_commutative(seq![s[0]], insert_entry(e, t));
        assert(seq![s[0]] =~= Seq::<(Seq<char>, JsonModel)>::empty().push(s[0]));
        assert((seq![s[0]] + insert_entry(e, t)).to_multiset() =~= insert_entry(
            e,
            t,
        ).to_multiset().insert(s[0]));
        assert(s =~= seq![s[0]] + t);
        lemma_multiset_commutative(seq![s[0]], t);
        assert(s.to_multiset() =~= t.to_multiset().insert(s[0]));
        assert(insert_entry(e, s).to_multiset() =~= t.to_multiset().insert(e).insert(s[0]));
        assert(t.to_multiset().insert(e).insert(s[0]) =~= s.to_multiset().insert(e));
    }
}

proof fn lemma_insert_entry_sorted(e: (Seq<char>, JsonModel), s: Seq<(Seq<char>, JsonModel)>)
    requires
        sorted_keys(s),
    ensures
        sorted_keys(insert_entry(e, s)),
    decreases s.len(),
{
    broadcast use vstd::seq_lib::group_to_multiset_ensures;

    if s.len() == 0 {
    } else if str_le(e.0, s[0].0) {
        let r = seq![e] + s;
        assert forall|i: int, j: int| 0 <= i < j < r.len() implies str_le(
            (#[trigger] r[i]).0,
            (#[trigger] r[j]).0,
        ) by {
            if i == 0 {
                if j == 1 {
                } else {
                    lemma_str_le_trans(e.0, s[0].0, s[j - 1].0);
                }
            }
        }
    } else {
        let t = s.drop_first();
        assert(forall|i: int, j: int|
            0 <= i < j < t.len() ==> str_le((#[trigger] t[i]).0, (#[trigger] t[j]).0));
        lemma_insert_entry_sorted(e, t);
        lemma_str_le_total(e.0, s[0].0);
        assert(str_le(s[0].0, e.0));
        let it = insert_entry(e, t);
        lemma_insert_entry_multiset(e, t);
        let r = seq![s[0]] + it;
        assert forall|i: int, j: int| 0 <= i < j < r.len() implies str_le(
            (#[trigger] r[i]).0,
            (#[trigger] r[j]).0,
        ) by {
            if i == 0 {
                let x = it[j - 1];
                assert(it.to_multiset().contains(x));
                assert(it.to_multiset() =~= t.to_multiset().insert(e));
                if x == e {
                    assert(str_le(s[0].0, x.0));
                } else {
                    assert(t.to_multiset().contains(x));
                    assert(t.contains(x));
                    let k = choose|k: int| 0 <= k < t.len() && t[k] == x;
                    assert(str_le(s[0].0, s[k + 1].0));
                }
            }
        }
    }
}

proof fn lemma_sort_entries_ensures(s: Seq<(Seq<char>, JsonModel)>)
    ensures
        sorted_keys(sort_entries(s)),
        sort_entries(s).to_multiset() =~= s.to_multiset(),
    decreases s.len(),
{
    broadcast use vstd::seq_lib::group_to_multiset_ensures;

    if s.len() == 0 {
    } else {
        lemma_sort_entries_ensures(s.drop_last());
        lemma_insert_entry_sorted(s.last(), sort_entries(s.drop_last()));
        lemma_insert_entry_multiset(s.last(), sort_entries(s.drop_last()));
        assert(s =~= s.drop_last().push(s.last()));
        assert(s.to_multiset() =~= s.drop_last().to_multiset().insert(s.last()));
    }
}

proof fn lemma_sorted_entries_unique(x: Seq<(Seq<char>, JsonModel)>, y: Seq<(Seq<char>, JsonModel)>)
    requires
        sorted_keys(x),
        sorted_keys(y),
        unique_keys(x),
        unique_keys(y),
        x.to_multiset() == y.to_multiset(),
    ensures
        x =~= y,
    decreases x.len(),
{
    broadcast use vstd::seq_lib::group_to_multiset_ensures;

    if x.len() == 0 {
        assert(x.len() == x.to_multiset().len());
        assert(y.len() == y.to_multiset().len());
        assert(y.len() == 0);
    } else {
        assert(x.len() == x.to_multiset().len());
        assert(y.len() == y.to_multiset().len());
        assert(y.len() > 0);
        assert(x.contains(x[0]));
        assert(x.to_multiset().contains(x[0]));
        assert(y.to_multiset().contains(x[0]));
        assert(y.contains(x[0]));
        let j = choose|j: int| 0 <= j < y.len() && y[j] == x[0];
        assert(y.contains(y[0]));
        assert(y.to_multiset().contains(y[0]));
        assert(x.to_multiset().contains(y[0]));
        assert(x.contains(y[0]));
        let i = choose|i: int| 0 <= i < x.len() && x[i] == y[0];
        if i == 0 {
            lemma_str_le_refl(x[0].0);
            assert(str_le(x[0].0, y[0].0));
        } else {
            assert(str_le(x[0].0, x[i].0));
            assert(str_le(x[0].0, y[0].0));
        }
        if j == 0 {
            lemma_str_le_refl(y[0].0);
            assert(str_le(y[0].0, x[0].0));
        } else {
            assert(str_le(y[0].0, y[j].0));
            assert(str_le(y[0].0, x[0].0));
        }
        lemma_str_le_antisym(x[0].0, y[0].0);
        assert(x[0].0 == y[0].0);
        if j != 0 {
            assert(y[0].0 == y[j].0);
            assert(false);
        }
        assert(x[0] == y[0]);
        let xt = x.drop_first();
        let yt = y.drop_first();
        assert(xt =~= x.remove(0));
        assert(yt =~= y.remove(0));
        assert(xt.to_multiset() =~= x.to_multiset().remove(x[0]));
        assert(yt.to_multiset() =~= y.to_multiset().remove(y[0]));
        assert(forall|i1: int, j1: int|
            0 <= i1 < j1 < xt.len() ==> (#[trigger] xt[i1]).0 != (#[trigger] xt[j1]).0);
        assert(forall|i1: int, j1: int|
            0 <= i1 < j1 < yt.len() ==> (#[trigger] yt[i1]).0 != (#[trigger] yt[j1]).0);
        assert(forall|i1: int, j1: int|
            0 <= i1 < j1 < xt.len() ==> str_le((#[trigger] xt[i1]).0, (#[trigger] xt[j1]).0));
        assert(forall|i1: int, j1: int|
            0 <= i1 < j1 < yt.len() ==> str_le((#[trigger] yt[i1]).0, (#[trigger] yt[j1]).0));
        lemma_sorted_entries_unique(xt, yt);
        assert(x =~= seq![x[0]] + xt);
        assert(y =~= seq![y[0]] + yt);
    }
}

proof fn lemma_matching_multiset(x: Seq<(Seq<char>, JsonModel)>, y: Seq<(Seq<char>, JsonModel)>)
    requires
        x.len() == y.len(),
        unique_keys(x),
        unique_keys(y),
        forall|i: int| 0 <= i < x.len() ==> entry_matched(#[trigger] x[i], y),
    ensures
        x.to_multiset() =~= y.to_multiset(),
    decreases x.len(),
{
    broadcast use vstd::seq_lib::group_to_multiset_ensures;

    if x.len() == 0 {
    } else {
        let n = x.len() as int;
        let e = x[n - 1];
        assert(entry_matched(e, y));
        let j = choose|j: int| 0 <= j < y.len() && #[trigger] y[j] == e;
        let xt = x.drop_last();
        let yt = y.remove(j);
        assert(xt =~= x.remove(n - 1));
        assert(xt.to_multiset() =~= x.to_multiset().remove(e));
        assert(yt.to_multiset() =~= y.to_multiset().remove(e));
        assert(forall|i1: int, j1: int|
            0 <= i1 < j1 < xt.len() ==> (#[trigger] xt[i1]).0 != (#[trigger] xt[j1]).0);
        assert forall|i1: int, j1: int| 0 <= i1 < j1 < yt.len() implies (#[trigger] yt[i1]).0 != (
        #[trigger] yt[j1]).0 by {
            let a1 = if i1 < j { i1 } else { i1 + 1 };
            let b1 = if j1 < j { j1 } else { j1 + 1 };
            assert(yt[i1] == y[a1]);
            assert(yt[j1] == y[b1]);
        }
        assert forall|i: int| 0 <= i < xt.len() implies entry_matched(#[trigger] xt[i], yt) by {
            assert(xt[i] == x[i]);
            assert(entry_matched(x[i], y));
            let j1 = choose|j1: int| 0 <= j1 < y.len() && #[trigger] y[j1] == x[i];
            assert(x[i].0 != e.0);
            assert(y[j1].0 != y[j].0 || j1 == j);
            assert(j1 != j);
            if j1 < j {
                assert(yt[j1] == y[j1]);
                assert(yt[j1] == xt[i]);
            } else {
                assert(yt[j1 - 1] == y[j1]);
                assert(yt[j1 - 1] == xt[i]);
            }
        }
        lemma_matching_multiset(xt, yt);
        assert(x =~= xt.push(e));
        assert(x.to_multiset() =~= xt.to_multiset().insert(e));
        assert(y.contains(y[j]));
        assert(y.to_multiset().contains(e));
        assert(y.to_multiset() =~= y.to_multiset().remove(e).insert(e));
    }
}

/// Similar values canonicalize identically.
pub proof fn lemma_similar_canon_equal(a: JsonModel, b: JsonModel)
    requires
        json_similar(a, b),
    ensures
        canon(a) == canon(b),
    decreases a,
{
    match (a, b) {
        (JsonModel::Arr(xs), JsonModel::Arr(ys)) => {
            lemma_canon_seq_len(xs);
            lemma_canon_seq_len(ys);
            assert forall|i: int| 0 <= i < xs.len() implies #[trigger] canon_seq(xs)[i]
                == canon_seq(ys)[i] by {
                lemma_canon_seq_index(xs, i);
                lemma_canon_seq_index(ys, i);
                assert(json_similar(xs[i], ys[i]));
                lemma_similar_canon_equal(xs[i], ys[i]);
            }
            assert(canon_seq(xs) =~= canon_seq(ys));
        },
        (JsonModel::Obj(xs), JsonModel::Obj(ys)) => {
            let cx = canon_entries(xs);
            let cy = canon_entries(ys);
            lemma_canon_entries_len(xs);
            lemma_canon_entries_len(ys);
            assert forall|i1: int, j1: int| 0 <= i1 < j1 < cx.len() implies (
            #[trigger] cx[i1]).0 != (#[trigger] cx[j1]).0 by {
                lemma_canon_entries_index(xs, i1);
                lemma_canon_entries_index(xs, j1);
            }
            assert forall|i1: int, j1: int| 0 <= i1 < j1 < cy.len() implies (
            #[trigger] cy[i1]).0 != (#[trigger] cy[j1]).0 by {
                lemma_canon_entries_index(ys, i1);
                lemma_canon_entries_index(ys, j1);
            }
            assert forall|i: int| 0 <= i < cx.len() implies entry_matched(#[trigger] cx[i], cy) by {
                lemma_canon_entries_index(xs, i);
                let j = choose|j: int|
                    0 <= j < ys.len() && (#[trigger] ys[j]).0 == xs[i].0 && json_similar(
                        xs[i].1,
                        ys[j].1,
                    );
                lemma_canon_entries_index(ys, j);
                lemma_similar_canon_equal(xs[i].1, ys[j].1);
                assert(cy[j] == cx[i]);
                assert(entry_matched(cx[i], cy));
            }
            lemma_matching_multiset(cx, cy);
            lemma_sort_entries_ensures(cx);
            lemma_sort_entries_ensures(cy);
            lemma_sort_unique_keys(cx);
            lemma_sort_unique_keys(cy);
            lemma_sorted_entries_unique(sort_entries(cx), sort_entries(cy));
            assert(sort_entries(cx) == sort_entries(cy));
        },
        _ => {},
    }
}

proof fn lemma_sort_unique_keys(s: Seq<(Seq<char>, JsonModel)>)
    requires
        unique_keys(s),
    ensures
        unique_keys(sort_entries(s)),
{
    broadcast use vstd::seq_lib::group_to_multiset_ensures;

    lemma_sort_entries_ensures(s);
    let r = sort_entries(s);
    assert forall|i: int, j: int| 0 <= i < j < r.len() implies (#[trigger] r[i]).0 != (
    #[trigger] r[j]).0 by {
        if r[i] == r[j] {
            lemma_multiset_dup_position(r, i, j);
            assert(r.to_multiset().count(r[i]) >= 2);
            assert(s.to_multiset().count(r[i]) >= 2);
            lemma_multiset_two_positions(s, r[i]);
            let (p, q) = choose|p: int, q: int|
                0 <= p < q < s.len() && #[trigger] s[p] == r[i] && #[trigger] s[q] == r[i];
            assert(s[p].0 == s[q].0);
            assert(false);
        } else {
            if r[i].0 == r[j].0 {
                assert(r.contains(r[i]));
                assert(r.contains(r[j]));
                assert(s.to_multiset().contains(r[i]));
                assert(s.to_multiset().contains(r[j]));
                assert(s.contains(r[i]));
                assert(s.contains(r[j]));
                let p = choose|p: int| 0 <= p < s.len() && s[p] == r[i];
                let q = choose|q: int| 0 <= q < s.len() && s[q] == r[j];
                assert(p != q);
                assert(s[p].0 == s[q].0);
                assert(false);
            }
        }
    }
}

proof fn lemma_multiset_dup_position(s: Seq<(Seq<char>, JsonModel)>, i: int, j: int)
    requires
        0 <= i < j < s.len(),
        s[i] == s[j],
    ensures
        s.to_multiset().count(s[i]) >= 2,
    decreases s.len(),
{
    broadcast use vstd::seq_lib::group_to_multiset_ensures;

    let t = s.drop_last();
    if j == s.len() - 1 {
        assert(s =~= t.push(s[j]));
        assert(s.to_multiset() =~= t.to_multiset().insert(s[j]));
        assert(t[i] == s[i]);
        assert(t.contains(s[i]));
        assert(t.to_multiset().count(s[i]) >= 1);
    } else {
        lemma_multiset_dup_position(t, i, j);
        assert(s =~= t.push(s.last()));
        assert(s.to_multiset() =~= t.to_multiset().insert(s.last()));
        assert(t[i] == s[i]);
    }
}

proof fn lemma_multiset_two_positions(s: Seq<(Seq<char>, JsonModel)>, e: (Seq<char>, JsonModel))
    requires
        s.to_multiset().count(e) >= 2,
    ensures
        exists|p: int, q: int| 0 <= p < q < s.len() && #[trigger] s[p] == e && #[trigger] s[q]
            == e,
    decreases s.len(),
{
    broadcast use vstd::seq_lib::group_to_multiset_ensures;

    assert(s.to_multiset().contains(e));
    assert(s.contains(e));
    assert(s.len() >= 1);
    let t = s.drop_last();
    assert(s =~= t.push(s.last()));
    assert(s.to_multiset() =~= t.to_multiset().insert(s.last()));
    if s.last() == e {
        assert(t.to_multiset().count(e) >= 1);
        assert(t.contains(e));
        let p = choose|p: int| 0 <= p < t.len() && t[p] == e;
        assert(s[p] == e);
        assert(s[s.len() - 1] == e);
    } else {
        assert(t.to_multiset().count(e) >= 2);
        lemma_multiset_two_positions(t, e);
        let (p, q) = choose|p: int, q: int|
            0 <= p < q < t.len() && #[trigger] t[p] == e && #[trigger] t[q] == e;
        assert(s[p] == e && s[q] == e);
    }
}

/// Similar structured values fingerprint identically: the fingerprint of a
/// function call does not depend on the order of its object keys.
pub proof fn lemma_similar_fingerprints_equal(a: JsonModel, b: JsonModel)
    requires
        json_similar(a, b),
    ensures
        json_fingerprint(a) == json_fingerprint(b),
{
    lemma_similar_canon_equal(a, b);
}

/// Canonicalization keeps array order: the canonical form of an array is the
/// canonical form of each element, in the original order.  Arrays that hold
/// the same elements in different orders therefore keep distinct canonical
/// serializations.
pub proof fn lemma_canon_preserves_array_order(vs: Seq<JsonModel>)
    ensures
        canon(JsonModel::Arr(vs)) == JsonModel::Arr(canon_seq(vs)),
        canon_seq(vs).len() == vs.len(),
        forall|i: int| 0 <= i < vs.len() ==> #[trigger] canon_seq(vs)[i] == canon(vs[i]),
{
    lemma_canon_seq_len(vs);
    assert forall|i: int| 0 <= i < vs.len() implies #[trigger] canon_seq(vs)[i] == canon(
        vs[i],
    ) by {
        lemma_canon_seq_index(vs, i);
    }
}

} // verus!
