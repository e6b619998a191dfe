//! Per-model rate-limit deadlines of one credential.
//!
//! A small association table from model mask to cooldown deadline, with
//! unique masks.  Masks are opaque identity keys: entries under different
//! masks never interact.

use vstd::prelude::*;

verus! {

/// The deadline stored for a mask: first match in the table.
pub open spec fn rl_deadline(rl: Seq<(u64, u64)>, mask: u64) -> Option<u64>
    decreases rl.len(),
{
    if rl.len() == 0 {
        None
    } else if rl[0].0 == mask {
        Some(rl[0].1)
    } else {
        rl_deadline(rl.drop_first(), mask)
    }
}

/// Each mask appears at most once.
pub open spec fn rl_unique(rl: Seq<(u64, u64)>) -> bool {
    forall|i: int, j: int| 0 <= i < j < rl.len() ==> (#[trigger] rl[i]).0 != (#[trigger] rl[j]).0
}

/// Looking a mask up after appending an entry.
pub proof fn lemma_rl_deadline_push(rl: Seq<(u64, u64)>, e: (u64, u64), mask: u64)
    ensures
        rl_deadline(rl.push(e), mask) == (match rl_deadline(rl, mask) {
            Some(d) => Some(d),
            None => if e.0 == mask {
                Some(e.1)
            } else {
                None
            },
        }),
    decreases rl.len(),
{
    if rl.len() == 0 {
        assert(rl.push(e).len() == 1);
        assert(rl.push(e)[0] == e);
        assert(rl.push(e).drop_first() =~= Seq::<(u64, u64)>::empty());
        assert(rl_deadline(Seq::<(u64, u64)>::empty(), mask) is None);
        assert(rl_deadline(rl, mask) is None);
        if e.0 == mask {
            assert(rl_deadline(rl.push(e), mask) == Some(e.1));
        } else {
            assert(rl_deadline(rl.push(e), mask) is None);
        }
    } else {
        assert(rl.push(e)[0] == rl[0]);
        assert(rl.push(e).drop_first() =~= rl.drop_first().push(e));
        lemma_rl_deadline_push(rl.drop_first(), e, mask);
    }
}

/// Look a mask's deadline up.
pub fn rl_lookup(rl: &Vec<(u64, u64)>, mask: u64) -> (r: Option<u64>)
    ensures
        r == rl_deadline(rl@, mask),
{
    let n = rl.len();
    let mut i: usize = 0;
    proof {
        assert(rl@.skip(0) =~= rl@);
    }
    while i < n
        invariant
            n == rl@.len(),
            i <= n,
            rl_deadline(rl@, mask) == rl_deadline(rl@.skip(i as int), mask),
        decreases n - i,
    {
        proof {
            assert(rl@.skip(i as int)[0] == rl@[i as int]);
            assert(rl@.skip(i as int).drop_first() =~= rl@.skip(i + 1));
        }
        if rl[i].0 == mask {
            return Some(rl[i].1);
        }
        i = i + 1;
    }
    proof {
        assert(rl@.skip(n as int) =~= Seq::<(u64, u64)>::empty());
    }
    None
}

/// Record a cooldown: the mask's deadline becomes the later of the existing
/// and the new one; other masks are untouched.
pub fn rl_coalesce(rl: &mut Vec<(u64, u64)>, mask: u64, deadline: u64)
    requires
        rl_unique(old(rl)@),
    ensures
        rl_unique(final(rl)@),
        rl_deadline(final(rl)@, mask) == Some(
            match rl_deadline(old(rl)@, mask) {
                Some(d) => if d >= deadline {
                    d
                } else {
                    deadline
                },
                None => deadline,
            },
        ),
        forall|m: u64| m != mask ==> rl_deadline(final(rl)@, m) == rl_deadline(old(rl)@, m),
{
    let ghost orig = rl@;
    let n = rl.len();
    let mut out: Vec<(u64, u64)> = Vec::new();
    let mut i: usize = 0;
    proof {
        assert(orig.take(0) =~= Seq::<(u64, u64)>::empty());
    }
    while i < n
        invariant
            n == orig.len(),
            rl@ == orig,
            rl_unique(orig),
            i <= n,
            out@.len() == i,
            forall|q: int| 0 <= q < i ==> #[trigger] out@[q] == orig[q],
        decreases n - i,
    {
        out.push((rl[i].0, rl[i].1));
        i = i + 1;
    }
    proof {
        assert(out@ =~= orig);
    }
    let mut idx: usize = 0;
    let mut hit: bool = false;
    let mut pos: usize = 0;
    while idx < n
        invariant
            n == orig.len(),
            out@ == orig,
            idx <= n,
            !hit ==> forall|q: int| 0 <= q < idx ==> (#[trigger] orig[q]).0 != mask,
            hit ==> pos < idx && orig[pos as int].0 == mask,
        decreases n - idx,
    {
        if !hit && out[idx].0 == mask {
            hit = true;
            pos = idx;
        }
        idx = idx + 1;
    }
    if hit {
        let old_d = out[pos].1;
        let new_d = if old_d >= deadline {
            old_d
        } else {
            deadline
        };
        let ghost removed = out@.remove(pos as int);
        out.remove(pos);
        out.insert(pos, (mask, new_d));
        proof {
            assert(out@ =~= orig.update(pos as int, (mask, new_d)));
            lemma_rl_update(orig, pos as int, new_d, mask);
            lemma_rl_found(orig, pos as int, mask);
        }
        *rl = out;
    } else {
        out.push((mask, deadline));
        proof {
            lemma_rl_deadline_push(orig, (mask, deadline), mask);
            assert forall|m: u64| m != mask implies rl_deadline(out@, m) == rl_deadline(
                orig,
                m,
            ) by {
                lemma_rl_deadline_push(orig, (mask, deadline), m);
            }
            lemma_rl_not_found(orig, mask);
            assert forall|q1: int, q2: int| 0 <= q1 < q2 < out@.len() implies (
            #[trigger] out@[q1]).0 != (#[trigger] out@[q2]).0 by {
                if q2 == out@.len() - 1 {
                    assert(out@[q1] == orig[q1]);
                }
            }
        }
        *rl = out;
    }
}

/// With unique masks, no earlier entry hides an update at the found
/// position.
proof fn lemma_rl_found(rl: Seq<(u64, u64)>, pos: int, mask: u64)
    requires
        rl_unique(rl),
        0 <= pos < rl.len(),
        rl[pos].0 == mask,
    ensures
        rl_deadline(rl, mask) == Some(rl[pos].1),
    decreases rl.len(),
{
    if pos == 0 {
    } else {
        assert(rl[0].0 != mask);
        let t = rl.drop_first();
        assert(forall|i: int, j: int|
            0 <= i < j < t.len() ==> (#[trigger] t[i]).0 != (#[trigger] t[j]).0);
        lemma_rl_found(t, pos - 1, mask);
    }
}

proof fn lemma_rl_not_found(rl: Seq<(u64, u64)>, mask: u64)
    requires
        forall|q: int| 0 <= q < rl.len() ==> (#[trigger] rl[q]).0 != mask,
    ensures
        rl_deadline(rl, mask) is None,
    decreases rl.len(),
{
    if rl.len() > 0 {
        let t = rl.drop_first();
        assert(forall|q: int| 0 <= q < t.len() ==> (#[trigger] t[q]).0 != mask);
        lemma_rl_not_found(t, mask);
    }
}

proof fn lemma_rl_update(rl: Seq<(u64, u64)>, pos: int, new_d: u64, mask: u64)
    requires
        rl_unique(rl),
        0 <= pos < rl.len(),
        rl[pos].0 == mask,
    ensures
        rl_unique(rl.update(pos, (mask, new_d))),
        rl_deadline(rl.update(pos, (mask, new_d)), mask) == Some(new_d),
        forall|m: u64| m != mask ==> rl_deadline(rl.update(pos, (mask, new_d)), m)
            == rl_deadline(rl, m),
{
    let u = rl.update(pos, (mask, new_d));
    assert forall|i: int, j: int| 0 <= i < j < u.len() implies (#[trigger] u[i]).0 != (
    #[trigger] u[j]).0 by {
        assert(rl[i].0 != rl[j].0);
    }
    lemma_rl_found(u, pos, mask);
    assert forall|m: u64| m != mask implies rl_deadline(u, m) == rl_deadline(rl, m) by {
        lemma_rl_other(rl, pos, new_d, mask, m);
    }
}

proof fn lemma_rl_other(rl: Seq<(u64, u64)>, pos: int, new_d: u64, mask: u64, m: u64)
    requires
        0 <= pos < rl.len(),
        rl[pos].0 == mask,
        m != mask,
    ensures
        rl_deadline(rl.update(pos, (mask, new_d)), m) == rl_deadline(rl, m),
    decreases rl.len(),
{
    let u = rl.update(pos, (mask, new_d));
    if pos == 0 {
        assert(u[0].0 == mask);
        assert(rl[0].0 == mask);
        assert(u.drop_first() =~= rl.drop_first());
    } else {
        assert(u[0] == rl[0]);
        if rl[0].0 == m {
        } else {
            assert(u.drop_first() =~= rl.drop_first().update(pos - 1, (mask, new_d)));
            lemma_rl_other(rl.drop_first(), pos - 1, new_d, mask, m);
        }
    }
}

/// Drop every entry whose deadline has passed.
pub fn rl_sweep(rl: &mut Vec<(u64, u64)>, now: u64)
    requires
        rl_unique(old(rl)@),
    ensures
        rl_unique(final(rl)@),
        forall|m: u64| rl_deadline(final(rl)@, m) == (match rl_deadline(old(rl)@, m) {
            Some(d) => if d > now {
                Some(d)
            } else {
                None
            },
            None => None,
        }),
{
    let ghost orig = rl@;
    let n = rl.len();
    let mut out: Vec<(u64, u64)> = Vec::new();
    let mut i: usize = 0;
    proof {
        assert(orig.take(0) =~= Seq::<(u64, u64)>::empty());
        assert forall|m: u64| rl_deadline(out@, m) == (match rl_deadline(orig.take(0), m) {
            Some(d) => if d > now {
                Some(d)
            } else {
                None
            },
            None => None,
        }) by {
            assert(out@.len() == 0);
        }
    }
    while i < n
        invariant
            n == orig.len(),
            rl@ == orig,
            rl_unique(orig),
            i <= n,
            rl_unique(out@),
            forall|q: int| 0 <= q < out@.len() ==> exists|p: int|
                0 <= p < i && #[trigger] out@[q] == orig[p],
            forall|m: u64| rl_deadline(out@, m) == (match rl_deadline(orig.take(i as int), m) {
                Some(d) => if d > now {
                    Some(d)
                } else {
                    None
                },
                None => None,
            }),
        decreases n - i,
    {
        let e = (rl[i].0, rl[i].1);
        proof {
            assert(orig.take(i + 1).drop_last() =~= orig.take(i as int));
            assert(orig.take(i + 1).last() == orig[i as int]);
            assert forall|m: u64|
                #![trigger rl_deadline(orig.take(i + 1), m)]
                rl_deadline(orig.take(i + 1), m) == (match rl_deadline(
                orig.take(i as int),
                m,
            ) {
                Some(d) => Some(d),
                None => if orig[i as int].0 == m {
                    Some(orig[i as int].1)
                } else {
                    None
                },
            }) by {
                lemma_rl_deadline_push(orig.take(i as int), orig[i as int], m);
                assert(orig.take(i as int).push(orig[i as int]) =~= orig.take(i + 1));
            }
        }
        if e.1 > now {
            let ghost out0 = out@;
            out.push(e);
            proof {
                assert forall|q1: int, q2: int| 0 <= q1 < q2 < out@.len() implies (
                #[trigger] out@[q1]).0 != (#[trigger] out@[q2]).0 by {
                    if q2 == out@.len() - 1 {
                        let p = choose|p: int| 0 <= p < i && #[trigger] out0[q1] == orig[p];
                        assert(orig[p].0 != orig[i as int].0);
                    }
                }
                assert forall|m: u64| rl_deadline(out@, m) == (match rl_deadline(
                    orig.take(i + 1),
                    m,
                ) {
                    Some(d) => if d > now {
                        Some(d)
                    } else {
                        None
                    },
                    None => None,
                }) by {
                    lemma_rl_deadline_push(out0, e, m);
                    if m == e.0 {
                        lemma_rl_unique_mask_deadline(orig, i as int, now, out0, m);
                    }
                }
            }
        } else {
            proof {
                assert forall|m: u64| rl_deadline(out@, m) == (match rl_deadline(
                    orig.take(i + 1),
                    m,
                ) {
                    Some(d) => if d > now {
                        Some(d)
                    } else {
                        None
                    },
                    None => None,
                }) by {
                    if m == e.0 {
                        lemma_rl_unique_mask_deadline(orig, i as int, now, out@, m);
                    }
                }
            }
        }
        i = i + 1;
    }
    proof {
        assert(orig.take(n as int) =~= orig);
    }
    *rl = out;
}

/// With unique masks, the mask of the entry at `i` is not found among the
/// first `i` entries.
proof fn lemma_rl_unique_mask_deadline(
    orig: Seq<(u64, u64)>,
    i: int,
    now: u64,
    out: Seq<(u64, u64)>,
    m: u64,
)
    requires
        rl_unique(orig),
        0 <= i < orig.len(),
        orig[i].0 == m,
        forall|q: int| 0 <= q < out.len() ==> exists|p: int| 0 <= p < i && #[trigger] out[q]
            == orig[p],
    ensures
        rl_deadline(orig.take(i), m) is None,
        rl_deadline(out, m) is None,
{
    assert forall|q: int| 0 <= q < orig.take(i).len() implies (#[trigger] orig.take(i)[q]).0
        != m by {
        assert(orig.take(i)[q] == orig[q]);
        assert(orig[q].0 != orig[i].0);
    }
    lemma_rl_not_found(orig.take(i), m);
    assert forall|q: int| 0 <= q < out.len() implies (#[trigger] out[q]).0 != m by {
        let p = choose|p: int| 0 <= p < i && #[trigger] out[q] == orig[p];
        assert(orig[p].0 != orig[i].0);
    }
    lemma_rl_not_found(out, m);
}

} // verus!
