//! The credential table's schema script handling.
//!
//! The bundled DDL is one text of `;`-separated statements; executing it
//! means splitting at the semicolons, trimming each piece, and skipping
//! the empty ones.  The execution itself is the database driver's work;
//! the split is the logic here.

use vstd::prelude::*;
use crate::fingerprint::{trimmed, trim_str};

verus! {

/// The first semicolon's position, or the end.
pub open spec fn semi_cut(s: Seq<char>) -> int
    decreases s.len(),
{
    if s.len() == 0 {
        0
    } else if s[0] == ';' {
        0
    } else {
        1 + semi_cut(s.drop_first())
    }
}

/// The text split at its semicolons.
pub open spec fn split_semis(s: Seq<char>) -> Seq<Seq<char>>
    decreases s.len(),
{
    let c = semi_cut(s);
    if c < 0 || c >= s.len() {
        seq![s]
    } else {
        seq![s.take(c)] + split_semis(s.skip(c + 1))
    }
}

/// The pieces trimmed, empty ones dropped.
pub open spec fn keep_statements(pieces: Seq<Seq<char>>) -> Seq<Seq<char>>
    decreases pieces.len(),
{
    if pieces.len() == 0 {
        Seq::empty()
    } else {
        let rest = keep_statements(pieces.drop_first());
        if trimmed(pieces[0]).len() > 0 {
            seq![trimmed(pieces[0])] + rest
        } else {
            rest
        }
    }
}

/// The statements a schema script holds.
pub open spec fn sql_statements(s: Seq<char>) -> Seq<Seq<char>> {
    keep_statements(split_semis(s))
}

proof fn lemma_semi_cut_at(s: Seq<char>, k: int)
    requires
        0 <= k < s.len(),
        forall|j: int| 0 <= j < k ==> s[j] != ';',
        s[k] == ';',
    ensures
        semi_cut(s) == k,
    decreases s.len(),
{
    if k > 0 {
        let t = s.drop_first();
        assert(forall|j: int| 0 <= j < k - 1 ==> t[j] != ';');
        assert(t[k - 1] == ';');
        lemma_semi_cut_at(t, k - 1);
    }
}

proof fn lemma_semi_cut_none(s: Seq<char>)
    requires
        forall|j: int| 0 <= j < s.len() ==> s[j] != ';',
    ensures
        semi_cut(s) == s.len(),
    decreases s.len(),
{
    if s.len() > 0 {
        let t = s.drop_first();
        assert(forall|j: int| 0 <= j < t.len() ==> t[j] != ';');
        lemma_semi_cut_none(t);
    }
}

fn find_semi(s: &str) -> (c: usize)
    ensures
        c <= s@.len(),
        semi_cut(s@) == c,
{
    let n = s.unicode_len();
    let mut c: usize = 0;
    while c < n
        invariant
            n == s@.len(),
            c <= n,
            forall|j: int| 0 <= j < c ==> s@[j] != ';',
        decreases n - c,
    {
        if s.get_char(c) == ';' {
            proof {
                lemma_semi_cut_at(s@, c as int);
            }
            return c;
        }
        c = c + 1;
    }
    proof {
        lemma_semi_cut_none(s@);
    }
    c
}

/// Split a schema script into its statements: cut at semicolons, trim,
/// skip what is empty.
pub fn split_sql_statements(script: &str) -> (r: Vec<String>)
    ensures
        r@.len() == sql_statements(script@).len(),
        forall|i: int| 0 <= i < r@.len() ==> (#[trigger] r@[i])@ == sql_statements(script@)[i],
    decreases script@.len(),
{
    let n = script.unicode_len();
    let c = find_semi(script);
    if c == n {
        let piece = trim_str(script);
        let mut out: Vec<String> = Vec::new();
        if piece.unicode_len() > 0 {
            out.push(String::from_str(piece));
        }
        proof {
            assert(semi_cut(script@) == n as int);
            assert(split_semis(script@) =~= seq![script@]);
            assert(split_semis(script@)[0] == script@);
            assert(split_semis(script@).drop_first() =~= Seq::<Seq<char>>::empty());
            assert(keep_statements(Seq::<Seq<char>>::empty()) =~= Seq::<Seq<char>>::empty());
            if trimmed(script@).len() > 0 {
                assert(sql_statements(script@) =~= seq![trimmed(script@)]);
            } else {
                assert(sql_statements(script@) =~= Seq::<Seq<char>>::empty());
            }
        }
        out
    } else {
        let head = script.substring_char(0, c);
        let tail = script.substring_char(c + 1, n);
        proof {
            assert(head@ =~= script@.take(c as int));
            assert(tail@ =~= script@.skip(c + 1));
        }
        let mut rest = split_sql_statements(tail);
        let piece = trim_str(head);
        proof {
            assert(split_semis(script@) =~= seq![script@.take(c as int)] + split_semis(
                script@.skip(c + 1),
            ));
            assert(split_semis(script@)[0] == script@.take(c as int));
            assert(split_semis(script@).drop_first() =~= split_semis(script@.skip(c + 1)));
        }
        if piece.unicode_len() > 0 {
            let ghost before = rest@;
            rest.insert(0, String::from_str(piece));
            proof {
                assert(sql_statements(script@) =~= seq![trimmed(script@.take(c as int))]
                    + sql_statements(script@.skip(c + 1)));
                assert forall|i: int| 0 <= i < rest@.len() implies (#[trigger] rest@[i])@
                    == sql_statements(script@)[i] by {
                    if i > 0 {
                        assert(rest@[i] == before[i - 1]);
                    }
                }
            }
        } else {
            proof {
                assert(sql_statements(script@) =~= sql_statements(script@.skip(c + 1)));
            }
        }
        rest
    }
}

} // verus!
