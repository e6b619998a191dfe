//! Fingerprints for thought-signature caching.
//!
//! A fingerprint is a 64-bit FNV-1a hash, taken over the trimmed text of a
//! thought part or over the canonical serialization of a structured value.
//! The hash is a fixed function, so equal inputs always fingerprint equally,
//! across runs and machines.

use vstd::prelude::*;
use crate::json::JsonValue;
use crate::canon::{canon, canonicalize};
use crate::ser::{ser, to_json_string};

verus! {

pub const FNV_OFFSET: u64 = 0xcbf29ce484222325;

pub const FNV_PRIME: u64 = 0x00000100000001b3;

/// One FNV-1a round: fold a character's code point into the state.
pub open spec fn fnv1a_step(h: u64, c: char) -> u64 {
    vstd::wrapping::u64_specs::wrapping_mul(h ^ (c as u64), FNV_PRIME)
}

/// The FNV-1a hash of a character sequence.
pub open spec fn fnv1a(s: Seq<char>) -> u64
    decreases s.len(),
{
    if s.len() == 0 {
        FNV_OFFSET
    } else {
        fnv1a_step(fnv1a(s.drop_last()), s.last())
    }
}

/// ASCII whitespace, as `trim` removes it.
pub open spec fn is_ws(c: char) -> bool {
    c == ' ' || c == '\t' || c == '\n' || c == '\r' || c == '\x0c'
}

pub open spec fn trim_front(s: Seq<char>) -> Seq<char>
    decreases s.len(),
{
    if s.len() > 0 && is_ws(s[0]) {
        trim_front(s.drop_first())
    } else {
        s
    }
}

pub open spec fn trim_back(s: Seq<char>) -> Seq<char>
    decreases s.len(),
{
    if s.len() > 0 && is_ws(s.last()) {
        trim_back(s.drop_last())
    } else {
        s
    }
}

/// The text with leading and trailing ASCII whitespace removed.
pub open spec fn trimmed(s: Seq<char>) -> Seq<char> {
    trim_back(trim_front(s))
}

/// The fingerprint of free text: none when nothing but whitespace remains.
pub open spec fn text_fingerprint(s: Seq<char>) -> Option<u64> {
    if trimmed(s).len() == 0 {
        None
    } else {
        Some(fnv1a(trimmed(s)))
    }
}

/// The fingerprint of a structured value: hash of the canonical serialization.
pub open spec fn json_fingerprint(m: crate::json::JsonModel) -> u64 {
    fnv1a(ser(canon(m)))
}

proof fn lemma_trim_front_is_skip(s: Seq<char>, i: int)
    requires
        0 <= i <= s.len(),
        forall|j: int| 0 <= j < i ==> is_ws(s[j]),
        i < s.len() ==> !is_ws(s[i]),
    ensures
        trim_front(s) =~= s.skip(i),
    decreases i,
{
    if i == 0 {
        assert(s.skip(0) =~= s);
    } else {
        assert(is_ws(s[0]));
        let t = s.drop_first();
        assert(forall|j: int| 0 <= j < i - 1 ==> is_ws(#[trigger] t[j]));
        lemma_trim_front_is_skip(t, i - 1);
        assert(t.skip(i - 1) =~= s.skip(i));
    }
}

proof fn lemma_trim_back_is_take(s: Seq<char>, i: int)
    requires
        0 <= i <= s.len(),
        forall|j: int| i <= j < s.len() ==> is_ws(s[j]),
        i > 0 ==> !is_ws(s[i - 1]),
    ensures
        trim_back(s) =~= s.take(i),
    decreases s.len() - i,
{
    if i == s.len() {
        if s.len() > 0 && is_ws(s.last()) {
            let t = s.drop_last();
            assert(forall|j: int| i - 1 <= j < t.len() ==> is_ws(#[trigger] t[j]));
            lemma_trim_back_is_take(t, i - 1);
            assert(t.take(i - 1) =~= s.take(i - 1));
            assert(!is_ws(s[i - 1]) ==> false);
        } else {
            assert(s.take(i) =~= s);
        }
    } else {
        assert(is_ws(s.last()));
        let t = s.drop_last();
        assert(forall|j: int| i <= j < t.len() ==> is_ws(#[trigger] t[j]));
        lemma_trim_back_is_take(t, i);
        assert(t.take(i) =~= s.take(i));
    }
}

fn is_ws_exec(c: char) -> (r: bool)
    ensures
        r == is_ws(c),
{
    c == ' ' || c == '\t' || c == '\n' || c == '\r' || c == '\x0c'
}

fn scan_front(s: &str) -> (i: usize)
    ensures
        i <= s@.len(),
        forall|j: int| 0 <= j < i ==> is_ws(s@[j]),
        i < s@.len() ==> !is_ws(s@[i as int]),
{
    let n = s.unicode_len();
    let mut i: usize = 0;
    while i < n
        invariant
            n == s@.len(),
            i <= n,
            forall|j: int| 0 <= j < i ==> is_ws(s@[j]),
        decreases n - i,
    {
        if !is_ws_exec(s.get_char(i)) {
            return i;
        }
        i = i + 1;
    }
    i
}

fn scan_back(s: &str, lo: usize) -> (j: usize)
    requires
        lo <= s@.len(),
    ensures
        lo <= j <= s@.len(),
        forall|k: int| j <= k < s@.len() ==> is_ws(s@[k]),
        j > lo ==> !is_ws(s@[j - 1]),
{
    let n = s.unicode_len();
    let mut j: usize = n;
    while j > lo
        invariant
            n == s@.len(),
            lo <= j <= n,
            forall|k: int| j <= k < n ==> is_ws(s@[k]),
        decreases j,
    {
        if !is_ws_exec(s.get_char(j - 1)) {
            return j;
        }
        j = j - 1;
    }
    j
}

/// Remove leading and trailing ASCII whitespace.
pub fn trim_str<'a>(s: &'a str) -> (r: &'a str)
    ensures
        r@ == trimmed(s@),
{
    let i = scan_front(s);
    let j = scan_back(s, i);
    let r = s.substring_char(i, j);
    proof {
        lemma_trim_front_is_skip(s@, i as int);
        let f = s@.skip(i as int);
        assert(forall|k: int| j - i <= k < f.len() ==> is_ws(#[trigger] f[k]));
        if j > i {
            assert(f[j - i - 1] == s@[j - 1]);
        }
        lemma_trim_back_is_take(f, j - i);
        assert(f.take(j - i) =~= s@.subrange(i as int, j as int));
    }
    r
}

/// The FNV-1a hash of a text.
pub fn fnv1a_str(s: &str) -> (r: u64)
    ensures
        r == fnv1a(s@),
{
    let n = s.unicode_len();
    let mut h: u64 = FNV_OFFSET;
    let mut i: usize = 0;
    proof {
        assert(s@.take(0) =~= Seq::<char>::empty());
    }
    while i < n
        invariant
            n == s@.len(),
            i <= n,
            h == fnv1a(s@.take(i as int)),
        decreases n - i,
    {
        let c = s.get_char(i);
        h = (h ^ (c as u64)).wrapping_mul(FNV_PRIME);
        proof {
            assert(s@.take(i + 1).drop_last() =~= s@.take(i as int));
            assert(s@.take(i + 1).last() == s@[i as int]);
        }
        i = i + 1;
    }
    proof {
        assert(s@.take(n as int) =~= s@);
    }
    h
}

/// Fingerprints from text and from structured values.
#[derive(Debug, Default)]
pub struct CacheKeyGenerator;

impl CacheKeyGenerator {
    /// The fingerprint of free text: hash of the trimmed text, or nothing
    /// when only whitespace remains.
    pub fn generate_text(text: &str) -> (r: Option<u64>)
        ensures
            r == text_fingerprint(text@),
    {
        let t = trim_str(text);
        if t.unicode_len() == 0 {
            None
        } else {
            Some(fnv1a_str(t))
        }
    }

    /// The fingerprint of a structured value: hash of the canonical
    /// serialization, insensitive to object key order.
    pub fn generate_json(value: &JsonValue) -> (r: Option<u64>)
        ensures
            r == Some(json_fingerprint(value@)),
    {
        let c = canonicalize(value);
        let s = to_json_string(&c);
        Some(fnv1a_str(s.as_str()))
    }
}

/// Trimming is idempotent, so a fingerprint never depends on surrounding
/// whitespace: text and its trimmed form fingerprint identically.
pub proof fn lemma_text_fingerprint_trim_invariant(s: Seq<char>)
    ensures
        text_fingerprint(trimmed(s)) == text_fingerprint(s),
{
    lemma_trimmed_idempotent(s);
}

proof fn lemma_trim_front_no_leading_ws(s: Seq<char>)
    ensures
        trim_front(s).len() > 0 ==> !is_ws(trim_front(s)[0]),
    decreases s.len(),
{
    if s.len() > 0 && is_ws(s[0]) {
        lemma_trim_front_no_leading_ws(s.drop_first());
    }
}

proof fn lemma_trim_back_no_trailing_ws(s: Seq<char>)
    ensures
        trim_back(s).len() > 0 ==> !is_ws(trim_back(s).last()),
    decreases s.len(),
{
    if s.len() > 0 && is_ws(s.last()) {
        lemma_trim_back_no_trailing_ws(s.drop_last());
    }
}

proof fn lemma_trim_back_prefix(s: Seq<char>)
    ensures
        trim_back(s).len() <= s.len(),
        trim_back(s) =~= s.take(trim_back(s).len() as int),
    decreases s.len(),
{
    if s.len() > 0 && is_ws(s.last()) {
        lemma_trim_back_prefix(s.drop_last());
        assert(s.drop_last().take(trim_back(s).len() as int) =~= s.take(
            trim_back(s).len() as int,
        ));
    } else {
        assert(s.take(s.len() as int) =~= s);
    }
}

proof fn lemma_trimmed_idempotent(s: Seq<char>)
    ensures
        trimmed(trimmed(s)) == trimmed(s),
{
    let f = trim_front(s);
    let t = trim_back(f);
    lemma_trim_front_no_leading_ws(s);
    lemma_trim_back_prefix(f);
    if t.len() > 0 {
        assert(t[0] == f[0]);
        assert(!is_ws(t[0]));
        assert(trim_front(t) == t);
    } else {
        assert(trim_front(t) == t);
    }
    lemma_trim_back_no_trailing_ws(f);
    if t.len() > 0 {
        assert(trim_back(t) == t);
    } else {
        assert(trim_back(t) == t);
    }
}

} // verus!
