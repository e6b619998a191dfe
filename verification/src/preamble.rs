//! The system-instruction preamble.
//!
//! Some model families served through Antigravity need a fixed system
//! preamble.  Injection is marker-driven: if the existing system text
//! already contains the marker, case-insensitively, the body is left
//! untouched, so retries never accumulate preambles.

use vstd::prelude::*;
use crate::gemini::{GeminiPart, GeminiContent, GeminiGenerateContentRequest};
use crate::shim::push_char;

verus! {

/// The fixed preamble, marker first.
pub open spec fn preamble_text() -> Seq<char> {
    "**Proactiveness**\nBe proactive: anticipate follow-up work, surface risks early, and state assumptions explicitly."@
}

/// The marker whose presence means the preamble is already in place.
pub open spec fn marker_text() -> Seq<char> {
    "**proactiveness**"@
}

/// The fixed preamble, marker first.
pub fn system_preamble() -> (r: &'static str)
    ensures
        r@ == preamble_text(),
{
    "**Proactiveness**\nBe proactive: anticipate follow-up work, surface risks early, and state assumptions explicitly."
}

/// ASCII lowercase of one character.
pub open spec fn lower_char(c: char) -> char {
    if 'A' <= c && c <= 'Z' {
        (((c as u8) + 32) as char)
    } else {
        c
    }
}

/// ASCII lowercase, other characters untouched.
pub open spec fn to_lower(s: Seq<char>) -> Seq<char> {
    Seq::new(s.len(), |i: int| lower_char(s[i]))
}

/// `sub` occurs in `s` starting at `i`.
pub open spec fn occurs_at(s: Seq<char>, sub: Seq<char>, i: int) -> bool {
    0 <= i && i + sub.len() <= s.len() && s.subrange(i, i + sub.len()) == sub
}

/// `sub` occurs somewhere in `s`.
pub open spec fn contains_seq(s: Seq<char>, sub: Seq<char>) -> bool {
    exists|i: int| occurs_at(s, sub, i)
}

/// The text holds the preamble marker, case-insensitively.
pub open spec fn has_marker(s: Seq<char>) -> bool {
    contains_seq(to_lower(s), marker_text())
}

fn lower_char_exec(c: char) -> (r: char)
    ensures
        r == lower_char(c),
{
    if 'A' <= c && c <= 'Z' {
        ((c as u8) + 32) as char
    } else {
        c
    }
}

/// ASCII-lowercase a text.
pub fn to_lower_exec(s: &str) -> (r: String)
    ensures
        r@ == to_lower(s@),
{
    let n = s.unicode_len();
    let mut out = String::new();
    let mut i: usize = 0;
    while i < n
        invariant
            n == s@.len(),
            i <= n,
            out@.len() == i,
            forall|j: int| 0 <= j < i ==> out@[j] == lower_char(s@[j]),
        decreases n - i,
    {
        push_char(&mut out, lower_char_exec(s.get_char(i)));
        i = i + 1;
    }
    proof {
        assert(out@ =~= to_lower(s@));
    }
    out
}

/// Whether `needle` occurs in `hay`.
pub fn contains_str(hay: &str, needle: &str) -> (r: bool)
    ensures
        r == contains_seq(hay@, needle@),
{
    let nh = hay.unicode_len();
    let nn = needle.unicode_len();
    if nn > nh {
        proof {
            assert forall|i: int| !occurs_at(hay@, needle@, i) by {}
        }
        return false;
    }
    if nn == 0 {
        proof {
            assert(hay@.subrange(0, 0) =~= needle@);
            assert(occurs_at(hay@, needle@, 0));
        }
        return true;
    }
    let mut i: usize = 0;
    while i <= nh - nn
        invariant
            nh == hay@.len(),
            nn == needle@.len(),
            0 < nn <= nh,
            i <= nh - nn + 1,
            forall|p: int| 0 <= p < i ==> !occurs_at(hay@, needle@, p),
        decreases nh - nn + 1 - i,
    {
        let mut j: usize = 0;
        let mut ok = true;
        while j < nn
            invariant
                nh == hay@.len(),
                nn == needle@.len(),
                i + nn <= nh,
                j <= nn,
                ok ==> forall|q: int| 0 <= q < j ==> hay@[i + q] == needle@[q],
                !ok ==> !occurs_at(hay@, needle@, i as int),
            decreases nn - j,
        {
            if ok && hay.get_char(i + j) != needle.get_char(j) {
                proof {
                    assert(hay@.subrange(i as int, i + nn as int)[j as int] != needle@[j as int]);
                }
                ok = false;
            }
            j = j + 1;
        }
        if ok {
            proof {
                assert(hay@.subrange(i as int, i + nn as int) =~= needle@);
                assert(occurs_at(hay@, needle@, i as int));
            }
            return true;
        }
        i = i + 1;
    }
    proof {
        assert forall|p: int| !occurs_at(hay@, needle@, p) by {
            if 0 <= p <= nh - nn {
                assert(!occurs_at(hay@, needle@, p));
            }
        }
    }
    false
}

/// The system text the body must end up with.
pub open spec fn ensured_si_text(t: Option<Seq<char>>) -> Seq<char> {
    match t {
        Some(tx) => if has_marker(tx) {
            tx
        } else if tx.len() > 0 {
            preamble_text() + "\n"@ + tx
        } else {
            preamble_text()
        },
        None => preamble_text(),
    }
}

/// The text of the first system-instruction part, if any.
pub open spec fn existing_si_text(r: GeminiGenerateContentRequest) -> Option<Seq<char>> {
    match r.system_instruction {
        Some(c) => if c.parts@.len() > 0 {
            match c.parts@[0].text {
                Some(t) => Some(t@),
                None => None,
            }
        } else {
            None
        },
        None => None,
    }
}

/// Ensure the body carries the system preamble.  A body whose
/// system text already holds the marker is left exactly as it was; any
/// other body gets the preamble prepended to its system text.
pub fn ensure_system_preamble(body: &mut GeminiGenerateContentRequest)
    ensures
        (match existing_si_text(*old(body)) {
            Some(t) => has_marker(t),
            None => false,
        }) ==> *final(body) == *old(body),
        final(body).contents == old(body).contents,
        final(body).session_id == old(body).session_id,
        final(body).extra == old(body).extra,
        existing_si_text(*final(body)) == Some(ensured_si_text(existing_si_text(*old(body)))),
{
    let existing: Option<String> = match &body.system_instruction {
        Some(c) => {
            if c.parts.len() > 0 {
                match &c.parts[0].text {
                    Some(t) => Some(t.clone()),
                    None => None,
                }
            } else {
                None
            }
        },
        None => None,
    };
    match &existing {
        Some(t) => {
            let low = to_lower_exec(t.as_str());
            if contains_str(low.as_str(), "**proactiveness**") {
                proof {
                    assert(existing_si_text(*body) == Some(t@));
                    assert(has_marker(t@));
                    assert(ensured_si_text(existing_si_text(*old(body))) == t@);
                }
                return;
            }
        },
        None => {},
    }
    let mut text = String::from_str(system_preamble());
    match &existing {
        Some(t) => {
            if t.unicode_len() > 0 {
                text.append("\n");
                text.append(t.as_str());
            }
        },
        None => {},
    }
    proof {
        assert(text@ == ensured_si_text(existing_si_text(*old(body))));
    }
    let part = GeminiPart {
        text: Some(text),
        thought: None,
        function_call: None,
        thought_signature: None,
        extra: Vec::new(),
    };
    let mut parts: Vec<GeminiPart> = Vec::new();
    parts.push(part);
    let content = GeminiContent { role: None, parts, extra: Vec::new() };
    body.system_instruction = Some(content);
}

/// The preamble carries its own marker, so ensuring the instruction is
/// idempotent: what one pass produces, a second pass leaves unchanged.
pub proof fn lemma_ensure_idempotent(t: Option<Seq<char>>)
    ensures
        has_marker(ensured_si_text(t)),
        ensured_si_text(Some(ensured_si_text(t))) == ensured_si_text(t),
{
    lemma_preamble_has_marker();
    let e = ensured_si_text(t);
    match t {
        Some(tx) => {
            if has_marker(tx) {
                assert(e == tx);
            } else if tx.len() > 0 {
                lemma_marker_in_extension(tx);
            } else {
            }
        },
        None => {},
    }
    assert(has_marker(e));
}

/// The marker occurs at the head of the lowercased preamble.
proof fn lemma_preamble_has_marker()
    ensures
        has_marker(preamble_text()),
        occurs_at(to_lower(preamble_text()), marker_text(), 0),
{
    reveal_strlit("**Proactiveness**\nBe proactive: anticipate follow-up work, surface risks early, and state assumptions explicitly.");
    reveal_strlit("**proactiveness**");
    let low = to_lower(preamble_text());
    assert(low.subrange(0, 17) =~= marker_text());
    assert(occurs_at(low, marker_text(), 0));
}

/// A text that begins with the preamble keeps the marker.
proof fn lemma_marker_in_extension(tx: Seq<char>)
    ensures
        has_marker(preamble_text() + "\n"@ + tx),
{
    lemma_preamble_has_marker();
    reveal_strlit("**Proactiveness**\nBe proactive: anticipate follow-up work, surface risks early, and state assumptions explicitly.");
    reveal_strlit("**proactiveness**");
    let whole = preamble_text() + "\n"@ + tx;
    let low = to_lower(whole);
    assert(preamble_text().len() >= 17);
    assert forall|i: int| 0 <= i < 17 implies low[i] == to_lower(preamble_text())[i] by {
        assert(whole[i] == preamble_text()[i]);
    }
    assert(low.subrange(0, 17) =~= to_lower(preamble_text()).subrange(0, 17));
    assert(low.subrange(0, 17) =~= marker_text());
    assert(occurs_at(low, marker_text(), 0));
}

} // verus!
