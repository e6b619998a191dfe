//! Downstream request preprocessing: model and mode from the route path.
//!
//! The model name is the last path segment, cut at a `:` rpc suffix; the
//! streaming mode is read off the path; the model must be in the
//! configured list and the catalog, which assigns its opaque mask.

use vstd::prelude::*;
use crate::gemini::GeminiGenerateContentRequest;
use crate::preamble::{ensure_system_preamble, contains_seq, existing_si_text,
    ensured_si_text};
use crate::text::str_eq;
use crate::shim::push_char;

verus! {

/// Call metadata of one Antigravity request.
#[derive(Debug)]
pub struct AntigravityContext {
    pub model: String,
    pub stream: bool,
    pub path: String,
    pub model_mask: u64,
}

/// The body limit of the Codex responses route, in bytes.
pub const CODEX_RESPONSES_BODY_LIMIT_BYTES: u64 = 104857600;

/// Call metadata of one Codex request.
#[derive(Debug)]
pub struct CodexContext {
    pub model: String,
    pub stream: bool,
    pub model_mask: u64,
}

/// A preprocessed request: the validated body and its call metadata.
#[derive(Debug)]
pub struct AntigravityPreprocess(pub GeminiGenerateContentRequest, pub AntigravityContext);

/// A downstream-visible rejection.
#[derive(Debug)]
pub struct RequestRejected {
    pub status: u16,
    pub code: String,
    pub message: String,
}

/// Where the last path segment begins: after the final slash.
pub open spec fn seg_start(s: Seq<char>) -> int
    decreases s.len(),
{
    if s.len() == 0 {
        0
    } else if s.last() == '/' {
        s.len() as int
    } else {
        seg_start(s.drop_last())
    }
}

/// The last path segment.
pub open spec fn last_segment(s: Seq<char>) -> Seq<char> {
    s.skip(seg_start(s))
}

/// The prefix before the first colon, or everything without one.
pub open spec fn colon_cut(s: Seq<char>) -> int
    decreases s.len(),
{
    if s.len() == 0 {
        0
    } else if s[0] == ':' {
        0
    } else {
        1 + colon_cut(s.drop_first())
    }
}

/// The model a route path names: the last segment, cut at `:`.
pub open spec fn model_of_path(s: Seq<char>) -> Seq<char> {
    last_segment(s).take(colon_cut(last_segment(s)))
}

proof fn lemma_seg_start_after(s: Seq<char>, i: int)
    requires
        0 <= i <= s.len(),
        forall|j: int| i <= j < s.len() ==> s[j] != '/',
        i > 0 ==> s[i - 1] == '/',
    ensures
        seg_start(s) == i,
    decreases s.len() - i,
{
    if i == s.len() {
        if s.len() > 0 && s.last() != '/' {
            lemma_seg_start_after(s.drop_last(), i - 1);
            assert(false);
        }
    } else {
        assert(s.last() != '/');
        let t = s.drop_last();
        assert(forall|j: int| i <= j < t.len() ==> t[j] != '/');
        lemma_seg_start_after(t, i);
    }
}

/// The model named by a route path: the last segment, cut at the rpc
/// suffix.
fn find_seg_start(path: &str) -> (start: usize)
    ensures
        start <= path@.len(),
        seg_start(path@) == start,
{
    let n = path.unicode_len();
    let mut start: usize = n;
    while start > 0
        invariant
            n == path@.len(),
            start <= n,
            forall|j: int| start <= j < n ==> path@[j] != '/',
        decreases start,
    {
        if path.get_char(start - 1) == '/' {
            proof {
                lemma_seg_start_after(path@, start as int);
            }
            return start;
        }
        start = start - 1;
    }
    proof {
        lemma_seg_start_after(path@, 0);
    }
    start
}

pub fn model_from_path(path: &str) -> (r: String)
    ensures
        r@ == model_of_path(path@),
{
    let n = path.unicode_len();
    let start = find_seg_start(path);
    let mut out = String::new();
    let mut i: usize = start;
    let ghost seg = path@.skip(start as int);
    while i < n
        invariant
            n == path@.len(),
            start <= i <= n,
            seg == path@.skip(start as int),
            seg_start(path@) == start as int,
            out@.len() == i - start,
            forall|j: int| start <= j < i ==> path@[j] != ':',
            forall|j: int| 0 <= j < i - start ==> out@[j] == path@[start + j],
        decreases n - i,
    {
        let c = path.get_char(i);
        if c == ':' {
            proof {
                lemma_colon_cut_prefix(seg, i - start);
            }
            proof {
                assert(out@ =~= seg.take(colon_cut(seg)));
            }
            return out;
        }
        push_char(&mut out, c);
        i = i + 1;
    }
    proof {
        lemma_colon_cut_all(seg);
        assert(out@ =~= seg.take(colon_cut(seg)));
    }
    out
}

proof fn lemma_colon_cut_prefix(s: Seq<char>, k: int)
    requires
        0 <= k < s.len(),
        forall|j: int| 0 <= j < k ==> s[j] != ':',
        s[k] == ':',
    ensures
        colon_cut(s) == k,
    decreases s.len(),
{
    if k == 0 {
    } else {
        let t = s.drop_first();
        assert(forall|j: int| 0 <= j < k - 1 ==> t[j] != ':');
        assert(t[k - 1] == ':');
        lemma_colon_cut_prefix(t, k - 1);
    }
}

proof fn lemma_colon_cut_all(s: Seq<char>)
    requires
        forall|j: int| 0 <= j < s.len() ==> s[j] != ':',
    ensures
        colon_cut(s) == s.len(),
    decreases s.len(),
{
    if s.len() > 0 {
        let t = s.drop_first();
        assert(forall|j: int| 0 <= j < t.len() ==> t[j] != ':');
        lemma_colon_cut_all(t);
    }
}

/// Whether the path selects the streaming route.
pub fn path_is_stream(path: &str) -> (r: bool)
    ensures
        r == contains_seq(path@, "streamGenerateContent"@),
{
    crate::preamble::contains_str(path, "streamGenerateContent")
}

/// Whether a model name is in the configured list.
pub fn model_in_list(model: &str, list: &Vec<String>) -> (r: bool)
    ensures
        r == (exists|i: int| 0 <= i < list@.len() && (#[trigger] list@[i])@ == model@),
{
    let n = list.len();
    let mut i: usize = 0;
    while i < n
        invariant
            n == list@.len(),
            i <= n,
            forall|q: int| 0 <= q < i ==> (#[trigger] list@[q])@ != model@,
        decreases n - i,
    {
        if str_eq(list[i].as_str(), model) {
            proof {
                assert((list@[i as int])@ == model@);
            }
            return true;
        }
        i = i + 1;
    }
    false
}

/// The position of a model in the catalog.
pub open spec fn catalog_index(catalog: Seq<String>, model: Seq<char>) -> Option<int>
    decreases catalog.len(),
{
    if catalog.len() == 0 {
        None
    } else if catalog[0]@ == model {
        Some(0int)
    } else {
        match catalog_index(catalog.drop_first(), model) {
            Some(i) => Some(i + 1),
            None => None,
        }
    }
}

/// Powers of two below the 64-bit range.
pub open spec fn pow2_spec(k: int) -> u64
    decreases k,
{
    if k <= 0 {
        1u64
    } else {
        ((pow2_spec(k - 1) * 2) % 0x10000000000000000) as u64
    }
}

/// The mask the static catalog assigns: one bit per catalog position; a
/// position beyond the 64 representable bits gets none.
pub open spec fn catalog_mask(catalog: Seq<String>, model: Seq<char>) -> Option<u64> {
    match catalog_index(catalog, model) {
        Some(i) => if i < 64 {
            Some(pow2_spec(i))
        } else {
            None
        },
        None => None,
    }
}

proof fn lemma_pow2_bound(k: int)
    requires
        0 <= k < 64,
    ensures
        1 <= pow2_spec(k),
        pow2_spec(k) == vstd::arithmetic::power2::pow2(k as nat),
        k < 63 ==> pow2_spec(k) < 0x8000000000000000u64,
    decreases k,
{
    vstd::arithmetic::power2::lemma2_to64();
    vstd::arithmetic::power2::lemma2_to64_rest();
    if k > 0 {
        lemma_pow2_bound(k - 1);
        vstd::arithmetic::power2::lemma_pow2_unfold(k as nat);
        assert(vstd::arithmetic::power2::pow2(k as nat) == 2 * vstd::arithmetic::power2::pow2(
            (k - 1) as nat,
        ));
        if k < 63 {
            vstd::arithmetic::power2::lemma_pow2_strictly_increases(k as nat, 63nat);
        }
        assert(vstd::arithmetic::power2::pow2(63nat) == 0x8000000000000000);
        if k == 63 {
            assert(vstd::arithmetic::power2::pow2(k as nat) < 0x10000000000000000);
        } else {
            assert(vstd::arithmetic::power2::pow2(k as nat) < 0x8000000000000000);
        }
    }
}

proof fn lemma_catalog_index_at(catalog: Seq<String>, model: Seq<char>, i: int)
    requires
        0 <= i < catalog.len(),
        (catalog[i])@ == model,
        forall|q: int| 0 <= q < i ==> (#[trigger] catalog[q])@ != model,
    ensures
        catalog_index(catalog, model) == Some(i),
    decreases catalog.len(),
{
    if i > 0 {
        let t = catalog.drop_first();
        assert(forall|q: int| 0 <= q < i - 1 ==> (#[trigger] t[q])@ != model);
        assert((t[i - 1])@ == model);
        lemma_catalog_index_at(t, model, i - 1);
    }
}

proof fn lemma_catalog_index_none(catalog: Seq<String>, model: Seq<char>)
    requires
        forall|q: int| 0 <= q < catalog.len() ==> (#[trigger] catalog[q])@ != model,
    ensures
        catalog_index(catalog, model) is None,
    decreases catalog.len(),
{
    if catalog.len() > 0 {
        let t = catalog.drop_first();
        assert(forall|q: int| 0 <= q < t.len() ==> (#[trigger] t[q])@ != model);
        lemma_catalog_index_none(t, model);
    }
}

/// The model's opaque mask: the bit of its catalog position, or nothing
/// for a model the catalog does not know or cannot represent.
pub fn model_mask(model: &str, catalog: &Vec<String>) -> (r: Option<u64>)
    ensures
        r == catalog_mask(catalog@, model@),
{
    let n = catalog.len();
    let mut i: usize = 0;
    while i < n
        invariant
            n == catalog@.len(),
            i <= n,
            forall|q: int| 0 <= q < i ==> (#[trigger] catalog@[q])@ != model@,
        decreases n - i,
    {
        if str_eq(catalog[i].as_str(), model) {
            proof {
                lemma_catalog_index_at(catalog@, model@, i as int);
            }
            if i < 64 {
                let mut mask: u64 = 1;
                let mut k: usize = 0;
                while k < i
                    invariant
                        k <= i,
                        i < 64,
                        mask == pow2_spec(k as int),
                        mask >= 1,
                    decreases i - k,
                {
                    proof {
                        lemma_pow2_bound(k as int);
                    }
                    mask = mask * 2;
                    k = k + 1;
                }
                return Some(mask);
            } else {
                return None;
            }
        }
        i = i + 1;
    }
    proof {
        lemma_catalog_index_none(catalog@, model@);
    }
    None
}

/// Whether one text begins with another.
pub open spec fn has_prefix(s: Seq<char>, p: Seq<char>) -> bool {
    s.len() >= p.len() && s.take(p.len() as int) == p
}

/// Whether `s` begins with `prefix`.
pub fn starts_with(s: &str, prefix: &str) -> (r: bool)
    ensures
        r == has_prefix(s@, prefix@),
{
    let n = s.unicode_len();
    let np = prefix.unicode_len();
    if np > n {
        return false;
    }
    let mut i: usize = 0;
    while i < np
        invariant
            n == s@.len(),
            np == prefix@.len(),
            np <= n,
            i <= np,
            forall|j: int| 0 <= j < i ==> s@[j] == prefix@[j],
        decreases np - i,
    {
        if s.get_char(i) != prefix.get_char(i) {
            proof {
                assert(s@.take(np as int)[i as int] != prefix@[i as int]);
            }
            return false;
        }
        i = i + 1;
    }
    proof {
        assert(s@.take(np as int) =~= prefix@);
    }
    true
}

impl AntigravityPreprocess {
    /// Validate a downstream request: read the model off the path, check
    /// it against the configured list and the catalog, read the streaming
    /// mode, and give the bodies of models in the preamble-bearing family
    /// — named by the configured prefix — the system preamble.
    ///
    /// A model absent from the list or the catalog is rejected with a 400
    /// whose message names it.
    pub fn from_request(
        path: String,
        body: GeminiGenerateContentRequest,
        model_list: &Vec<String>,
        catalog: &Vec<String>,
        preamble_prefix: &str,
    ) -> (r: Result<AntigravityPreprocess, RequestRejected>)
        ensures
            match r {
                Ok(pp) => {
                    &&& pp.1.model@ == model_of_path(path@)
                    &&& pp.1.stream == contains_seq(path@, "streamGenerateContent"@)
                    &&& pp.1.path == path
                    &&& Some(pp.1.model_mask) == catalog_mask(catalog@, model_of_path(path@))
                    &&& (exists|i: int| 0 <= i < model_list@.len() && (
                    #[trigger] model_list@[i])@ == model_of_path(path@))
                    &&& (has_prefix(model_of_path(path@), preamble_prefix@) ==> existing_si_text(
                        pp.0,
                    ) == Some(ensured_si_text(existing_si_text(body))))
                    &&& (!has_prefix(model_of_path(path@), preamble_prefix@) ==> pp.0 == body)
                    &&& pp.0.contents == body.contents
                    &&& pp.0.session_id == body.session_id
                    &&& pp.0.extra == body.extra
                },
                Err(e) => {
                    &&& e.status == 400
                    &&& e.code@ == "INVALID_ARGUMENT"@
                    &&& (!(exists|i: int|
                        0 <= i < model_list@.len() && (#[trigger] model_list@[i])@
                            == model_of_path(path@)) || catalog_mask(
                        catalog@,
                        model_of_path(path@),
                    ) is None)
                },
            },
    {
        let model = model_from_path(path.as_str());
        if !model_in_list(model.as_str(), model_list) {
            let mut message = String::from_str("unsupported model: ");
            message.append(model.as_str());
            return Err(
                RequestRejected {
                    status: 400,
                    code: String::from_str("INVALID_ARGUMENT"),
                    message,
                },
            );
        }
        let mask = match model_mask(model.as_str(), catalog) {
            Some(m) => m,
            None => {
                let mut message = String::from_str("unsupported model: ");
                message.append(model.as_str());
                return Err(
                    RequestRejected {
                        status: 400,
                        code: String::from_str("INVALID_ARGUMENT"),
                        message,
                    },
                );
            },
        };
        let stream = path_is_stream(path.as_str());
        let mut body = body;
        if starts_with(model.as_str(), preamble_prefix) {
            ensure_system_preamble(&mut body);
        }
        let ctx = AntigravityContext { model, stream, path, model_mask: mask };
        Ok(AntigravityPreprocess(body, ctx))
    }
}

} // verus!
