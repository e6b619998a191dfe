//! Patching thought signatures into a request.
//!
//! Every part of a `role == "model"` turn that carries a function call or
//! marked thought text is a patch site.  A site that already carries a
//! signature keeps it; otherwise the store is consulted under the site's
//! fingerprint, and a miss gets the sentinel dummy.

use vstd::prelude::*;
use crate::engine::{ThoughtSignatureEngine, make_key_spec, count_keep, count_cached, count_dummy};
use crate::gemini::{GeminiPart, GeminiContent, GeminiGenerateContentRequest, role_is_model,
    part_is_target, part_key_input};
use crate::json::JsonValue;
use crate::types::{FillAction, FillDecision, FillStats};
use crate::text::str_eq;

verus! {

/// How one patched part relates to its original, given the store contents
/// `m`, the dummy sentinel, and the policy flags.
pub open spec fn part_patched(
    op: GeminiPart,
    np: GeminiPart,
    m: Map<u64, Seq<char>>,
    dummy: Seq<char>,
    trust: bool,
    fill: bool,
) -> bool {
    &&& np.text == op.text
    &&& np.thought == op.thought
    &&& np.function_call == op.function_call
    &&& np.extra == op.extra
    &&& if !part_is_target(op) || (op.thought_signature is Some && trust) || !fill {
        np.thought_signature == op.thought_signature
    } else {
        match np.thought_signature {
            Some(s) => match make_key_spec(part_key_input(op)) {
                Some(k) => m.contains_pair(k, s@) || s@ == dummy,
                None => s@ == dummy,
            },
            None => false,
        }
    }
}

/// How one patched turn relates to its original.
pub open spec fn content_patched(
    oc: GeminiContent,
    nc: GeminiContent,
    m: Map<u64, Seq<char>>,
    dummy: Seq<char>,
    trust: bool,
    fill: bool,
) -> bool {
    &&& nc.role == oc.role
    &&& nc.extra == oc.extra
    &&& nc.parts@.len() == oc.parts@.len()
    &&& if role_is_model(oc.role) {
        forall|j: int| 0 <= j < oc.parts@.len() ==> part_patched(
            #[trigger] oc.parts@[j],
            nc.parts@[j],
            m,
            dummy,
            trust,
            fill,
        )
    } else {
        nc.parts == oc.parts
    }
}

/// How a patched request relates to its original.
pub open spec fn request_patched(
    or: GeminiGenerateContentRequest,
    nr: GeminiGenerateContentRequest,
    m: Map<u64, Seq<char>>,
    dummy: Seq<char>,
    trust: bool,
    fill: bool,
) -> bool {
    &&& nr.system_instruction == or.system_instruction
    &&& nr.session_id == or.session_id
    &&& nr.extra == or.extra
    &&& nr.contents@.len() == or.contents@.len()
    &&& forall|i: int| 0 <= i < or.contents@.len() ==> content_patched(
        #[trigger] or.contents@[i],
        nr.contents@[i],
        m,
        dummy,
        trust,
        fill,
    )
}

/// Every patch site of this turn already carries a signature.
pub open spec fn content_all_signed(c: GeminiContent) -> bool {
    forall|j: int| 0 <= j < c.parts@.len() && part_is_target(#[trigger] c.parts@[j])
        ==> c.parts@[j].thought_signature is Some
}

/// Every patch site already carries a signature.
pub open spec fn all_targets_signed(r: GeminiGenerateContentRequest) -> bool {
    forall|i: int| 0 <= i < r.contents@.len() ==> content_all_signed(#[trigger] r.contents@[i])
        || !role_is_model(r.contents@[i].role)
}

/// The number of patch sites among a turn's parts.
pub open spec fn count_target_parts(ps: Seq<GeminiPart>) -> int
    decreases ps.len(),
{
    if ps.len() == 0 {
        0
    } else {
        count_target_parts(ps.drop_last()) + if part_is_target(ps.last()) {
            1int
        } else {
            0int
        }
    }
}

/// The number of patch sites among a turn's parts that carry a signature.
pub open spec fn count_signed_parts(ps: Seq<GeminiPart>) -> int
    decreases ps.len(),
{
    if ps.len() == 0 {
        0
    } else {
        count_signed_parts(ps.drop_last()) + if part_is_target(ps.last())
            && ps.last().thought_signature is Some {
            1int
        } else {
            0int
        }
    }
}

/// The number of patch sites of a request.
pub open spec fn count_targets(cs: Seq<GeminiContent>) -> int
    decreases cs.len(),
{
    if cs.len() == 0 {
        0
    } else {
        count_targets(cs.drop_last()) + if role_is_model(cs.last().role) {
            count_target_parts(cs.last().parts@)
        } else {
            0int
        }
    }
}

/// The number of patch sites of a request that carry a signature.
pub open spec fn count_signed_targets(cs: Seq<GeminiContent>) -> int
    decreases cs.len(),
{
    if cs.len() == 0 {
        0
    } else {
        count_signed_targets(cs.drop_last()) + if role_is_model(cs.last().role) {
            count_signed_parts(cs.last().parts@)
        } else {
            0int
        }
    }
}

/// A patch site the store could serve: unsigned (or untrusted), fillable,
/// and fingerprinting to a key the store currently holds.
pub open spec fn part_cacheable(
    p: GeminiPart,
    m: Map<u64, Seq<char>>,
    trust: bool,
    fill: bool,
) -> bool {
    &&& part_is_target(p)
    &&& !(p.thought_signature is Some && trust)
    &&& fill
    &&& match make_key_spec(part_key_input(p)) {
        Some(k) => m.dom().contains(k),
        None => false,
    }
}

/// The number of store-servable patch sites among a turn's parts.
pub open spec fn count_cacheable_parts(
    ps: Seq<GeminiPart>,
    m: Map<u64, Seq<char>>,
    trust: bool,
    fill: bool,
) -> int
    decreases ps.len(),
{
    if ps.len() == 0 {
        0
    } else {
        count_cacheable_parts(ps.drop_last(), m, trust, fill) + if part_cacheable(
            ps.last(),
            m,
            trust,
            fill,
        ) {
            1int
        } else {
            0int
        }
    }
}

/// The number of store-servable patch sites of a request.
pub open spec fn count_cacheable(
    cs: Seq<GeminiContent>,
    m: Map<u64, Seq<char>>,
    trust: bool,
    fill: bool,
) -> int
    decreases cs.len(),
{
    if cs.len() == 0 {
        0
    } else {
        count_cacheable(cs.drop_last(), m, trust, fill) + if role_is_model(cs.last().role) {
            count_cacheable_parts(cs.last().parts@, m, trust, fill)
        } else {
            0int
        }
    }
}

/// An empty store can serve no site: with nothing cached, every decision
/// is a keep or a dummy fill.
pub proof fn lemma_no_cacheable_sites_when_empty(
    cs: Seq<GeminiContent>,
    m: Map<u64, Seq<char>>,
    trust: bool,
    fill: bool,
)
    requires
        forall|k: u64| !m.dom().contains(k),
    ensures
        count_cacheable(cs, m, trust, fill) == 0,
    decreases cs.len(),
{
    if cs.len() > 0 {
        lemma_no_cacheable_sites_when_empty(cs.drop_last(), m, trust, fill);
        lemma_no_cacheable_parts_when_empty(cs.last().parts@, m, trust, fill);
    }
}

proof fn lemma_no_cacheable_parts_when_empty(
    ps: Seq<GeminiPart>,
    m: Map<u64, Seq<char>>,
    trust: bool,
    fill: bool,
)
    requires
        forall|k: u64| !m.dom().contains(k),
    ensures
        count_cacheable_parts(ps, m, trust, fill) == 0,
    decreases ps.len(),
{
    if ps.len() > 0 {
        lemma_no_cacheable_parts_when_empty(ps.drop_last(), m, trust, fill);
    }
}

proof fn lemma_cacheable_counts_nonneg(
    ps: Seq<GeminiPart>,
    m: Map<u64, Seq<char>>,
    trust: bool,
    fill: bool,
)
    ensures
        0 <= count_cacheable_parts(ps, m, trust, fill),
    decreases ps.len(),
{
    if ps.len() > 0 {
        lemma_cacheable_counts_nonneg(ps.drop_last(), m, trust, fill);
    }
}

proof fn lemma_part_counts_bounded(ps: Seq<GeminiPart>)
    ensures
        0 <= count_signed_parts(ps) <= count_target_parts(ps) <= ps.len(),
    decreases ps.len(),
{
    if ps.len() > 0 {
        lemma_part_counts_bounded(ps.drop_last());
    }
}

/// Whether any part of a model turn is a patch site.
pub open spec fn spec_should_patch(r: GeminiGenerateContentRequest) -> bool {
    exists|i: int, j: int|
        0 <= i < r.contents@.len() && 0 <= j < (#[trigger] r.contents@[i]).parts@.len()
            && role_is_model(r.contents@[i].role) && part_is_target(
            #[trigger] r.contents@[i].parts@[j],
        )
}

/// Walks requests and fills their thought signatures.
pub struct GeminiRequestAdapter;

impl GeminiRequestAdapter {
    pub fn new() -> (r: Self) {
        GeminiRequestAdapter
    }

    /// Whether the request holds any patch site.
    pub fn should_patch(req: &GeminiGenerateContentRequest) -> (r: bool)
        ensures
            r == spec_should_patch(*req),
    {
        let n = req.contents.len();
        let mut i: usize = 0;
        while i < n
            invariant
                n == req.contents@.len(),
                i <= n,
                forall|i1: int, j1: int|
                    0 <= i1 < i && 0 <= j1 < (#[trigger] req.contents@[i1]).parts@.len()
                        ==> !(role_is_model(req.contents@[i1].role) && part_is_target(
                        #[trigger] req.contents@[i1].parts@[j1],
                    )),
            decreases n - i,
        {
            let c = &req.contents[i];
            let is_model = match &c.role {
                Some(r) => str_eq(r.as_str(), "model"),
                None => false,
            };
            if is_model {
                let np = c.parts.len();
                let mut j: usize = 0;
                while j < np
                    invariant
                        n == req.contents@.len(),
                        i < n,
                        c == req.contents@[i as int],
                        np == c.parts@.len(),
                        j <= np,
                        role_is_model(c.role),
                        forall|j1: int| 0 <= j1 < j ==> !part_is_target(
                            #[trigger] c.parts@[j1],
                        ),
                    decreases np - j,
                {
                    let p = &c.parts[j];
                    if p.function_call.is_some() || (match p.thought {
                        Some(t) => t,
                        None => false,
                    }) {
                        return true;
                    }
                    j = j + 1;
                }
            }
            i = i + 1;
        }
        false
    }
}

/// Whether any part of this turn would be written.
pub open spec fn spec_content_needs_write(c: GeminiContent, trust: bool, fill: bool) -> bool {
    fill && exists|j: int|
        0 <= j < c.parts@.len() && part_is_target(#[trigger] c.parts@[j]) && !(
        c.parts@[j].thought_signature is Some && trust)
}

fn content_needs_write(c: &GeminiContent, engine: &ThoughtSignatureEngine) -> (r: bool)
    ensures
        r == spec_content_needs_write(*c, engine.trust_existing(), engine.fill_missing()),
{
    if !engine.policy.fill_missing {
        return false;
    }
    let np = c.parts.len();
    let mut j: usize = 0;
    while j < np
        invariant
            np == c.parts@.len(),
            j <= np,
            engine.fill_missing(),
            forall|j1: int| 0 <= j1 < j ==> !(part_is_target(#[trigger] c.parts@[j1]) && !(
            c.parts@[j1].thought_signature is Some && engine.trust_existing())),
        decreases np - j,
    {
        let p = &c.parts[j];
        let is_target = p.function_call.is_some() || (match p.thought {
            Some(t) => t,
            None => false,
        });
        if is_target && !(p.thought_signature.is_some() && engine.policy.trust_existing) {
            proof {
                assert(part_is_target(c.parts@[j as int]) && !(
                c.parts@[j as int].thought_signature is Some && engine.trust_existing()));
            }
            return true;
        }
        j = j + 1;
    }
    false
}

/// How the whole patched request relates to the original: everything equal
/// but the signatures written at patch sites.
pub open spec fn req_equiv(a: GeminiGenerateContentRequest, b: GeminiGenerateContentRequest) -> bool {
    &&& a.contents@ == b.contents@
    &&& a.system_instruction == b.system_instruction
    &&& a.session_id == b.session_id
    &&& a.extra == b.extra
}

/// Patch every site of the request: keep what is signed, fill the rest from
/// the store, defaulting to the dummy sentinel.  Returns the decision
/// counts.
pub fn patch_thought_signatures(
    req: &mut GeminiGenerateContentRequest,
    engine: &ThoughtSignatureEngine,
) -> (stats: FillStats)
    ensures
        request_patched(
            *old(req),
            *final(req),
            engine.contents(),
            engine.dummy(),
            engine.trust_existing(),
            engine.fill_missing(),
        ),
        engine.trust_existing() && all_targets_signed(*old(req)) ==> req_equiv(
            *final(req),
            *old(req),
        ),
        stats.total_considered == count_targets(old(req).contents@),
        stats.kept_existing + stats.cache_hits + stats.dummy_filled == stats.total_considered,
        engine.trust_existing() && engine.fill_missing() ==> stats.kept_existing
            == count_signed_targets(old(req).contents@),
        stats.cache_hits <= count_cacheable(
            old(req).contents@,
            engine.contents(),
            engine.trust_existing(),
            engine.fill_missing(),
        ),
{
    let ghost m = engine.contents();
    let ghost dummy = engine.dummy();
    let ghost trust = engine.trust_existing();
    let ghost fill = engine.fill_missing();

    let mut contents: Vec<GeminiContent> = Vec::new();
    core::mem::swap(&mut req.contents, &mut contents);
    let ghost oc = contents@;

    let mut new_contents: Vec<GeminiContent> = Vec::new();
    let mut decisions: Vec<FillDecision> = Vec::new();
    let total = contents.len();
    let mut k: usize = 0;
    proof {
        assert(oc.take(0) =~= Seq::<GeminiContent>::empty());
        assert(decisions@.take(0) =~= Seq::<FillDecision>::empty());
    }
    while k < total
        invariant
            total == oc.len(),
            k <= total,
            contents@ == oc.skip(k as int),
            new_contents@.len() == k,
            m == engine.contents(),
            dummy == engine.dummy(),
            trust == engine.trust_existing(),
            fill == engine.fill_missing(),
            forall|i: int| 0 <= i < k ==> content_patched(
                #[trigger] oc[i],
                new_contents@[i],
                m,
                dummy,
                trust,
                fill,
            ),
            decisions@.len() == count_targets(oc.take(k as int)),
            trust && fill ==> count_keep(decisions@) == count_signed_targets(oc.take(k as int)),
            count_keep(decisions@) + count_cached(decisions@) + count_dummy(decisions@)
                == decisions@.len(),
            count_cached(decisions@) <= count_cacheable(oc.take(k as int), m, trust, fill),
            trust ==> forall|i: int|
                0 <= i < k && (content_all_signed(#[trigger] oc[i]) || !role_is_model(
                    oc[i].role,
                )) ==> new_contents@[i] == oc[i],
        decreases total - k,
    {
        let ghost old_rest = contents@;
        let mut c = contents.remove(0);
        proof {
            assert(old_rest[0] == oc[k as int]);
            assert(contents@ =~= oc.skip(k + 1));
            assert(oc.take(k + 1).drop_last() =~= oc.take(k as int));
            assert(oc.take(k + 1).last() == oc[k as int]);
        }
        let ghost oc_k = c;
        let is_model = match &c.role {
            Some(r) => str_eq(r.as_str(), "model"),
            None => false,
        };
        if is_model && content_needs_write(&c, engine) {
            let mut parts: Vec<GeminiPart> = Vec::new();
            core::mem::swap(&mut c.parts, &mut parts);
            let ghost op = parts@;
            let mut new_parts: Vec<GeminiPart> = Vec::new();
            let np = parts.len();
            let mut j: usize = 0;
            let ghost decisions0 = decisions@;
            proof {
                assert(op.take(0) =~= Seq::<GeminiPart>::empty());
            }
            while j < np
                invariant
                    np == op.len(),
                    j <= np,
                    parts@ == op.skip(j as int),
                    new_parts@.len() == j,
                    m == engine.contents(),
                    dummy == engine.dummy(),
                    trust == engine.trust_existing(),
                    fill == engine.fill_missing(),
                    forall|j1: int| 0 <= j1 < j ==> part_patched(
                        #[trigger] op[j1],
                        new_parts@[j1],
                        m,
                        dummy,
                        trust,
                        fill,
                    ),
                    decisions@.len() == decisions0.len() + count_target_parts(op.take(j as int)),
                    trust && fill ==> count_keep(decisions@) == count_keep(decisions0)
                        + count_signed_parts(op.take(j as int)),
                    count_keep(decisions@) + count_cached(decisions@) + count_dummy(decisions@)
                        - decisions@.len() == count_keep(decisions0) + count_cached(decisions0)
                        + count_dummy(decisions0) - decisions0.len(),
                    count_cached(decisions@) <= count_cached(decisions0)
                        + count_cacheable_parts(op.take(j as int), m, trust, fill),
                decreases np - j,
            {
                let ghost old_parts_rest = parts@;
                let mut p = parts.remove(0);
                proof {
                    assert(old_parts_rest[0] == op[j as int]);
                    assert(parts@ =~= op.skip(j + 1));
                    assert(op.take(j + 1).drop_last() =~= op.take(j as int));
                    assert(op.take(j + 1).last() == op[j as int]);
                }
                let ghost op_j = p;
                let is_target = p.function_call.is_some() || (match p.thought {
                    Some(t) => t,
                    None => false,
                });
                if is_target {
                    let existing: Option<&str> = match &p.thought_signature {
                        Some(s) => Some(s.as_str()),
                        None => None,
                    };
                    let d: FillDecision = match &p.function_call {
                        Some(fc) => engine.fill_one(Some(fc), existing, true),
                        None => {
                            match &p.text {
                                Some(t) => {
                                    let tv = JsonValue::Str(t.clone());
                                    engine.fill_one(Some(&tv), existing, true)
                                },
                                None => engine.fill_one(None, existing, true),
                            }
                        },
                    };
                    match &d.action {
                        FillAction::Keep => {},
                        FillAction::UseCached(s) => {
                            p.thought_signature = Some(s.clone());
                        },
                        FillAction::UseDummy => {
                            p.thought_signature = Some(String::from_str(engine.dummy_signature()));
                        },
                    }
                    proof {
                        assert(decisions@.push(d).drop_last() =~= decisions@);
                        assert(part_patched(op_j, p, m, dummy, trust, fill));
                        assert(d.key == make_key_spec(part_key_input(op_j)));
                        if d.action is UseCached {
                            assert(part_cacheable(op_j, m, trust, fill));
                        }
                        assert(op.take(j + 1).drop_last() =~= op.take(j as int));
                        assert(op.take(j + 1).last() == op[j as int]);
                    }
                    decisions.push(d);
                } else {
                    proof {
                        assert(part_patched(op_j, p, m, dummy, trust, fill));
                    }
                }
                new_parts.push(p);
                j = j + 1;
            }
            proof {
                assert(op.take(np as int) =~= op);
                lemma_cacheable_counts_nonneg(op, m, trust, fill);
            }
            c.parts = new_parts;
            proof {
                assert(content_patched(oc_k, c, m, dummy, trust, fill));
                if trust {
                    assert(!content_all_signed(oc_k));
                }
            }
            new_contents.push(c);
        } else {
            let ghost decisions0 = decisions@;
            let np = c.parts.len();
            let mut j: usize = 0;
            proof {
                assert(c.parts@.take(0) =~= Seq::<GeminiPart>::empty());
            }
            while j < np
                invariant
                    c == oc_k,
                    np == c.parts@.len(),
                    j <= np,
                    is_model == role_is_model(c.role),
                    count_cached(decisions@) == count_cached(decisions0),
                    m == engine.contents(),
                    dummy == engine.dummy(),
                    trust == engine.trust_existing(),
                    fill == engine.fill_missing(),
                    !(role_is_model(c.role) && spec_content_needs_write(c, trust, fill)),
                    decisions@.len() == decisions0.len() + (if role_is_model(c.role) {
                        count_target_parts(c.parts@.take(j as int))
                    } else {
                        0int
                    }),
                    trust && fill ==> count_keep(decisions@) == count_keep(decisions0) + (
                    if role_is_model(c.role) {
                        count_signed_parts(c.parts@.take(j as int))
                    } else {
                        0int
                    }),
                    count_keep(decisions@) + count_cached(decisions@) + count_dummy(decisions@)
                        - decisions@.len() == count_keep(decisions0) + count_cached(decisions0)
                        + count_dummy(decisions0) - decisions0.len(),
                decreases np - j,
            {
                proof {
                    assert(c.parts@.take(j + 1).drop_last() =~= c.parts@.take(j as int));
                    assert(c.parts@.take(j + 1).last() == c.parts@[j as int]);
                }
                if is_model {
                    let p = &c.parts[j];
                    let is_target = p.function_call.is_some() || (match p.thought {
                        Some(t) => t,
                        None => false,
                    });
                    if is_target {
                        let existing: Option<&str> = match &p.thought_signature {
                            Some(s) => Some(s.as_str()),
                            None => None,
                        };
                        let d: FillDecision = match &p.function_call {
                            Some(fc) => engine.fill_one(Some(fc), existing, true),
                            None => {
                                match &p.text {
                                    Some(t) => {
                                        let tv = JsonValue::Str(t.clone());
                                        engine.fill_one(Some(&tv), existing, true)
                                    },
                                    None => engine.fill_one(None, existing, true),
                                }
                            },
                        };
                        proof {
                            assert(part_is_target(c.parts@[j as int]));
                            assert(!(fill && !(c.parts@[j as int].thought_signature is Some
                                && trust)));
                            assert(d.action is Keep);
                            assert(decisions@.push(d).drop_last() =~= decisions@);
                        }
                        decisions.push(d);
                    }
                }
                j = j + 1;
            }
            proof {
                assert(c.parts@.take(np as int) =~= c.parts@);
                lemma_cacheable_counts_nonneg(oc_k.parts@, m, trust, fill);
                if role_is_model(oc_k.role) {
                    assert(!spec_content_needs_write(c, trust, fill));
                    assert forall|j1: int| 0 <= j1 < oc_k.parts@.len() implies part_patched(
                        #[trigger] oc_k.parts@[j1],
                        c.parts@[j1],
                        m,
                        dummy,
                        trust,
                        fill,
                    ) by {
                        assert(c.parts@[j1] == oc_k.parts@[j1]);
                        if fill && part_is_target(c.parts@[j1]) {
                            assert(c.parts@[j1].thought_signature is Some && trust);
                        }
                    }
                }
                assert(content_patched(oc_k, c, m, dummy, trust, fill));
            }
            new_contents.push(c);
        }
        k = k + 1;
    }
    proof {
        assert(oc.take(total as int) =~= oc);
    }
    core::mem::swap(&mut req.contents, &mut new_contents);
    let stats = ThoughtSignatureEngine::classify_fill(&decisions);
    proof {
        assert(oc == old(req).contents@);
        assert(request_patched(*old(req), *req, m, dummy, trust, fill));
        if trust && all_targets_signed(*old(req)) {
            assert forall|i: int| 0 <= i < oc.len() implies #[trigger] req.contents@[i]
                == oc[i] by {
                assert(old(req).contents@[i] == oc[i]);
                assert(content_all_signed(oc[i]) || !role_is_model(oc[i].role));
            }
            assert(req.contents@ =~= oc);
        }
        lemma_counts_sum(decisions@);
    }
    stats
}

proof fn lemma_counts_sum(s: Seq<FillDecision>)
    ensures
        count_keep(s) + count_cached(s) + count_dummy(s) == s.len(),
    decreases s.len(),
{
    if s.len() > 0 {
        lemma_counts_sum(s.drop_last());
    }
}

} // verus!
