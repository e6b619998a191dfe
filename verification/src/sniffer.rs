//! The stream sniffer: per-candidate reassembly of signature-bearing turns.
//!
//! One logical model turn may arrive split over many chunks: text first, the
//! signature later, possibly without a role.  The sniffer keeps, per
//! candidate index, the concatenated thought text and the last function call
//! seen; when a non-empty signature arrives, the accumulated input — not the
//! chunk's local text — is fingerprinted and the pair published to the
//! store.  Sniffer state lives for one stream and is discarded with it.

use vstd::prelude::*;
use crate::json::{JsonValue, JsonModel, copy_json};
use crate::fingerprint::{CacheKeyGenerator, text_fingerprint, json_fingerprint};
use crate::gemini::{GeminiPart, GeminiCandidate, GeminiResponseBody};
use crate::engine::ThoughtSignatureEngine;
use vstd::map_lib::lemma_submap_of_trans;

verus! {

/// Accumulator for one candidate index.
#[derive(Debug)]
pub struct SnifferSlot {
    pub acc_text: String,
    pub last_fc: Option<JsonValue>,
}

/// Per-stream accumulator state, indexed by candidate.
#[derive(Debug)]
pub struct SignatureSniffer {
    pub slots: Vec<SnifferSlot>,
}

/// The model of one slot: accumulated text and last function call.
pub open spec fn slot_view(s: SnifferSlot) -> (Seq<char>, Option<JsonModel>) {
    (
        s.acc_text@,
        match s.last_fc {
            Some(v) => Some(v@),
            None => None,
        },
    )
}

pub open spec fn slots_view(ss: Seq<SnifferSlot>) -> Seq<(Seq<char>, Option<JsonModel>)>
    decreases ss,
{
    if ss.len() == 0 {
        Seq::empty()
    } else {
        slots_view(ss.drop_last()).push(slot_view(ss.last()))
    }
}

pub open spec fn empty_slot() -> (Seq<char>, Option<JsonModel>) {
    (Seq::empty(), None)
}

/// How one part updates a slot: a function call replaces the remembered
/// call; thought text is appended to the accumulator.
pub open spec fn sniff_slot_step(slot: (Seq<char>, Option<JsonModel>), p: GeminiPart) -> (
    Seq<char>,
    Option<JsonModel>,
) {
    match p.function_call {
        Some(fc) => (slot.0, Some(fc@)),
        None => {
            if p.thought == Some(true) && p.text is Some {
                (slot.0 + p.text->0@, slot.1)
            } else {
                slot
            }
        },
    }
}

/// The fingerprint of a slot's accumulated input: the remembered function
/// call when one was seen, else the accumulated text.
pub open spec fn slot_key(slot: (Seq<char>, Option<JsonModel>)) -> Option<u64> {
    match slot.1 {
        Some(fc) => Some(json_fingerprint(fc)),
        None => text_fingerprint(slot.0),
    }
}

/// The pair one part publishes, if it carries a non-empty signature and the
/// slot has a fingerprintable input.
pub open spec fn sniff_part_pair(slot: (Seq<char>, Option<JsonModel>), p: GeminiPart) -> Option<
    (u64, Seq<char>),
> {
    match p.thought_signature {
        Some(s) => if s@.len() > 0 {
            match slot_key(slot) {
                Some(k) => Some((k, s@)),
                None => None,
            }
        } else {
            None
        },
        None => None,
    }
}

/// Folding one candidate's parts over a slot: the final slot and the pairs
/// published, in order.
pub open spec fn sniff_parts(slot: (Seq<char>, Option<JsonModel>), ps: Seq<GeminiPart>) -> (
    (Seq<char>, Option<JsonModel>),
    Seq<(u64, Seq<char>)>,
)
    decreases ps.len(),
{
    if ps.len() == 0 {
        (slot, Seq::empty())
    } else {
        let r1 = sniff_parts(slot, ps.drop_last());
        let s2 = sniff_slot_step(r1.0, ps.last());
        match sniff_part_pair(s2, ps.last()) {
            Some(pr) => (s2, r1.1.push(pr)),
            None => (s2, r1.1),
        }
    }
}

/// Slots grown with empty accumulators up to length `n`.
pub open spec fn grow_slots(slots: Seq<(Seq<char>, Option<JsonModel>)>, n: int) -> Seq<
    (Seq<char>, Option<JsonModel>),
> {
    if slots.len() >= n {
        slots
    } else {
        slots + Seq::new((n - slots.len()) as nat, |i: int| empty_slot())
    }
}

/// The slot a candidate addresses: its own index when it carries one, else
/// its position in the chunk.
pub open spec fn cand_slot_index(c: GeminiCandidate, pos: int) -> int {
    match c.index {
        Some(i) => i as int,
        None => pos,
    }
}

/// Folding a chunk's candidates over the sniffer state.
pub open spec fn sniff_candidates(
    slots: Seq<(Seq<char>, Option<JsonModel>)>,
    cands: Seq<GeminiCandidate>,
) -> (Seq<(Seq<char>, Option<JsonModel>)>, Seq<(u64, Seq<char>)>)
    decreases cands.len(),
{
    if cands.len() == 0 {
        (slots, Seq::empty())
    } else {
        let r1 = sniff_candidates(slots, cands.drop_last());
        let pos = cands.len() - 1;
        let c = cands.last();
        match c.content {
            None => r1,
            Some(content) => {
                let idx = cand_slot_index(c, pos);
                let grown = grow_slots(r1.0, idx + 1);
                let r2 = sniff_parts(grown[idx], content.parts@);
                (grown.update(idx, r2.0), r1.1 + r2.1)
            },
        }
    }
}

/// The store contents after publishing pairs in order: newest wins.
pub open spec fn puts(m: Map<u64, Seq<char>>, pairs: Seq<(u64, Seq<char>)>) -> Map<u64, Seq<char>>
    decreases pairs.len(),
{
    if pairs.len() == 0 {
        m
    } else {
        puts(m, pairs.drop_last()).insert(pairs.last().0, pairs.last().1)
    }
}

/// A later pair under the same fingerprint overwrites an earlier one: after
/// publishing, the store maps each fingerprint to the signature of its last
/// pair.
pub proof fn lemma_puts_last_wins(m: Map<u64, Seq<char>>, pairs: Seq<(u64, Seq<char>)>, i: int)
    requires
        0 <= i < pairs.len(),
        forall|j: int| i < j < pairs.len() ==> (#[trigger] pairs[j]).0 != pairs[i].0,
    ensures
        puts(m, pairs).contains_pair(pairs[i].0, pairs[i].1),
    decreases pairs.len(),
{
    if i == pairs.len() - 1 {
    } else {
        let t = pairs.drop_last();
        assert(forall|j: int| i < j < t.len() ==> (#[trigger] t[j]).0 != t[i].0);
        lemma_puts_last_wins(m, t, i);
        assert(pairs.last().0 != pairs[i].0);
    }
}

/// A recorded signature is what patching writes back: when the store holds
/// the pair a response published for a fingerprint, a patch site with that
/// fingerprint and no signature of its own receives the recorded signature
/// — or the dummy, when the bounded store has meanwhile dropped the pair.
pub proof fn lemma_recorded_signature_patchable(
    m: Map<u64, Seq<char>>,
    pairs: Seq<(u64, Seq<char>)>,
    i: int,
    op: crate::gemini::GeminiPart,
    np: crate::gemini::GeminiPart,
    dummy: Seq<char>,
)
    requires
        0 <= i < pairs.len(),
        forall|j: int| i < j < pairs.len() ==> (#[trigger] pairs[j]).0 != pairs[i].0,
        crate::gemini::part_is_target(op),
        op.thought_signature is None,
        crate::engine::make_key_spec(crate::gemini::part_key_input(op)) == Some(pairs[i].0),
        crate::patch::part_patched(op, np, puts(m, pairs), dummy, true, true),
    ensures
        np.thought_signature matches Some(s) && (s@ == pairs[i].1 || s@ == dummy),
{
    lemma_puts_last_wins(m, pairs, i);
    let store = puts(m, pairs);
    assert(store.contains_pair(pairs[i].0, pairs[i].1));
    match np.thought_signature {
        Some(s) => {
            if store.contains_pair(pairs[i].0, s@) {
                assert(s@ == store[pairs[i].0]);
                assert(s@ == pairs[i].1);
            }
        },
        None => {
            assert(false);
        },
    }
}

impl SignatureSniffer {
    /// The sniffer's model: one accumulator per candidate index.
    pub open spec fn view_slots(&self) -> Seq<(Seq<char>, Option<JsonModel>)> {
        slots_view(self.slots@)
    }

    /// A fresh sniffer, with no accumulated state.
    pub fn new() -> (r: Self)
        ensures
            r.view_slots() == Seq::<(Seq<char>, Option<JsonModel>)>::empty(),
    {
        SignatureSniffer { slots: Vec::new() }
    }
}

broadcast proof fn lemma_slots_view_len(ss: Seq<SnifferSlot>)
    ensures
        (#[trigger] slots_view(ss)).len() == ss.len(),
    decreases ss,
{
    if ss.len() > 0 {
        lemma_slots_view_len(ss.drop_last());
    }
}

broadcast proof fn lemma_slots_view_index(ss: Seq<SnifferSlot>, i: int)
    requires
        0 <= i < ss.len(),
    ensures
        #[trigger] slots_view(ss)[i] == slot_view(ss[i]),
    decreases ss,
{
    lemma_slots_view_len(ss);
    if i < ss.len() - 1 {
        lemma_slots_view_index(ss.drop_last(), i);
    }
}

proof fn lemma_insert_monotonic(a: Map<u64, Seq<char>>, b: Map<u64, Seq<char>>, k: u64, v: Seq<char>)
    requires
        a.submap_of(b),
    ensures
        a.insert(k, v).submap_of(b.insert(k, v)),
{
}


/// Fold one response or stream chunk into the sniffer, publishing every
/// learned `(fingerprint, signature)` pair to the engine's store.
pub fn record_chunk(
    sniffer: &mut SignatureSniffer,
    engine: &mut ThoughtSignatureEngine,
    resp: &GeminiResponseBody,
)
    ensures
        final(sniffer).view_slots() == sniff_candidates(
            old(sniffer).view_slots(),
            resp.candidates@,
        ).0,
        final(engine).contents().submap_of(
            puts(
                old(engine).contents(),
                sniff_candidates(old(sniffer).view_slots(), resp.candidates@).1,
            ),
        ),
        final(engine).trust_existing() == old(engine).trust_existing(),
        final(engine).fill_missing() == old(engine).fill_missing(),
        final(engine).dummy() == old(engine).dummy(),
{
    broadcast use lemma_slots_view_len, lemma_slots_view_index;

    let ghost s0 = old(sniffer).view_slots();
    let ghost m0 = old(engine).contents();
    let ghost cands = resp.candidates@;
    let n = resp.candidates.len();
    let mut i: usize = 0;
    proof {
        assert(cands.take(0) =~= Seq::<GeminiCandidate>::empty());
    }
    while i < n
        invariant
            n == cands.len(),
            cands == resp.candidates@,
            i <= n,
            sniffer.view_slots() == sniff_candidates(s0, cands.take(i as int)).0,
            engine.contents().submap_of(puts(m0, sniff_candidates(s0, cands.take(i as int)).1)),
            engine.trust_existing() == old(engine).trust_existing(),
            engine.fill_missing() == old(engine).fill_missing(),
            engine.dummy() == old(engine).dummy(),
        decreases n - i,
    {
        broadcast use lemma_slots_view_len, lemma_slots_view_index;

        proof {
            assert(cands.take(i + 1).drop_last() =~= cands.take(i as int));
            assert(cands.take(i + 1).last() == cands[i as int]);
        }
        let ghost fold_i = sniff_candidates(s0, cands.take(i as int));
        let c = &resp.candidates[i];
        match &c.content {
            None => {
                proof {
                    assert(sniff_candidates(s0, cands.take(i + 1)) == fold_i);
                }
            },
            Some(content) => {
                let idx = match c.index {
                    Some(ix) => ix,
                    None => i,
                };
                proof {
                    assert(cand_slot_index(cands[i as int], i as int) == idx as int);
                }
                let ghost grown = grow_slots(fold_i.0, idx + 1);
                let ghost s_len0 = fold_i.0.len();
                proof {
                    assert(sniffer.slots@.len() == s_len0);
                    assert(grown.len() == if s_len0 >= idx + 1 {
                        s_len0 as int
                    } else {
                        idx + 1
                    });
                    assert(grown.take(sniffer.slots@.len() as int) =~= fold_i.0);
                }
                while sniffer.slots.len() <= idx
                    invariant
                        grown == grow_slots(fold_i.0, idx + 1),
                        s_len0 == fold_i.0.len(),
                        grown.len() == if s_len0 >= idx + 1 {
                            s_len0 as int
                        } else {
                            idx + 1
                        },
                        sniffer.slots@.len() >= s_len0,
                        sniffer.slots@.len() <= grown.len(),
                        slots_view(sniffer.slots@) =~= grown.take(sniffer.slots@.len() as int),
                    decreases grown.len() - sniffer.slots@.len(),
                {
                    broadcast use lemma_slots_view_len, lemma_slots_view_index;

                    let ghost before = sniffer.slots@;
                    sniffer.slots.push(SnifferSlot { acc_text: String::new(), last_fc: None });
                    proof {
                        assert(sniffer.slots@.drop_last() =~= before);
                        assert(slot_view(sniffer.slots@.last()) == empty_slot());
                        assert(slots_view(sniffer.slots@) =~= slots_view(before).push(
                            empty_slot(),
                        ));
                        assert(before.len() < grown.len());
                        assert(grown[before.len() as int] == empty_slot());
                        assert(grown.take(before.len() as int + 1) =~= grown.take(
                            before.len() as int,
                        ).push(grown[before.len() as int]));
                        assert(slots_view(sniffer.slots@) =~= grown.take(
                            sniffer.slots@.len() as int,
                        ));
                    }
                }
                proof {
                    assert(sniffer.slots@.len() == grown.len());
                    assert(grown.take(grown.len() as int) =~= grown);
                    assert(slots_view(sniffer.slots@) == grown);
                    assert(idx < sniffer.slots@.len());
                }
                let ghost slots_before = sniffer.slots@;
                let mut slot = sniffer.slots.remove(idx);
                proof {
                    assert(slot == slots_before[idx as int]);
                    assert(slot_view(slot) == grown[idx as int]);
                }
                let ghost slot0 = slot_view(slot);
                let ghost p0 = fold_i.1;
                let np = content.parts.len();
                let mut j: usize = 0;
                proof {
                    assert(content.parts@.take(0) =~= Seq::<GeminiPart>::empty());
                    assert(p0 + sniff_parts(slot0, content.parts@.take(0)).1 =~= p0);
                }
                while j < np
                    invariant
                        np == content.parts@.len(),
                        j <= np,
                        slot0 == grown[idx as int],
                        slot_view(slot) == sniff_parts(slot0, content.parts@.take(j as int)).0,
                        engine.contents().submap_of(
                            puts(
                                m0,
                                p0 + sniff_parts(slot0, content.parts@.take(j as int)).1,
                            ),
                        ),
                        engine.trust_existing() == old(engine).trust_existing(),
                        engine.fill_missing() == old(engine).fill_missing(),
                        engine.dummy() == old(engine).dummy(),
                    decreases np - j,
                {
                    proof {
                        assert(content.parts@.take(j + 1).drop_last() =~= content.parts@.take(
                            j as int,
                        ));
                        assert(content.parts@.take(j + 1).last() == content.parts@[j as int]);
                    }
                    let ghost pairs_j = sniff_parts(slot0, content.parts@.take(j as int)).1;
                    let p = &content.parts[j];
                    match &p.function_call {
                        Some(fc) => {
                            slot.last_fc = Some(copy_json(fc));
                        },
                        None => {
                            let th = match p.thought {
                                Some(t) => t,
                                None => false,
                            };
                            if th {
                                match &p.text {
                                    Some(t) => {
                                        slot.acc_text.append(t.as_str());
                                    },
                                    None => {},
                                }
                            }
                        },
                    }
                    proof {
                        assert(slot_view(slot) == sniff_parts(
                            slot0,
                            content.parts@.take(j + 1),
                        ).0);
                    }
                    let publish: Option<String> = match &p.thought_signature {
                        Some(sig) => {
                            if sig.unicode_len() > 0 {
                                Some(sig.clone())
                            } else {
                                None
                            }
                        },
                        None => None,
                    };
                    match publish {
                        Some(sig) => {
                            let key: Option<u64> = match &slot.last_fc {
                                Some(fc) => CacheKeyGenerator::generate_json(fc),
                                None => CacheKeyGenerator::generate_text(slot.acc_text.as_str()),
                            };
                            proof {
                                assert(key == slot_key(slot_view(slot)));
                            }
                            match key {
                                Some(k) => {
                                    let ghost before_contents = engine.contents();
                                    let ghost pr = (k, sig@);
                                    proof {
                                        assert(sniff_part_pair(
                                            slot_view(slot),
                                            content.parts@[j as int],
                                        ) == Some(pr));
                                    }
                                    engine.learn(k, sig);
                                    proof {
                                        lemma_insert_monotonic(
                                            before_contents,
                                            puts(m0, p0 + pairs_j),
                                            k,
                                            pr.1,
                                        );
                                        lemma_submap_of_trans(
                                            engine.contents(),
                                            before_contents.insert(k, pr.1),
                                            puts(m0, p0 + pairs_j).insert(k, pr.1),
                                        );
                                        assert((p0 + pairs_j).push(pr).drop_last() =~= p0
                                            + pairs_j);
                                        assert(puts(m0, (p0 + pairs_j).push(pr)) == puts(
                                            m0,
                                            p0 + pairs_j,
                                        ).insert(k, pr.1));
                                        assert((p0 + pairs_j).push(pr) =~= p0 + pairs_j.push(pr));
                                        assert(sniff_parts(
                                            slot0,
                                            content.parts@.take(j + 1),
                                        ).1 =~= pairs_j.push(pr));
                                    }
                                },
                                None => {
                                    proof {
                                        assert(sniff_part_pair(
                                            slot_view(slot),
                                            content.parts@[j as int],
                                        ) is None);
                                        assert(sniff_parts(
                                            slot0,
                                            content.parts@.take(j + 1),
                                        ).1 =~= pairs_j);
                                    }
                                },
                            }
                        },
                        None => {
                            proof {
                                assert(sniff_part_pair(
                                    slot_view(slot),
                                    content.parts@[j as int],
                                ) is None);
                                assert(sniff_parts(slot0, content.parts@.take(j + 1)).1
                                    =~= pairs_j);
                            }
                        },
                    }
                    j = j + 1;
                }
                proof {
                    assert(content.parts@.take(np as int) =~= content.parts@);
                }
                let ghost slots_removed = sniffer.slots@;
                sniffer.slots.insert(idx, slot);
                proof {
                    let r2 = sniff_parts(slot0, content.parts@);
                    assert(slot_view(slot) == r2.0);
                    assert(sniffer.slots@.len() == slots_before.len());
                    assert forall|q: int|
                        0 <= q < sniffer.slots@.len() implies #[trigger] slots_view(
                        sniffer.slots@,
                    )[q] == grown.update(idx as int, r2.0)[q] by {
                        if q < idx {
                            assert(sniffer.slots@[q] == slots_before[q]);
                        } else if q == idx {
                            assert(sniffer.slots@[q] == slot);
                        } else {
                            assert(sniffer.slots@[q] == slots_removed[q - 1]);
                            assert(slots_removed[q - 1] == slots_before[q]);
                        }
                    }
                    assert(slots_view(sniffer.slots@) =~= grown.update(idx as int, r2.0));
                    assert(sniff_candidates(s0, cands.take(i + 1)).0 == grown.update(
                        idx as int,
                        r2.0,
                    ));
                    assert(sniff_candidates(s0, cands.take(i + 1)).1 =~= p0 + r2.1);
                }
            },
        }
        i = i + 1;
    }
    proof {
        assert(cands.take(n as int) =~= cands);
    }
}

} // verus!
