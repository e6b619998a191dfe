//! The thought-signature engine: per-site fill decisions over the store.

use vstd::prelude::*;
use crate::json::{JsonValue, JsonModel};
use crate::fingerprint::{CacheKeyGenerator, text_fingerprint, json_fingerprint};
use crate::policy::EnginePolicy;
use crate::store::MokaSignatureStore;
use crate::types::{FillAction, FillDecision, FillStats};

verus! {

/// The fingerprint of a patch site's input: text input is fingerprinted as
/// trimmed text, structured input as a canonicalized value.
pub open spec fn make_key_spec(input: Option<JsonModel>) -> Option<u64> {
    match input {
        None => None,
        Some(JsonModel::Str(s)) => text_fingerprint(s),
        Some(m) => Some(json_fingerprint(m)),
    }
}

pub open spec fn opt_json_model(o: Option<&JsonValue>) -> Option<JsonModel> {
    match o {
        Some(v) => Some(v@),
        None => None,
    }
}

pub open spec fn count_keep(s: Seq<FillDecision>) -> int
    decreases s.len(),
{
    if s.len() == 0 {
        0
    } else {
        count_keep(s.drop_last()) + if s.last().action is Keep {
            1int
        } else {
            0int
        }
    }
}

pub open spec fn count_cached(s: Seq<FillDecision>) -> int
    decreases s.len(),
{
    if s.len() == 0 {
        0
    } else {
        count_cached(s.drop_last()) + if s.last().action is UseCached {
            1int
        } else {
            0int
        }
    }
}

pub open spec fn count_dummy(s: Seq<FillDecision>) -> int
    decreases s.len(),
{
    if s.len() == 0 {
        0
    } else {
        count_dummy(s.drop_last()) + if s.last().action is UseDummy {
            1int
        } else {
            0int
        }
    }
}

/// The engine: a signature store together with its policy.
pub struct ThoughtSignatureEngine {
    pub store: MokaSignatureStore,
    pub policy: EnginePolicy,
}

impl ThoughtSignatureEngine {
    pub open spec fn contents(&self) -> Map<u64, Seq<char>> {
        self.store.contents()
    }

    pub open spec fn trust_existing(&self) -> bool {
        self.policy.trust_existing
    }

    pub open spec fn fill_missing(&self) -> bool {
        self.policy.fill_missing
    }

    pub open spec fn dummy(&self) -> Seq<char> {
        self.policy.dummy_signature@
    }

    pub fn new(store: MokaSignatureStore, policy: EnginePolicy) -> (r: Self)
        ensures
            r.contents() == store.contents(),
            r.trust_existing() == policy.trust_existing,
            r.fill_missing() == policy.fill_missing,
            r.dummy() == policy.dummy_signature@,
    {
        ThoughtSignatureEngine { store, policy }
    }

    /// The sentinel written when nothing is cached.
    pub fn dummy_signature(&self) -> (r: &str)
        ensures
            r@ == self.dummy(),
    {
        self.policy.dummy_signature.as_str()
    }

    /// Store one learned signature under its fingerprint.
    pub fn learn(&mut self, key: u64, signature: String)
        ensures
            final(self).contents().submap_of(old(self).contents().insert(key, signature@)),
            final(self).trust_existing() == old(self).trust_existing(),
            final(self).fill_missing() == old(self).fill_missing(),
            final(self).dummy() == old(self).dummy(),
    {
        self.store.put(key, signature);
    }

    /// The fingerprint of a patch site's input.
    pub fn make_key(&self, key_input: Option<&JsonValue>) -> (r: Option<u64>)
        ensures
            r == make_key_spec(opt_json_model(key_input)),
    {
        match key_input {
            Some(JsonValue::Str(text)) => CacheKeyGenerator::generate_text(text.as_str()),
            Some(value) => CacheKeyGenerator::generate_json(value),
            None => None,
        }
    }

    /// Decide what to write at one patch site.
    ///
    /// A site whose signature exists is kept when the policy trusts existing
    /// signatures; a site that is not required, or that the policy does not
    /// fill, is also kept.  Otherwise the store is consulted under the
    /// site's fingerprint: a hit is written back, a miss gets the dummy.
    pub fn fill_one(
        &self,
        key_input: Option<&JsonValue>,
        existing_signature: Option<&str>,
        required: bool,
    ) -> (r: FillDecision)
        ensures
            r.key == make_key_spec(opt_json_model(key_input)),
            (existing_signature is Some && self.trust_existing()) ==> r.action is Keep,
            (!(existing_signature is Some && self.trust_existing()) && (!required
                || !self.fill_missing())) ==> r.action is Keep,
            (!(existing_signature is Some && self.trust_existing()) && required
                && self.fill_missing()) ==> match r.action {
                FillAction::Keep => false,
                FillAction::UseCached(sig) => r.key matches Some(k)
                    && self.contents().contains_pair(k, sig@),
                FillAction::UseDummy => true,
            },
    {
        let key = self.make_key(key_input);

        if existing_signature.is_some() && self.policy.trust_existing {
            return FillDecision { action: FillAction::Keep, key };
        }
        if !required || !self.policy.fill_missing {
            return FillDecision { action: FillAction::Keep, key };
        }
        if let Some(cache_key) = &key {
            if let Some(sig) = self.store.get(cache_key) {
                return FillDecision { action: FillAction::UseCached(sig), key };
            }
        }
        FillDecision { action: FillAction::UseDummy, key }
    }

    /// Count the decisions of one request.
    pub fn classify_fill(decisions: &Vec<FillDecision>) -> (stats: FillStats)
        ensures
            stats.total_considered == decisions@.len(),
            stats.kept_existing == count_keep(decisions@),
            stats.cache_hits == count_cached(decisions@),
            stats.dummy_filled == count_dummy(decisions@),
    {
        let mut stats = FillStats::default();
        let n = decisions.len();
        let mut i: usize = 0;
        proof {
            assert(decisions@.take(0) =~= Seq::<FillDecision>::empty());
        }
        while i < n
            invariant
                n == decisions@.len(),
                i <= n,
                stats.total_considered == i,
                stats.kept_existing == count_keep(decisions@.take(i as int)),
                stats.cache_hits == count_cached(decisions@.take(i as int)),
                stats.dummy_filled == count_dummy(decisions@.take(i as int)),
                stats.kept_existing <= i,
                stats.cache_hits <= i,
                stats.dummy_filled <= i,
            decreases n - i,
        {
            proof {
                lemma_counts_bounded(decisions@.take(i as int));
                assert(decisions@.take(i + 1).drop_last() =~= decisions@.take(i as int));
                assert(decisions@.take(i + 1).last() == decisions@[i as int]);
            }
            stats.total_considered = stats.total_considered + 1;
            match &decisions[i].action {
                FillAction::Keep => {
                    stats.kept_existing = stats.kept_existing + 1;
                },
                FillAction::UseCached(_) => {
                    stats.cache_hits = stats.cache_hits + 1;
                },
                FillAction::UseDummy => {
                    stats.dummy_filled = stats.dummy_filled + 1;
                },
            }
            i = i + 1;
        }
        proof {
            assert(decisions@.take(n as int) =~= decisions@);
        }
        stats
    }
}

proof fn lemma_counts_bounded(s: Seq<FillDecision>)
    ensures
        0 <= count_keep(s) <= s.len(),
        0 <= count_cached(s) <= s.len(),
        0 <= count_dummy(s) <= s.len(),
    decreases s.len(),
{
    if s.len() > 0 {
        lemma_counts_bounded(s.drop_last());
    }
}

} // verus!
