//! The thought-signature service for the Gemini channel.
//!
//! Owns one signature store and engine; patches incoming requests and
//! learns signatures from responses and stream chunks.

use vstd::prelude::*;
use crate::engine::ThoughtSignatureEngine;
use crate::gemini::{GeminiGenerateContentRequest, GeminiResponseBody};
use crate::patch::{patch_thought_signatures, request_patched, all_targets_signed, req_equiv,
    count_targets, count_signed_targets, count_cacheable};
use crate::policy::EnginePolicy;
use crate::sniffer::{SignatureSniffer, record_chunk, sniff_candidates, puts};
use crate::store::MokaSignatureStore;
use crate::types::FillStats;
use crate::json::JsonModel;

verus! {

pub const DEFAULT_TTL_SECS: u64 = 3600;

pub const DEFAULT_MAX_CAPACITY: u64 = 200000;

/// The Gemini thought-signature service.
pub struct GeminiThoughtSigService {
    pub engine: ThoughtSignatureEngine,
}

impl GeminiThoughtSigService {
    pub open spec fn contents(&self) -> Map<u64, Seq<char>> {
        self.engine.contents()
    }

    /// A service over a fresh store, with the default policy: an hour of
    /// TTL, two hundred thousand entries, trust existing, fill missing.
    pub fn new() -> (r: Self)
        ensures
            r.contents() == crate::store::empty_contents(),
            r.engine.trust_existing(),
            r.engine.fill_missing(),
            r.engine.dummy() == "skip_thought_signature_validator"@,
    {
        let store = MokaSignatureStore::new(DEFAULT_TTL_SECS, DEFAULT_MAX_CAPACITY);
        let policy = EnginePolicy::default();
        let engine = ThoughtSignatureEngine::new(store, policy);
        GeminiThoughtSigService { engine }
    }

    /// A fresh accumulator for one stream.
    pub fn new_stream_sniffer(&self) -> (r: SignatureSniffer)
        ensures
            r.view_slots() == Seq::<(Seq<char>, Option<JsonModel>)>::empty(),
    {
        SignatureSniffer::new()
    }

    /// Patch the request's thought signatures from the store.
    pub fn patch_request(
        &self,
        model: &str,
        request: &mut GeminiGenerateContentRequest,
    ) -> (stats: FillStats)
        ensures
            request_patched(
                *old(request),
                *final(request),
                self.contents(),
                self.engine.dummy(),
                self.engine.trust_existing(),
                self.engine.fill_missing(),
            ),
            self.engine.trust_existing() && all_targets_signed(*old(request)) ==> req_equiv(
                *final(request),
                *old(request),
            ),
            stats.total_considered == count_targets(old(request).contents@),
            stats.kept_existing + stats.cache_hits + stats.dummy_filled
                == stats.total_considered,
            self.engine.trust_existing() && self.engine.fill_missing() ==> stats.kept_existing
                == count_signed_targets(old(request).contents@),
            stats.cache_hits <= count_cacheable(
                old(request).contents@,
                self.contents(),
                self.engine.trust_existing(),
                self.engine.fill_missing(),
            ),
    {
        let _ = model;
        patch_thought_signatures(request, &self.engine)
    }

    /// Learn signatures from a whole response, through a fresh sniffer.
    pub fn record_response(&mut self, response: &GeminiResponseBody)
        ensures
            final(self).contents().submap_of(
                puts(
                    old(self).contents(),
                    sniff_candidates(
                        Seq::<(Seq<char>, Option<JsonModel>)>::empty(),
                        response.candidates@,
                    ).1,
                ),
            ),
            final(self).engine.trust_existing() == old(self).engine.trust_existing(),
            final(self).engine.fill_missing() == old(self).engine.fill_missing(),
            final(self).engine.dummy() == old(self).engine.dummy(),
    {
        let mut sniffer = SignatureSniffer::new();
        record_chunk(&mut sniffer, &mut self.engine, response);
    }

    /// Learn signatures from one stream chunk, accumulating across the
    /// stream through the given sniffer.
    pub fn record_stream_chunk(
        &mut self,
        stream_sniffer: &mut SignatureSniffer,
        response: &GeminiResponseBody,
    )
        ensures
            final(stream_sniffer).view_slots() == sniff_candidates(
                old(stream_sniffer).view_slots(),
                response.candidates@,
            ).0,
            final(self).contents().submap_of(
                puts(
                    old(self).contents(),
                    sniff_candidates(
                        old(stream_sniffer).view_slots(),
                        response.candidates@,
                    ).1,
                ),
            ),
            final(self).engine.trust_existing() == old(self).engine.trust_existing(),
            final(self).engine.fill_missing() == old(self).engine.fill_missing(),
            final(self).engine.dummy() == old(self).engine.dummy(),
    {
        record_chunk(stream_sniffer, &mut self.engine, response);
    }
}

/// A short preview of a signature for log lines: at most 48 characters,
/// with a trailing ellipsis when cut.
pub fn preview_signature(signature: &str) -> (r: String)
    ensures
        signature@.len() <= 48 ==> r@ == signature@,
        signature@.len() > 48 ==> r@ == signature@.take(48) + "..."@,
{
    let n = signature.unicode_len();
    if n <= 48 {
        String::from_str(signature)
    } else {
        let t = signature.substring_char(0, 48);
        let mut s = String::from_str(t);
        s.append("...");
        s
    }
}

} // verus!
