//! The signature store: a bounded, TTL'd mapping from fingerprint to
//! signature text, backed by a moka cache.
//!
//! The cache may drop entries at any time — by TTL, by capacity, or by its
//! admission policy — so the contracts promise only that a hit returns a
//! value that was stored under that fingerprint, never that a hit occurs.

use vstd::prelude::*;

verus! {

/// The longest TTL the cache accepts: its builder refuses more than a
/// thousand years.
pub const MAX_TTL_SECS: u64 = 31536000000;

#[verifier::external_type_specification]
#[verifier::external_body]
#[verifier::reject_recursive_types(K)]
#[verifier::reject_recursive_types(V)]
#[verifier::reject_recursive_types(S)]
pub struct ExMokaCache<K, V, S>(moka::sync::Cache<K, V, S>);

/// What the cache holds: fingerprints mapped to signature texts.
pub uninterp spec fn sig_cache_contents(c: moka::sync::Cache<u64, String>) -> Map<u64, Seq<char>>;

/// The contents of a cache that holds nothing.
pub open spec fn empty_contents() -> Map<u64, Seq<char>> {
    Map::empty()
}

/// A concurrency-safe signature cache with TTL and bounded capacity.
pub struct MokaSignatureStore {
    pub cache: moka::sync::Cache<u64, String>,
}

impl MokaSignatureStore {
    /// The fingerprint-to-signature pairs currently held.
    pub open spec fn contents(&self) -> Map<u64, Seq<char>> {
        sig_cache_contents(self.cache)
    }

    /// Relies on moka's `Cache::builder`/`build`: a fresh cache holds
    /// nothing; `time_to_live` and `max_capacity` bound what it will hold.
    /// The builder panics on a TTL above a thousand years, which the
    /// precondition excludes.
    #[verifier::external_body]
    fn new_raw(ttl_secs: u64, max_capacity: u64) -> (r: MokaSignatureStore)
        requires
            ttl_secs <= MAX_TTL_SECS,
        ensures
            sig_cache_contents(r.cache) == empty_contents(),
    {
        MokaSignatureStore {
            cache: moka::sync::Cache::builder()
                .time_to_live(std::time::Duration::from_secs(ttl_secs))
                .max_capacity(max_capacity)
                .build(),
        }
    }

    /// A fresh store; TTL and capacity are clamped to at least one, and
    /// the TTL also down to what the cache's builder accepts.
    pub fn new(ttl_secs: u64, max_capacity: u64) -> (r: Self)
        ensures
            r.contents() == empty_contents(),
    {
        let ttl = if ttl_secs < 1 {
            1
        } else if ttl_secs > MAX_TTL_SECS {
            MAX_TTL_SECS
        } else {
            ttl_secs
        };
        let cap = if max_capacity < 1 {
            1
        } else {
            max_capacity
        };
        Self::new_raw(ttl, cap)
    }

    /// Relies on moka's `Cache::get`: a hit is a clone of a value that
    /// `insert` stored under this key; a miss is possible at any time
    /// (expiry, eviction).
    #[verifier::external_body]
    pub fn get(&self, key: &u64) -> (r: Option<String>)
        ensures
            r matches Some(v) ==> sig_cache_contents(self.cache).contains_pair(*key, v@),
    {
        self.cache.get(key)
    }

    /// Relies on moka's `Cache::insert`: afterwards every held entry is the
    /// new pair or one that was already held; pending maintenance may evict
    /// entries, including the new one, so no presence is promised.
    #[verifier::external_body]
    pub fn put(&mut self, key: u64, signature: String)
        ensures
            sig_cache_contents(final(self).cache).submap_of(
                sig_cache_contents(old(self).cache).insert(key, signature@),
            ),
    {
        self.cache.insert(key, signature)
    }
}

} // verus!
