//! The credential pool: health-tracked credentials leased per model.
//!
//! One pool instance owns all mutable credential state.  The surrounding
//! runtime serializes calls to it (an actor task or a lock); each call is a
//! complete state transition, so the §3-style eligibility invariants hold
//! between any two calls.

use vstd::prelude::*;
use crate::ratelimit::{rl_deadline, rl_unique, rl_lookup, rl_coalesce, rl_sweep};

verus! {

/// An OAuth-refreshable credential, as the pool and its callers see it.
/// Times are unix milliseconds.
#[derive(Debug)]
pub struct Credential {
    pub id: i64,
    pub email: Option<String>,
    pub project_id: String,
    pub refresh_token: String,
    pub access_token: Option<String>,
    pub expiry_ms: u64,
    pub status: bool,
}

/// One pooled credential with its health state.
#[derive(Debug)]
pub struct PoolEntry {
    pub cred: Credential,
    pub banned: bool,
    pub invalid: bool,
    pub rate_limited: Vec<(u64, u64)>,
    pub unsupported_models: u64,
    pub in_flight: u32,
}

/// What a lease request decides: a credential to use, a credential that
/// must be refreshed first, or nothing eligible.
#[derive(Debug)]
pub enum LeaseDecision {
    Lease(Credential),
    NeedsRefresh(i64),
    NoneAvailable,
}

/// The pool of credentials for one upstream.
#[derive(Debug)]
pub struct CredentialPool {
    pub entries: Vec<PoolEntry>,
    pub refresh_threshold_ms: u64,
}

/// Eligibility of one credential for one model at one instant.
pub open spec fn eligible(e: PoolEntry, mask: u64, now: u64) -> bool {
    &&& e.cred.status
    &&& !e.banned
    &&& !e.invalid
    &&& (e.unsupported_models & mask) == 0
    &&& match rl_deadline(e.rate_limited@, mask) {
        Some(d) => now >= d,
        None => true,
    }
}

/// Whether the credential's token must be refreshed before use.
pub open spec fn needs_refresh(e: PoolEntry, now: u64, threshold: u64) -> bool {
    e.cred.expiry_ms < now + threshold
}

/// Lease preference: fewer leases in flight first, then the lower id.
pub open spec fn prefers(a: PoolEntry, b: PoolEntry) -> bool {
    a.in_flight < b.in_flight || (a.in_flight == b.in_flight && a.cred.id <= b.cred.id)
}

/// Everything but the rate-limit table and the lease count.
pub open spec fn entry_like(a: PoolEntry, b: PoolEntry) -> bool {
    &&& a.cred == b.cred
    &&& a.banned == b.banned
    &&& a.invalid == b.invalid
    &&& a.unsupported_models == b.unsupported_models
}

/// The same entry after sweeping expired rate limits at `now`.
pub open spec fn swept_entry(a: PoolEntry, b: PoolEntry, now: u64) -> bool {
    &&& entry_like(a, b)
    &&& b.in_flight == a.in_flight
    &&& forall|m: u64| rl_deadline(b.rate_limited@, m) == (match rl_deadline(
        a.rate_limited@,
        m,
    ) {
        Some(d) => if d > now {
            Some(d)
        } else {
            None
        },
        None => None,
    })
}

/// A freshly ingested entry: clean health, no leases.
pub open spec fn entry_fresh(e: PoolEntry, c: Credential) -> bool {
    &&& e.cred == c
    &&& !e.banned
    &&& !e.invalid
    &&& e.in_flight == 0
    &&& e.unsupported_models == 0
    &&& forall|m: u64| rl_deadline(e.rate_limited@, m) is None
}

/// Well-formed pool: unique rate-limit masks per entry, unique ids.
pub open spec fn pool_wf(p: CredentialPool) -> bool {
    &&& forall|i: int| 0 <= i < p.entries@.len() ==> rl_unique(
        (#[trigger] p.entries@[i]).rate_limited@,
    )
    &&& forall|i: int, j: int|
        0 <= i < j < p.entries@.len() ==> (#[trigger] p.entries@[i]).cred.id != (
        #[trigger] p.entries@[j]).cred.id
}

/// Sweeping keeps eligibility: an expired deadline and a removed one admit
/// the same leases.
pub proof fn lemma_swept_eligible(a: PoolEntry, b: PoolEntry, now: u64, mask: u64)
    requires
        swept_entry(a, b, now),
    ensures
        eligible(b, mask, now) == eligible(a, mask, now),
{
    assert(rl_deadline(b.rate_limited@, mask) == (match rl_deadline(a.rate_limited@, mask) {
        Some(d) => if d > now {
            Some(d)
        } else {
            None
        },
        None => None,
    }));
}

/// A rate-limited credential is leasable for that model exactly from the
/// recorded deadline on; its other health flags given, eligibility for the
/// mask is decided by the clock alone.
pub proof fn lemma_rate_limit_boundary(e: PoolEntry, mask: u64, t: u64, now: u64)
    requires
        rl_deadline(e.rate_limited@, mask) == Some(t),
        e.cred.status,
        !e.banned,
        !e.invalid,
        e.unsupported_models & mask == 0,
    ensures
        eligible(e, mask, now) <==> now >= t,
{
}

/// A lease followed by its release leaves every lease count where it
/// began, whichever entry was leased.
pub proof fn lemma_in_flight_round_trip(
    p0: Seq<PoolEntry>,
    p1: Seq<PoolEntry>,
    p2: Seq<PoolEntry>,
    i: int,
)
    requires
        0 <= i < p0.len(),
        p1.len() == p0.len(),
        p2.len() == p0.len(),
        p0[i].in_flight < u32::MAX,
        p1[i].in_flight == p0[i].in_flight + 1,
        forall|j: int| 0 <= j < p0.len() && j != i ==> (#[trigger] p1[j]).in_flight
            == p0[j].in_flight,
        p2[i].in_flight == p1[i].in_flight - 1,
        forall|j: int| 0 <= j < p0.len() && j != i ==> (#[trigger] p2[j]).in_flight
            == p1[j].in_flight,
    ensures
        forall|j: int| 0 <= j < p0.len() ==> (#[trigger] p2[j]).in_flight == p0[j].in_flight,
{
}

/// Copy a credential's fields.
pub fn copy_credential(c: &Credential) -> (r: Credential)
    ensures
        r == *c,
{
    Credential {
        id: c.id,
        email: match &c.email {
            Some(e) => Some(e.clone()),
            None => None,
        },
        project_id: c.project_id.clone(),
        refresh_token: c.refresh_token.clone(),
        access_token: match &c.access_token {
            Some(t) => Some(t.clone()),
            None => None,
        },
        expiry_ms: c.expiry_ms,
        status: c.status,
    }
}

/// `a + b`, stopping at the top of the range.
pub open spec fn sat_add(a: u64, b: u64) -> u64 {
    if a + b > u64::MAX {
        u64::MAX
    } else {
        (a + b) as u64
    }
}

fn sat_add_exec(a: u64, b: u64) -> (r: u64)
    ensures
        r == sat_add(a, b),
{
    if a > u64::MAX - b {
        u64::MAX
    } else {
        a + b
    }
}

/// One fewer lease in flight, never below zero.
pub open spec fn dec(x: u32) -> u32 {
    if x > 0 {
        (x - 1) as u32
    } else {
        0
    }
}

/// The rate-limit report applied to one entry: the mask's cooldown deadline
/// coalesces to the later one, the lease is released, nothing else moves.
pub open spec fn rate_limit_applied(oe: PoolEntry, ne: PoolEntry, mask: u64, deadline: u64) -> bool {
    &&& entry_like(oe, ne)
    &&& ne.in_flight == dec(oe.in_flight)
    &&& rl_deadline(ne.rate_limited@, mask) == Some(
        match rl_deadline(oe.rate_limited@, mask) {
            Some(d) => if d >= deadline {
                d
            } else {
                deadline
            },
            None => deadline,
        },
    )
    &&& forall|m: u64| m != mask ==> rl_deadline(ne.rate_limited@, m) == rl_deadline(
        oe.rate_limited@,
        m,
    )
}

impl CredentialPool {
    /// An empty pool with the given refresh threshold.
    pub fn new(refresh_threshold_ms: u64) -> (r: Self)
        ensures
            pool_wf(r),
            r.entries@.len() == 0,
            r.refresh_threshold_ms == refresh_threshold_ms,
    {
        CredentialPool { entries: Vec::new(), refresh_threshold_ms }
    }

    /// The position of the credential with this id, if it is pooled.
    fn find_by_id(&self, id: i64) -> (r: Option<usize>)
        ensures
            r matches Some(i) ==> i < self.entries@.len() && self.entries@[i as int].cred.id
                == id,
            r is None ==> forall|i: int| 0 <= i < self.entries@.len() ==> (
            #[trigger] self.entries@[i]).cred.id != id,
    {
        let n = self.entries.len();
        let mut i: usize = 0;
        while i < n
            invariant
                n == self.entries@.len(),
                i <= n,
                forall|q: int| 0 <= q < i ==> (#[trigger] self.entries@[q]).cred.id != id,
            decreases n - i,
        {
            if self.entries[i].cred.id == id {
                return Some(i);
            }
            i = i + 1;
        }
        None
    }

    /// Record a per-model cooldown for this credential and release its
    /// lease.  Other credentials and other models are untouched.
    pub fn report_rate_limit(&mut self, id: i64, model_mask: u64, duration_ms: u64, now_ms: u64)
        requires
            pool_wf(*old(self)),
        ensures
            pool_wf(*final(self)),
            final(self).entries@.len() == old(self).entries@.len(),
            final(self).refresh_threshold_ms == old(self).refresh_threshold_ms,
            forall|j: int|
                0 <= j < old(self).entries@.len() && (#[trigger] old(self).entries@[j]).cred.id
                    != id ==> final(self).entries@[j] == old(self).entries@[j],
            forall|j: int|
                0 <= j < old(self).entries@.len() && (#[trigger] old(self).entries@[j]).cred.id
                    == id ==> rate_limit_applied(
                    old(self).entries@[j],
                    final(self).entries@[j],
                    model_mask,
                    sat_add(now_ms, duration_ms),
                ),
    {
        let deadline = sat_add_exec(now_ms, duration_ms);
        match self.find_by_id(id) {
            None => {},
            Some(i) => {
                let ghost before = self.entries@;
                let mut e = self.entries.remove(i);
                rl_coalesce(&mut e.rate_limited, model_mask, deadline);
                e.in_flight = if e.in_flight > 0 {
                    e.in_flight - 1
                } else {
                    0
                };
                let ghost updated = e;
                self.entries.insert(i, e);
                proof {
                    assert(self.entries@ =~= before.update(i as int, updated));
                    assert(rate_limit_applied(
                        before[i as int],
                        updated,
                        model_mask,
                        sat_add(now_ms, duration_ms),
                    ));
                    assert forall|j: int|
                        0 <= j < before.len() && (#[trigger] before[j]).cred.id != id implies
                        self.entries@[j] == before[j] by {
                        assert(j != i);
                    }
                    assert forall|j: int|
                        0 <= j < before.len() && (#[trigger] before[j]).cred.id == id implies
                        rate_limit_applied(
                            before[j],
                            self.entries@[j],
                            model_mask,
                            sat_add(now_ms, duration_ms),
                        ) by {
                        if j != i {
                            assert(before[j].cred.id != before[i as int].cred.id);
                        }
                    }
                }
            },
        }
    }

    /// Mark this credential permanently failed and release its lease.
    pub fn report_banned(&mut self, id: i64)
        requires
            pool_wf(*old(self)),
        ensures
            pool_wf(*final(self)),
            final(self).entries@.len() == old(self).entries@.len(),
            final(self).refresh_threshold_ms == old(self).refresh_threshold_ms,
            forall|j: int|
                0 <= j < old(self).entries@.len() && (#[trigger] old(self).entries@[j]).cred.id
                    != id ==> final(self).entries@[j] == old(self).entries@[j],
            forall|j: int|
                0 <= j < old(self).entries@.len() && (#[trigger] old(self).entries@[j]).cred.id
                    == id ==> {
                    let oe = old(self).entries@[j];
                    let ne = final(self).entries@[j];
                    ne.banned && ne.cred == oe.cred && ne.invalid == oe.invalid
                        && ne.unsupported_models == oe.unsupported_models && ne.rate_limited
                        == oe.rate_limited && ne.in_flight == dec(oe.in_flight)
                },
    {
        match self.find_by_id(id) {
            None => {},
            Some(i) => {
                let ghost before = self.entries@;
                let mut e = self.entries.remove(i);
                e.banned = true;
                e.in_flight = if e.in_flight > 0 {
                    e.in_flight - 1
                } else {
                    0
                };
                let ghost updated = e;
                self.entries.insert(i, e);
                proof {
                    assert(self.entries@ =~= before.update(i as int, updated));
                    assert forall|j: int|
                        0 <= j < before.len() && (#[trigger] before[j]).cred.id != id implies
                        self.entries@[j] == before[j] by {
                        assert(j != i);
                    }
                }
            },
        }
    }

    /// Mark this credential's stored payload broken and release its lease.
    pub fn report_invalid(&mut self, id: i64)
        requires
            pool_wf(*old(self)),
        ensures
            pool_wf(*final(self)),
            final(self).entries@.len() == old(self).entries@.len(),
            final(self).refresh_threshold_ms == old(self).refresh_threshold_ms,
            forall|j: int|
                0 <= j < old(self).entries@.len() && (#[trigger] old(self).entries@[j]).cred.id
                    != id ==> final(self).entries@[j] == old(self).entries@[j],
            forall|j: int|
                0 <= j < old(self).entries@.len() && (#[trigger] old(self).entries@[j]).cred.id
                    == id ==> {
                    let oe = old(self).entries@[j];
                    let ne = final(self).entries@[j];
                    ne.invalid && ne.cred == oe.cred && ne.banned == oe.banned
                        && ne.unsupported_models == oe.unsupported_models && ne.rate_limited
                        == oe.rate_limited && ne.in_flight == dec(oe.in_flight)
                },
    {
        match self.find_by_id(id) {
            None => {},
            Some(i) => {
                let ghost before = self.entries@;
                let mut e = self.entries.remove(i);
                e.invalid = true;
                e.in_flight = if e.in_flight > 0 {
                    e.in_flight - 1
                } else {
                    0
                };
                let ghost updated = e;
                self.entries.insert(i, e);
                proof {
                    assert(self.entries@ =~= before.update(i as int, updated));
                    assert forall|j: int|
                        0 <= j < before.len() && (#[trigger] before[j]).cred.id != id implies
                        self.entries@[j] == before[j] by {
                        assert(j != i);
                    }
                }
            },
        }
    }

    /// Record that this credential cannot serve these models and release
    /// its lease.
    pub fn report_model_unsupported(&mut self, id: i64, model_mask: u64)
        requires
            pool_wf(*old(self)),
        ensures
            pool_wf(*final(self)),
            final(self).entries@.len() == old(self).entries@.len(),
            final(self).refresh_threshold_ms == old(self).refresh_threshold_ms,
            forall|j: int|
                0 <= j < old(self).entries@.len() && (#[trigger] old(self).entries@[j]).cred.id
                    != id ==> final(self).entries@[j] == old(self).entries@[j],
            forall|j: int|
                0 <= j < old(self).entries@.len() && (#[trigger] old(self).entries@[j]).cred.id
                    == id ==> {
                    let oe = old(self).entries@[j];
                    let ne = final(self).entries@[j];
                    ne.unsupported_models == (oe.unsupported_models | model_mask) && ne.cred
                        == oe.cred && ne.banned == oe.banned && ne.invalid == oe.invalid
                        && ne.rate_limited == oe.rate_limited && ne.in_flight == dec(
                        oe.in_flight,
                    )
                },
    {
        match self.find_by_id(id) {
            None => {},
            Some(i) => {
                let ghost before = self.entries@;
                let mut e = self.entries.remove(i);
                e.unsupported_models = e.unsupported_models | model_mask;
                e.in_flight = if e.in_flight > 0 {
                    e.in_flight - 1
                } else {
                    0
                };
                let ghost updated = e;
                self.entries.insert(i, e);
                proof {
                    assert(self.entries@ =~= before.update(i as int, updated));
                    assert forall|j: int|
                        0 <= j < before.len() && (#[trigger] before[j]).cred.id != id implies
                        self.entries@[j] == before[j] by {
                        assert(j != i);
                    }
                }
            },
        }
    }

    /// Release a lease without any health report.
    pub fn release(&mut self, id: i64)
        requires
            pool_wf(*old(self)),
        ensures
            pool_wf(*final(self)),
            final(self).entries@.len() == old(self).entries@.len(),
            final(self).refresh_threshold_ms == old(self).refresh_threshold_ms,
            forall|j: int|
                0 <= j < old(self).entries@.len() && (#[trigger] old(self).entries@[j]).cred.id
                    != id ==> final(self).entries@[j] == old(self).entries@[j],
            forall|j: int|
                0 <= j < old(self).entries@.len() && (#[trigger] old(self).entries@[j]).cred.id
                    == id ==> {
                    let oe = old(self).entries@[j];
                    let ne = final(self).entries@[j];
                    ne.cred == oe.cred && ne.banned == oe.banned && ne.invalid == oe.invalid
                        && ne.unsupported_models == oe.unsupported_models && ne.rate_limited
                        == oe.rate_limited && ne.in_flight == dec(oe.in_flight)
                },
    {
        match self.find_by_id(id) {
            None => {},
            Some(i) => {
                let ghost before = self.entries@;
                let mut e = self.entries.remove(i);
                e.in_flight = if e.in_flight > 0 {
                    e.in_flight - 1
                } else {
                    0
                };
                let ghost updated = e;
                self.entries.insert(i, e);
                proof {
                    assert(self.entries@ =~= before.update(i as int, updated));
                    assert forall|j: int|
                        0 <= j < before.len() && (#[trigger] before[j]).cred.id != id implies
                        self.entries@[j] == before[j] by {
                        assert(j != i);
                    }
                }
            },
        }
    }

    /// Install a refreshed access token.
    pub fn apply_refresh(&mut self, id: i64, access_token: String, expiry_ms: u64)
        requires
            pool_wf(*old(self)),
        ensures
            pool_wf(*final(self)),
            final(self).entries@.len() == old(self).entries@.len(),
            final(self).refresh_threshold_ms == old(self).refresh_threshold_ms,
            forall|j: int|
                0 <= j < old(self).entries@.len() && (#[trigger] old(self).entries@[j]).cred.id
                    != id ==> final(self).entries@[j] == old(self).entries@[j],
            forall|j: int|
                0 <= j < old(self).entries@.len() && (#[trigger] old(self).entries@[j]).cred.id
                    == id ==> {
                    let oe = old(self).entries@[j];
                    let ne = final(self).entries@[j];
                    ne.cred.access_token == Some(access_token) && ne.cred.expiry_ms == expiry_ms
                        && ne.cred.id == oe.cred.id && ne.cred.project_id == oe.cred.project_id
                        && ne.cred.refresh_token == oe.cred.refresh_token && ne.cred.email
                        == oe.cred.email && ne.cred.status == oe.cred.status && ne.banned
                        == oe.banned && ne.invalid == oe.invalid && ne.unsupported_models
                        == oe.unsupported_models && ne.rate_limited == oe.rate_limited
                        && ne.in_flight == oe.in_flight
                },
    {
        match self.find_by_id(id) {
            None => {},
            Some(i) => {
                let ghost before = self.entries@;
                let mut e = self.entries.remove(i);
                e.cred.access_token = Some(access_token);
                e.cred.expiry_ms = expiry_ms;
                let ghost updated = e;
                self.entries.insert(i, e);
                proof {
                    assert(self.entries@ =~= before.update(i as int, updated));
                    assert forall|j: int|
                        0 <= j < before.len() && (#[trigger] before[j]).cred.id != id implies
                        self.entries@[j] == before[j] by {
                        assert(j != i);
                    }
                }
            },
        }
    }

    /// A refresh that failed: the credential is excluded as invalid.
    pub fn refresh_failed(&mut self, id: i64)
        requires
            pool_wf(*old(self)),
        ensures
            pool_wf(*final(self)),
            final(self).entries@.len() == old(self).entries@.len(),
            final(self).refresh_threshold_ms == old(self).refresh_threshold_ms,
            forall|j: int|
                0 <= j < old(self).entries@.len() && (#[trigger] old(self).entries@[j]).cred.id
                    != id ==> final(self).entries@[j] == old(self).entries@[j],
            forall|j: int|
                0 <= j < old(self).entries@.len() && (#[trigger] old(self).entries@[j]).cred.id
                    == id ==> {
                    let oe = old(self).entries@[j];
                    let ne = final(self).entries@[j];
                    ne.invalid && ne.cred == oe.cred && ne.banned == oe.banned
                        && ne.unsupported_models == oe.unsupported_models && ne.rate_limited
                        == oe.rate_limited && ne.in_flight == oe.in_flight
                },
    {
        match self.find_by_id(id) {
            None => {},
            Some(i) => {
                let ghost before = self.entries@;
                let mut e = self.entries.remove(i);
                e.invalid = true;
                let ghost updated = e;
                self.entries.insert(i, e);
                proof {
                    assert(self.entries@ =~= before.update(i as int, updated));
                    assert forall|j: int|
                        0 <= j < before.len() && (#[trigger] before[j]).cred.id != id implies
                        self.entries@[j] == before[j] by {
                        assert(j != i);
                    }
                }
            },
        }
    }

    /// Lease a credential for the model, at `now_ms`.
    ///
    /// Expired per-model cooldowns are swept.  With no eligible credential
    /// the caller gets nothing; if any eligible credential's token is close
    /// to expiry, that credential must be refreshed first; otherwise the
    /// eligible credential with the fewest leases in flight — ties broken
    /// by the lower id — is leased and its lease count raised.
    pub fn get_credential(&mut self, model_mask: u64, now_ms: u64) -> (r: LeaseDecision)
        requires
            pool_wf(*old(self)),
        ensures
            pool_wf(*final(self)),
            final(self).entries@.len() == old(self).entries@.len(),
            final(self).refresh_threshold_ms == old(self).refresh_threshold_ms,
            forall|j: int| 0 <= j < old(self).entries@.len() ==> swept_entry(
                #[trigger] old(self).entries@[j],
                final(self).entries@[j],
                now_ms,
            ) || (r matches LeaseDecision::Lease(c) && final(self).entries@[j].cred.id == c.id),
            match r {
                LeaseDecision::NoneAvailable => {
                    &&& forall|j: int| 0 <= j < old(self).entries@.len() ==> !eligible(
                        #[trigger] old(self).entries@[j],
                        model_mask,
                        now_ms,
                    )
                    &&& forall|j: int| 0 <= j < old(self).entries@.len() ==> (
                    #[trigger] final(self).entries@[j]).in_flight
                        == old(self).entries@[j].in_flight
                },
                LeaseDecision::NeedsRefresh(id) => {
                    &&& exists|j: int|
                        0 <= j < old(self).entries@.len() && (#[trigger] old(
                            self,
                        ).entries@[j]).cred.id == id && eligible(
                            old(self).entries@[j],
                            model_mask,
                            now_ms,
                        ) && needs_refresh(
                            old(self).entries@[j],
                            now_ms,
                            old(self).refresh_threshold_ms,
                        )
                    &&& forall|j: int| 0 <= j < old(self).entries@.len() ==> (
                    #[trigger] final(self).entries@[j]).in_flight
                        == old(self).entries@[j].in_flight
                },
                LeaseDecision::Lease(c) => {
                    &&& exists|i: int|
                        {
                            &&& 0 <= i < old(self).entries@.len()
                            &&& (#[trigger] old(self).entries@[i]).cred == c
                            &&& eligible(old(self).entries@[i], model_mask, now_ms)
                            &&& !needs_refresh(
                                old(self).entries@[i],
                                now_ms,
                                old(self).refresh_threshold_ms,
                            )
                            &&& forall|j: int|
                                0 <= j < old(self).entries@.len() && eligible(
                                    #[trigger] old(self).entries@[j],
                                    model_mask,
                                    now_ms,
                                ) ==> prefers(old(self).entries@[i], old(self).entries@[j])
                            &&& final(self).entries@[i].cred == c
                            &&& old(self).entries@[i].in_flight < u32::MAX
                                ==> final(self).entries@[i].in_flight == old(
                                self,
                            ).entries@[i].in_flight + 1
                            &&& forall|j: int|
                                0 <= j < old(self).entries@.len() && j != i ==> (
                                #[trigger] final(self).entries@[j]).in_flight == old(
                                    self,
                                ).entries@[j].in_flight && swept_entry(
                                    old(self).entries@[j],
                                    final(self).entries@[j],
                                    now_ms,
                                )
                        }
                    &&& forall|j: int|
                        0 <= j < old(self).entries@.len() && eligible(
                            #[trigger] old(self).entries@[j],
                            model_mask,
                            now_ms,
                        ) ==> !needs_refresh(
                            old(self).entries@[j],
                            now_ms,
                            old(self).refresh_threshold_ms,
                        )
                },
            },
    {
        let ghost orig = self.entries@;
        let threshold = self.refresh_threshold_ms;

        let mut rest: Vec<PoolEntry> = Vec::new();
        core::mem::swap(&mut self.entries, &mut rest);
        let mut swept: Vec<PoolEntry> = Vec::new();
        let total = rest.len();
        let mut k: usize = 0;
        while k < total
            invariant
                total == orig.len(),
                k <= total,
                rest@ == orig.skip(k as int),
                swept@.len() == k,
                forall|i: int| 0 <= i < orig.len() ==> rl_unique(
                    (#[trigger] orig[i]).rate_limited@,
                ),
                forall|i: int| 0 <= i < k ==> swept_entry(
                    #[trigger] orig[i],
                    swept@[i],
                    now_ms,
                ),
                forall|i: int| 0 <= i < k ==> rl_unique((#[trigger] swept@[i]).rate_limited@),
                forall|i: int| 0 <= i < k ==> (#[trigger] swept@[i]).cred.id
                    == orig[i].cred.id,
            decreases total - k,
        {
            let ghost old_rest = rest@;
            let mut e = rest.remove(0);
            proof {
                assert(old_rest[0] == orig[k as int]);
                assert(rest@ =~= orig.skip(k + 1));
            }
            let ghost oe = e;
            rl_sweep(&mut e.rate_limited, now_ms);
            proof {
                assert(swept_entry(oe, e, now_ms));
            }
            swept.push(e);
            k = k + 1;
        }
        core::mem::swap(&mut self.entries, &mut swept);
        let ghost sw = self.entries@;

        let n = self.entries.len();
        let mut best: Option<usize> = None;
        let mut refresh: Option<usize> = None;
        let mut i: usize = 0;
        while i < n
            invariant
                n == sw.len(),
                self.entries@ == sw,
                i <= n,
                threshold == self.refresh_threshold_ms,
                best is None ==> forall|q: int| 0 <= q < i ==> !eligible(
                    #[trigger] sw[q],
                    model_mask,
                    now_ms,
                ),
                best matches Some(b) ==> b < i && eligible(sw[b as int], model_mask, now_ms)
                    && forall|q: int|
                    0 <= q < i && eligible(#[trigger] sw[q], model_mask, now_ms) ==> prefers(
                        sw[b as int],
                        sw[q],
                    ),
                refresh is None ==> forall|q: int|
                    0 <= q < i && eligible(#[trigger] sw[q], model_mask, now_ms)
                        ==> !needs_refresh(sw[q], now_ms, threshold),
                refresh matches Some(x) ==> x < i && eligible(sw[x as int], model_mask, now_ms)
                    && needs_refresh(sw[x as int], now_ms, threshold),
            decreases n - i,
        {
            let e = &self.entries[i];
            let ok = e.cred.status && !e.banned && !e.invalid && (e.unsupported_models
                & model_mask) == 0 && (match rl_lookup(&e.rate_limited, model_mask) {
                Some(d) => now_ms >= d,
                None => true,
            });
            proof {
                assert(ok == eligible(sw[i as int], model_mask, now_ms));
            }
            if ok {
                let needs = if now_ms > u64::MAX - threshold {
                    proof {
                        assert(e.cred.expiry_ms < now_ms + threshold);
                    }
                    true
                } else {
                    e.cred.expiry_ms < now_ms + threshold
                };
                proof {
                    assert(needs == needs_refresh(sw[i as int], now_ms, threshold));
                }
                if needs {
                    if refresh.is_none() {
                        refresh = Some(i);
                    }
                }
                match best {
                    None => {
                        best = Some(i);
                    },
                    Some(b) => {
                        let eb = &self.entries[b];
                        if e.in_flight < eb.in_flight || (e.in_flight == eb.in_flight
                            && e.cred.id < eb.cred.id) {
                            best = Some(i);
                        }
                    },
                }
            }
            i = i + 1;
        }

        match refresh {
            Some(x) => {
                let id = self.entries[x].cred.id;
                proof {
                    lemma_swept_eligible(orig[x as int], sw[x as int], now_ms, model_mask);
                    assert(orig[x as int].cred.id == id);
                    assert(eligible(orig[x as int], model_mask, now_ms));
                    assert(needs_refresh(orig[x as int], now_ms, threshold));
                }
                return LeaseDecision::NeedsRefresh(id);
            },
            None => {},
        }
        match best {
            None => {
                proof {
                    assert forall|j: int| 0 <= j < orig.len() implies !eligible(
                        #[trigger] orig[j],
                        model_mask,
                        now_ms,
                    ) by {
                        lemma_swept_eligible(orig[j], sw[j], now_ms, model_mask);
                    }
                }
                LeaseDecision::NoneAvailable
            },
            Some(b) => {
                let ghost before = self.entries@;
                let mut e = self.entries.remove(b);
                let cred = copy_credential(&e.cred);
                if e.in_flight < u32::MAX {
                    e.in_flight = e.in_flight + 1;
                }
                let ghost updated = e;
                self.entries.insert(b, e);
                proof {
                    assert(self.entries@ =~= sw.update(b as int, updated));
                    assert forall|j: int| 0 <= j < orig.len() && eligible(
                        #[trigger] orig[j],
                        model_mask,
                        now_ms,
                    ) implies prefers(orig[b as int], orig[j]) && !needs_refresh(
                        orig[j],
                        now_ms,
                        threshold,
                    ) by {
                        lemma_swept_eligible(orig[j], sw[j], now_ms, model_mask);
                        assert(prefers(sw[b as int], sw[j]));
                        assert(sw[b as int].in_flight == orig[b as int].in_flight);
                        assert(sw[j].in_flight == orig[j].in_flight);
                        assert(sw[b as int].cred == orig[b as int].cred);
                        assert(sw[j].cred == orig[j].cred);
                    }
                    lemma_swept_eligible(orig[b as int], sw[b as int], now_ms, model_mask);
                    assert(orig[b as int].cred == cred);
                    assert(eligible(orig[b as int], model_mask, now_ms));
                }
                LeaseDecision::Lease(cred)
            },
        }
    }

    /// Ingest newly provisioned or refreshed credentials: a pooled id keeps
    /// its health and takes the submitted fields; a new id joins the pool
    /// with clean health.
    pub fn submit_credentials(&mut self, list: Vec<Credential>)
        requires
            pool_wf(*old(self)),
            creds_unique(list@),
        ensures
            pool_wf(*final(self)),
            final(self).refresh_threshold_ms == old(self).refresh_threshold_ms,
            final(self).entries@.len() >= old(self).entries@.len(),
            forall|j: int|
                0 <= j < old(self).entries@.len() ==> {
                    let oe = #[trigger] old(self).entries@[j];
                    let ne = final(self).entries@[j];
                    &&& ne.banned == oe.banned
                    &&& ne.invalid == oe.invalid
                    &&& ne.unsupported_models == oe.unsupported_models
                    &&& ne.in_flight == oe.in_flight
                    &&& ne.rate_limited == oe.rate_limited
                    &&& ne.cred.id == oe.cred.id
                    &&& match find_cred(list@, oe.cred.id) {
                        Some(c) => ne.cred == c,
                        None => ne.cred == oe.cred,
                    }
                },
            forall|j: int|
                old(self).entries@.len() <= j < final(self).entries@.len() ==> exists|q: int|
                    0 <= q < list@.len() && entry_fresh(
                        #[trigger] final(self).entries@[j],
                        list@[q],
                    ),
            forall|q: int|
                #![trigger list@[q]]
                0 <= q < list@.len() ==> exists|j: int|
                    0 <= j < final(self).entries@.len()
                        && (#[trigger] final(self).entries@[j]).cred == list@[q],
    {
        let ghost orig = self.entries@;
        let ghost items = list@;
        let mut rest = list;
        let total = rest.len();
        let mut k: usize = 0;
        proof {
            assert(items.take(0) =~= Seq::<Credential>::empty());
        }
        while k < total
            invariant
                total == items.len(),
                creds_unique(items),
                rest@ == items.skip(k as int),
                k <= total,
                pool_wf(*self),
                self.refresh_threshold_ms == old(self).refresh_threshold_ms,
                self.entries@.len() >= orig.len(),
                orig.len() == old(self).entries@.len(),
                orig == old(self).entries@,
                forall|j: int|
                    0 <= j < orig.len() ==> {
                        let oe = #[trigger] orig[j];
                        let ne = self.entries@[j];
                        &&& ne.banned == oe.banned
                        &&& ne.invalid == oe.invalid
                        &&& ne.unsupported_models == oe.unsupported_models
                        &&& ne.in_flight == oe.in_flight
                        &&& ne.rate_limited == oe.rate_limited
                        &&& ne.cred.id == oe.cred.id
                        &&& match find_cred(items.take(k as int), oe.cred.id) {
                            Some(c) => ne.cred == c,
                            None => ne.cred == oe.cred,
                        }
                    },
                forall|j: int|
                    orig.len() <= j < self.entries@.len() ==> exists|q: int|
                        0 <= q < k && entry_fresh(#[trigger] self.entries@[j], items[q]),
                forall|q: int|
                    #![trigger items[q]]
                    0 <= q < k ==> exists|j: int|
                        0 <= j < self.entries@.len() && (#[trigger] self.entries@[j]).cred
                            == items[q],
            decreases total - k,
        {
            let ghost old_rest = rest@;
            let c = rest.remove(0);
            proof {
                assert(old_rest[0] == items[k as int]);
                assert(rest@ =~= items.skip(k + 1));
            }
            let ghost entries_before = self.entries@;
            match self.find_by_id(c.id) {
                Some(i) => {
                    let ghost before = self.entries@;
                    let mut e = self.entries.remove(i);
                    e.cred = c;
                    let ghost updated = e;
                    self.entries.insert(i, e);
                    proof {
                        assert(self.entries@ =~= before.update(i as int, updated));
                        if i >= orig.len() {
                            let q = choose|q: int|
                                0 <= q < k && entry_fresh(#[trigger] before[i as int], items[q]);
                            assert(items[q].id == items[k as int].id);
                            assert(false);
                        }
                        assert forall|j: int| 0 <= j < orig.len() implies {
                            let oe = #[trigger] orig[j];
                            let ne = self.entries@[j];
                            &&& ne.cred.id == oe.cred.id
                            &&& match find_cred(items.take(k + 1), oe.cred.id) {
                                Some(cc) => ne.cred == cc,
                                None => ne.cred == oe.cred,
                            }
                        } by {
                            lemma_find_cred_push(items.take(k as int), items[k as int], orig[j].cred.id);
                            assert(items.take(k as int).push(items[k as int]) =~= items.take(
                                k + 1,
                            ));
                            if j == i {
                                assert(self.entries@[j].cred == items[k as int]);
                                if find_cred(items.take(k as int), orig[j].cred.id) is Some {
                                    lemma_find_cred_position(items.take(k as int), orig[j].cred.id);
                                    assert(false);
                                }
                            } else {
                                assert(self.entries@[j] == before[j]);
                                assert(before[j].cred.id != before[i as int].cred.id);
                            }
                        }
                        assert forall|j: int|
                            orig.len() <= j < self.entries@.len() implies exists|q: int|
                                0 <= q < k + 1 && entry_fresh(
                                    #[trigger] self.entries@[j],
                                    items[q],
                                ) by {
                            assert(j != i);
                            assert(self.entries@[j] == before[j]);
                            let q = choose|q: int|
                                0 <= q < k && entry_fresh(#[trigger] before[j], items[q]);
                            assert(entry_fresh(self.entries@[j], items[q]));
                        }
                        assert forall|q: int|
                            #![trigger items[q]]
                            0 <= q < k + 1 implies exists|j: int|
                                0 <= j < self.entries@.len()
                                    && (#[trigger] self.entries@[j]).cred == items[q] by {
                            if q == k {
                                assert(self.entries@[i as int].cred == items[k as int]);
                            } else {
                                let j0 = choose|j0: int|
                                    0 <= j0 < before.len() && (#[trigger] before[j0]).cred
                                        == items[q];
                                assert(items[q].id != items[k as int].id);
                                assert(before[j0].cred.id != before[i as int].cred.id);
                                assert(j0 != i);
                                assert(self.entries@[j0] == before[j0]);
                                assert(self.entries@[j0].cred == items[q]);
                            }
                        }
                    }
                },
                None => {
                    let fresh = PoolEntry {
                        cred: c,
                        banned: false,
                        invalid: false,
                        rate_limited: Vec::new(),
                        unsupported_models: 0,
                        in_flight: 0,
                    };
                    let ghost before = self.entries@;
                    proof {
                        assert(entry_fresh(fresh, items[k as int]));
                    }
                    self.entries.push(fresh);
                    proof {
                        assert(self.entries@.drop_last() =~= before);
                        assert forall|j: int| 0 <= j < orig.len() implies {
                            let oe = #[trigger] orig[j];
                            let ne = self.entries@[j];
                            &&& ne.cred.id == oe.cred.id
                            &&& match find_cred(items.take(k + 1), oe.cred.id) {
                                Some(cc) => ne.cred == cc,
                                None => ne.cred == oe.cred,
                            }
                        } by {
                            lemma_find_cred_push(items.take(k as int), items[k as int], orig[j].cred.id);
                            assert(items.take(k as int).push(items[k as int]) =~= items.take(
                                k + 1,
                            ));
                            assert(self.entries@[j] == before[j]);
                            assert(before[j].cred.id != items[k as int].id);
                        }
                        assert forall|j: int|
                            orig.len() <= j < self.entries@.len() implies exists|q: int|
                                0 <= q < k + 1 && entry_fresh(
                                    #[trigger] self.entries@[j],
                                    items[q],
                                ) by {
                            if j < self.entries@.len() - 1 {
                                let q = choose|q: int|
                                    0 <= q < k && entry_fresh(#[trigger] before[j], items[q]);
                                assert(entry_fresh(self.entries@[j], items[q]));
                            } else {
                                assert(entry_fresh(self.entries@[j], items[k as int]));
                            }
                        }
                        assert forall|i1: int, j1: int|
                            0 <= i1 < j1 < self.entries@.len() implies (
                        #[trigger] self.entries@[i1]).cred.id != (
                        #[trigger] self.entries@[j1]).cred.id by {
                            if j1 == self.entries@.len() - 1 {
                                assert(self.entries@[i1] == before[i1]);
                                assert(before[i1].cred.id != c.id);
                            }
                        }
                        assert forall|q: int|
                            #![trigger items[q]]
                            0 <= q < k + 1 implies exists|j: int|
                                0 <= j < self.entries@.len()
                                    && (#[trigger] self.entries@[j]).cred == items[q] by {
                            if q == k {
                                assert(self.entries@[self.entries@.len() - 1].cred
                                    == items[k as int]);
                            } else {
                                let j0 = choose|j0: int|
                                    0 <= j0 < before.len() && (#[trigger] before[j0]).cred
                                        == items[q];
                                assert(self.entries@[j0] == before[j0]);
                                assert(self.entries@[j0].cred == items[q]);
                            }
                        }
                    }
                },
            }
            k = k + 1;
        }
        proof {
            assert(items.take(total as int) =~= items);
            assert forall|j: int|
                orig.len() <= j < self.entries@.len() implies exists|q: int|
                    0 <= q < list@.len() && entry_fresh(
                        #[trigger] self.entries@[j],
                        items[q],
                    ) by {
                let q = choose|q: int|
                    0 <= q < total && entry_fresh(#[trigger] self.entries@[j], items[q]);
                assert(0 <= q < list@.len() && entry_fresh(self.entries@[j], items[q]));
            }
        }
    }
}

/// No two submitted credentials share an id.
pub open spec fn creds_unique(list: Seq<Credential>) -> bool {
    forall|i: int, j: int| 0 <= i < j < list.len() ==> (#[trigger] list[i]).id != (
    #[trigger] list[j]).id
}

/// The first submitted credential with this id.
pub open spec fn find_cred(list: Seq<Credential>, id: i64) -> Option<Credential>
    decreases list.len(),
{
    if list.len() == 0 {
        None
    } else if list[0].id == id {
        Some(list[0])
    } else {
        find_cred(list.drop_first(), id)
    }
}

proof fn lemma_find_cred_push(list: Seq<Credential>, c: Credential, id: i64)
    ensures
        find_cred(list.push(c), id) == (match find_cred(list, id) {
            Some(f) => Some(f),
            None => if c.id == id {
                Some(c)
            } else {
                None
            },
        }),
    decreases list.len(),
{
    if list.len() == 0 {
        assert(list.push(c).len() == 1);
        assert(list.push(c)[0] == c);
        assert(list.push(c).drop_first() =~= Seq::<Credential>::empty());
        assert(find_cred(Seq::<Credential>::empty(), id) is None);
        assert(find_cred(list, id) is None);
    } else {
        assert(list.push(c)[0] == list[0]);
        assert(list.push(c).drop_first() =~= list.drop_first().push(c));
        lemma_find_cred_push(list.drop_first(), c, id);
    }
}

proof fn lemma_find_cred_position(list: Seq<Credential>, id: i64)
    requires
        find_cred(list, id) is Some,
    ensures
        exists|q: int| 0 <= q < list.len() && (#[trigger] list[q]).id == id,
    decreases list.len(),
{
    if list[0].id == id {
        assert(list[0].id == id);
    } else {
        lemma_find_cred_position(list.drop_first(), id);
        let q = choose|q: int|
            0 <= q < list.drop_first().len() && (#[trigger] list.drop_first()[q]).id == id;
        assert(list[q + 1].id == id);
    }
}

} // verus!
