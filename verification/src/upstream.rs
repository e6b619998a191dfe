//! Reacting to one failed upstream attempt.
//!
//! Every failure is reported to the pool before the error is surfaced:
//! the structured Gemini error is read off the body, reduced to health
//! markers, classified, and taught to the pool.  Server errors surface as
//! transient; a body that carried the structured error surfaces mapped,
//! anything else as its bare status.

use vstd::prelude::*;
use crate::classify::{ActionForError, CallError, classify_spec, classify_upstream_error};
use crate::gemini_error::{gemini_error_of, hints_spec, error_view, retry_after_ms_spec,
    parse_gemini_error, parse_retry_after, hints_from_error};
use crate::json::JsonValue;
use crate::pool::{CredentialPool, PoolEntry, pool_wf, rate_limit_applied, sat_add, dec,
    entry_like};

verus! {

/// How a failure's classified action transforms the leased entry.
pub open spec fn failure_applied(
    oe: PoolEntry,
    ne: PoolEntry,
    action: ActionForError,
    mask: u64,
    now: u64,
) -> bool {
    match action {
        ActionForError::RateLimit(d) => rate_limit_applied(oe, ne, mask, sat_add(now, d)),
        ActionForError::Ban => ne.banned && ne.cred == oe.cred && ne.invalid == oe.invalid
            && ne.unsupported_models == oe.unsupported_models && ne.rate_limited
            == oe.rate_limited && ne.in_flight == dec(oe.in_flight),
        ActionForError::Invalid => ne.invalid && ne.cred == oe.cred && ne.banned == oe.banned
            && ne.unsupported_models == oe.unsupported_models && ne.rate_limited
            == oe.rate_limited && ne.in_flight == dec(oe.in_flight),
        ActionForError::ModelUnsupported => ne.unsupported_models == (oe.unsupported_models
            | mask) && ne.cred == oe.cred && ne.banned == oe.banned && ne.invalid == oe.invalid
            && ne.rate_limited == oe.rate_limited && ne.in_flight == dec(oe.in_flight),
        ActionForError::NoAction => ne.cred == oe.cred && ne.banned == oe.banned && ne.invalid
            == oe.invalid && ne.unsupported_models == oe.unsupported_models && ne.rate_limited
            == oe.rate_limited && ne.in_flight == dec(oe.in_flight),
    }
}

/// The markers one failed answer means: the structured error read off the
/// body, and the upstream `Retry-After` in milliseconds.
pub open spec fn failure_hints(
    body: crate::json::JsonModel,
    retry_after: Option<Seq<char>>,
) -> crate::classify::UpstreamErrorHints {
    hints_spec(
        gemini_error_of(body),
        match retry_after {
            Some(h) => retry_after_ms_spec(h),
            None => None,
        },
    )
}

/// Report one failed attempt: read the structured error off the body,
/// classify it, teach the pool, release the lease, and surface the error —
/// transient for server errors, mapped when the body carried the
/// structured Gemini error, the bare status otherwise.
pub fn handle_upstream_failure(
    pool: &mut CredentialPool,
    lease_id: i64,
    model_mask: u64,
    status: u16,
    error_body: &JsonValue,
    retry_after: Option<&str>,
    now_ms: u64,
) -> (e: CallError)
    requires
        pool_wf(*old(pool)),
    ensures
        pool_wf(*final(pool)),
        final(pool).entries@.len() == old(pool).entries@.len(),
        final(pool).refresh_threshold_ms == old(pool).refresh_threshold_ms,
        forall|j: int|
            0 <= j < old(pool).entries@.len() && (#[trigger] old(pool).entries@[j]).cred.id
                != lease_id ==> final(pool).entries@[j] == old(pool).entries@[j],
        forall|j: int|
            0 <= j < old(pool).entries@.len() && (#[trigger] old(pool).entries@[j]).cred.id
                == lease_id ==> failure_applied(
                old(pool).entries@[j],
                final(pool).entries@[j],
                classify_spec(
                    status,
                    failure_hints(
                        error_body@,
                        match retry_after {
                            Some(h) => Some(h@),
                            None => None,
                        },
                    ),
                ),
                model_mask,
                now_ms,
            ),
        status >= 500 ==> e is UpstreamTransient,
        status < 500 && gemini_error_of(error_body@) is Some ==> (e matches
            CallError::UpstreamMapped(st, o) && st == status && gemini_error_of(error_body@)
            == Some((o.code, o.status@, o.message@))),
        status < 500 && gemini_error_of(error_body@) is None ==> e == CallError::UpstreamStatus(
            status,
        ),
{
    let parsed = parse_gemini_error(error_body);
    let retry_ms = match retry_after {
        Some(h) => parse_retry_after(h),
        None => None,
    };
    let parsed_ref = parsed.as_ref();
    let hints = hints_from_error(parsed_ref, retry_ms);
    proof {
        assert(error_view(parsed_ref) == gemini_error_of(error_body@));
    }
    let action = classify_upstream_error(status, &hints);
    match &action {
        ActionForError::RateLimit(d) => {
            pool.report_rate_limit(lease_id, model_mask, *d, now_ms);
        },
        ActionForError::Ban => {
            pool.report_banned(lease_id);
        },
        ActionForError::Invalid => {
            pool.report_invalid(lease_id);
        },
        ActionForError::ModelUnsupported => {
            pool.report_model_unsupported(lease_id, model_mask);
        },
        ActionForError::NoAction => {
            pool.release(lease_id);
        },
    }
    if status >= 500 {
        CallError::UpstreamTransient
    } else {
        match parsed {
            Some(o) => CallError::UpstreamMapped(status, o),
            None => CallError::UpstreamStatus(status),
        }
    }
}

} // verus!
