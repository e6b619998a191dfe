//! Classifying upstream failures and deciding retries.
//!
//! A non-success upstream status is classified into the recovery action the
//! pool must learn — a per-model cooldown, a ban, an invalid credential, an
//! unsupported model — and into whether the attempt may be retried.  The
//! backoff between attempts is exponential with jitter, between fixed
//! bounds.

use vstd::prelude::*;

verus! {

pub const RETRY_MIN_DELAY_MS: u64 = 100;

pub const RETRY_MAX_DELAY_MS: u64 = 300;

pub const DEFAULT_RATE_LIMIT_COOLDOWN_MS: u64 = 60000;

/// What the pool should learn from one upstream failure.
#[derive(Debug, PartialEq, Eq, Structural)]
pub enum ActionForError {
    /// Cool the credential down for this model, for this many milliseconds.
    RateLimit(u64),
    /// The credential is permanently refused.
    Ban,
    /// The credential's payload is broken.
    Invalid,
    /// The credential cannot serve this model.
    ModelUnsupported,
    /// Nothing to learn.
    NoAction,
}

/// What the upstream error body showed, reduced to plain signals.
#[derive(Debug, PartialEq, Eq, Structural)]
pub struct UpstreamErrorHints {
    /// A structured "resource exhausted" marker.
    pub resource_exhausted: bool,
    /// A marker that the credential itself is refused for good.
    pub credential_banned: bool,
    /// A marker that the credential's payload is broken.
    pub credential_invalid: bool,
    /// A marker that the model is not available to this credential.
    pub model_unavailable: bool,
    /// An upstream `Retry-After`, in milliseconds.
    pub retry_after_ms: Option<u64>,
}

/// The action one status and its hints classify to.
pub open spec fn classify_spec(status: u16, hints: UpstreamErrorHints) -> ActionForError {
    if status == 429 || hints.resource_exhausted {
        ActionForError::RateLimit(
            match hints.retry_after_ms {
                Some(ms) => ms,
                None => DEFAULT_RATE_LIMIT_COOLDOWN_MS,
            },
        )
    } else if (status == 400 || status == 401 || status == 403) && hints.credential_banned {
        ActionForError::Ban
    } else if (status == 400 || status == 401 || status == 403) && hints.credential_invalid {
        ActionForError::Invalid
    } else if (status == 400 || status == 404) && hints.model_unavailable {
        ActionForError::ModelUnsupported
    } else {
        ActionForError::NoAction
    }
}

/// Classify a non-success upstream status.
///
/// `429` or a structured resource-exhausted body cools the credential down,
/// for the upstream's `Retry-After` when given, else for the default.
/// `400/401/403` with a credential marker bans or invalidates it;
/// `400/404` with a model marker marks the model unsupported.  Anything
/// else teaches the pool nothing.
pub fn classify_upstream_error(status: u16, hints: &UpstreamErrorHints) -> (r: ActionForError)
    ensures
        r == classify_spec(status, *hints),
{
    if status == 429 || hints.resource_exhausted {
        ActionForError::RateLimit(
            match hints.retry_after_ms {
                Some(ms) => ms,
                None => DEFAULT_RATE_LIMIT_COOLDOWN_MS,
            },
        )
    } else if (status == 400 || status == 401 || status == 403) && hints.credential_banned {
        ActionForError::Ban
    } else if (status == 400 || status == 401 || status == 403) && hints.credential_invalid {
        ActionForError::Invalid
    } else if (status == 400 || status == 404) && hints.model_unavailable {
        ActionForError::ModelUnsupported
    } else {
        ActionForError::NoAction
    }
}

/// The structured error object of the Gemini wire schema.
#[derive(Debug)]
pub struct GeminiErrorObject {
    pub code: u64,
    pub status: String,
    pub message: String,
}

/// The error kinds a call produces.
#[derive(Debug)]
pub enum CallError {
    /// The pool had nothing eligible for the model.
    NoAvailableCredential,
    /// Upstream answered a non-success status without a structured error
    /// body the downstream schema could carry.
    UpstreamStatus(u16),
    /// Upstream answered a non-success status with a structured Gemini
    /// error body, mapped for the downstream client.
    UpstreamMapped(u16, GeminiErrorObject),
    /// The transport failed or upstream answered a server error.
    UpstreamTransient,
}

/// Whether the error kind may re-enter the retry loop.
pub open spec fn retryable_spec(e: CallError) -> bool {
    match e {
        CallError::NoAvailableCredential => false,
        CallError::UpstreamStatus(code) => code == 429 || code >= 500,
        CallError::UpstreamMapped(code, _) => code == 429 || code >= 500,
        CallError::UpstreamTransient => true,
    }
}

impl CallError {
    /// Transient transport failures, server errors and rate limits are
    /// retried; everything else is final.
    pub fn is_retryable(&self) -> (r: bool)
        ensures
            r == retryable_spec(*self),
    {
        match self {
            CallError::NoAvailableCredential => false,
            CallError::UpstreamStatus(code) => *code == 429 || *code >= 500,
            CallError::UpstreamMapped(code, _) => *code == 429 || *code >= 500,
            CallError::UpstreamTransient => true,
        }
    }
}

/// The backoff before retry `attempt`, with the given jitter draw:
/// exponential from the minimum, clamped to the maximum, plus a jitter
/// below the minimum delay.
pub open spec fn backoff_delay_spec(attempt: u32, jitter: u64) -> u64 {
    let base: u64 = if attempt >= 2 {
        RETRY_MAX_DELAY_MS
    } else if attempt == 1 {
        (2 * RETRY_MIN_DELAY_MS) as u64
    } else {
        RETRY_MIN_DELAY_MS
    };
    (base + (jitter % RETRY_MIN_DELAY_MS)) as u64
}

/// The retry loop's policy state: how many attempts are allowed, how many
/// ran.
#[derive(Debug, PartialEq, Eq, Structural)]
pub struct RetryPolicy {
    pub max_attempts: u32,
    pub attempt: u32,
}

/// What the retry loop does next.
#[derive(Debug, PartialEq, Eq, Structural)]
pub enum RetryDecision {
    /// Sleep this many milliseconds, then try again.
    RetryAfter(u64),
    /// Stop: the error is final or the attempts are spent.
    GiveUp,
}

impl RetryPolicy {
    /// A fresh policy allowing this many attempts.
    pub fn new(max_attempts: u32) -> (r: Self)
        ensures
            r.max_attempts == max_attempts,
            r.attempt == 0,
    {
        RetryPolicy { max_attempts, attempt: 0 }
    }

    /// Decide what follows a failed attempt: retry after a bounded backoff
    /// while the error is retryable and attempts remain, else give up.
    pub fn on_error(&mut self, error: &CallError, jitter: u64) -> (r: RetryDecision)
        ensures
            final(self).max_attempts == old(self).max_attempts,
            r matches RetryDecision::RetryAfter(d) ==> retryable_spec(*error) && old(
                self,
            ).attempt < old(self).max_attempts && final(self).attempt == old(self).attempt + 1
                && d == backoff_delay_spec(old(self).attempt, jitter) && RETRY_MIN_DELAY_MS <= d
                < RETRY_MAX_DELAY_MS + RETRY_MIN_DELAY_MS,
            r is GiveUp ==> (!retryable_spec(*error) || old(self).attempt >= old(
                self,
            ).max_attempts) && final(self).attempt == old(self).attempt,
    {
        if !error.is_retryable() {
            return RetryDecision::GiveUp;
        }
        if self.attempt >= self.max_attempts {
            return RetryDecision::GiveUp;
        }
        let base: u64 = if self.attempt >= 2 {
            RETRY_MAX_DELAY_MS
        } else if self.attempt == 1 {
            2 * RETRY_MIN_DELAY_MS
        } else {
            RETRY_MIN_DELAY_MS
        };
        let d = base + (jitter % RETRY_MIN_DELAY_MS);
        self.attempt = self.attempt + 1;
        RetryDecision::RetryAfter(d)
    }
}

} // verus!
