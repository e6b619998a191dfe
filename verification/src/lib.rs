//! A verified core for a multi-upstream LLM reverse proxy.
//!
//! Three subsystems carry the logic.  The credential pool owns a set of
//! OAuth-refreshable credentials with per-credential health — banned,
//! invalid, rate-limited per model, unsupported models — and leases the
//! least-loaded eligible credential for a requested model.  The upstream
//! call pipeline validates the route, builds the vendor envelope around a
//! leased credential, classifies failures into health reports and decides
//! retries.  The thought-signature engine fingerprints model turns,
//! learns signatures from responses and stream chunks, and patches them
//! back into replayed requests.
//!
//! Everything that computes is specified and verified here; the
//! surrounding runtime — HTTP, the OAuth web flow, the database — hands
//! plain values in and takes plain values back.

pub mod json;
pub mod canon;
pub mod ser;
pub mod similar;
pub mod fingerprint;
pub mod store;
pub mod policy;
pub mod types;
pub mod engine;
pub mod gemini;
pub mod patch;
pub mod sniffer;
pub mod service;
pub mod ratelimit;
pub mod pool;
pub mod classify;
pub mod upstream;
pub mod gemini_error;
pub mod api;
pub mod envelope;
pub mod extract;
pub mod preamble;
pub mod wire;
pub mod cli_schema;
pub mod oauth;
pub mod db;
pub mod numfmt;
pub mod text;
pub mod shim;
