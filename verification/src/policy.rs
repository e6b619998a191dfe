//! Policy knobs of the thought-signature engine.

use vstd::prelude::*;

verus! {

/// How the engine treats existing and missing signatures.
#[derive(Debug, Clone)]
pub struct EnginePolicy {
    /// Keep a signature the client already sent.
    pub trust_existing: bool,
    /// Fill signatures that are missing.
    pub fill_missing: bool,
    /// The sentinel written when nothing is cached.
    pub dummy_signature: String,
}

impl Default for EnginePolicy {
    /// Trust what exists, fill what is missing, and fall back to the
    /// sentinel dummy signature.
    fn default() -> (r: Self)
        ensures
            r.trust_existing,
            r.fill_missing,
            r.dummy_signature@ == "skip_thought_signature_validator"@,
    {
        EnginePolicy {
            trust_existing: true,
            fill_missing: true,
            dummy_signature: String::from_str("skip_thought_signature_validator"),
        }
    }
}

} // verus!
