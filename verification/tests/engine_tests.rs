use pollux::json::JsonValue;
use pollux::engine::ThoughtSignatureEngine;
use pollux::policy::EnginePolicy;
use pollux::store::MokaSignatureStore;
use pollux::types::FillAction;

#[test]
fn fill_one_uses_dummy_when_no_cache() {
    let store = MokaSignatureStore::new(3600, 1024);
    let engine = ThoughtSignatureEngine::new(store, EnginePolicy::default());

    let decision = engine.fill_one(Some(&JsonValue::Str("abc".to_string())), None, true);
    assert!(matches!(decision.action, FillAction::UseDummy));
}

#[test]
fn fill_one_keeps_existing_signature() {
    let store = MokaSignatureStore::new(3600, 1024);
    let engine = ThoughtSignatureEngine::new(store, EnginePolicy::default());

    let decision = engine.fill_one(Some(&JsonValue::Str("abc".to_string())), Some("sig"), true);
    assert!(matches!(decision.action, FillAction::Keep));
}

#[test]
fn fill_one_returns_cached_signature() {
    let store = MokaSignatureStore::new(3600, 1024);
    let mut engine = ThoughtSignatureEngine::new(store, EnginePolicy::default());

    let key = engine.make_key(Some(&JsonValue::Str("abc".to_string()))).expect("key");
    engine.learn(key, "learned".to_string());
    let decision = engine.fill_one(Some(&JsonValue::Str("abc".to_string())), None, true);
    match decision.action {
        FillAction::UseCached(sig) => assert_eq!(sig, "learned"),
        other => panic!("expected a cache hit, got {:?}", other),
    }
}

#[test]
fn store_put_then_get_returns_signature() {
    let mut store = MokaSignatureStore::new(3600, 1024);
    store.put(7, "sig-7".to_string());
    assert_eq!(store.get(&7), Some("sig-7".to_string()));
    assert_eq!(store.get(&8), None);
}

#[test]
fn store_construction_clamps_extreme_ttl_and_capacity() {
    let mut store = MokaSignatureStore::new(u64::MAX, 0);
    store.put(1, "sig-1".to_string());
    assert_eq!(store.get(&1), Some("sig-1".to_string()));
}
