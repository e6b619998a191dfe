use pollux::json::JsonValue;
use pollux::fingerprint::CacheKeyGenerator;
use pollux::canon::canonicalize;
use pollux::ser::to_json_string;

fn obj(entries: Vec<(&str, JsonValue)>) -> JsonValue {
    JsonValue::Obj(entries.into_iter().map(|(k, v)| (k.to_string(), v)).collect())
}

fn s(t: &str) -> JsonValue {
    JsonValue::Str(t.to_string())
}

#[test]
fn object_key_order_produces_same_fingerprint() {
    let lhs = obj(vec![
        ("name", s("get_weather")),
        ("args", obj(vec![("city", s("Berlin")), ("unit", s("c"))])),
    ]);
    let rhs = obj(vec![
        ("args", obj(vec![("unit", s("c")), ("city", s("Berlin"))])),
        ("name", s("get_weather")),
    ]);

    assert_eq!(
        CacheKeyGenerator::generate_json(&lhs),
        CacheKeyGenerator::generate_json(&rhs)
    );
}

#[test]
fn array_order_changes_fingerprint() {
    let lhs = JsonValue::Arr(vec![s("a"), s("b")]);
    let rhs = JsonValue::Arr(vec![s("b"), s("a")]);

    assert_ne!(
        CacheKeyGenerator::generate_json(&lhs),
        CacheKeyGenerator::generate_json(&rhs)
    );
}

#[test]
fn string_input_is_trimmed_before_hashing() {
    let lhs = "  alpha  ";
    let rhs = "alpha";

    assert_eq!(
        CacheKeyGenerator::generate_text(lhs),
        CacheKeyGenerator::generate_text(rhs)
    );
}

#[test]
fn empty_string_returns_none() {
    assert_eq!(CacheKeyGenerator::generate_text("   "), None);
}

#[test]
fn canonical_serialization_sorts_object_keys() {
    let v = obj(vec![("b", JsonValue::Num("1".to_string())), ("a", JsonValue::Num("2".to_string()))]);
    let c = canonicalize(&v);
    assert_eq!(to_json_string(&c), "{\"a\":2,\"b\":1}");
}

#[test]
fn serializer_escapes_quotes_and_backslashes() {
    let v = s("a\"b\\c");
    assert_eq!(to_json_string(&v), "\"a\\\"b\\\\c\"");
}

#[test]
fn distinct_texts_fingerprint_differently() {
    assert_ne!(
        CacheKeyGenerator::generate_text("alpha"),
        CacheKeyGenerator::generate_text("beta")
    );
}
