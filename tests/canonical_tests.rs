use policy_engine::canonicalization::{canonical_hash, canonicalize, remove_field};
use policy_engine::hash::sha256_str;
use policy_engine::{JsonNumber, JsonValue};

fn num(x: f64, text: &str) -> JsonValue {
    JsonValue::Number(JsonNumber { bits: x.to_bits(), text: text.to_string() })
}

fn text(s: &str) -> JsonValue {
    JsonValue::String(s.to_string())
}

fn obj(entries: Vec<(&str, JsonValue)>) -> JsonValue {
    JsonValue::Object(entries.into_iter().map(|(k, v)| (k.to_string(), v)).collect())
}

#[test]
fn test_canonicalize_primitives() {
    assert_eq!(canonicalize(&JsonValue::Null).unwrap(), "null");
    assert_eq!(canonicalize(&JsonValue::Bool(true)).unwrap(), "true");
    assert_eq!(canonicalize(&JsonValue::Bool(false)).unwrap(), "false");
    assert_eq!(canonicalize(&num(42.0, "42")).unwrap(), "42");
    assert_eq!(canonicalize(&text("hello")).unwrap(), "\"hello\"");
}

#[test]
fn test_canonicalize_array() {
    let v = JsonValue::Array(vec![num(1.0, "1"), num(2.0, "2"), num(3.0, "3")]);
    assert_eq!(canonicalize(&v).unwrap(), "[1,2,3]");
}

#[test]
fn test_canonicalize_object_sorted() {
    let v = obj(vec![("b", num(2.0, "2")), ("a", num(1.0, "1")), ("c", num(3.0, "3"))]);
    assert_eq!(canonicalize(&v).unwrap(), r#"{"a":1,"b":2,"c":3}"#);
}

#[test]
fn test_canonicalize_nested() {
    let v = obj(vec![
        ("z", obj(vec![("b", num(2.0, "2")), ("a", num(1.0, "1"))])),
        ("a", JsonValue::Array(vec![num(3.0, "3"), num(1.0, "1"), num(2.0, "2")])),
    ]);
    assert_eq!(canonicalize(&v).unwrap(), r#"{"a":[3,1,2],"z":{"a":1,"b":2}}"#);
}

#[test]
fn test_escape_string() {
    assert_eq!(canonicalize(&text("hello\nworld")).unwrap(), r#""hello\nworld""#);
}

#[test]
fn test_remove_field() {
    let v = obj(vec![("a", num(1.0, "1")), ("b", num(2.0, "2")), ("cid", text("xxx"))]);
    let without_cid = remove_field(&v, "cid");
    assert_eq!(canonicalize(&without_cid).unwrap(), r#"{"a":1,"b":2}"#);
}

#[test]
fn remove_field_leaves_non_objects() {
    let v = JsonValue::Array(vec![text("cid")]);
    assert_eq!(canonicalize(&remove_field(&v, "cid")).unwrap(), r#"["cid"]"#);
}

#[test]
fn line_endings_are_normalized() {
    assert_eq!(canonicalize(&text("a\r\nb\rc")).unwrap(), r#""a\nb\nc""#);
}

#[test]
fn escapes_quotes_backslashes_tabs_and_controls() {
    assert_eq!(canonicalize(&text("q\"b\\t\t")).unwrap(), r#""q\"b\\t\t""#);
    assert_eq!(canonicalize(&text("\u{1}\u{7f}")).unwrap(), r#""\u0001\u007f""#);
    assert_eq!(canonicalize(&text("é☃")).unwrap(), "\"é☃\"");
}

#[test]
fn keys_are_escaped_and_sorted_by_scalar_value() {
    let v = obj(vec![("é", JsonValue::Null), ("z", JsonValue::Null), ("a\"", JsonValue::Null)]);
    assert_eq!(canonicalize(&v).unwrap(), "{\"a\\\"\":null,\"z\":null,\"é\":null}");
}

#[test]
fn permuted_entries_give_the_same_text() {
    let a = obj(vec![("x", num(1.0, "1")), ("y", text("v")), ("w", JsonValue::Null)]);
    let b = obj(vec![("w", JsonValue::Null), ("x", num(1.0, "1")), ("y", text("v"))]);
    assert_eq!(canonicalize(&a).unwrap(), canonicalize(&b).unwrap());
}

#[test]
fn empty_containers() {
    assert_eq!(canonicalize(&JsonValue::Array(vec![])).unwrap(), "[]");
    assert_eq!(canonicalize(&obj(vec![])).unwrap(), "{}");
}

#[test]
fn numbers_keep_their_text() {
    assert_eq!(canonicalize(&num(1.5, "1.5")).unwrap(), "1.5");
    assert_eq!(canonicalize(&num(-0.25, "-0.25")).unwrap(), "-0.25");
}

#[test]
fn canonical_hash_hashes_canonical_text() {
    let v = obj(vec![("b", num(2.0, "2")), ("a", num(1.0, "1"))]);
    assert_eq!(canonical_hash(&v).unwrap(), sha256_str(r#"{"a":1,"b":2}"#));
}

fn from_serde(v: &serde_json::Value) -> JsonValue {
    match v {
        serde_json::Value::Null => JsonValue::Null,
        serde_json::Value::Bool(b) => JsonValue::Bool(*b),
        serde_json::Value::Number(n) => JsonValue::Number(JsonNumber {
            bits: n.as_f64().unwrap().to_bits(),
            text: n.to_string(),
        }),
        serde_json::Value::String(s) => JsonValue::String(s.clone()),
        serde_json::Value::Array(items) => JsonValue::Array(items.iter().map(from_serde).collect()),
        serde_json::Value::Object(m) => {
            JsonValue::Object(m.iter().map(|(k, v)| (k.clone(), from_serde(v))).collect())
        }
    }
}

#[test]
fn reparsing_canonical_text_is_a_fixed_point() {
    let v = obj(vec![
        ("z", obj(vec![("b", num(2.0, "2")), ("a", text("x\r\ny\u{1}"))])),
        ("a", JsonValue::Array(vec![num(3.0, "3"), JsonValue::Null, JsonValue::Bool(true)])),
        ("m", num(1.5, "1.5")),
    ]);
    let first = canonicalize(&v).unwrap();
    let parsed: serde_json::Value = serde_json::from_str(&first).unwrap();
    let second = canonicalize(&from_serde(&parsed)).unwrap();
    assert_eq!(first, second);
}
