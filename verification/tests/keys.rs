use stream_converter::digest::{fingerprint, leading_number};
use stream_converter::interop::{from_text, to_text};
use stream_converter::json::{JsonValue, Object};
use stream_converter::key::compute_cache_key;

fn text(s: &str) -> JsonValue {
    JsonValue::Str(s.to_string())
}

fn num(n: u64) -> JsonValue {
    JsonValue::Number(serde_json::Number::from(n))
}

fn array(items: Vec<JsonValue>) -> JsonValue {
    JsonValue::Array(items)
}

fn object(fields: Vec<(&str, JsonValue)>) -> JsonValue {
    JsonValue::Object(Object {
        entries: fields.into_iter().map(|(k, v)| (k.to_string(), v)).collect(),
    })
}

fn float(x: f64) -> JsonValue {
    JsonValue::Number(serde_json::Number::from_f64(x).unwrap())
}

fn hi(content: &str) -> JsonValue {
    array(vec![object(vec![("role", text("user")), ("content", text(content))])])
}

#[test]
fn test_same_payload_same_key() {
    let a = object(vec![
        ("model", text("deepseek-v4-flash")),
        ("messages", hi("hi")),
        ("temperature", float(0.7)),
        ("user", text("u1")),
    ]);
    let b = object(vec![
        ("user", text("u1")),
        ("messages", hi("hi")),
        ("temperature", float(0.7)),
        ("model", text("deepseek-v4-flash")),
    ]);
    assert_eq!(compute_cache_key(&a), compute_cache_key(&b));
}

#[test]
fn test_user_field_excluded() {
    let a = object(vec![("model", text("m")), ("messages", hi("hi")), ("user", text("u1"))]);
    let b = object(vec![("model", text("m")), ("messages", hi("hi")), ("user", text("u2"))]);
    assert_eq!(compute_cache_key(&a), compute_cache_key(&b));
}

#[test]
fn test_temperature_changes_key() {
    let a = object(vec![
        ("model", text("m")),
        ("messages", hi("hi")),
        ("temperature", float(0.7)),
    ]);
    let b = object(vec![
        ("model", text("m")),
        ("messages", hi("hi")),
        ("temperature", float(0.9)),
    ]);
    assert_ne!(compute_cache_key(&a), compute_cache_key(&b));
}

#[test]
fn test_messages_change_key() {
    let a = object(vec![("model", text("m")), ("messages", hi("hi"))]);
    let b = object(vec![("model", text("m")), ("messages", hi("hello"))]);
    assert_ne!(compute_cache_key(&a), compute_cache_key(&b));
}

#[test]
fn test_missing_model_returns_none() {
    let a = object(vec![("messages", hi("hi"))]);
    assert_eq!(compute_cache_key(&a), None);
}

#[test]
fn test_empty_messages_returns_none() {
    let a = object(vec![("model", text("m")), ("messages", array(vec![]))]);
    assert_eq!(compute_cache_key(&a), None);
}

#[test]
fn key_is_hash_of_sorted_text() {
    let a = object(vec![("model", text("m")), ("messages", hi("hi")), ("stream", JsonValue::Bool(false))]);
    let expected = r#"{"messages":[{"content":"hi","role":"user"}],"model":"m"}"#;
    assert_eq!(compute_cache_key(&a), Some(fingerprint(expected)));
}

#[test]
fn fingerprint_of_nothing() {
    assert_eq!(fingerprint(""), 0xa6a1_f9f5_b949_13af);
}

#[test]
fn leading_number_is_little_endian() {
    let mut bytes = [0u8; 32];
    for i in 0..32 {
        bytes[i] = (i + 1) as u8;
    }
    assert_eq!(leading_number(&bytes), 0x0807_0605_0403_0201);
}

#[test]
fn key_ignores_unset_fields() {
    let plain = object(vec![("model", text("m")), ("messages", hi("hi"))]);
    let padded = object(vec![
        ("model", text("m")),
        ("messages", hi("hi")),
        ("tools", array(vec![])),
        ("seed", JsonValue::Null),
        ("stream", JsonValue::Bool(true)),
        ("unheard_of", num(1)),
    ]);
    assert_eq!(compute_cache_key(&plain), compute_cache_key(&padded));
    assert!(compute_cache_key(&plain).is_some());
}

#[test]
fn every_key_field_counts() {
    let plain = object(vec![("model", text("m")), ("messages", hi("hi"))]);
    for name in [
        "temperature", "top_p", "frequency_penalty", "presence_penalty", "seed", "stop", "tools",
        "tool_choice", "parallel_tool_calls", "response_format", "logit_bias", "max_tokens",
        "max_completion_tokens", "logprobs", "n", "stream_options",
    ] {
        let with = object(vec![("model", text("m")), ("messages", hi("hi")), (name, num(7))]);
        assert_ne!(compute_cache_key(&plain), compute_cache_key(&with), "{}", name);
    }
}

#[test]
fn no_key_for_other_values() {
    assert_eq!(compute_cache_key(&JsonValue::Null), None);
    assert_eq!(compute_cache_key(&array(vec![])), None);
    assert_eq!(
        compute_cache_key(&object(vec![("model", JsonValue::Null), ("messages", hi("hi"))])),
        None
    );
    assert!(compute_cache_key(&object(vec![("model", num(3)), ("messages", text("x"))])).is_some());
}

#[test]
fn text_round_trip() {
    let source = r#" {"b": [1, -2, 0.5, "x\n", null, true], "a": {}, "b2": "\u4f60"} "#;
    let value = from_text(source).unwrap();
    assert_eq!(to_text(&value), "{\"a\":{},\"b\":[1,-2,0.5,\"x\\n\",null,true],\"b2\":\"你\"}");
    assert_eq!(from_text(&to_text(&value)), Some(value));
    assert!(from_text("{").is_none());
    assert!(from_text("").is_none());
}

#[test]
fn later_duplicate_wins() {
    let value = from_text(r#"{"a":1,"a":2}"#).unwrap();
    assert_eq!(to_text(&value), r#"{"a":2}"#);
    let doubled = object(vec![("a", num(1)), ("b", num(0)), ("a", num(2))]);
    assert_eq!(to_text(&doubled), r#"{"a":2,"b":0}"#);
    assert_eq!(doubled.get("a"), Some(&num(2)));
}

#[test]
fn object_operations() {
    let mut o = Object::new();
    assert!(o.get("a").is_none());
    o.insert("a", num(1));
    o.insert("b", num(2));
    o.insert("a", num(3));
    assert_eq!(o.get("a"), Some(&num(3)));
    assert_eq!(o.remove("a"), Some(num(3)));
    assert!(o.get("a").is_none());
    assert_eq!(o.remove("a"), None);
    assert_eq!(o.get("b"), Some(&num(2)));
}

#[test]
fn negative_numbers_are_told_apart() {
    let mut seen = vec![];
    for bias in ["-100", "-99", "100", "0", "-1"] {
        let request = from_text(&format!(
            "{{\"model\":\"m\",\"messages\":\"x\",\"logit_bias\":{{\"50256\":{}}}}}",
            bias
        ));
        let key = compute_cache_key(&request.unwrap());
        assert!(key.is_some() && !seen.contains(&key));
        seen.push(key);
    }
}
