use serde_json::Value;
use sshctx::json::Json;
use sshctx::string_map::StringMap;

fn sample() -> Json {
    let mut inner = StringMap::new();
    inner.insert("b".to_string(), Json::Array(vec![Json::Null, Json::Bool(true), Json::Negative(-3)]));
    inner.insert("a".to_string(), Json::Unsigned(u64::MAX));
    inner.insert("f".to_string(), Json::Float("0.1".to_string()));
    inner.insert("t".to_string(), Json::Text("line\nbreak \"q\"".to_string()));
    Json::Object(inner)
}

#[test]
fn values_print_as_serde_json_prints_them() {
    assert_eq!(
        sample().to_compact().unwrap(),
        "{\"a\":18446744073709551615,\"b\":[null,true,-3],\"f\":0.1,\"t\":\"line\\nbreak \\\"q\\\"\"}"
    );
    assert_eq!(
        Json::Array(vec![Json::Unsigned(1), Json::Object(StringMap::new())]).to_pretty().unwrap(),
        "[\n  1,\n  {}\n]"
    );
}

#[test]
fn values_pass_both_ways() {
    let text = "{\"z\":1.5e300,\"a\":[-9223372036854775808,0,{}],\"m\":\"\\u00e9\",\"n\":null,\"o\":false}";
    let value: Value = serde_json::from_str(text).unwrap();
    let json = Json::from_value(value.clone());
    assert_eq!(json.to_value().unwrap(), value);
    assert_eq!(json.to_compact().unwrap(), serde_json::to_string(&value).unwrap());
    assert_eq!(json.to_pretty().unwrap(), serde_json::to_string_pretty(&value).unwrap());
    assert_eq!(json.clone(), json);
}

#[test]
fn fractions_keep_their_value() {
    for text in ["0.1", "1e-7", "123456789.125", "1.7976931348623157e308", "-0.0", "5e-324", "1e21"] {
        let value: Value = serde_json::from_str(text).unwrap();
        let json = Json::from_value(value.clone());
        assert!(matches!(json, Json::Float(_)));
        assert_eq!(json.to_value().unwrap(), value);
    }
}

#[test]
fn a_fraction_that_is_none_is_not_printed() {
    let json = Json::Array(vec![Json::Float("no number".to_string())]);
    assert_eq!(json.to_compact(), None);
    assert_eq!(json.to_pretty(), None);
    assert!(json.to_value().is_none());
}

#[test]
fn integers_are_told_apart() {
    let value: Value = serde_json::from_str("[18446744073709551615,-1,3]").unwrap();
    assert_eq!(
        Json::from_value(value),
        Json::Array(vec![Json::Unsigned(u64::MAX), Json::Negative(-1), Json::Unsigned(3)])
    );
    assert_eq!(Json::Negative(3).to_value().unwrap(), Value::from(3u64));
    assert_eq!(Json::Negative(3).as_u64(), Some(3));
}

#[test]
fn members_are_found() {
    let json = sample();
    assert_eq!(json.get("a").and_then(|v| v.as_u64()), Some(u64::MAX));
    assert_eq!(json.get("b").and_then(|v| v.as_array()).map(|v| v.len()), Some(3));
    assert_eq!(json.get("t").and_then(|v| v.as_str()).map(|s| s.len()), Some(14));
    assert!(json.get("missing").is_none());
    assert!(Json::Null.get("a").is_none());
    assert_eq!(json.as_object().map(|m| m.len()), Some(4));
    assert_eq!(Json::Bool(true).as_bool(), Some(true));
}

#[test]
fn maps_keep_their_keys_in_order() {
    let mut map: StringMap<u32> = StringMap::new();
    for key in ["b", "a", "ab", "", "é", "z", "\u{10000}", "\u{ffff}"] {
        assert_eq!(map.insert(key.to_string(), key.len() as u32), None);
    }
    assert_eq!(map.insert("a".to_string(), 9), Some(1));
    let mut sorted: std::collections::BTreeMap<String, u32> = std::collections::BTreeMap::new();
    for i in 0..map.len() {
        sorted.insert(map.key_at(i).clone(), *map.value_at(i));
    }
    assert_eq!(map.get("a"), Some(&9));
    assert_eq!(map.remove("b"), Some(1));
    assert_eq!(map.remove("b"), None);
    assert_eq!(map.get("b"), None);
    sorted.remove("b");
    let expected: Vec<(String, u32)> = sorted.into_iter().collect();
    assert_eq!(map.into_entries(), expected);
}
