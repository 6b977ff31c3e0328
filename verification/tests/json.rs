use serde_json::Value;
use vpm_shop::codec::{decode, encode, parse, parse_bytes, pretty};
use vpm_shop::json::Json;

fn value(text: &str) -> Value {
    serde_json::from_str(text).unwrap()
}

#[test]
fn values_go_both_ways() {
    let texts = [
        "null",
        "true",
        "[1, -2, 2.5, \"x\", [], {}]",
        "{\"a\": {\"b\": [null, {\"c\": 18446744073709551615}]}, \"d\": -9223372036854775808}",
        "1e300",
    ];
    for text in texts {
        assert_eq!(encode(parse(text).unwrap()), value(text));
        assert_eq!(encode(decode(value(text))), value(text));
        assert_eq!(encode(parse_bytes(text.as_bytes()).unwrap()), value(text));
        assert_eq!(encode(parse(text).unwrap().clone()), value(text));
    }
}

#[test]
fn numbers_are_what_they_stand_for() {
    let five = Json::Float(serde_json::Number::from(5u64));
    assert_eq!(encode(five.clone()), value("5"));
    assert!(matches!(decode(encode(five)), Json::Unsigned(5)));
    let below = Json::Float(serde_json::Number::from(-5i64));
    assert!(matches!(decode(encode(below)), Json::Signed(-5)));
    let half = Json::Float(serde_json::Number::from_f64(0.5).unwrap());
    assert!(matches!(decode(encode(half)), Json::Float(n) if n.as_f64() == Some(0.5)));
}

#[test]
fn objects_with_the_key_of_raw_text_are_not_read_back() {
    let raw = "$serde_json::private::RawValue";
    let holding = |text: &str| Json::Object(vec![(raw.to_string(), Json::of_text(text))]);
    let one = pretty(holding("1"));
    assert!(matches!(parse(&one), Ok(Json::Unsigned(1))));
    assert!(matches!(parse_bytes(one.as_bytes()), Ok(Json::Unsigned(1))));
    let version = pretty(holding("1.0.0"));
    assert!(parse(&version).is_err());
    assert!(parse_bytes(version.as_bytes()).is_err());
    let inside = pretty(Json::Array(vec![holding("[2]")]));
    assert_eq!(encode(parse(&inside).unwrap()), value("[[2]]"));
    let other = Json::Object(vec![("$raw".to_string(), Json::of_text("1"))]);
    assert_eq!(encode(parse(&pretty(other)).unwrap()), value("{\"$raw\": \"1\"}"));
}

#[test]
fn bad_text_is_refused_with_a_message() {
    assert_eq!(parse("{").unwrap_err(), "EOF while parsing an object at line 1 column 1");
    assert_eq!(parse_bytes(b"nul").unwrap_err(), "EOF while parsing a value at line 1 column 3");
}

#[test]
fn the_later_of_two_members_counts() {
    let j = Json::Object(vec![
        ("a".to_string(), Json::Unsigned(1)),
        ("b".to_string(), Json::Bool(true)),
        ("a".to_string(), Json::Unsigned(2)),
    ]);
    assert_eq!(encode(j), value("{\"a\": 2, \"b\": true}"));
    assert_eq!(encode(parse("{\"a\": 1, \"a\": 2}").unwrap()), value("{\"a\": 2}"));
}

#[test]
fn members_are_read_and_changed() {
    let mut j = parse("{\"a\": {\"t\": \"x\"}, \"b\": [1], \"c\": []}").unwrap();
    assert_eq!(j.get("a").unwrap().text_at("t"), Some("x"));
    assert!(j.get("z").is_none());
    assert!(Json::Null.get("a").is_none());
    assert!(j.has("b"));
    assert!(j.get("b").unwrap().is_array());
    assert!(j.get("b").unwrap().has_items());
    assert!(!j.get("c").unwrap().has_items());
    assert!(j.get("a").unwrap().as_str().is_none());
    let mut keys = j.keys();
    keys.sort();
    assert_eq!(keys, vec!["a", "b", "c"]);
    j.set("b", Json::of_text("new"));
    assert_eq!(encode(j.take("a").unwrap()), value("{\"t\": \"x\"}"));
    assert!(j.take("a").is_none());
    assert_eq!(encode(j), value("{\"b\": \"new\", \"c\": []}"));
}

#[test]
fn a_null_becomes_an_object() {
    let mut j = Json::Null;
    assert!(j.is_assignable());
    assert!(!Json::Bool(true).is_assignable());
    j.set("a", Json::Signed(-1));
    assert!(j.is_object());
    assert_eq!(encode(j), value("{\"a\": -1}"));
}

#[test]
fn written_values_are_read_back() {
    let text = "{\"b\": [1, {\"c\": \"\\u00e9\\n\\\"\"}], \"a\": null}";
    let written = pretty(parse(text).unwrap());
    assert_eq!(
        written,
        "{\n  \"a\": null,\n  \"b\": [\n    1,\n    {\n      \"c\": \"é\\n\\\"\"\n    }\n  ]\n}"
    );
    assert_eq!(encode(parse(&written).unwrap()), value(text));
}

#[test]
fn values_as_deep_as_allowed_are_read_back() {
    let deep = format!("{}{}", "[".repeat(127), "]".repeat(127));
    let written = pretty(parse(&deep).unwrap());
    assert_eq!(encode(parse(&written).unwrap()), value(&deep));
    let deeper = format!("{}{}", "[".repeat(128), "]".repeat(128));
    assert!(parse(&deeper).is_err());
}
