use quotefeed::json::{json_to_string, parse_json, JsonValue};

fn jstr(s: &str) -> JsonValue {
    JsonValue::of_str(s)
}

fn chars(s: &str) -> Vec<char> {
    s.chars().collect()
}

#[test]
fn parses_scalars() {
    assert!(matches!(parse_json("null"), Some(JsonValue::Null)));
    assert!(matches!(parse_json("true"), Some(JsonValue::Bool(true))));
    assert!(matches!(parse_json("false"), Some(JsonValue::Bool(false))));
    assert!(matches!(parse_json("42"), Some(JsonValue::Int(42))));
    assert!(matches!(parse_json("-7"), Some(JsonValue::Int(-7))));
}

#[test]
fn parses_structures_with_whitespace() {
    let doc = parse_json(" { \"a\" : [ 1 , true , null , \"x\" ] } ").unwrap();
    let arr = doc.get(&chars("a")).unwrap();
    match arr {
        JsonValue::Arr(items) => {
            assert_eq!(items.len(), 4);
            assert!(matches!(items[0], JsonValue::Int(1)));
            assert!(matches!(items[1], JsonValue::Bool(true)));
            assert!(matches!(items[2], JsonValue::Null));
            assert_eq!(items[3].str_value().unwrap(), "x");
        },
        _ => panic!("expected an array"),
    }
}

#[test]
fn rejects_malformed_documents() {
    assert!(parse_json("").is_none());
    assert!(parse_json("{").is_none());
    assert!(parse_json("[1,]").is_none());
    assert!(parse_json("{\"a\":}").is_none());
    assert!(parse_json("tru").is_none());
    assert!(parse_json("1 2").is_none());
    assert!(parse_json("1.5").is_none());
}

#[test]
fn integer_range_is_signed_64_bit() {
    assert!(matches!(
        parse_json("9223372036854775807"),
        Some(JsonValue::Int(i64::MAX))
    ));
    assert!(matches!(
        parse_json("-9223372036854775808"),
        Some(JsonValue::Int(i64::MIN))
    ));
    assert!(parse_json("9223372036854775808").is_none());
    assert!(parse_json("-9223372036854775809").is_none());
}

#[test]
fn string_escapes_round_trip() {
    let doc = parse_json("\"a\\\"b\\\\c\\n\\t\\u0041\"").unwrap();
    assert_eq!(doc.str_value().unwrap(), "a\"b\\c\n\tA");
    // control characters are written in their \u00XX form
    let back = json_to_string(&doc);
    assert_eq!(back, "\"a\\\"b\\\\c\\u000a\\u0009A\"");
    let reparsed = parse_json(&back).unwrap();
    assert_eq!(reparsed.str_value().unwrap(), "a\"b\\c\n\tA");
}

#[test]
fn rejects_raw_control_characters_in_strings() {
    assert!(parse_json("\"a\nb\"").is_none());
}

#[test]
fn writer_is_canonical() {
    let doc = JsonValue::Obj(vec![
        (chars("name"), jstr("AAPL")),
        (chars("live"), JsonValue::Bool(true)),
        (chars("count"), JsonValue::Int(-3)),
        (chars("tags"), JsonValue::Arr(vec![jstr("a"), jstr("b")])),
    ]);
    assert_eq!(
        json_to_string(&doc),
        "{\"name\":\"AAPL\",\"live\":true,\"count\":-3,\"tags\":[\"a\",\"b\"]}"
    );
}

#[test]
fn writer_agrees_with_serde() {
    let doc = JsonValue::Obj(vec![
        (chars("s"), jstr("x\"y")),
        (chars("n"), JsonValue::Int(12)),
        (chars("b"), JsonValue::Bool(false)),
    ]);
    let text = json_to_string(&doc);
    let v: serde_json::Value = serde_json::from_str(&text).unwrap();
    assert_eq!(v["s"], serde_json::Value::String("x\"y".to_string()));
    assert_eq!(v["n"], serde_json::Value::from(12));
    assert_eq!(v["b"], serde_json::Value::Bool(false));
}

#[test]
fn object_lookup_takes_first_match() {
    let doc = parse_json("{\"k\":1,\"k\":2}").unwrap();
    let v = doc.get(&chars("k")).unwrap();
    assert!(matches!(v, JsonValue::Int(1)));
    assert!(doc.get(&chars("missing")).is_none());
}
